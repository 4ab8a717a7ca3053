use vstd::prelude::*;
use crate::schema::{Field, FieldV, Record, Schema, Type, TypeV, fields_view, lemma_fields_view_index};
use crate::text::{dec_str, u32_to_string};

verus! {

// ------------------------------------------------------------------
// Rendering a schema for a reader: a record per line block, four spaces
// of indent per level, and `...` past the depth limit.
// ------------------------------------------------------------------

/// Four spaces of indent per level.
pub open spec fn indent_sp(n: int) -> Seq<char>
    decreases n,
{
    if n <= 0 {
        Seq::<char>::empty()
    } else {
        indent_sp(n - 1) + seq![' ', ' ', ' ', ' ']
    }
}

/// The rendering of one type at `depth`: past `max_depth` it is `...`; a
/// record opens a block; a list wraps its element; a primitive is its
/// name.
pub open spec fn spec_pp_type(tv: TypeV, depth: int, max_depth: int) -> Seq<char>
    decreases tv, 2int,
{
    if depth >= max_depth {
        "..."@
    } else {
        match tv {
            TypeV::Record(fs) => spec_pp_record(fs, depth, max_depth),
            TypeV::List(fs) => if fs.len() == 1 {
                "["@ + " <"@ + fs[0].name + "> : "@ + spec_pp_type(fs[0].ty, depth, max_depth)
                    + "]"@
            } else {
                Seq::<char>::empty()
            },
            TypeV::Int32 => "Int32"@,
            TypeV::UInt32 => "UInt32"@,
            TypeV::Float64 => "Float64"@,
            TypeV::Utf8 => "Utf8"@,
            TypeV::Bool => "Bool"@,
            TypeV::Language(id) => "Language("@ + dec_str(id as int) + ")"@,
        }
    }
}

/// The rendering of a record's fields, one line each, each line starting
/// on a new line with one more level of indent.
pub open spec fn spec_pp_fields(fs: Seq<FieldV>, depth: int, max_depth: int) -> Seq<char>
    decreases fs, 0int,
{
    if fs.len() == 0 {
        Seq::<char>::empty()
    } else {
        spec_pp_fields(fs.drop_last(), depth, max_depth) + seq!['\n'] + indent_sp(depth + 1)
            + fs.last().name + ": "@ + spec_pp_type(fs.last().ty, depth + 1, max_depth)
    }
}

/// The rendering of a record: `{`, its field lines, and a closing `}` on
/// its own indented line.
pub open spec fn spec_pp_record(fs: Seq<FieldV>, depth: int, max_depth: int) -> Seq<char>
    decreases fs, 1int,
{
    "{"@ + spec_pp_fields(fs, depth, max_depth) + seq!['\n'] + indent_sp(depth) + "}"@
}

proof fn lemma_pp_fields_take_step(fs: Seq<FieldV>, depth: int, max_depth: int, i: int)
    requires
        0 <= i < fs.len(),
    ensures
        spec_pp_fields(fs.take(i + 1), depth, max_depth) == spec_pp_fields(
            fs.take(i),
            depth,
            max_depth,
        ) + seq!['\n'] + indent_sp(depth + 1) + fs[i].name + ": "@ + spec_pp_type(
            fs[i].ty,
            depth + 1,
            max_depth,
        ),
{
    let p = fs.take(i + 1);
    assert(p.drop_last() =~= fs.take(i));
    assert(p.last() == fs[i]);
}

fn indent(levels: usize) -> (r: String)
    ensures
        r@ == indent_sp(levels as int),
{
    let mut out = String::new();
    let mut i: usize = 0;
    proof {
        reveal_strlit("    ");
        assert("    "@ =~= seq![' ', ' ', ' ', ' ']);
    }
    while i < levels
        invariant
            i <= levels,
            out@ == indent_sp(i as int),
            "    "@ =~= seq![' ', ' ', ' ', ' '],
        decreases levels - i,
    {
        out.append("    ");
        i = i + 1;
    }
    out
}

/// Renders one type at `depth`, eliding levels past `max_depth`.
pub fn pretty_print_type(ty: &Type, depth: usize, max_depth: usize) -> (r: String)
    ensures
        r@ == spec_pp_type(ty@, depth as int, max_depth as int),
    decreases *ty, 2int,
{
    if depth >= max_depth {
        return String::from_str("...");
    }
    match ty {
        Type::Record(rec) => pretty_print_record(rec, depth, max_depth),
        Type::List(field) => {
            let mut out = String::from_str("[");
            out.append(" <");
            out.append(field.name.as_str());
            out.append("> : ");
            let inner = pretty_print_type(&field.ty, depth, max_depth);
            out.append(inner.as_str());
            out.append("]");
            proof {
                lemma_fields_view_index(seq![]);
                assert(ty@->List_0 =~= seq![crate::schema::field_view(*ty->List_0)]);
            }
            out
        },
        Type::Int32 => String::from_str("Int32"),
        Type::UInt32 => String::from_str("UInt32"),
        Type::Float64 => String::from_str("Float64"),
        Type::Utf8 => String::from_str("Utf8"),
        Type::Bool => String::from_str("Bool"),
        Type::Language(id) => {
            let mut out = String::from_str("Language(");
            let ds = u32_to_string(*id);
            out.append(ds.as_str());
            out.append(")");
            out
        },
    }
}

/// Renders a record as an indented block.
pub fn pretty_print_record(record: &Record, depth: usize, max_depth: usize) -> (r: String)
    requires
        depth < usize::MAX,
    ensures
        r@ == spec_pp_record(record@, depth as int, max_depth as int),
    decreases *record, 1int,
{
    let ghost fsv = fields_view(record.fields@);
    proof {
        lemma_fields_view_index(record.fields@);
        assert(fsv.take(0) =~= Seq::<FieldV>::empty());
    }
    let mut out = String::from_str("{");
    let ghost open_brace = out@;
    let n = record.fields.len();
    let mut i: usize = 0;
    while i < n
        invariant
            n == record.fields@.len(),
            depth < usize::MAX,
            fsv == fields_view(record.fields@),
            fsv.len() == n,
            forall|k: int|
                0 <= k < n ==> fsv[k] == crate::schema::field_view(record.fields@[k]),
            i <= n,
            open_brace == "{"@,
            out@ == open_brace + spec_pp_fields(fsv.take(i as int), depth as int, max_depth as int),
        decreases n - i,
    {
        proof {
            lemma_pp_fields_take_step(fsv, depth as int, max_depth as int, i as int);
            reveal_strlit("\n");
            assert("\n"@ =~= seq!['\n']);
        }
        let f = &record.fields[i];
        out.append("\n");
        let ind = indent(depth + 1);
        out.append(ind.as_str());
        out.append(f.name.as_str());
        out.append(": ");
        let tys = pretty_print_type(&f.ty, depth + 1, max_depth);
        out.append(tys.as_str());
        i = i + 1;
    }
    proof {
        assert(fsv.take(n as int) =~= fsv);
        reveal_strlit("\n");
        assert("\n"@ =~= seq!['\n']);
    }
    out.append("\n");
    let ind = indent(depth);
    out.append(ind.as_str());
    out.append("}");
    out
}

/// Renders a whole schema without a depth limit.
pub fn pretty_print(schema: &Schema) -> (r: String)
    ensures
        r@ == spec_pp_record(schema@, 0, usize::MAX as int),
{
    pretty_print_record(&schema.record, 0, usize::MAX)
}

/// Renders a whole schema, eliding levels past `max_depth`.
pub fn pretty_print_max_depth(schema: &Schema, max_depth: usize) -> (r: String)
    ensures
        r@ == spec_pp_record(schema@, 0, max_depth as int),
{
    pretty_print_record(&schema.record, 0, max_depth)
}

} // verus!

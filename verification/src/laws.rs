use vstd::prelude::*;
use crate::columns::{
    lemma_doc_fold_characterization, lemma_record_slots_characterization, lemma_row_fold_no_assoc,
    spec_assoc_items, spec_cell, spec_decode_doc, spec_record_slots, spec_row,
    unique_field_names, unslot, CellV, ListV,
};
use crate::error::ErrorKind;
use crate::flat::{DataType, FieldF, Schema3V, spec_parse_schema3_bytes};
use crate::json::{
    lemma_record_entries_ok, lemma_spec_rows_ok, spec_data_jsonl, spec_node_json,
    spec_record_entries, JsonV,
};
use crate::prim::spec_prim_bool;
use crate::schema::{spec_parse_schema, FieldV, TypeV};
use crate::text::{is_float_word, trimmed};
use crate::xml::{index_named, spec_parse_document, XmlElem};

verus! {

// ------------------------------------------------------------------
// The laws the library states of itself, beyond the decode contracts.
// ------------------------------------------------------------------

/// The empty-list law: a list-valued field with zero matching child
/// elements decodes to an empty list, never to null — for a list field of
/// the value-tree pathway, for a multilingual cell, and for an
/// association's record list.
pub proof fn lemma_empty_list(f: FieldV, fields: Seq<FieldF>, e: XmlElem)
    requires
        e.children@.len() == 0,
    ensures
        spec_node_json(TypeV::List(seq![f]), e) == Ok::<JsonV, ErrorKind>(
            JsonV::Array(Seq::<JsonV>::empty()),
        ),
        spec_node_json(TypeV::Language(0), e) == Ok::<JsonV, ErrorKind>(
            JsonV::Array(Seq::<JsonV>::empty()),
        ),
        spec_cell(DataType::MultilingualUtf8, e) == Ok::<CellV, ErrorKind>(
            CellV::LangList(Seq::empty()),
        ),
        spec_assoc_items(fields, e.children@) == Ok::<ListV, ErrorKind>(Seq::empty()),
{
}

/// The boolean law: text `1` decodes to true and `0` to false, absent or
/// all-whitespace text decodes to null, and any other text is a parse
/// error.
pub proof fn lemma_boolean_law(t: Option<Seq<char>>)
    ensures
        t is None ==> spec_prim_bool(t) == Ok::<Option<bool>, ErrorKind>(None),
        t matches Some(s) && trimmed(s).len() == 0 ==> spec_prim_bool(t) == Ok::<
            Option<bool>,
            ErrorKind,
        >(None),
        t matches Some(s) && trimmed(s) == seq!['1'] ==> spec_prim_bool(t) == Ok::<
            Option<bool>,
            ErrorKind,
        >(Some(true)),
        t matches Some(s) && trimmed(s) == seq!['0'] ==> spec_prim_bool(t) == Ok::<
            Option<bool>,
            ErrorKind,
        >(Some(false)),
        t matches Some(s) && trimmed(s).len() > 0 && trimmed(s) != seq!['1'] && trimmed(s)
            != seq!['0'] ==> spec_prim_bool(t) == Err::<Option<bool>, ErrorKind>(ErrorKind::Parse),
{
    if t matches Some(s) && trimmed(s) == seq!['0'] {
        let m = trimmed(t->0);
        if m =~= seq!['1'] {
            assert(m[0] == '1');
            assert(false);
        }
    }
}

/// Inference is idempotent: byte-identical sample documents infer
/// structurally equal schemas, on the flat pathway and on the nested one.
pub proof fn lemma_inference_idempotent(b1: Seq<u8>, b2: Seq<u8>)
    requires
        b1 == b2,
    ensures
        spec_parse_schema3_bytes(b1) == spec_parse_schema3_bytes(b2),
        match (spec_parse_document(b1), spec_parse_document(b2)) {
            (Some(r1), Some(r2)) => spec_parse_schema(r1) == spec_parse_schema(r2),
            (None, None) => true,
            _ => false,
        },
{
}

/// The scalar cells the two pathways may both hold, and the value-tree
/// form of each.
pub open spec fn scalar_json_of_cell(c: CellV) -> Option<JsonV> {
    match c {
        CellV::Null => Some(JsonV::Null),
        CellV::Int32(v) => Some(JsonV::Int(v)),
        CellV::UInt32(v) => Some(JsonV::UInt(v)),
        CellV::Float64(m) => Some(JsonV::Float(m)),
        CellV::Utf8(s) => Some(JsonV::Str(s)),
        CellV::Boolean(b) => Some(JsonV::Bool(b)),
        _ => None,
    }
}

/// Which nested scalar type a flat column type corresponds to.
pub open spec fn scalar_corresponds(t: TypeV, dt: DataType) -> bool {
    match (t, dt) {
        (TypeV::Int32, DataType::Int32) => true,
        (TypeV::UInt32, DataType::UInt32) => true,
        (TypeV::Float64, DataType::Float64) => true,
        (TypeV::Utf8, DataType::Utf8) => true,
        (TypeV::Bool, DataType::Boolean) => true,
        _ => false,
    }
}

/// Cross-representation equivalence for scalars: where the value-tree
/// pathway and the columnar pathway both accept a field element of
/// corresponding scalar type, they produce the same value.
pub proof fn lemma_cross_representation(t: TypeV, dt: DataType, e: XmlElem)
    requires
        scalar_corresponds(t, dt),
    ensures
        (spec_node_json(t, e) is Ok && spec_cell(dt, e) is Ok) ==> scalar_json_of_cell(
            spec_cell(dt, e)->Ok_0,
        ) == Some(spec_node_json(t, e)->Ok_0),
{
    if spec_node_json(t, e) is Ok && spec_cell(dt, e) is Ok {
        let j = spec_node_json(t, e)->Ok_0;
        let c = spec_cell(dt, e)->Ok_0;
        match t {
            TypeV::Float64 => {
                // Both carry the same trimmed text; the value-tree pathway
                // additionally excludes the non-finite word forms, which
                // does not change an accepted value.
                assert(scalar_json_of_cell(c) == Some(j));
            },
            _ => {
                assert(scalar_json_of_cell(c) == Some(j));
            },
        }
    }
}

/// Cross-representation equivalence over one row: for declared fields of
/// corresponding scalar types, a field's columnar slot is filled exactly
/// when a child bears its name, and where the value-tree pathway also
/// accepts that child, the two values agree.
pub proof fn lemma_cross_representation_row(
    nested: Seq<FieldV>,
    flat: Seq<FieldF>,
    e: XmlElem,
)
    requires
        nested.len() == flat.len(),
        forall|j: int|
            0 <= j < flat.len() ==> (#[trigger] nested[j]).name == (#[trigger] flat[j]).name
                && scalar_corresponds(nested[j].ty, flat[j].dt),
        crate::columns::unique_field_names(flat),
    ensures
        crate::columns::spec_record_slots(flat, e.children@) matches Ok(slots) ==> forall|j: int|
            0 <= j < flat.len() ==> ({
                let idx = crate::xml::index_named(e.children@, flat[j].name);
                &&& ((#[trigger] slots[j]) is Some <==> idx >= 0)
                &&& (idx >= 0 && spec_node_json(nested[j].ty, e.children@[idx]) is Ok
                    ==> scalar_json_of_cell(slots[j]->0) == Some(
                    spec_node_json(nested[j].ty, e.children@[idx])->Ok_0,
                ))
            }),
{
    crate::columns::lemma_record_slots_characterization(flat, e.children@);
    if crate::columns::spec_record_slots(flat, e.children@) is Ok {
        let slots = crate::columns::spec_record_slots(flat, e.children@)->Ok_0;
        assert forall|j: int| 0 <= j < flat.len() implies ({
            let idx = crate::xml::index_named(e.children@, flat[j].name);
            &&& ((#[trigger] slots[j]) is Some <==> idx >= 0)
            &&& (idx >= 0 && spec_node_json(nested[j].ty, e.children@[idx]) is Ok
                ==> scalar_json_of_cell(slots[j]->0) == Some(
                spec_node_json(nested[j].ty, e.children@[idx])->Ok_0,
            ))
        }) by {
            let idx = crate::xml::index_named(e.children@, flat[j].name);
            if idx >= 0 {
                lemma_cross_representation(nested[j].ty, flat[j].dt, e.children@[idx]);
            }
        }
    }
}

/// The value of one declared field in one row of the value tree: the
/// decoded value of the child bearing the field's name, or null where no
/// child does.  This is what the row's object holds for the field: by the
/// record decode's definition, an entry exists exactly for the fields
/// with a matching child, holding that child's decoded value.
pub open spec fn row_field_value(fields: Seq<FieldV>, row: XmlElem, j: int) -> JsonV {
    let idx = index_named(row.children@, fields[j].name);
    if idx < 0 {
        JsonV::Null
    } else {
        spec_node_json(fields[j].ty, row.children@[idx])->Ok_0
    }
}

/// Cross-representation equivalence over a whole document: for schemas of
/// corresponding scalar fields, where the columnar pathway and the
/// value-tree pathway both accept a data document, every cell of the
/// decoded batch agrees with the corresponding field value of the decoded
/// row — null exactly where the row holds no value.
pub proof fn lemma_cross_representation_document(
    nested: Seq<FieldV>,
    sv: Schema3V,
    root: XmlElem,
)
    requires
        sv.associations.len() == 0,
        nested.len() == sv.fields.len(),
        forall|j: int|
            0 <= j < sv.fields.len() ==> (#[trigger] nested[j]).name == (#[trigger] sv.fields[j]).name
                && scalar_corresponds(nested[j].ty, sv.fields[j].dt),
        unique_field_names(sv.fields),
    ensures
        spec_decode_doc(sv, root) matches Ok(b) ==> spec_data_jsonl(
            crate::schema::TypeV::Record(nested),
            root,
        ) is Ok ==> forall|i: int, j: int|
            0 <= i < root.children@[0].children@.len() && 0 <= j < sv.fields.len()
                ==> scalar_json_of_cell(#[trigger] b.columns[j][i]) == Some(
                row_field_value(nested, root.children@[0].children@[i], j),
            ),
{
    let rowty = crate::schema::TypeV::Record(nested);
    if spec_decode_doc(sv, root) is Ok && spec_data_jsonl(rowty, root) is Ok {
        let cont = root.children@[0];
        let rows = cont.children@;
        let b = spec_decode_doc(sv, root)->Ok_0;
        lemma_doc_fold_characterization(sv, rows);
        lemma_spec_rows_ok(rowty, rows);
        assert forall|i: int, j: int|
            0 <= i < rows.len() && 0 <= j < sv.fields.len() implies scalar_json_of_cell(
            #[trigger] b.columns[j][i],
        ) == Some(row_field_value(nested, rows[i], j)) by {
            let row = rows[i];
            assert(spec_row(sv, row) is Ok);
            assert(b.columns[j][i] == spec_row(sv, row)->Ok_0.0[j]);
            lemma_row_fold_no_assoc(sv, row.children@);
            assert(spec_record_slots(sv.fields, row.children@) is Ok);
            lemma_record_slots_characterization(sv.fields, row.children@);
            let slots = spec_record_slots(sv.fields, row.children@)->Ok_0;
            let idx = index_named(row.children@, sv.fields[j].name);
            assert(spec_row(sv, row)->Ok_0.0 == unslot(slots));
            assert(slots[j] == (if idx >= 0 {
                Some(spec_cell(sv.fields[j].dt, row.children@[idx])->Ok_0)
            } else {
                None
            }));
            assert(spec_node_json(rowty, row) is Ok);
            assert(spec_record_entries(nested, row) is Ok);
            lemma_record_entries_ok(nested, row);
            assert(nested[j].name == sv.fields[j].name);
            if idx >= 0 {
                assert(spec_node_json(nested[j].ty, row.children@[idx]) is Ok);
                assert(spec_cell(sv.fields[j].dt, row.children@[idx]) is Ok);
                lemma_cross_representation(nested[j].ty, sv.fields[j].dt, row.children@[idx]);
            }
        }
    }
}

/// Whole-document null padding, stated over the document decode: every
/// declared column of a decoded batch has exactly one cell per row.
pub proof fn lemma_document_null_padding(sv: Schema3V, root: XmlElem)
    ensures
        spec_decode_doc(sv, root) matches Ok(b) ==> {
            &&& root.children@.len() > 0
            &&& b.columns.len() == sv.fields.len()
            &&& forall|j: int|
                0 <= j < b.columns.len() ==> (#[trigger] b.columns[j]).len()
                    == root.children@[0].children@.len()
            &&& b.present.len() == root.children@[0].children@.len()
            &&& forall|k: int|
                0 <= k < b.assoc_rows.len() ==> (#[trigger] b.assoc_rows[k]).len()
                    == root.children@[0].children@.len()
        },
{
    if root.children@.len() > 0 {
        crate::columns::lemma_null_padding(sv, root.children@[0].children@);
    }
}

} // verus!

use vstd::prelude::*;
use crate::error::{
    DecodeError, ErrorKind, extends_path, lemma_extends_path_push, lemma_extends_path_refl,
    lemma_extends_path_trans,
};
use crate::format::{Format, format_of_ident};
use crate::nav::Parser;
use crate::text::{parse_u32_text, str_eq, u32_text};
use crate::xml::{XmlElem, attr_lookup, same_named, unique_names};

verus! {

// ------------------------------------------------------------------
// The nested schema model: a tree of named, typed fields.
// ------------------------------------------------------------------

/// An ordered list of named fields.
#[derive(Debug, PartialEq)]
pub struct Record {
    pub fields: Vec<Field>,
}

/// A schema: one top-level record.
#[derive(Debug, PartialEq)]
pub struct Schema {
    pub record: Record,
}

/// A named field.
#[derive(Debug, PartialEq)]
pub struct Field {
    pub name: String,
    pub ty: Type,
}

/// The closed set of field types of the nested pathway.  `Language` is the
/// multilingual text type, carrying the language id seen in the sample.
#[derive(Debug, PartialEq)]
pub enum Type {
    Int32,
    UInt32,
    Float64,
    Utf8,
    Bool,
    Record(Record),
    List(Box<Field>),
    Language(u32),
}

// ------------------------------------------------------------------
// Mathematical views of the model.
// ------------------------------------------------------------------

/// The spec-level form of `Type`.  A `List` holds exactly one element
/// field.
pub enum TypeV {
    Int32,
    UInt32,
    Float64,
    Utf8,
    Bool,
    Record(Seq<FieldV>),
    List(Seq<FieldV>),
    Language(u32),
}

/// The spec-level form of `Field`.
pub struct FieldV {
    pub name: Seq<char>,
    pub ty: TypeV,
}

pub open spec fn type_view(t: Type) -> TypeV
    decreases t, 1int,
{
    match t {
        Type::Int32 => TypeV::Int32,
        Type::UInt32 => TypeV::UInt32,
        Type::Float64 => TypeV::Float64,
        Type::Utf8 => TypeV::Utf8,
        Type::Bool => TypeV::Bool,
        Type::Record(r) => TypeV::Record(fields_view(r.fields@)),
        Type::List(f) => TypeV::List(seq![field_view(*f)]),
        Type::Language(id) => TypeV::Language(id),
    }
}

pub open spec fn field_view(f: Field) -> FieldV
    decreases f, 1int,
{
    FieldV { name: f.name@, ty: type_view(f.ty) }
}

pub open spec fn fields_view(s: Seq<Field>) -> Seq<FieldV>
    decreases s, 0int,
{
    if s.len() == 0 {
        Seq::<FieldV>::empty()
    } else {
        fields_view(s.drop_last()).push(field_view(s.last()))
    }
}

/// `fields_view` maps the sequence pointwise.
pub proof fn lemma_fields_view_index(s: Seq<Field>)
    ensures
        fields_view(s).len() == s.len(),
        forall|i: int| 0 <= i < s.len() ==> fields_view(s)[i] == field_view(s[i]),
    decreases s.len(),
{
    if s.len() > 0 {
        lemma_fields_view_index(s.drop_last());
    }
}

impl View for Type {
    type V = TypeV;

    open spec fn view(&self) -> TypeV {
        type_view(*self)
    }
}

impl View for Field {
    type V = FieldV;

    open spec fn view(&self) -> FieldV {
        field_view(*self)
    }
}

impl View for Record {
    type V = Seq<FieldV>;

    open spec fn view(&self) -> Seq<FieldV> {
        fields_view(self.fields@)
    }
}

impl View for Schema {
    type V = Seq<FieldV>;

    open spec fn view(&self) -> Seq<FieldV> {
        fields_view(self.record.fields@)
    }
}

impl Schema {
    /// A schema as inference builds it: at least the container field.
    pub open spec fn wf(self) -> bool {
        self.record.fields@.len() > 0
    }
}

impl Field {
    pub fn new(name: String, ty: Type) -> (r: Field)
        ensures
            r.name == name,
            r.ty == ty,
    {
        Field { name, ty }
    }
}

// ------------------------------------------------------------------
// The name heuristic and the format table of the nested pathway.
// ------------------------------------------------------------------

/// A tag name starting or ending with `id`.
pub open spec fn name_is_id(n: Seq<char>) -> bool {
    n.len() >= 2 && ((n[0] == 'i' && n[1] == 'd') || (n[n.len() - 2] == 'i' && n[n.len() - 1]
        == 'd'))
}

fn name_is_id_x(s: &str) -> (r: bool)
    ensures
        r == name_is_id(s@),
{
    let n = s.unicode_len();
    if n < 2 {
        return false;
    }
    (s.get_char(0) == 'i' && s.get_char(1) == 'd') || (s.get_char(n - 2) == 'i' && s.get_char(
        n - 1,
    ) == 'd')
}

/// The primitive type a format resolves to in the nested pathway, or
/// `None` for an unsupported format.
pub open spec fn prim_from_format(f: Format) -> Option<TypeV> {
    match f {
        Format::IsBool => Some(TypeV::Bool),
        Format::IsUnsignedId => Some(TypeV::UInt32),
        Format::IsUnsignedInt => Some(TypeV::UInt32),
        Format::IsInt => Some(TypeV::Int32),
        Format::IsUnsignedFloat => Some(TypeV::Float64),
        Format::IsPrice => Some(TypeV::Float64),
        Format::IsEan13 => Some(TypeV::Utf8),
        Format::IsUpc => Some(TypeV::Utf8),
        Format::IsIsbn => Some(TypeV::Utf8),
        Format::IsDateFormat => Some(TypeV::Utf8),
        Format::IsDate => Some(TypeV::Utf8),
        Format::IsProductVisibility => Some(TypeV::Utf8),
        Format::IsString => Some(TypeV::Utf8),
        Format::IsGenericName => Some(TypeV::Utf8),
        Format::IsCatalogName => Some(TypeV::Utf8),
        Format::IsCleanHtml => Some(TypeV::Utf8),
        Format::IsLinkRewrite => Some(TypeV::Utf8),
        Format::IsGenericName1 => Some(TypeV::Utf8),
        Format::IsMpn => Some(TypeV::Utf8),
        Format::IsReference => Some(TypeV::Utf8),
        _ => None,
    }
}

impl Type {
    /// The name heuristic: a tag name starting or ending with `id` is
    /// taken to be an unsigned id.
    pub fn from_name(name: &str) -> (r: Option<Type>)
        ensures
            name_is_id(name@) ==> r == Some(Type::UInt32),
            !name_is_id(name@) ==> r is None,
    {
        if name_is_id_x(name) {
            Some(Type::UInt32)
        } else {
            None
        }
    }

    /// Resolves a format to its primitive type, failing on formats the
    /// nested pathway does not support.
    pub fn from_format(f: &Format) -> (r: Result<Type, DecodeError>)
        ensures
            r matches Ok(t) ==> prim_from_format(*f) == Some(t@),
            r matches Err(e) ==> prim_from_format(*f) is None && e.kind
                == ErrorKind::UnsupportedFormat,
    {
        match f {
            Format::IsBool => Ok(Type::Bool),
            Format::IsUnsignedId => Ok(Type::UInt32),
            Format::IsUnsignedInt => Ok(Type::UInt32),
            Format::IsInt => Ok(Type::Int32),
            Format::IsUnsignedFloat => Ok(Type::Float64),
            Format::IsPrice => Ok(Type::Float64),
            Format::IsEan13 => Ok(Type::Utf8),
            Format::IsUpc => Ok(Type::Utf8),
            Format::IsIsbn => Ok(Type::Utf8),
            Format::IsDateFormat => Ok(Type::Utf8),
            Format::IsDate => Ok(Type::Utf8),
            Format::IsProductVisibility => Ok(Type::Utf8),
            Format::IsString => Ok(Type::Utf8),
            Format::IsGenericName => Ok(Type::Utf8),
            Format::IsCatalogName => Ok(Type::Utf8),
            Format::IsCleanHtml => Ok(Type::Utf8),
            Format::IsLinkRewrite => Ok(Type::Utf8),
            Format::IsGenericName1 => Ok(Type::Utf8),
            Format::IsMpn => Ok(Type::Utf8),
            Format::IsReference => Ok(Type::Utf8),
            _ => Err(DecodeError { kind: ErrorKind::UnsupportedFormat, path: Vec::new() }),
        }
    }
}

// ------------------------------------------------------------------
// Schema inference over the element tree.
// ------------------------------------------------------------------

/// What the format attribute contributes, under the strict policy of the
/// nested pathway: no attribute means no hint; an attribute that does not
/// parse, or parses to an unsupported format, is fatal.
pub open spec fn spec_try_format(e: XmlElem) -> Result<Option<TypeV>, ErrorKind> {
    match attr_lookup(e.attrs@, "format"@) {
        None => Ok(None),
        Some(ident) => match format_of_ident(ident) {
            None => Err(ErrorKind::UnsupportedFormat),
            Some(f) => match prim_from_format(f) {
                None => Err(ErrorKind::UnsupportedFormat),
                Some(tv) => Ok(Some(tv)),
            },
        },
    }
}

/// The multilingual shape: exactly one element child, named `language`,
/// itself childless, with a numeric `id` attribute; the result is that id.
pub open spec fn spec_multilingual(e: XmlElem) -> Option<u32> {
    if e.children@.len() == 1 {
        let c = e.children@[0];
        if c.name@ == "language"@ && c.children@.len() == 0 {
            match attr_lookup(c.attrs@, "id"@) {
                Some(v) => u32_text(v),
                None => None,
            }
        } else {
            None
        }
    } else {
        None
    }
}

/// Checks the multilingual shape, returning the sample's language id
/// where it matches.
pub fn multilingual_shape(e: &XmlElem) -> (r: Option<u32>)
    ensures
        r == spec_multilingual(*e),
{
    if e.children.len() == 1 {
        let c = &e.children[0];
        if str_eq(c.name.as_str(), "language") && c.children.len() == 0 {
            match c.attr("id") {
                Some(v) => {
                    return parse_u32_text(v);
                },
                None => {
                    return None;
                },
            }
        }
    }
    None
}

/// The inferred field type of one sample element, in strict priority
/// order: a format hint; the multilingual shape; a repeating container (a
/// `nodeType` marker, or two or more identically named children); a record
/// of uniquely named children; the `id` name heuristic; text.
pub open spec fn spec_field_type(name: Option<Seq<char>>, e: XmlElem) -> Result<TypeV, ErrorKind>
    decreases e, 1int,
{
    match spec_try_format(e) {
        Err(k) => Err(k),
        Ok(Some(tv)) => Ok(tv),
        Ok(None) => match spec_multilingual(e) {
            Some(id) => Ok(TypeV::Language(id)),
            None => if attr_lookup(e.attrs@, "nodeType"@) is Some {
                if e.children@.len() != 1 {
                    Err(ErrorKind::Structure)
                } else {
                    let c = e.children@[0];
                    match spec_field_type(Some(c.name@), c) {
                        Err(k) => Err(k),
                        Ok(tv) => Ok(TypeV::List(seq![FieldV { name: c.name@, ty: tv }])),
                    }
                }
            } else if e.children@.len() >= 2 && same_named(e.children@) {
                let c = e.children@[0];
                match spec_field_type(Some(c.name@), c) {
                    Err(k) => Err(k),
                    Ok(tv) => Ok(TypeV::List(seq![FieldV { name: c.name@, ty: tv }])),
                }
            } else if e.children@.len() > 0 {
                if !unique_names(e.children@) {
                    Err(ErrorKind::DuplicateField)
                } else {
                    match spec_fields(e.children@) {
                        Err(k) => Err(k),
                        Ok(fs) => Ok(TypeV::Record(fs)),
                    }
                }
            } else {
                match name {
                    Some(n) => if name_is_id(n) {
                        Ok(TypeV::UInt32)
                    } else {
                        Ok(TypeV::Utf8)
                    },
                    None => Ok(TypeV::Utf8),
                }
            },
        },
    }
}

/// The fields inferred from a sequence of sample elements, left to right,
/// stopping at the first failure.
pub open spec fn spec_fields(s: Seq<XmlElem>) -> Result<Seq<FieldV>, ErrorKind>
    decreases s, 0int,
{
    if s.len() == 0 {
        Ok(Seq::<FieldV>::empty())
    } else {
        match spec_fields(s.drop_last()) {
            Err(k) => Err(k),
            Ok(fs) => match spec_field_type(Some(s.last().name@), s.last()) {
                Err(k) => Err(k),
                Ok(tv) => Ok(fs.push(FieldV { name: s.last().name@, ty: tv })),
            },
        }
    }
}

proof fn lemma_spec_fields_take_step(s: Seq<XmlElem>, i: int)
    requires
        0 <= i < s.len(),
    ensures
        spec_fields(s.take(i + 1)) == (match spec_fields(s.take(i)) {
            Err(k) => Err(k),
            Ok(fs) => match spec_field_type(Some(s[i].name@), s[i]) {
                Err(k) => Err(k),
                Ok(tv) => Ok(fs.push(FieldV { name: s[i].name@, ty: tv })),
            },
        }),
{
    let p = s.take(i + 1);
    assert(p.len() == i + 1);
    assert(p.drop_last() =~= s.take(i));
    assert(p.last() == s[i]);
}

proof fn lemma_spec_fields_err_persists(s: Seq<XmlElem>, i: int)
    requires
        0 <= i <= s.len(),
        spec_fields(s.take(i)) is Err,
    ensures
        spec_fields(s) == spec_fields(s.take(i)),
    decreases s.len() - i,
{
    if i == s.len() {
        assert(s.take(i) =~= s);
    } else {
        lemma_spec_fields_take_step(s, i);
        lemma_spec_fields_err_persists(s, i + 1);
    }
}

/// Resolves this element's format hint under the strict policy.
fn try_type_from_format(p: &Parser<'_>) -> (r: Result<Option<Type>, DecodeError>)
    ensures
        match r {
            Ok(Some(t)) => spec_try_format(*p.node) == Ok::<Option<TypeV>, ErrorKind>(Some(t@)),
            Ok(None) => spec_try_format(*p.node) == Ok::<Option<TypeV>, ErrorKind>(None),
            Err(e) => spec_try_format(*p.node) == Err::<Option<TypeV>, ErrorKind>(e.kind)
                && e.path@ == p.path@,
        },
{
    match p.attribute("format") {
        Err(_) => Ok(None),
        Ok(ident) => {
            match Format::from_string(ident) {
                Err(_) => Err(DecodeError::new(ErrorKind::UnsupportedFormat, p.breadcrumb())),
                Ok(f) => match Type::from_format(&f) {
                    Err(_) => Err(DecodeError::new(ErrorKind::UnsupportedFormat, p.breadcrumb())),
                    Ok(t) => Ok(Some(t)),
                },
            }
        },
    }
}

/// Wraps a typed value as a one-field record, named `struct_field_name`,
/// inside a field named `field_name`.
pub fn warp_in_record_field(field_name: String, struct_field_name: String, ty: Type) -> (r: Field)
    ensures
        r@.name == field_name@,
        r@.ty matches TypeV::Record(fs) && fs.len() == 1 && fs[0] == (FieldV {
            name: struct_field_name@,
            ty: ty@,
        }),
{
    let mut fields: Vec<Field> = Vec::new();
    fields.push(Field::new(struct_field_name, ty));
    let r = Field::new(field_name, Type::Record(Record { fields }));
    proof {
        lemma_fields_view_index(r.ty->Record_0.fields@);
        assert(fields_view(r.ty->Record_0.fields@) =~= seq![
            FieldV { name: struct_field_name@, ty: ty@ },
        ]);
    }
    r
}

/// Infers the field type of one sample element.  `name` is the element's
/// own tag name, handed down for the name heuristic.
pub fn parse_schema_field_type(name: Option<&str>, p: Parser<'_>) -> (r: Result<Type, DecodeError>)
    ensures
        ({
            let nv = match name {
                Some(s) => Some(s@),
                None => None,
            };
            match r {
                Ok(t) => spec_field_type(nv, *p.node) == Ok::<TypeV, ErrorKind>(t@),
                Err(e) => spec_field_type(nv, *p.node) == Err::<TypeV, ErrorKind>(e.kind)
                    && extends_path(e.path@, p.path@),
            }
        }),
    decreases *p.node,
{
    match try_type_from_format(&p) {
        Err(e) => {
            proof {
                lemma_extends_path_refl(p.path@);
            }
            return Err(e);
        },
        Ok(Some(t)) => {
            return Ok(t);
        },
        Ok(None) => {},
    }
    // The multilingual shape.
    match multilingual_shape(p.node) {
        Some(id) => {
            return Ok(Type::Language(id));
        },
        None => {},
    }
    // A repeating container: an explicit marker attribute, or two or more
    // identically named children.
    let marked = match p.attribute("nodeType") {
        Ok(_) => true,
        Err(_) => false,
    };
    if marked {
        let c = match p.single_child() {
            Err(e) => {
                proof {
                    lemma_extends_path_refl(p.path@);
                }
                return Err(e);
            },
            Ok(c) => c,
        };
        let ghost cpath = c.path@;
        let cname = c.node.name.clone();
        let ty = match parse_schema_field_type(Some(cname.as_str()), c) {
            Err(e) => {
                proof {
                    lemma_extends_path_push(p.path@, p.node.children@[0].name);
                    lemma_extends_path_trans(e.path@, cpath, p.path@);
                }
                return Err(e);
            },
            Ok(ty) => ty,
        };
        proof {
            lemma_fields_view_index(seq![Field { name: cname, ty: ty }]);
        }
        let r = Type::List(Box::new(Field { name: cname, ty }));
        assert(r@ == spec_field_type(
            match name {
                Some(s) => Some(s@),
                None => None::<Seq<char>>,
            },
            *p.node,
        )->Ok_0);
        return Ok(r);
    }
    if p.node.children.len() >= 2 && p.node.children_same_named() {
        let c = p.child(0);
        let ghost cpath = c.path@;
        let cname = c.node.name.clone();
        let ty = match parse_schema_field_type(Some(cname.as_str()), c) {
            Err(e) => {
                proof {
                    lemma_extends_path_push(p.path@, p.node.children@[0].name);
                    lemma_extends_path_trans(e.path@, cpath, p.path@);
                }
                return Err(e);
            },
            Ok(ty) => ty,
        };
        let r = Type::List(Box::new(Field { name: cname, ty }));
        return Ok(r);
    }
    // A record of uniquely named children.
    if p.node.children.len() > 0 {
        if !p.node.children_unique_named() {
            proof {
                lemma_extends_path_refl(p.path@);
            }
            return Err(DecodeError::new(ErrorKind::DuplicateField, p.breadcrumb()));
        }
        let n = p.node.children.len();
        let mut fields: Vec<Field> = Vec::new();
        let mut i: usize = 0;
        proof {
            assert(p.node.children@.take(0) =~= Seq::<XmlElem>::empty());
        }
        while i < n
            invariant
                n == p.node.children@.len(),
                i <= n,
                unique_names(p.node.children@),
                n >= 1,
                !(n >= 2 && same_named(p.node.children@)),
                attr_lookup(p.node.attrs@, "nodeType"@) is None,
                spec_try_format(*p.node) == Ok::<Option<TypeV>, ErrorKind>(None),
                spec_multilingual(*p.node) is None,
                spec_fields(p.node.children@.take(i as int)) == Ok::<Seq<FieldV>, ErrorKind>(
                    fields_view(fields@),
                ),
            decreases n - i,
        {
            let cp = p.child(i);
            let cname = cp.node.name.clone();
            proof {
                lemma_spec_fields_take_step(p.node.children@, i as int);
            }
            let ghost pre = fields@;
            match parse_schema_field_type(Some(cname.as_str()), cp) {
                Err(e) => {
                    proof {
                        lemma_spec_fields_err_persists(p.node.children@, i + 1);
                        lemma_extends_path_push(p.path@, p.node.children@[i as int].name);
                        lemma_extends_path_trans(
                            e.path@,
                            p.path@.push(p.node.children@[i as int].name),
                            p.path@,
                        );
                    }
                    return Err(e);
                },
                Ok(ty) => {
                    let ghost tyv = ty@;
                    let ghost cnv = cname@;
                    fields.push(Field { name: cname, ty });
                    proof {
                        assert(fields@.drop_last() =~= pre);
                        assert(field_view(fields@.last()) == FieldV { name: cnv, ty: tyv });
                        assert(fields_view(fields@) == fields_view(pre).push(
                            FieldV { name: cnv, ty: tyv },
                        ));
                        assert(cnv == p.node.children@[i as int].name@);
                        assert(spec_field_type(Some(cnv), p.node.children@[i as int])
                            == Ok::<TypeV, ErrorKind>(tyv));
                        assert(spec_fields(p.node.children@.take(i as int + 1))
                            == Ok::<Seq<FieldV>, ErrorKind>(fields_view(fields@)));
                    }
                },
            }
            i = i + 1;
        }
        proof {
            assert(p.node.children@.take(n as int) =~= p.node.children@);
        }
        return Ok(Type::Record(Record { fields }));
    }
    // The name heuristic, then the text fallback.
    match name {
        Some(nm) => {
            if name_is_id_x(nm) {
                Ok(Type::UInt32)
            } else {
                Ok(Type::Utf8)
            }
        },
        None => Ok(Type::Utf8),
    }
}

// ------------------------------------------------------------------
// The synthetic id field, and whole-schema inference.
// ------------------------------------------------------------------

/// The synthetic `id` field every response carries.
pub open spec fn id_field_v() -> FieldV {
    FieldV { name: "id"@, ty: TypeV::UInt32 }
}

fn make_id_field() -> (r: Field)
    ensures
        r@ == id_field_v(),
{
    Field { name: String::from_str("id"), ty: Type::UInt32 }
}

/// Prepending the synthetic id inside the container field, which must be a
/// record.
pub open spec fn spec_insert_id(fs: Seq<FieldV>) -> Result<Seq<FieldV>, ErrorKind> {
    if fs.len() == 0 {
        Err(ErrorKind::Structure)
    } else {
        match fs[0].ty {
            TypeV::Record(inner) => Ok(
                fs.update(
                    0,
                    FieldV { name: fs[0].name, ty: TypeV::Record(seq![id_field_v()] + inner) },
                ),
            ),
            _ => Err(ErrorKind::Structure),
        }
    }
}

/// Prepends the synthetic `id` field to the record inside the schema's
/// first field.
pub fn insert_id_field(schema: Schema) -> (r: Result<Schema, DecodeError>)
    requires
        schema.record.fields@.len() > 0,
    ensures
        match r {
            Ok(s) => spec_insert_id(schema@) == Ok::<Seq<FieldV>, ErrorKind>(s@) && s.wf(),
            Err(e) => spec_insert_id(schema@) == Err::<Seq<FieldV>, ErrorKind>(e.kind) && e.path@
                == Seq::<String>::empty(),
        },
{
    let ghost old_fields = schema.record.fields@;
    proof {
        lemma_fields_view_index(old_fields);
    }
    let mut schema = schema;
    let f0 = schema.record.fields.remove(0);
    let ghost rest = schema.record.fields@;
    proof {
        assert(old_fields =~= seq![f0] + rest);
    }
    match f0.ty {
        Type::Record(rec) => {
            let ghost f0v = field_view(Field { name: f0.name, ty: Type::Record(rec) });
            let mut rec = rec;
            let ghost inner = rec.fields@;
            rec.fields.insert(0, make_id_field());
            proof {
                lemma_fields_view_index(rec.fields@);
                lemma_fields_view_index(inner);
                assert(rec.fields@.drop_first() =~= inner);
                assert(fields_view(rec.fields@) =~= seq![id_field_v()] + fields_view(inner));
            }
            let nf = Field { name: f0.name, ty: Type::Record(rec) };
            schema.record.fields.insert(0, nf);
            proof {
                lemma_fields_view_index(schema.record.fields@);
                lemma_fields_view_index(rest);
                assert(schema.record.fields@.drop_first() =~= rest);
                let oldv = fields_view(old_fields);
                assert(oldv[0] == f0v);
                assert(spec_insert_id(oldv) is Ok);
                assert(schema@ =~= spec_insert_id(oldv)->Ok_0);
            }
            Ok(schema)
        },
        _ => {
            proof {
                let oldv = fields_view(old_fields);
                assert(oldv[0] == field_view(f0));
            }
            Err(DecodeError::new(ErrorKind::Structure, Vec::new()))
        },
    }
}

/// Prepends the synthetic `id` field to a record directly.
pub fn insert_id_field2(record: Record) -> (r: Result<Record, DecodeError>)
    ensures
        r matches Ok(rec) && rec@ == seq![id_field_v()] + record@,
{
    let mut record = record;
    let ghost inner = record.fields@;
    record.fields.insert(0, make_id_field());
    proof {
        lemma_fields_view_index(record.fields@);
        lemma_fields_view_index(inner);
        assert(fields_view(record.fields@) =~= seq![id_field_v()] + fields_view(inner));
    }
    Ok(record)
}

/// Whole-schema inference of the nested pathway: the sample's root element
/// must infer to a record, whose first field (the container) must itself
/// be a record; the synthetic id is prepended inside it.
pub open spec fn spec_parse_schema(e: XmlElem) -> Result<Seq<FieldV>, ErrorKind> {
    match spec_field_type(None, e) {
        Err(k) => Err(k),
        Ok(TypeV::Record(fs)) => spec_insert_id(fs),
        Ok(_) => Err(ErrorKind::Structure),
    }
}

/// Infers the nested schema from a sample document's root element.
pub fn parse_schema(p: Parser<'_>) -> (r: Result<Schema, DecodeError>)
    ensures
        match r {
            Ok(s) => spec_parse_schema(*p.node) == Ok::<Seq<FieldV>, ErrorKind>(s@) && s.wf(),
            Err(e) => spec_parse_schema(*p.node) == Err::<Seq<FieldV>, ErrorKind>(e.kind)
                && extends_path(e.path@, p.path@),
        },
{
    let ghost e = *p.node;
    let ghost ppath = p.path@;
    let crumb = p.breadcrumb();
    proof {
        lemma_extends_path_refl(ppath);
    }
    let ty = parse_schema_field_type(None, p)?;
    match ty {
        Type::Record(record) => {
            if record.fields.len() == 0 {
                proof {
                    lemma_fields_view_index(record.fields@);
                }
                return Err(DecodeError::new(ErrorKind::Structure, crumb));
            }
            match insert_id_field(Schema { record }) {
                Ok(s) => Ok(s),
                Err(err) => Err(DecodeError::new(err.kind, crumb)),
            }
        },
        _ => Err(DecodeError::new(ErrorKind::Structure, crumb)),
    }
}

} // verus!

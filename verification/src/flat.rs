use vstd::prelude::*;
use crate::error::{
    DecodeError, ErrorKind, extends_path, lemma_extends_path_push, lemma_extends_path_trans,
};
use crate::nav::extended;
use crate::format::{Format, format_of_ident};
use crate::schema::name_is_id;
use crate::text::str_eq;
use crate::xml::{XmlElem, attr_lookup, spec_parse_document, parse_document};

verus! {

// ------------------------------------------------------------------
// The flat schema model: one level of typed columns plus associations.
// ------------------------------------------------------------------

/// The closed set of column types of the flat pathway.
#[derive(Clone, Copy, Debug, PartialEq, Eq, Structural)]
pub enum DataType {
    Int32,
    Date,
    Boolean,
    UInt32,
    Float64,
    Utf8,
    MultilingualUtf8,
}

/// A named column.
#[derive(Debug, PartialEq)]
pub struct Field {
    pub name: String,
    pub data_type: DataType,
}

/// A named list-of-records relationship, declared separately from the
/// ordinary fields.  `element_name` is the tag of one repeated element.
#[derive(Debug, PartialEq)]
pub struct Association {
    pub name: String,
    pub element_name: String,
    pub fields: Vec<Field>,
}

/// The flat schema: ordinary columns (the synthetic id first) and the
/// declared associations.
#[derive(Debug, PartialEq)]
pub struct Schema3 {
    pub fields: Vec<Field>,
    pub associations: Vec<Association>,
}

/// The spec-level form of a flat field.
pub struct FieldF {
    pub name: Seq<char>,
    pub dt: DataType,
}

/// The spec-level form of an association.
pub struct AssocV {
    pub name: Seq<char>,
    pub element_name: Seq<char>,
    pub fields: Seq<FieldF>,
}

/// The spec-level form of a flat schema.
pub struct Schema3V {
    pub fields: Seq<FieldF>,
    pub associations: Seq<AssocV>,
}

impl View for Field {
    type V = FieldF;

    open spec fn view(&self) -> FieldF {
        FieldF { name: self.name@, dt: self.data_type }
    }
}

impl View for Association {
    type V = AssocV;

    open spec fn view(&self) -> AssocV {
        AssocV {
            name: self.name@,
            element_name: self.element_name@,
            fields: self.fields@.map_values(|f: Field| f@),
        }
    }
}

impl View for Schema3 {
    type V = Schema3V;

    open spec fn view(&self) -> Schema3V {
        Schema3V {
            fields: self.fields@.map_values(|f: Field| f@),
            associations: self.associations@.map_values(|a: Association| a@),
        }
    }
}

impl Field {
    pub fn new(name: &str, data_type: DataType) -> (r: Field)
        ensures
            r@ == (FieldF { name: name@, dt: data_type }),
    {
        Field { name: name.to_owned(), data_type }
    }
}

/// The synthetic `id` column every response carries.
pub open spec fn id_field_f() -> FieldF {
    FieldF { name: "id"@, dt: DataType::UInt32 }
}

// ------------------------------------------------------------------
// Field classification of the flat, lenient pathway.
// ------------------------------------------------------------------

/// A tag name matching `date_*` or `*_date`.
pub open spec fn name_is_date(n: Seq<char>) -> bool {
    n.len() >= 5 && ((n[0] == 'd' && n[1] == 'a' && n[2] == 't' && n[3] == 'e' && n[4] == '_') || (
    n[n.len() - 5] == '_' && n[n.len() - 4] == 'd' && n[n.len() - 3] == 'a' && n[n.len() - 2]
        == 't' && n[n.len() - 1] == 'e'))
}

/// The name heuristic: `id` names are unsigned ids, date names are dates.
pub open spec fn spec_type_from_name(n: Seq<char>) -> Option<DataType> {
    if name_is_id(n) {
        Some(DataType::UInt32)
    } else if name_is_date(n) {
        Some(DataType::Date)
    } else {
        None
    }
}

/// The primitive type a format resolves to in the flat pathway, or `None`
/// for an unsupported format.
pub open spec fn flat_from_format(f: Format) -> Option<DataType> {
    match f {
        Format::IsBool => Some(DataType::Boolean),
        Format::IsUnsignedId => Some(DataType::UInt32),
        Format::IsUnsignedInt => Some(DataType::UInt32),
        Format::IsInt => Some(DataType::Int32),
        Format::IsUnsignedFloat => Some(DataType::Float64),
        Format::IsPrice => Some(DataType::Float64),
        Format::IsDateFormat => Some(DataType::Utf8),
        Format::IsDate => Some(DataType::Date),
        _ => None,
    }
}

/// What the format attribute contributes under the lenient policy: any
/// failure — no attribute, an unknown identifier, an unsupported format —
/// is no hint.
pub open spec fn spec_format_hint(e: XmlElem) -> Option<DataType> {
    match attr_lookup(e.attrs@, "format"@) {
        None => None,
        Some(ident) => match format_of_ident(ident) {
            None => None,
            Some(f) => flat_from_format(f),
        },
    }
}

/// A simple column type: the format hint, else the name heuristic, else
/// text.
pub open spec fn spec_simple_datatype(e: XmlElem) -> DataType {
    match spec_format_hint(e) {
        Some(dt) => dt,
        None => match spec_type_from_name(e.name@) {
            Some(dt) => dt,
            None => DataType::Utf8,
        },
    }
}

/// The column type of one ordinary sample field, in priority order: a
/// format hint; the multilingual shape (exactly one childless `language`
/// child with a numeric id, as the nested engine tests it); the name
/// heuristic; text.
pub open spec fn spec_flat_field(e: XmlElem) -> FieldF {
    FieldF {
        name: e.name@,
        dt: match spec_format_hint(e) {
            Some(dt) => dt,
            None => if crate::schema::spec_multilingual(e) is Some {
                DataType::MultilingualUtf8
            } else {
                match spec_type_from_name(e.name@) {
                    Some(dt) => dt,
                    None => DataType::Utf8,
                }
            },
        },
    }
}

/// The name heuristic of the flat pathway.
pub fn type_from_name(name: &str) -> (r: Option<DataType>)
    ensures
        r == spec_type_from_name(name@),
{
    let n = name.unicode_len();
    if n >= 2 && ((name.get_char(0) == 'i' && name.get_char(1) == 'd') || (name.get_char(n - 2)
        == 'i' && name.get_char(n - 1) == 'd')) {
        Some(DataType::UInt32)
    } else if n >= 5 && ((name.get_char(0) == 'd' && name.get_char(1) == 'a' && name.get_char(2)
        == 't' && name.get_char(3) == 'e' && name.get_char(4) == '_') || (name.get_char(n - 5)
        == '_' && name.get_char(n - 4) == 'd' && name.get_char(n - 3) == 'a' && name.get_char(
        n - 2,
    ) == 't' && name.get_char(n - 1) == 'e')) {
        Some(DataType::Date)
    } else {
        None
    }
}

/// The format table of the flat pathway.
pub fn type_from_format(f: &Format) -> (r: Result<DataType, DecodeError>)
    ensures
        r matches Ok(dt) ==> flat_from_format(*f) == Some(dt),
        r matches Err(e) ==> flat_from_format(*f) is None && e.kind == ErrorKind::UnsupportedFormat,
{
    match f {
        Format::IsBool => Ok(DataType::Boolean),
        Format::IsUnsignedId => Ok(DataType::UInt32),
        Format::IsUnsignedInt => Ok(DataType::UInt32),
        Format::IsInt => Ok(DataType::Int32),
        Format::IsUnsignedFloat => Ok(DataType::Float64),
        Format::IsPrice => Ok(DataType::Float64),
        Format::IsDateFormat => Ok(DataType::Utf8),
        Format::IsDate => Ok(DataType::Date),
        _ => Err(DecodeError { kind: ErrorKind::UnsupportedFormat, path: Vec::new() }),
    }
}

fn format_hint(e: &XmlElem) -> (r: Option<DataType>)
    ensures
        r == spec_format_hint(*e),
{
    match e.attr("format") {
        None => None,
        Some(ident) => match Format::from_string(ident) {
            Err(_) => None,
            Ok(f) => match type_from_format(&f) {
                Err(_) => None,
                Ok(dt) => Some(dt),
            },
        },
    }
}

/// A simple column type: the format hint, else the name heuristic, else
/// text.
pub fn parse_simple_datatype(e: &XmlElem) -> (r: DataType)
    ensures
        r == spec_simple_datatype(*e),
{
    match format_hint(e) {
        Some(dt) => dt,
        None => match type_from_name(e.name.as_str()) {
            Some(dt) => dt,
            None => DataType::Utf8,
        },
    }
}

// ------------------------------------------------------------------
// Flat schema inference.
// ------------------------------------------------------------------

/// One association inferred from its declaration element: the first child
/// is the example element whose children are the fields; an association
/// without a child is a structural error.
pub open spec fn spec_assoc(a: XmlElem) -> Result<AssocV, ErrorKind> {
    if a.children@.len() == 0 {
        Err(ErrorKind::Structure)
    } else {
        let ex = a.children@[0];
        Ok(
            AssocV {
                name: a.name@,
                element_name: ex.name@,
                fields: Seq::new(
                    ex.children@.len(),
                    |i: int|
                        FieldF {
                            name: ex.children@[i].name@,
                            dt: spec_simple_datatype(ex.children@[i]),
                        },
                ),
            },
        )
    }
}

/// The associations declared by the children of one `associations`
/// element, left to right, stopping at the first failure.
pub open spec fn spec_assocs(s: Seq<XmlElem>) -> Result<Seq<AssocV>, ErrorKind>
    decreases s.len(),
{
    if s.len() == 0 {
        Ok(Seq::<AssocV>::empty())
    } else {
        match spec_assocs(s.drop_last()) {
            Err(k) => Err(k),
            Ok(done) => match spec_assoc(s.last()) {
                Err(k) => Err(k),
                Ok(a) => Ok(done.push(a)),
            },
        }
    }
}

/// The columns and associations declared by a container's children, left
/// to right: a child literally named `associations` declares associations,
/// every other child one column.
pub open spec fn spec_container_items(s: Seq<XmlElem>) -> Result<
    (Seq<FieldF>, Seq<AssocV>),
    ErrorKind,
>
    decreases s.len(),
{
    if s.len() == 0 {
        Ok((Seq::<FieldF>::empty(), Seq::<AssocV>::empty()))
    } else {
        match spec_container_items(s.drop_last()) {
            Err(k) => Err(k),
            Ok((fs, assocs)) => {
                let e = s.last();
                if e.name@ == "associations"@ {
                    match spec_assocs(e.children@) {
                        Err(k) => Err(k),
                        Ok(more) => Ok((fs, assocs + more)),
                    }
                } else {
                    Ok((fs.push(spec_flat_field(e)), assocs))
                }
            },
        }
    }
}

/// The flat schema inferred from the field container: the synthetic id
/// column, the declared columns, and the declared associations.
pub open spec fn spec_infer_container(c: XmlElem) -> Result<Schema3V, ErrorKind> {
    match spec_container_items(c.children@) {
        Err(k) => Err(k),
        Ok((fs, assocs)) => Ok(
            Schema3V { fields: seq![id_field_f()] + fs, associations: assocs },
        ),
    }
}

/// The flat schema of a whole sample document: the root element's first
/// child is the field container.
pub open spec fn spec_parse_schema3(root: XmlElem) -> Result<Schema3V, ErrorKind> {
    if root.children@.len() == 0 {
        Err(ErrorKind::Structure)
    } else {
        spec_infer_container(root.children@[0])
    }
}

/// The flat schema of a sample document given as bytes: the bytes must be
/// valid UTF-8 and well-formed XML, whose root's first child is the field
/// container.
pub open spec fn spec_parse_schema3_bytes(bytes: Seq<u8>) -> Result<Schema3V, ErrorKind> {
    match spec_parse_document(bytes) {
        None => Err(ErrorKind::Structure),
        Some(root) => spec_parse_schema3(root),
    }
}

proof fn lemma_spec_assocs_take_step(s: Seq<XmlElem>, i: int)
    requires
        0 <= i < s.len(),
    ensures
        spec_assocs(s.take(i + 1)) == (match spec_assocs(s.take(i)) {
            Err(k) => Err(k),
            Ok(done) => match spec_assoc(s[i]) {
                Err(k) => Err(k),
                Ok(a) => Ok(done.push(a)),
            },
        }),
{
    let p = s.take(i + 1);
    assert(p.drop_last() =~= s.take(i));
    assert(p.last() == s[i]);
}

proof fn lemma_spec_assocs_err_persists(s: Seq<XmlElem>, i: int)
    requires
        0 <= i <= s.len(),
        spec_assocs(s.take(i)) is Err,
    ensures
        spec_assocs(s) == spec_assocs(s.take(i)),
    decreases s.len() - i,
{
    if i == s.len() {
        assert(s.take(i) =~= s);
    } else {
        lemma_spec_assocs_take_step(s, i);
        lemma_spec_assocs_err_persists(s, i + 1);
    }
}

proof fn lemma_spec_container_take_step(s: Seq<XmlElem>, i: int)
    requires
        0 <= i < s.len(),
    ensures
        spec_container_items(s.take(i + 1)) == (match spec_container_items(s.take(i)) {
            Err(k) => Err(k),
            Ok((fs, assocs)) => {
                if s[i].name@ == "associations"@ {
                    match spec_assocs(s[i].children@) {
                        Err(k) => Err(k),
                        Ok(more) => Ok((fs, assocs + more)),
                    }
                } else {
                    Ok((fs.push(spec_flat_field(s[i])), assocs))
                }
            },
        }),
{
    let p = s.take(i + 1);
    assert(p.drop_last() =~= s.take(i));
    assert(p.last() == s[i]);
}

proof fn lemma_spec_container_err_persists(s: Seq<XmlElem>, i: int)
    requires
        0 <= i <= s.len(),
        spec_container_items(s.take(i)) is Err,
    ensures
        spec_container_items(s) == spec_container_items(s.take(i)),
    decreases s.len() - i,
{
    if i == s.len() {
        assert(s.take(i) =~= s);
    } else {
        lemma_spec_container_take_step(s, i);
        lemma_spec_container_err_persists(s, i + 1);
    }
}

/// Infers one association from its declaration element.
fn parse_assoc(a: &XmlElem, path: Vec<String>) -> (r: Result<Association, DecodeError>)
    ensures
        match r {
            Ok(assoc) => spec_assoc(*a) == Ok::<AssocV, ErrorKind>(assoc@),
            Err(e) => spec_assoc(*a) == Err::<AssocV, ErrorKind>(e.kind) && e.path@ == path@,
        },
{
    if a.children.len() == 0 {
        return Err(DecodeError::new(ErrorKind::Structure, path));
    }
    let ex = &a.children[0];
    let n = ex.children.len();
    let mut fields: Vec<Field> = Vec::new();
    let mut i: usize = 0;
    while i < n
        invariant
            n == ex.children@.len(),
            i <= n,
            fields@.len() == i,
            forall|k: int|
                0 <= k < i ==> (#[trigger] fields@[k])@ == (FieldF {
                    name: ex.children@[k].name@,
                    dt: spec_simple_datatype(ex.children@[k]),
                }),
        decreases n - i,
    {
        let c = &ex.children[i];
        let dt = parse_simple_datatype(c);
        fields.push(Field { name: c.name.clone(), data_type: dt });
        i = i + 1;
    }
    let assoc = Association {
        name: a.name.clone(),
        element_name: ex.name.clone(),
        fields,
    };
    proof {
        assert(assoc@.fields =~= spec_assoc(*a)->Ok_0.fields);
    }
    Ok(assoc)
}

/// Infers the flat schema from the field container.  `prefix` is the
/// container's breadcrumb from the document root; failures carry a
/// breadcrumb extending it.
pub fn infer_container_at(c: &XmlElem, prefix: &Vec<String>) -> (r: Result<Schema3, DecodeError>)
    ensures
        match r {
            Ok(s) => spec_infer_container(*c) == Ok::<Schema3V, ErrorKind>(s@),
            Err(e) => spec_infer_container(*c) == Err::<Schema3V, ErrorKind>(e.kind)
                && extends_path(e.path@, prefix@),
        },
{
    let n = c.children.len();
    let mut fields: Vec<Field> = Vec::new();
    let mut associations: Vec<Association> = Vec::new();
    let mut i: usize = 0;
    proof {
        assert(c.children@.take(0) =~= Seq::<XmlElem>::empty());
        assert(fields@.map_values(|f: Field| f@) =~= Seq::<FieldF>::empty());
        assert(associations@.map_values(|a: Association| a@) =~= Seq::<AssocV>::empty());
    }
    while i < n
        invariant
            n == c.children@.len(),
            i <= n,
            spec_container_items(c.children@.take(i as int)) == Ok::<
                (Seq<FieldF>, Seq<AssocV>),
                ErrorKind,
            >((fields@.map_values(|f: Field| f@), associations@.map_values(|a: Association| a@))),
        decreases n - i,
    {
        let e = &c.children[i];
        proof {
            lemma_spec_container_take_step(c.children@, i as int);
        }
        if str_eq(e.name.as_str(), "associations") {
            let epath = extended(prefix, &e.name);
            let m = e.children.len();
            let ghost pre = associations@;
            let mut j: usize = 0;
            proof {
                assert(e.children@.take(0) =~= Seq::<XmlElem>::empty());
                assert(associations@.skip(pre.len() as int) =~= Seq::<Association>::empty());
                assert(associations@.skip(pre.len() as int).map_values(|a: Association| a@) =~= Seq::<
                    AssocV,
                >::empty());
                assert(associations@.take(pre.len() as int) =~= pre);
            }
            while j < m
                invariant
                    m == e.children@.len(),
                    j <= m,
                    n == c.children@.len(),
                    i < n,
                    *e == c.children@[i as int],
                    e.name@ == "associations"@,
                    epath@ == prefix@.push(c.children@[i as int].name),
                    spec_container_items(c.children@.take(i as int)) == Ok::<
                        (Seq<FieldF>, Seq<AssocV>),
                        ErrorKind,
                    >((fields@.map_values(|f: Field| f@), pre.map_values(|a: Association| a@))),
                    associations@.len() >= pre.len(),
                    associations@.take(pre.len() as int) =~= pre,
                    spec_assocs(e.children@.take(j as int)) == Ok::<Seq<AssocV>, ErrorKind>(
                        associations@.skip(pre.len() as int).map_values(|a: Association| a@),
                    ),
                decreases m - j,
            {
                let a = &e.children[j];
                proof {
                    lemma_spec_assocs_take_step(e.children@, j as int);
                }
                let ghost before = associations@;
                let apath = extended(&epath, &a.name);
                match parse_assoc(a, apath) {
                    Err(err) => {
                        proof {
                            assert(spec_assocs(e.children@.take(j + 1)) == Err::<
                                Seq<AssocV>,
                                ErrorKind,
                            >(err.kind));
                            lemma_spec_assocs_err_persists(e.children@, j + 1);
                            assert(spec_container_items(c.children@.take(i as int)) == Ok::<
                                (Seq<FieldF>, Seq<AssocV>),
                                ErrorKind,
                            >((fields@.map_values(|f: Field| f@), pre.map_values(
                                |a: Association| a@,
                            ))));
                            lemma_spec_container_take_step(c.children@, i as int);
                            assert(spec_container_items(c.children@.take(i + 1)) == Err::<
                                (Seq<FieldF>, Seq<AssocV>),
                                ErrorKind,
                            >(err.kind));
                            lemma_spec_container_err_persists(c.children@, i + 1);
                            lemma_extends_path_push(prefix@, c.children@[i as int].name);
                            lemma_extends_path_push(epath@, a.name);
                            lemma_extends_path_trans(err.path@, epath@, prefix@);
                        }
                        return Err(err);
                    },
                    Ok(assoc) => {
                        let ghost av = assoc@;
                        associations.push(assoc);
                        proof {
                            assert(associations@.take(pre.len() as int) =~= pre);
                            assert(associations@.skip(pre.len() as int) =~= before.skip(
                                pre.len() as int,
                            ).push(associations@.last()));
                            assert(associations@.skip(pre.len() as int).map_values(
                                |a: Association| a@,
                            ) =~= before.skip(pre.len() as int).map_values(
                                |a: Association| a@,
                            ).push(av));
                        }
                    },
                }
                j = j + 1;
            }
            proof {
                assert(e.children@.take(m as int) =~= e.children@);
                assert(associations@.map_values(|a: Association| a@) =~= pre.map_values(
                    |a: Association| a@,
                ) + associations@.skip(pre.len() as int).map_values(|a: Association| a@));
                assert(spec_container_items(c.children@.take(i as int)) == Ok::<
                    (Seq<FieldF>, Seq<AssocV>),
                    ErrorKind,
                >((fields@.map_values(|f: Field| f@), pre.map_values(|a: Association| a@))));
                assert(spec_container_items(c.children@.take(i + 1)) == Ok::<
                    (Seq<FieldF>, Seq<AssocV>),
                    ErrorKind,
                >((fields@.map_values(|f: Field| f@), associations@.map_values(
                    |a: Association| a@,
                ))));
            }
        } else {
            let dt = parse_simple_datatype_with_language(e);
            let ghost before = fields@;
            fields.push(Field { name: e.name.clone(), data_type: dt });
            proof {
                assert(fields@.map_values(|f: Field| f@) =~= before.map_values(
                    |f: Field| f@,
                ).push(spec_flat_field(c.children@[i as int])));
                assert(spec_container_items(c.children@.take(i + 1)) == Ok::<
                    (Seq<FieldF>, Seq<AssocV>),
                    ErrorKind,
                >((fields@.map_values(|f: Field| f@), associations@.map_values(
                    |a: Association| a@,
                ))));
            }
        }
        i = i + 1;
    }
    proof {
        assert(c.children@.take(n as int) =~= c.children@);
    }
    let mut all: Vec<Field> = Vec::new();
    all.push(Field::new("id", DataType::UInt32));
    let mut fields = fields;
    all.append(&mut fields);
    let s3 = Schema3 { fields: all, associations };
    proof {
        assert(s3@.fields =~= spec_infer_container(*c)->Ok_0.fields);
        assert(s3@.associations =~= spec_infer_container(*c)->Ok_0.associations);
    }
    Ok(s3)
}

/// Infers the flat schema from the field container; failure breadcrumbs
/// are relative to the container.
pub fn infer_container(c: &XmlElem) -> (r: Result<Schema3, DecodeError>)
    ensures
        match r {
            Ok(s) => spec_infer_container(*c) == Ok::<Schema3V, ErrorKind>(s@),
            Err(e) => spec_infer_container(*c) == Err::<Schema3V, ErrorKind>(e.kind),
        },
{
    let prefix: Vec<String> = Vec::new();
    infer_container_at(c, &prefix)
}

/// The column type of one ordinary sample field, with the multilingual
/// shape between the format hint and the name heuristic.
fn parse_simple_datatype_with_language(e: &XmlElem) -> (r: DataType)
    ensures
        r == spec_flat_field(*e).dt,
{
    match format_hint(e) {
        Some(dt) => dt,
        None => {
            if crate::schema::multilingual_shape(e).is_some() {
                DataType::MultilingualUtf8
            } else {
                match type_from_name(e.name.as_str()) {
                    Some(dt) => dt,
                    None => DataType::Utf8,
                }
            }
        },
    }
}

/// Infers the flat schema from a whole sample document's bytes.  A
/// failure inside the field container carries a breadcrumb starting with
/// the container's name; failures at the document itself carry an empty
/// breadcrumb.
pub fn parse_schema(bytes: &[u8]) -> (r: Result<Schema3, DecodeError>)
    ensures
        match r {
            Ok(s) => spec_parse_schema3_bytes(bytes@) == Ok::<Schema3V, ErrorKind>(s@),
            Err(e) => spec_parse_schema3_bytes(bytes@) == Err::<Schema3V, ErrorKind>(e.kind)
                && match spec_parse_document(bytes@) {
                None => e.path@ == Seq::<String>::empty(),
                Some(root) => if root.children@.len() == 0 {
                    e.path@ == Seq::<String>::empty()
                } else {
                    extends_path(e.path@, seq![root.children@[0].name])
                },
            },
        },
{
    let root = match parse_document(bytes) {
        Some(root) => root,
        None => {
            return Err(DecodeError::new(ErrorKind::Structure, Vec::new()));
        },
    };
    if root.children.len() == 0 {
        return Err(DecodeError::new(ErrorKind::Structure, Vec::new()));
    }
    let container = &root.children[0];
    let mut prefix: Vec<String> = Vec::new();
    prefix.push(container.name.clone());
    proof {
        assert(prefix@ =~= seq![root.children@[0].name]);
    }
    infer_container_at(container, &prefix)
}

} // verus!

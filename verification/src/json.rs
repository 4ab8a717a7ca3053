use vstd::prelude::*;
use crate::error::{
    DecodeError, ErrorKind, extends_path, lemma_extends_path_push, lemma_extends_path_refl,
    lemma_extends_path_trans,
};
use crate::nav::Parser;
use crate::prim::{
    decode_bool_text, decode_float_text, decode_i32_text, decode_u32_text, spec_prim_bool,
    spec_prim_float_strict, spec_prim_i32, spec_prim_u32, text_view,
};
use crate::schema::{Field, FieldV, Record, Schema, Type, TypeV, fields_view, lemma_fields_view_index};
use crate::text::{parse_u32_text, u32_text};
use crate::xml::{XmlElem, attr_lookup, index_named, lemma_index_named, same_named, unique_names};

verus! {

// ------------------------------------------------------------------
// The abstract value tree both serializers consume.
// ------------------------------------------------------------------

/// A decoded value.  Floats are carried as their validated text; objects
/// keep their entries in insertion order.
#[derive(Debug, PartialEq)]
pub enum JsonValue {
    Null,
    Bool(bool),
    UInt(u32),
    Int(i32),
    Float(String),
    Str(String),
    Array(Vec<JsonValue>),
    Object(Vec<(String, JsonValue)>),
}

/// The spec-level form of `JsonValue`.
pub enum JsonV {
    Null,
    Bool(bool),
    UInt(u32),
    Int(i32),
    Float(Seq<char>),
    Str(Seq<char>),
    Array(Seq<JsonV>),
    Object(Seq<(Seq<char>, JsonV)>),
}

pub open spec fn json_view(v: JsonValue) -> JsonV
    decreases v, 1int,
{
    match v {
        JsonValue::Null => JsonV::Null,
        JsonValue::Bool(b) => JsonV::Bool(b),
        JsonValue::UInt(n) => JsonV::UInt(n),
        JsonValue::Int(n) => JsonV::Int(n),
        JsonValue::Float(s) => JsonV::Float(s@),
        JsonValue::Str(s) => JsonV::Str(s@),
        JsonValue::Array(items) => JsonV::Array(jsons_view(items@)),
        JsonValue::Object(entries) => JsonV::Object(entries_view(entries@)),
    }
}

pub open spec fn jsons_view(s: Seq<JsonValue>) -> Seq<JsonV>
    decreases s, 0int,
{
    if s.len() == 0 {
        Seq::<JsonV>::empty()
    } else {
        jsons_view(s.drop_last()).push(json_view(s.last()))
    }
}

pub open spec fn entries_view(s: Seq<(String, JsonValue)>) -> Seq<(Seq<char>, JsonV)>
    decreases s, 0int,
{
    if s.len() == 0 {
        Seq::<(Seq<char>, JsonV)>::empty()
    } else {
        entries_view(s.drop_last()).push((s.last().0@, json_view(s.last().1)))
    }
}

pub proof fn lemma_jsons_view_index(s: Seq<JsonValue>)
    ensures
        jsons_view(s).len() == s.len(),
        forall|i: int| 0 <= i < s.len() ==> jsons_view(s)[i] == json_view(s[i]),
    decreases s.len(),
{
    if s.len() > 0 {
        lemma_jsons_view_index(s.drop_last());
    }
}

pub proof fn lemma_entries_view_index(s: Seq<(String, JsonValue)>)
    ensures
        entries_view(s).len() == s.len(),
        forall|i: int|
            0 <= i < s.len() ==> entries_view(s)[i] == (s[i].0@, json_view(s[i].1)),
    decreases s.len(),
{
    if s.len() > 0 {
        lemma_entries_view_index(s.drop_last());
    }
}

impl View for JsonValue {
    type V = JsonV;

    open spec fn view(&self) -> JsonV {
        json_view(*self)
    }
}

// ------------------------------------------------------------------
// The recursive decode to a value tree, mirrored by spec functions.
// ------------------------------------------------------------------

pub open spec fn text_json(t: Option<String>) -> JsonV {
    match t {
        Some(s) => JsonV::Str(s@),
        None => JsonV::Null,
    }
}

/// One multilingual entry: a `language` element with a numeric `id`
/// attribute; its value is the pair of that id and the element's text.
pub open spec fn spec_lang_item(c: XmlElem) -> Result<JsonV, ErrorKind> {
    if c.name@ != "language"@ {
        Err(ErrorKind::Structure)
    } else {
        match attr_lookup(c.attrs@, "id"@) {
            None => Err(ErrorKind::Structure),
            Some(v) => match u32_text(v) {
                None => Err(ErrorKind::Parse),
                Some(id) => Ok(
                    JsonV::Object(seq![("id"@, JsonV::UInt(id)), ("text"@, text_json(c.text))]),
                ),
            },
        }
    }
}

pub open spec fn spec_lang_items(s: Seq<XmlElem>) -> Result<Seq<JsonV>, ErrorKind>
    decreases s.len(),
{
    if s.len() == 0 {
        Ok(Seq::<JsonV>::empty())
    } else {
        match spec_lang_items(s.drop_last()) {
            Err(k) => Err(k),
            Ok(items) => match spec_lang_item(s.last()) {
                Err(k) => Err(k),
                Ok(v) => Ok(items.push(v)),
            },
        }
    }
}

/// The value of one element under a field type.  Scalars follow the shared
/// primitive rules; a list seals one array over the same-named children; a
/// record collects its declared fields from the uniquely named children,
/// omitting absent ones.
pub open spec fn spec_node_json(ty: TypeV, e: XmlElem) -> Result<JsonV, ErrorKind>
    decreases e, 1int, 2int,
{
    match ty {
        TypeV::Int32 => match spec_prim_i32(text_view(e.text)) {
            Ok(Some(v)) => Ok(JsonV::Int(v)),
            Ok(None) => Ok(JsonV::Null),
            Err(k) => Err(k),
        },
        TypeV::UInt32 => match spec_prim_u32(text_view(e.text)) {
            Ok(Some(v)) => Ok(JsonV::UInt(v)),
            Ok(None) => Ok(JsonV::Null),
            Err(k) => Err(k),
        },
        TypeV::Float64 => match spec_prim_float_strict(text_view(e.text)) {
            Ok(Some(m)) => Ok(JsonV::Float(m)),
            Ok(None) => Ok(JsonV::Null),
            Err(k) => Err(k),
        },
        TypeV::Utf8 => Ok(text_json(e.text)),
        TypeV::Bool => match spec_prim_bool(text_view(e.text)) {
            Ok(Some(b)) => Ok(JsonV::Bool(b)),
            Ok(None) => Ok(JsonV::Null),
            Err(k) => Err(k),
        },
        TypeV::Language(_) => if !same_named(e.children@) {
            Err(ErrorKind::Structure)
        } else {
            match spec_lang_items(e.children@) {
                Err(k) => Err(k),
                Ok(items) => Ok(JsonV::Array(items)),
            }
        },
        TypeV::List(fs) => if fs.len() != 1 {
            Err(ErrorKind::InvariantViolation)
        } else if !same_named(e.children@) {
            Err(ErrorKind::Structure)
        } else {
            match spec_list_items(fs[0], e.children@) {
                Err(k) => Err(k),
                Ok(items) => Ok(JsonV::Array(items)),
            }
        },
        TypeV::Record(fields) => spec_record_json(fields, e),
    }
}

/// The array items of a list field: every child must bear the element
/// field's name; each becomes a one-entry object around its value.
pub open spec fn spec_list_items(f: FieldV, s: Seq<XmlElem>) -> Result<Seq<JsonV>, ErrorKind>
    decreases s, 0int, 0int,
{
    if s.len() == 0 {
        Ok(Seq::<JsonV>::empty())
    } else {
        match spec_list_items(f, s.drop_last()) {
            Err(k) => Err(k),
            Ok(items) => {
                let c = s.last();
                if c.name@ != f.name {
                    Err(ErrorKind::Structure)
                } else {
                    match spec_node_json(f.ty, c) {
                        Err(k) => Err(k),
                        Ok(v) => Ok(items.push(JsonV::Object(seq![(f.name, v)]))),
                    }
                }
            },
        }
    }
}

/// The object entries of a record: its declared fields in order, each
/// decoded from the matching child where one exists, and omitted where
/// none does.
pub open spec fn spec_record_entries(fields: Seq<FieldV>, e: XmlElem) -> Result<
    Seq<(Seq<char>, JsonV)>,
    ErrorKind,
>
    decreases e, 0int, fields.len(),
{
    if fields.len() == 0 {
        Ok(Seq::<(Seq<char>, JsonV)>::empty())
    } else {
        match spec_record_entries(fields.drop_last(), e) {
            Err(k) => Err(k),
            Ok(es) => {
                let f = fields.last();
                let idx = index_named(e.children@, f.name);
                if idx < 0 {
                    Ok(es)
                } else {
                    proof {
                        lemma_index_named(e.children@, f.name);
                    }
                    match spec_node_json(f.ty, e.children@[idx]) {
                        Err(k) => Err(k),
                        Ok(v) => Ok(es.push((f.name, v))),
                    }
                }
            },
        }
    }
}

/// On a successful record decode, every present declared field's own
/// decode succeeded.
pub proof fn lemma_record_entries_ok(fields: Seq<FieldV>, e: XmlElem)
    ensures
        spec_record_entries(fields, e) is Ok ==> forall|j: int|
            0 <= j < fields.len() && index_named(e.children@, (#[trigger] fields[j]).name) >= 0
                ==> spec_node_json(fields[j].ty, e.children@[index_named(
                e.children@,
                fields[j].name,
            )]) is Ok,
    decreases fields.len(),
{
    if fields.len() > 0 && spec_record_entries(fields, e) is Ok {
        let rest = fields.drop_last();
        lemma_record_entries_ok(rest, e);
        assert forall|j: int|
            0 <= j < fields.len() && index_named(e.children@, (#[trigger] fields[j]).name) >= 0
                implies spec_node_json(fields[j].ty, e.children@[index_named(
                e.children@,
                fields[j].name,
            )]) is Ok by {
            if j < fields.len() - 1 {
                assert(fields[j] == rest[j]);
            } else {
                assert(fields[j] == fields.last());
            }
        }
    }
}

/// On a successful document decode, every row's own decode succeeded.
pub proof fn lemma_spec_rows_ok(ty: TypeV, s: Seq<XmlElem>)
    ensures
        spec_rows(ty, s) is Ok ==> forall|i: int|
            0 <= i < s.len() ==> spec_node_json(ty, #[trigger] s[i]) is Ok,
    decreases s.len(),
{
    if s.len() > 0 && spec_rows(ty, s) is Ok {
        lemma_spec_rows_ok(ty, s.drop_last());
        assert forall|i: int| 0 <= i < s.len() implies spec_node_json(ty, #[trigger] s[i]) is Ok by {
            if i < s.len() - 1 {
                assert(s[i] == s.drop_last()[i]);
            } else {
                assert(s[i] == s.last());
            }
        }
    }
}

/// A record value: the children must be uniquely named; the value is the
/// object of the present declared fields.
pub open spec fn spec_record_json(fields: Seq<FieldV>, e: XmlElem) -> Result<JsonV, ErrorKind>
    decreases e, 0int, fields.len() + 1,
{
    if !unique_names(e.children@) {
        Err(ErrorKind::DuplicateField)
    } else {
        match spec_record_entries(fields, e) {
            Err(k) => Err(k),
            Ok(es) => Ok(JsonV::Object(es)),
        }
    }
}

proof fn lemma_lang_items_take_step(s: Seq<XmlElem>, i: int)
    requires
        0 <= i < s.len(),
    ensures
        spec_lang_items(s.take(i + 1)) == (match spec_lang_items(s.take(i)) {
            Err(k) => Err(k),
            Ok(items) => match spec_lang_item(s[i]) {
                Err(k) => Err(k),
                Ok(v) => Ok(items.push(v)),
            },
        }),
{
    let p = s.take(i + 1);
    assert(p.drop_last() =~= s.take(i));
    assert(p.last() == s[i]);
}

proof fn lemma_lang_items_err_persists(s: Seq<XmlElem>, i: int)
    requires
        0 <= i <= s.len(),
        spec_lang_items(s.take(i)) is Err,
    ensures
        spec_lang_items(s) == spec_lang_items(s.take(i)),
    decreases s.len() - i,
{
    if i == s.len() {
        assert(s.take(i) =~= s);
    } else {
        lemma_lang_items_take_step(s, i);
        lemma_lang_items_err_persists(s, i + 1);
    }
}

proof fn lemma_list_items_take_step(f: FieldV, s: Seq<XmlElem>, i: int)
    requires
        0 <= i < s.len(),
    ensures
        spec_list_items(f, s.take(i + 1)) == (match spec_list_items(f, s.take(i)) {
            Err(k) => Err(k),
            Ok(items) => {
                if s[i].name@ != f.name {
                    Err(ErrorKind::Structure)
                } else {
                    match spec_node_json(f.ty, s[i]) {
                        Err(k) => Err(k),
                        Ok(v) => Ok(items.push(JsonV::Object(seq![(f.name, v)]))),
                    }
                }
            },
        }),
{
    let p = s.take(i + 1);
    assert(p.drop_last() =~= s.take(i));
    assert(p.last() == s[i]);
}

proof fn lemma_list_items_err_persists(f: FieldV, s: Seq<XmlElem>, i: int)
    requires
        0 <= i <= s.len(),
        spec_list_items(f, s.take(i)) is Err,
    ensures
        spec_list_items(f, s) == spec_list_items(f, s.take(i)),
    decreases s.len() - i,
{
    if i == s.len() {
        assert(s.take(i) =~= s);
    } else {
        lemma_list_items_take_step(f, s, i);
        lemma_list_items_err_persists(f, s, i + 1);
    }
}

proof fn lemma_record_entries_take_step(fields: Seq<FieldV>, e: XmlElem, i: int)
    requires
        0 <= i < fields.len(),
    ensures
        spec_record_entries(fields.take(i + 1), e) == (match spec_record_entries(
            fields.take(i),
            e,
        ) {
            Err(k) => Err(k),
            Ok(es) => {
                let f = fields[i];
                let idx = index_named(e.children@, f.name);
                if idx < 0 {
                    Ok(es)
                } else {
                    match spec_node_json(f.ty, e.children@[idx]) {
                        Err(k) => Err(k),
                        Ok(v) => Ok(es.push((f.name, v))),
                    }
                }
            },
        }),
{
    let p = fields.take(i + 1);
    assert(p.drop_last() =~= fields.take(i));
    assert(p.last() == fields[i]);
}

proof fn lemma_record_entries_err_persists(fields: Seq<FieldV>, e: XmlElem, i: int)
    requires
        0 <= i <= fields.len(),
        spec_record_entries(fields.take(i), e) is Err,
    ensures
        spec_record_entries(fields, e) == spec_record_entries(fields.take(i), e),
    decreases fields.len() - i,
{
    if i == fields.len() {
        assert(fields.take(i) =~= fields);
    } else {
        lemma_record_entries_take_step(fields, e, i);
        lemma_record_entries_err_persists(fields, e, i + 1);
    }
}

// ------------------------------------------------------------------
// Executable decode.
// ------------------------------------------------------------------

/// Decodes one list item: the element must bear the field's name; its
/// value is wrapped as a one-entry object.
pub fn parse_xml_list_field(p: Parser<'_>, field: &Field) -> (r: Result<JsonValue, DecodeError>)
    ensures
        match r {
            Ok(v) => ({
                &&& p.node.name@ == field@.name
                &&& spec_node_json(field@.ty, *p.node) matches Ok(inner)
                &&& v@ == JsonV::Object(seq![(field@.name, inner)])
            }),
            Err(e) => extends_path(e.path@, p.path@) && if p.node.name@ != field@.name {
                e.kind == ErrorKind::Structure
            } else {
                spec_node_json(field@.ty, *p.node) == Err::<JsonV, ErrorKind>(e.kind)
            },
        },
    decreases *p.node, 2int,
{
    let ghost e = *p.node;
    proof {
        lemma_extends_path_refl(p.path@);
    }
    let key = field.name.clone();
    let p = p.named(field.name.as_str())?;
    let value = parse_xml_node_to_json(p, &field.ty)?;
    let mut entries: Vec<(String, JsonValue)> = Vec::new();
    let ghost vv = value@;
    entries.push((key, value));
    proof {
        lemma_entries_view_index(entries@);
        assert(entries_view(entries@) =~= seq![(field@.name, vv)]);
    }
    Ok(JsonValue::Object(entries))
}

/// Decodes a record from an element's uniquely named children.
pub fn parse_xml_record_to_json(p: &Parser<'_>, record: &Record) -> (r: Result<
    JsonValue,
    DecodeError,
>)
    ensures
        match r {
            Ok(v) => spec_record_json(record@, *p.node) == Ok::<JsonV, ErrorKind>(v@),
            Err(e) => spec_record_json(record@, *p.node) == Err::<JsonV, ErrorKind>(e.kind)
                && extends_path(e.path@, p.path@),
        },
    decreases *p.node, 0int,
{
    proof {
        lemma_extends_path_refl(p.path@);
    }
    if !p.node.children_unique_named() {
        return Err(DecodeError::new(ErrorKind::DuplicateField, p.breadcrumb()));
    }
    let ghost fieldsv = fields_view(record.fields@);
    proof {
        lemma_fields_view_index(record.fields@);
        assert(record.fields@.take(0) =~= Seq::<Field>::empty());
        assert(fieldsv.take(0) =~= fields_view(record.fields@.take(0)));
    }
    let n = record.fields.len();
    let mut entries: Vec<(String, JsonValue)> = Vec::new();
    let mut i: usize = 0;
    while i < n
        invariant
            n == record.fields@.len(),
            i <= n,
            fieldsv == fields_view(record.fields@),
            fieldsv.len() == n,
            forall|k: int| 0 <= k < n ==> fieldsv[k] == crate::schema::field_view(record.fields@[k]),
            unique_names(p.node.children@),
            spec_record_entries(fieldsv.take(i as int), *p.node) == Ok::<
                Seq<(Seq<char>, JsonV)>,
                ErrorKind,
            >(entries_view(entries@)),
        decreases n - i,
    {
        proof {
            lemma_record_entries_take_step(fieldsv, *p.node, i as int);
            assert(fieldsv.take(i + 1).drop_last() =~= fieldsv.take(i as int));
        }
        let f = &record.fields[i];
        match p.find_child(f.name.as_str()) {
            None => {
                proof {
                    lemma_index_named(p.node.children@, f.name@);
                }
            },
            Some(cp) => {
                proof {
                    lemma_index_named(p.node.children@, f.name@);
                }
                let key = f.name.clone();
                match parse_xml_node_to_json(cp, &f.ty) {
                    Err(err) => {
                        proof {
                            lemma_record_entries_err_persists(fieldsv, *p.node, i + 1);
                            lemma_extends_path_push(p.path@, cp.node.name);
                            lemma_extends_path_trans(err.path@, cp.path@, p.path@);
                        }
                        return Err(err);
                    },
                    Ok(v) => {
                        let ghost vv = v@;
                        let ghost pre = entries@;
                        entries.push((key, v));
                        proof {
                            assert(entries@.drop_last() =~= pre);
                        }
                    },
                }
            },
        }
        i = i + 1;
    }
    proof {
        assert(fieldsv.take(n as int) =~= fieldsv);
    }
    Ok(JsonValue::Object(entries))
}

/// Decodes one element to a value under a field type.
pub fn parse_xml_node_to_json(p: Parser<'_>, ty: &Type) -> (r: Result<JsonValue, DecodeError>)
    ensures
        match r {
            Ok(v) => spec_node_json(ty@, *p.node) == Ok::<JsonV, ErrorKind>(v@),
            Err(e) => spec_node_json(ty@, *p.node) == Err::<JsonV, ErrorKind>(e.kind)
                && extends_path(e.path@, p.path@),
        },
    decreases *p.node, 1int,
{
    proof {
        lemma_extends_path_refl(p.path@);
    }
    match ty {
        Type::Int32 => {
            match decode_i32_text(text_ref(&p.node.text)) {
                Ok(Some(v)) => Ok(JsonValue::Int(v)),
                Ok(None) => Ok(JsonValue::Null),
                Err(_) => Err(DecodeError::new(ErrorKind::Parse, p.breadcrumb())),
            }
        },
        Type::UInt32 => {
            match decode_u32_text(text_ref(&p.node.text)) {
                Ok(Some(v)) => Ok(JsonValue::UInt(v)),
                Ok(None) => Ok(JsonValue::Null),
                Err(_) => Err(DecodeError::new(ErrorKind::Parse, p.breadcrumb())),
            }
        },
        Type::Float64 => {
            match decode_float_text(text_ref(&p.node.text), true) {
                Ok(Some(m)) => Ok(JsonValue::Float(m)),
                Ok(None) => Ok(JsonValue::Null),
                Err(_) => Err(DecodeError::new(ErrorKind::Parse, p.breadcrumb())),
            }
        },
        Type::Utf8 => {
            match &p.node.text {
                Some(s) => Ok(JsonValue::Str(s.clone())),
                None => Ok(JsonValue::Null),
            }
        },
        Type::Bool => {
            match decode_bool_text(text_ref(&p.node.text)) {
                Ok(Some(b)) => Ok(JsonValue::Bool(b)),
                Ok(None) => Ok(JsonValue::Null),
                Err(_) => Err(DecodeError::new(ErrorKind::Parse, p.breadcrumb())),
            }
        },
        Type::Language(_) => {
            if !p.node.children_same_named() {
                return Err(DecodeError::new(ErrorKind::Structure, p.breadcrumb()));
            }
            let n = p.node.children.len();
            let mut items: Vec<JsonValue> = Vec::new();
            let mut i: usize = 0;
            proof {
                assert(p.node.children@.take(0) =~= Seq::<XmlElem>::empty());
            }
            while i < n
                invariant
                    n == p.node.children@.len(),
                    i <= n,
                    same_named(p.node.children@),
                    *ty matches Type::Language(_),
                    ty@ matches TypeV::Language(_),
                    spec_lang_items(p.node.children@.take(i as int)) == Ok::<
                        Seq<JsonV>,
                        ErrorKind,
                    >(jsons_view(items@)),
                decreases n - i,
            {
                proof {
                    lemma_lang_items_take_step(p.node.children@, i as int);
                }
                let cp = p.child(i);
                match decode_lang_item(&cp) {
                    Err(err) => {
                        proof {
                            lemma_lang_items_err_persists(p.node.children@, i + 1);
                            lemma_extends_path_refl(err.path@);
                            lemma_extends_path_push(p.path@, cp.node.name);
                            lemma_extends_path_trans(err.path@, cp.path@, p.path@);
                        }
                        return Err(err);
                    },
                    Ok(v) => {
                        let ghost pre = items@;
                        items.push(v);
                        proof {
                            assert(items@.drop_last() =~= pre);
                        }
                    },
                }
                i = i + 1;
            }
            proof {
                assert(p.node.children@.take(n as int) =~= p.node.children@);
            }
            Ok(JsonValue::Array(items))
        },
        Type::List(field) => {
            if !p.node.children_same_named() {
                return Err(DecodeError::new(ErrorKind::Structure, p.breadcrumb()));
            }
            decode_list_items(&p, field)
        },
        Type::Record(record) => parse_xml_record_to_json(&p, record),
    }
}

fn text_ref(t: &Option<String>) -> (r: Option<&str>)
    ensures
        match r {
            Some(s) => t matches Some(x) && x@ == s@,
            None => t is None,
        },
{
    match t {
        Some(s) => Some(s.as_str()),
        None => None,
    }
}

/// Decodes one multilingual entry.
fn decode_lang_item(cp: &Parser<'_>) -> (r: Result<JsonValue, DecodeError>)
    ensures
        match r {
            Ok(v) => spec_lang_item(*cp.node) == Ok::<JsonV, ErrorKind>(v@),
            Err(e) => spec_lang_item(*cp.node) == Err::<JsonV, ErrorKind>(e.kind) && e.path@
                == cp.path@,
        },
{
    if !crate::text::str_eq(cp.node.name.as_str(), "language") {
        return Err(DecodeError::new(ErrorKind::Structure, cp.breadcrumb()));
    }
    let id = match cp.node.attr("id") {
        None => {
            return Err(DecodeError::new(ErrorKind::Structure, cp.breadcrumb()));
        },
        Some(v) => match parse_u32_text(v) {
            None => {
                return Err(DecodeError::new(ErrorKind::Parse, cp.breadcrumb()));
            },
            Some(id) => id,
        },
    };
    let text = match &cp.node.text {
        Some(s) => JsonValue::Str(s.clone()),
        None => JsonValue::Null,
    };
    let mut entries: Vec<(String, JsonValue)> = Vec::new();
    let ghost tv = text@;
    entries.push((String::from_str("id"), JsonValue::UInt(id)));
    entries.push((String::from_str("text"), text));
    proof {
        lemma_entries_view_index(entries@);
        assert(entries_view(entries@) =~= seq![
            ("id"@, JsonV::UInt(id)),
            ("text"@, tv),
        ]);
    }
    Ok(JsonValue::Object(entries))
}

/// Decodes the items of a list field from an element's children, which
/// the caller has checked to share one name.
fn decode_list_items(p: &Parser<'_>, field: &Field) -> (r: Result<JsonValue, DecodeError>)
    requires
        same_named(p.node.children@),
    ensures
        match r {
            Ok(v) => ({
                &&& spec_list_items(field@, p.node.children@) matches Ok(items)
                &&& v@ == JsonV::Array(items)
            }),
            Err(e) => spec_list_items(field@, p.node.children@) == Err::<Seq<JsonV>, ErrorKind>(
                e.kind,
            ) && extends_path(e.path@, p.path@),
        },
    decreases *p.node, 0int,
{
    let n = p.node.children.len();
    let mut items: Vec<JsonValue> = Vec::new();
    let mut i: usize = 0;
    proof {
        assert(p.node.children@.take(0) =~= Seq::<XmlElem>::empty());
    }
    while i < n
        invariant
            n == p.node.children@.len(),
            i <= n,
            spec_list_items(field@, p.node.children@.take(i as int)) == Ok::<
                Seq<JsonV>,
                ErrorKind,
            >(jsons_view(items@)),
        decreases n - i,
    {
        proof {
            lemma_list_items_take_step(field@, p.node.children@, i as int);
        }
        let cp = p.child(i);
        match parse_xml_list_field(cp, field) {
            Err(err) => {
                proof {
                    lemma_list_items_err_persists(field@, p.node.children@, i + 1);
                    lemma_extends_path_push(p.path@, cp.node.name);
                    lemma_extends_path_trans(err.path@, cp.path@, p.path@);
                }
                return Err(err);
            },
            Ok(v) => {
                let ghost pre = items@;
                items.push(v);
                proof {
                    assert(items@.drop_last() =~= pre);
                }
            },
        }
        i = i + 1;
    }
    proof {
        assert(p.node.children@.take(n as int) =~= p.node.children@);
    }
    Ok(JsonValue::Array(items))
}

// ------------------------------------------------------------------
// Whole-document decode to rows of values.
// ------------------------------------------------------------------

/// The rows of a data document: the root's single child is the row
/// container; its same-named children are the rows, each decoded under
/// the row type and wrapped as a one-entry object under its tag name.
pub open spec fn spec_rows(ty: TypeV, s: Seq<XmlElem>) -> Result<Seq<JsonV>, ErrorKind>
    decreases s.len(),
{
    if s.len() == 0 {
        Ok(Seq::<JsonV>::empty())
    } else {
        match spec_rows(ty, s.drop_last()) {
            Err(k) => Err(k),
            Ok(rows) => {
                let c = s.last();
                match spec_node_json(ty, c) {
                    Err(k) => Err(k),
                    Ok(v) => Ok(rows.push(JsonV::Object(seq![(c.name@, v)]))),
                }
            },
        }
    }
}

pub open spec fn spec_data_jsonl(ty: TypeV, root: XmlElem) -> Result<Seq<JsonV>, ErrorKind> {
    if root.children@.len() != 1 {
        Err(ErrorKind::Structure)
    } else {
        let cont = root.children@[0];
        if !same_named(cont.children@) {
            Err(ErrorKind::Structure)
        } else {
            spec_rows(ty, cont.children@)
        }
    }
}

proof fn lemma_rows_take_step(ty: TypeV, s: Seq<XmlElem>, i: int)
    requires
        0 <= i < s.len(),
    ensures
        spec_rows(ty, s.take(i + 1)) == (match spec_rows(ty, s.take(i)) {
            Err(k) => Err(k),
            Ok(rows) => match spec_node_json(ty, s[i]) {
                Err(k) => Err(k),
                Ok(v) => Ok(rows.push(JsonV::Object(seq![(s[i].name@, v)]))),
            },
        }),
{
    let p = s.take(i + 1);
    assert(p.drop_last() =~= s.take(i));
    assert(p.last() == s[i]);
}

proof fn lemma_rows_err_persists(ty: TypeV, s: Seq<XmlElem>, i: int)
    requires
        0 <= i <= s.len(),
        spec_rows(ty, s.take(i)) is Err,
    ensures
        spec_rows(ty, s) == spec_rows(ty, s.take(i)),
    decreases s.len() - i,
{
    if i == s.len() {
        assert(s.take(i) =~= s);
    } else {
        lemma_rows_take_step(ty, s, i);
        lemma_rows_err_persists(ty, s, i + 1);
    }
}

/// Wraps a value as a one-entry object.
pub fn wrap_in_object(key: String, value: JsonValue) -> (r: JsonValue)
    ensures
        r@ == JsonV::Object(seq![(key@, value@)]),
{
    let ghost vv = value@;
    let mut entries: Vec<(String, JsonValue)> = Vec::new();
    entries.push((key, value));
    proof {
        lemma_entries_view_index(entries@);
        assert(entries_view(entries@) =~= seq![(key@, vv)]);
    }
    JsonValue::Object(entries)
}

/// Decodes a data document to one value per row.  The row type is the
/// schema's container field type.
pub fn parse_data_to_jsonl(p: Parser<'_>, schema: &Schema) -> (r: Result<
    Vec<JsonValue>,
    DecodeError,
>)
    requires
        schema.wf(),
    ensures
        ({
            let ty = fields_view(schema.record.fields@)[0].ty;
            match r {
                Ok(rows) => spec_data_jsonl(ty, *p.node) == Ok::<Seq<JsonV>, ErrorKind>(
                    jsons_view(rows@),
                ),
                Err(e) => spec_data_jsonl(ty, *p.node) == Err::<Seq<JsonV>, ErrorKind>(e.kind)
                    && extends_path(e.path@, p.path@),
            }
        }),
{
    proof {
        lemma_fields_view_index(schema.record.fields@);
        lemma_extends_path_refl(p.path@);
    }
    let ghost ty = fields_view(schema.record.fields@)[0].ty;
    let cont = p.single_child()?;
    proof {
        lemma_extends_path_push(p.path@, p.node.children@[0].name);
    }
    if !cont.node.children_same_named() {
        return Err(DecodeError::new(ErrorKind::Structure, cont.breadcrumb()));
    }
    let field0 = &schema.record.fields[0];
    let n = cont.node.children.len();
    let mut out: Vec<JsonValue> = Vec::new();
    let mut i: usize = 0;
    proof {
        assert(cont.node.children@.take(0) =~= Seq::<XmlElem>::empty());
    }
    while i < n
        invariant
            n == cont.node.children@.len(),
            i <= n,
            ty == field0@.ty,
            ty == fields_view(schema.record.fields@)[0].ty,
            schema.record.fields@.len() > 0,
            p.node.children@.len() == 1,
            *cont.node == p.node.children@[0],
            cont.path@ == p.path@.push(p.node.children@[0].name),
            same_named(cont.node.children@),
            spec_rows(ty, cont.node.children@.take(i as int)) == Ok::<Seq<JsonV>, ErrorKind>(
                jsons_view(out@),
            ),
        decreases n - i,
    {
        proof {
            lemma_rows_take_step(ty, cont.node.children@, i as int);
        }
        let cp = cont.child(i);
        let key = cp.node.name.clone();
        match parse_xml_node_to_json(cp, &field0.ty) {
            Err(err) => {
                proof {
                    lemma_rows_err_persists(ty, cont.node.children@, i + 1);
                    lemma_extends_path_push(p.path@, p.node.children@[0].name);
                    lemma_extends_path_push(cont.path@, cp.node.name);
                    lemma_extends_path_trans(err.path@, cp.path@, cont.path@);
                    lemma_extends_path_trans(err.path@, cont.path@, p.path@);
                }
                return Err(err);
            },
            Ok(v) => {
                let row = wrap_in_object(key, v);
                let ghost pre = out@;
                out.push(row);
                proof {
                    assert(out@.drop_last() =~= pre);
                }
            },
        }
        i = i + 1;
    }
    proof {
        assert(cont.node.children@.take(n as int) =~= cont.node.children@);
    }
    Ok(out)
}

/// Decodes a data document to one array value: the rows of the container,
/// as a list of one-entry objects under the container field's name.
pub fn parse_data_to_json(p: Parser<'_>, schema: &Schema) -> (r: Result<JsonValue, DecodeError>)
    requires
        schema.wf(),
    ensures
        ({
            let fv = fields_view(schema.record.fields@)[0];
            match r {
                Ok(v) => ({
                    &&& p.node.children@.len() == 1
                    &&& spec_node_json(TypeV::List(seq![fv]), p.node.children@[0]) == Ok::<
                        JsonV,
                        ErrorKind,
                    >(v@)
                }),
                Err(e) => extends_path(e.path@, p.path@) && (p.node.children@.len() != 1 && e.kind
                    == ErrorKind::Structure || p.node.children@.len() == 1 && spec_node_json(
                    TypeV::List(seq![fv]),
                    p.node.children@[0],
                ) == Err::<JsonV, ErrorKind>(e.kind)),
            }
        }),
{
    proof {
        lemma_fields_view_index(schema.record.fields@);
        lemma_extends_path_refl(p.path@);
    }
    let cont = p.single_child()?;
    proof {
        lemma_extends_path_push(p.path@, p.node.children@[0].name);
    }
    let field0 = &schema.record.fields[0];
    if !cont.node.children_same_named() {
        return Err(DecodeError::new(ErrorKind::Structure, cont.breadcrumb()));
    }
    match decode_list_items(&cont, field0) {
        Ok(v) => Ok(v),
        Err(err) => {
            proof {
                lemma_extends_path_trans(err.path@, cont.path@, p.path@);
            }
            Err(err)
        },
    }
}

} // verus!

use vstd::prelude::*;
use crate::error::{
    DecodeError, ErrorKind, extends_path, lemma_extends_path_push, lemma_extends_path_refl,
    lemma_extends_path_trans,
};
use crate::nav::{clone_strings, extended};
use crate::flat::{Association, DataType, Field, FieldF, Schema3, Schema3V};
use crate::prim::{
    decode_bool_text, decode_date_text, decode_float_text, decode_i32_text, decode_u32_text,
    spec_prim_bool, spec_prim_date, spec_prim_float, spec_prim_i32, spec_prim_u32, text_view,
};
use crate::text::{parse_u32_text, str_eq, u32_text};
use crate::xml::{XmlElem, attr_lookup, spec_parse_document, parse_document};

verus! {

// ------------------------------------------------------------------
// Cells, columns and batches.
// ------------------------------------------------------------------

/// One language-tagged text entry of a multilingual cell.
#[derive(Debug, PartialEq)]
pub struct LangItem {
    pub id: Option<u32>,
    pub text: Option<String>,
}

/// The spec-level form of `LangItem`.
pub struct LangItemV {
    pub id: Option<u32>,
    pub text: Option<Seq<char>>,
}

impl View for LangItem {
    type V = LangItemV;

    open spec fn view(&self) -> LangItemV {
        LangItemV {
            id: self.id,
            text: match self.text {
                Some(s) => Some(s@),
                None => None,
            },
        }
    }
}

/// One typed, possibly-null value of a column.  Floats are carried as
/// their validated text, dates as epoch milliseconds.
#[derive(Debug, PartialEq)]
pub enum Cell {
    Null,
    Int32(i32),
    UInt32(u32),
    Float64(String),
    Utf8(String),
    Boolean(bool),
    Date(i64),
    LangList(Vec<LangItem>),
}

/// The spec-level form of `Cell`.
pub enum CellV {
    Null,
    Int32(i32),
    UInt32(u32),
    Float64(Seq<char>),
    Utf8(Seq<char>),
    Boolean(bool),
    Date(i64),
    LangList(Seq<LangItemV>),
}

impl View for Cell {
    type V = CellV;

    open spec fn view(&self) -> CellV {
        match self {
            Cell::Null => CellV::Null,
            Cell::Int32(v) => CellV::Int32(*v),
            Cell::UInt32(v) => CellV::UInt32(*v),
            Cell::Float64(s) => CellV::Float64(s@),
            Cell::Utf8(s) => CellV::Utf8(s@),
            Cell::Boolean(b) => CellV::Boolean(*b),
            Cell::Date(ms) => CellV::Date(*ms),
            Cell::LangList(items) => CellV::LangList(items@.map_values(|x: LangItem| x@)),
        }
    }
}

/// One declared column with its decoded cells.
#[derive(Debug, PartialEq)]
pub struct Column {
    pub name: String,
    pub data_type: DataType,
    pub cells: Vec<Cell>,
}

/// One record of an association, its cells aligned with the association's
/// declared fields.
#[derive(Debug, PartialEq)]
pub struct AssocRecord {
    pub cells: Vec<Cell>,
}

/// One association's column: per row, either null or the list of decoded
/// records.
#[derive(Debug, PartialEq)]
pub struct AssocColumn {
    pub name: String,
    pub element_name: String,
    pub rows: Vec<Option<Vec<AssocRecord>>>,
}

/// A decoded batch: the declared columns, and — when associations are
/// declared — their per-row presence and their columns.
#[derive(Debug, PartialEq)]
pub struct Batch {
    pub columns: Vec<Column>,
    pub assoc_present: Vec<bool>,
    pub assoc_columns: Vec<AssocColumn>,
}

/// A decoded association list: one sequence of records, each a sequence
/// of cells.
pub type ListV = Seq<Seq<CellV>>;

pub open spec fn record_view(r: AssocRecord) -> Seq<CellV> {
    r.cells@.map_values(|c: Cell| c@)
}

pub open spec fn rows_view(rows: Seq<Option<Vec<AssocRecord>>>) -> Seq<Option<ListV>> {
    rows.map_values(
        |r: Option<Vec<AssocRecord>>|
            match r {
                None => None,
                Some(v) => Some(v@.map_values(|x: AssocRecord| record_view(x))),
            },
    )
}

/// The spec-level form of a batch.
pub struct BatchV {
    pub columns: Seq<Seq<CellV>>,
    pub present: Seq<bool>,
    pub assoc_rows: Seq<Seq<Option<ListV>>>,
}

impl View for Batch {
    type V = BatchV;

    open spec fn view(&self) -> BatchV {
        BatchV {
            columns: self.columns@.map_values(|c: Column| c.cells@.map_values(|x: Cell| x@)),
            present: self.assoc_present@,
            assoc_rows: self.assoc_columns@.map_values(|a: AssocColumn| rows_view(a.rows@)),
        }
    }
}

// ------------------------------------------------------------------
// Spec-level decode.
// ------------------------------------------------------------------

/// One multilingual entry: the `id` attribute (absent means null, present
/// but non-numeric is a parse error) and the verbatim text; an entry with
/// element children is rejected as an unknown field.
pub open spec fn spec_lang_cell(c: XmlElem) -> Result<LangItemV, ErrorKind> {
    if c.children@.len() > 0 {
        Err(ErrorKind::UnknownField)
    } else {
        match attr_lookup(c.attrs@, "id"@) {
            None => Ok(LangItemV { id: None, text: text_view(c.text) }),
            Some(v) => match u32_text(v) {
                None => Err(ErrorKind::Parse),
                Some(n) => Ok(LangItemV { id: Some(n), text: text_view(c.text) }),
            },
        }
    }
}

pub open spec fn spec_lang_cells(s: Seq<XmlElem>) -> Result<Seq<LangItemV>, ErrorKind>
    decreases s.len(),
{
    if s.len() == 0 {
        Ok(Seq::<LangItemV>::empty())
    } else {
        match spec_lang_cells(s.drop_last()) {
            Err(k) => Err(k),
            Ok(items) => match spec_lang_cell(s.last()) {
                Err(k) => Err(k),
                Ok(v) => Ok(items.push(v)),
            },
        }
    }
}

/// One cell of a declared type, decoded from a present field element
/// under the shared scalar rules; a multilingual cell seals one list over
/// the element's children.
pub open spec fn spec_cell(dt: DataType, e: XmlElem) -> Result<CellV, ErrorKind> {
    match dt {
        DataType::Int32 => match spec_prim_i32(text_view(e.text)) {
            Ok(Some(v)) => Ok(CellV::Int32(v)),
            Ok(None) => Ok(CellV::Null),
            Err(k) => Err(k),
        },
        DataType::UInt32 => match spec_prim_u32(text_view(e.text)) {
            Ok(Some(v)) => Ok(CellV::UInt32(v)),
            Ok(None) => Ok(CellV::Null),
            Err(k) => Err(k),
        },
        DataType::Float64 => match spec_prim_float(text_view(e.text)) {
            Ok(Some(m)) => Ok(CellV::Float64(m)),
            Ok(None) => Ok(CellV::Null),
            Err(k) => Err(k),
        },
        DataType::Boolean => match spec_prim_bool(text_view(e.text)) {
            Ok(Some(b)) => Ok(CellV::Boolean(b)),
            Ok(None) => Ok(CellV::Null),
            Err(k) => Err(k),
        },
        DataType::Date => match spec_prim_date(text_view(e.text)) {
            Ok(Some(ms)) => Ok(CellV::Date(ms)),
            Ok(None) => Ok(CellV::Null),
            Err(k) => Err(k),
        },
        DataType::Utf8 => Ok(
            match e.text {
                Some(s) => CellV::Utf8(s@),
                None => CellV::Null,
            },
        ),
        DataType::MultilingualUtf8 => match spec_lang_cells(e.children@) {
            Err(k) => Err(k),
            Ok(items) => Ok(CellV::LangList(items)),
        },
    }
}

/// The index of the first field named `n`, or `-1`.
pub open spec fn field_index(fields: Seq<FieldF>, n: Seq<char>) -> int
    decreases fields.len(),
{
    if fields.len() == 0 {
        -1
    } else if fields[0].name == n {
        0
    } else {
        let r = field_index(fields.drop_first(), n);
        if r < 0 {
            -1
        } else {
            r + 1
        }
    }
}

pub proof fn lemma_field_index(fields: Seq<FieldF>, n: Seq<char>)
    ensures
        field_index(fields, n) == -1 || (0 <= field_index(fields, n) < fields.len() && fields[
            field_index(fields, n)].name == n),
    decreases fields.len(),
{
    if fields.len() > 0 && fields[0].name != n {
        lemma_field_index(fields.drop_first(), n);
    }
}

proof fn lemma_field_index_at(fields: Seq<FieldF>, n: Seq<char>, i: int)
    requires
        0 <= i < fields.len(),
        fields[i].name == n,
        forall|k: int| 0 <= k < i ==> (#[trigger] fields[k]).name != n,
    ensures
        field_index(fields, n) == i,
    decreases i,
{
    if i > 0 {
        let t = fields.drop_first();
        assert(forall|k: int| 0 <= k < i - 1 ==> (#[trigger] t[k]).name != n);
        lemma_field_index_at(t, n, i - 1);
    }
}

proof fn lemma_field_index_none(fields: Seq<FieldF>, n: Seq<char>)
    requires
        forall|k: int| 0 <= k < fields.len() ==> (#[trigger] fields[k]).name != n,
    ensures
        field_index(fields, n) == -1,
    decreases fields.len(),
{
    if fields.len() > 0 {
        let t = fields.drop_first();
        assert(forall|k: int| 0 <= k < t.len() ==> (#[trigger] t[k]).name != n) by {
            assert(forall|k: int| 0 <= k < t.len() ==> t[k] == fields[k + 1]);
        }
        lemma_field_index_none(t, n);
    }
}

/// The slots of one record row after dispatching the children, left to
/// right: a child with no matching field is an unknown field; a second
/// child for one field is a column misalignment; otherwise the child's
/// cell fills the field's slot.
pub open spec fn spec_record_slots(fields: Seq<FieldF>, s: Seq<XmlElem>) -> Result<
    Seq<Option<CellV>>,
    ErrorKind,
>
    decreases s.len(),
{
    if s.len() == 0 {
        Ok(Seq::new(fields.len(), |j: int| None::<CellV>))
    } else {
        match spec_record_slots(fields, s.drop_last()) {
            Err(k) => Err(k),
            Ok(slots) => {
                let c = s.last();
                let j = field_index(fields, c.name@);
                if j < 0 {
                    Err(ErrorKind::UnknownField)
                } else if slots[j] is Some {
                    Err(ErrorKind::InvariantViolation)
                } else {
                    match spec_cell(fields[j].dt, c) {
                        Err(k) => Err(k),
                        Ok(v) => Ok(slots.update(j, Some(v))),
                    }
                }
            },
        }
    }
}

/// Pairwise distinct field names.
pub open spec fn unique_field_names(fields: Seq<FieldF>) -> bool {
    forall|i: int, j: int|
        0 <= i < j < fields.len() ==> (#[trigger] fields[i]).name != (#[trigger] fields[j]).name
}

/// What the record slots hold on success: for each field, the cell of the
/// first child bearing its name, or nothing where no child does.
pub proof fn lemma_record_slots_characterization(fields: Seq<FieldF>, s: Seq<XmlElem>)
    requires
        unique_field_names(fields),
    ensures
        spec_record_slots(fields, s) matches Ok(slots) ==> {
            &&& slots.len() == fields.len()
            &&& forall|j: int|
                0 <= j < fields.len() ==> (#[trigger] slots[j]) == ({
                    let idx = crate::xml::index_named(s, fields[j].name);
                    if idx >= 0 {
                        Some(spec_cell(fields[j].dt, s[idx])->Ok_0)
                    } else {
                        None
                    }
                }) && (crate::xml::index_named(s, fields[j].name) >= 0 ==> spec_cell(
                    fields[j].dt,
                    s[crate::xml::index_named(s, fields[j].name)],
                ) is Ok)
        },
    decreases s.len(),
{
    if spec_record_slots(fields, s) is Ok && s.len() > 0 {
        let rest = s.drop_last();
        lemma_record_slots_characterization(fields, rest);
        let prev = spec_record_slots(fields, rest)->Ok_0;
        let slots = spec_record_slots(fields, s)->Ok_0;
        let c = s.last();
        let j0 = field_index(fields, c.name@);
        lemma_field_index(fields, c.name@);
        assert(s =~= rest.push(c));
        assert forall|j: int| 0 <= j < fields.len() implies (#[trigger] slots[j]) == ({
            let idx = crate::xml::index_named(s, fields[j].name);
            if idx >= 0 {
                Some(spec_cell(fields[j].dt, s[idx])->Ok_0)
            } else {
                None
            }
        }) && (crate::xml::index_named(s, fields[j].name) >= 0 ==> spec_cell(
            fields[j].dt,
            s[crate::xml::index_named(s, fields[j].name)],
        ) is Ok) by {
            crate::xml::lemma_index_named_snoc(rest, c, fields[j].name);
            assert(s == rest.push(c));
            if j == j0 {
                assert(c.name@ == fields[j0].name);
                assert(prev[j0] is None);
                assert(crate::xml::index_named(rest, fields[j0].name) == -1);
                assert(crate::xml::index_named(s, fields[j0].name) == rest.len());
                assert(s[rest.len() as int] == c);
                assert(spec_cell(fields[j0].dt, c) is Ok);
                assert(slots[j0] == Some(spec_cell(fields[j0].dt, c)->Ok_0));
            } else {
                assert(fields[j].name != fields[j0].name);
                assert(fields[j].name != c.name@);
                assert(slots[j] == prev[j]);
                let idx = crate::xml::index_named(rest, fields[j].name);
                assert(crate::xml::index_named(s, fields[j].name) == idx);
                if idx >= 0 {
                    crate::xml::lemma_index_named(rest, fields[j].name);
                    assert(s[idx] == rest[idx]);
                }
            }
        }
    }
}

/// Null-pads the unfilled slots.
pub open spec fn unslot(slots: Seq<Option<CellV>>) -> Seq<CellV> {
    Seq::new(
        slots.len(),
        |j: int|
            match slots[j] {
                Some(v) => v,
                None => CellV::Null,
            },
    )
}

/// One association record, decoded from one repeated element.
pub open spec fn spec_assoc_record(fields: Seq<FieldF>, item: XmlElem) -> Result<
    Seq<CellV>,
    ErrorKind,
> {
    match spec_record_slots(fields, item.children@) {
        Err(k) => Err(k),
        Ok(slots) => Ok(unslot(slots)),
    }
}

/// The records of one association element, in order.
pub open spec fn spec_assoc_items(fields: Seq<FieldF>, s: Seq<XmlElem>) -> Result<
    ListV,
    ErrorKind,
>
    decreases s.len(),
{
    if s.len() == 0 {
        Ok(Seq::<Seq<CellV>>::empty())
    } else {
        match spec_assoc_items(fields, s.drop_last()) {
            Err(k) => Err(k),
            Ok(items) => match spec_assoc_record(fields, s.last()) {
                Err(k) => Err(k),
                Ok(rec) => Ok(items.push(rec)),
            },
        }
    }
}

/// The index of the first association named `n`, or `-1`.
pub open spec fn assoc_index(assocs: Seq<crate::flat::AssocV>, n: Seq<char>) -> int
    decreases assocs.len(),
{
    if assocs.len() == 0 {
        -1
    } else if assocs[0].name == n {
        0
    } else {
        let r = assoc_index(assocs.drop_first(), n);
        if r < 0 {
            -1
        } else {
            r + 1
        }
    }
}

proof fn lemma_assoc_index_at(assocs: Seq<crate::flat::AssocV>, n: Seq<char>, i: int)
    requires
        0 <= i < assocs.len(),
        assocs[i].name == n,
        forall|k: int| 0 <= k < i ==> (#[trigger] assocs[k]).name != n,
    ensures
        assoc_index(assocs, n) == i,
    decreases i,
{
    if i > 0 {
        let t = assocs.drop_first();
        assert(forall|k: int| 0 <= k < i - 1 ==> (#[trigger] t[k]).name != n);
        lemma_assoc_index_at(t, n, i - 1);
    }
}

proof fn lemma_assoc_index_none(assocs: Seq<crate::flat::AssocV>, n: Seq<char>)
    requires
        forall|k: int| 0 <= k < assocs.len() ==> (#[trigger] assocs[k]).name != n,
    ensures
        assoc_index(assocs, n) == -1,
    decreases assocs.len(),
{
    if assocs.len() > 0 {
        let t = assocs.drop_first();
        assert(forall|k: int| 0 <= k < t.len() ==> (#[trigger] t[k]).name != n) by {
            assert(forall|k: int| 0 <= k < t.len() ==> t[k] == assocs[k + 1]);
        }
        lemma_assoc_index_none(t, n);
    }
}

/// The association slots of one `associations` element: each child names
/// a declared association and holds its repeated records; an unmatched
/// name is an unknown field, a repeated one a misalignment.
pub open spec fn spec_block_slots(assocs: Seq<crate::flat::AssocV>, s: Seq<XmlElem>) -> Result<
    Seq<Option<ListV>>,
    ErrorKind,
>
    decreases s.len(),
{
    if s.len() == 0 {
        Ok(Seq::new(assocs.len(), |k: int| None::<ListV>))
    } else {
        match spec_block_slots(assocs, s.drop_last()) {
            Err(k) => Err(k),
            Ok(slots) => {
                let g = s.last();
                let k = assoc_index(assocs, g.name@);
                if k < 0 {
                    Err(ErrorKind::UnknownField)
                } else if slots[k] is Some {
                    Err(ErrorKind::InvariantViolation)
                } else {
                    match spec_assoc_items(assocs[k].fields, g.children@) {
                        Err(e) => Err(e),
                        Ok(items) => Ok(slots.update(k, Some(items))),
                    }
                }
            },
        }
    }
}

/// The state of one row as its children are dispatched: the field slots,
/// and the association slots once an `associations` element was seen.
pub open spec fn spec_row_fold(sv: Schema3V, s: Seq<XmlElem>) -> Result<
    (Seq<Option<CellV>>, Option<Seq<Option<ListV>>>),
    ErrorKind,
>
    decreases s.len(),
{
    if s.len() == 0 {
        Ok((Seq::new(sv.fields.len(), |j: int| None::<CellV>), None::<Seq<Option<ListV>>>))
    } else {
        match spec_row_fold(sv, s.drop_last()) {
            Err(k) => Err(k),
            Ok((slots, ablock)) => {
                let c = s.last();
                if sv.associations.len() > 0 && c.name@ == "associations"@ {
                    if ablock is Some {
                        Err(ErrorKind::InvariantViolation)
                    } else {
                        match spec_block_slots(sv.associations, c.children@) {
                            Err(k) => Err(k),
                            Ok(b) => Ok((slots, Some(b))),
                        }
                    }
                } else {
                    let j = field_index(sv.fields, c.name@);
                    if j < 0 {
                        Err(ErrorKind::UnknownField)
                    } else if slots[j] is Some {
                        Err(ErrorKind::InvariantViolation)
                    } else {
                        match spec_cell(sv.fields[j].dt, c) {
                            Err(k) => Err(k),
                            Ok(v) => Ok((slots.update(j, Some(v)), ablock)),
                        }
                    }
                }
            },
        }
    }
}

/// One decoded row: its null-padded cells, whether an `associations`
/// element was present, and the per-association lists (null where the
/// association was absent).
pub open spec fn spec_row(sv: Schema3V, row: XmlElem) -> Result<
    (Seq<CellV>, bool, Seq<Option<ListV>>),
    ErrorKind,
> {
    match spec_row_fold(sv, row.children@) {
        Err(k) => Err(k),
        Ok((slots, ablock)) => Ok(
            (
                unslot(slots),
                ablock is Some,
                match ablock {
                    Some(b) => b,
                    None => Seq::new(sv.associations.len(), |k: int| None::<ListV>),
                },
            ),
        ),
    }
}

/// Without declared associations, a row's fold is exactly the record-slot
/// dispatch of its children, and no association block arises.
pub proof fn lemma_row_fold_no_assoc(sv: Schema3V, s: Seq<XmlElem>)
    requires
        sv.associations.len() == 0,
    ensures
        spec_row_fold(sv, s) == (match spec_record_slots(sv.fields, s) {
            Err(k) => Err::<(Seq<Option<CellV>>, Option<Seq<Option<ListV>>>), ErrorKind>(k),
            Ok(slots) => Ok((slots, None)),
        }),
    decreases s.len(),
{
    if s.len() > 0 {
        lemma_row_fold_no_assoc(sv, s.drop_last());
    }
}

/// The batch of a sequence of rows: each row appends exactly one cell to
/// every column, one presence bit, and one entry to every association
/// column.
pub open spec fn spec_doc_fold(sv: Schema3V, rows: Seq<XmlElem>) -> Result<BatchV, ErrorKind>
    decreases rows.len(),
{
    if rows.len() == 0 {
        Ok(
            BatchV {
                columns: Seq::new(sv.fields.len(), |j: int| Seq::<CellV>::empty()),
                present: Seq::<bool>::empty(),
                assoc_rows: Seq::new(sv.associations.len(), |k: int| Seq::<Option<ListV>>::empty()),
            },
        )
    } else {
        match spec_doc_fold(sv, rows.drop_last()) {
            Err(k) => Err(k),
            Ok(b) => match spec_row(sv, rows.last()) {
                Err(k) => Err(k),
                Ok((cells, p, arows)) => Ok(
                    BatchV {
                        columns: Seq::new(sv.fields.len(), |j: int| b.columns[j].push(cells[j])),
                        present: b.present.push(p),
                        assoc_rows: Seq::new(
                            sv.associations.len(),
                            |k: int| b.assoc_rows[k].push(arows[k]),
                        ),
                    },
                ),
            },
        }
    }
}

/// What a decoded batch holds: on success every row decoded, and column
/// `j` holds row `i`'s cell at position `i`.
pub proof fn lemma_doc_fold_characterization(sv: Schema3V, rows: Seq<XmlElem>)
    ensures
        spec_doc_fold(sv, rows) matches Ok(b) ==> forall|i: int|
            0 <= i < rows.len() ==> spec_row(sv, #[trigger] rows[i]) is Ok && (forall|j: int|
                0 <= j < sv.fields.len() ==> b.columns[j][i] == spec_row(
                    sv,
                    rows[i],
                )->Ok_0.0[j]),
    decreases rows.len(),
{
    if rows.len() > 0 && spec_doc_fold(sv, rows) is Ok {
        let rest = rows.drop_last();
        lemma_doc_fold_characterization(sv, rest);
        lemma_null_padding(sv, rest);
        let b0 = spec_doc_fold(sv, rest)->Ok_0;
        let b = spec_doc_fold(sv, rows)->Ok_0;
        let last = rows.last();
        assert forall|i: int|
            0 <= i < rows.len() implies spec_row(sv, #[trigger] rows[i]) is Ok && (forall|j: int|
                0 <= j < sv.fields.len() ==> b.columns[j][i] == spec_row(
                    sv,
                    rows[i],
                )->Ok_0.0[j]) by {
            if i < rows.len() - 1 {
                assert(rows[i] == rest[i]);
                assert forall|j: int| 0 <= j < sv.fields.len() implies b.columns[j][i]
                    == spec_row(sv, rows[i])->Ok_0.0[j] by {
                    assert(b.columns[j] == b0.columns[j].push(spec_row(sv, last)->Ok_0.0[j]));
                    assert(b0.columns[j].len() == rest.len());
                }
            } else {
                assert(rows[i] == last);
                assert forall|j: int| 0 <= j < sv.fields.len() implies b.columns[j][i]
                    == spec_row(sv, rows[i])->Ok_0.0[j] by {
                    assert(b.columns[j] == b0.columns[j].push(spec_row(sv, last)->Ok_0.0[j]));
                    assert(b0.columns[j].len() == rest.len());
                }
            }
        }
    }
}

/// A whole data document: the root's first child is the row container,
/// and its element children are the rows.
pub open spec fn spec_decode_doc(sv: Schema3V, root: XmlElem) -> Result<BatchV, ErrorKind> {
    if root.children@.len() == 0 {
        Err(ErrorKind::Structure)
    } else {
        spec_doc_fold(sv, root.children@[0].children@)
    }
}

/// The null-padding law: a decoded batch has one cell per row in every
/// column, one presence bit per row, and one entry per row in every
/// association column.
pub proof fn lemma_null_padding(sv: Schema3V, rows: Seq<XmlElem>)
    ensures
        spec_doc_fold(sv, rows) matches Ok(b) ==> {
            &&& b.columns.len() == sv.fields.len()
            &&& forall|j: int| 0 <= j < b.columns.len() ==> (#[trigger] b.columns[j]).len()
                == rows.len()
            &&& b.present.len() == rows.len()
            &&& b.assoc_rows.len() == sv.associations.len()
            &&& forall|k: int| 0 <= k < b.assoc_rows.len() ==> (#[trigger] b.assoc_rows[k]).len()
                == rows.len()
        },
    decreases rows.len(),
{
    if rows.len() > 0 {
        lemma_null_padding(sv, rows.drop_last());
    }
}

// ------------------------------------------------------------------
// Fold step lemmas.
// ------------------------------------------------------------------

proof fn lemma_lang_cells_step(s: Seq<XmlElem>, i: int)
    requires
        0 <= i < s.len(),
    ensures
        spec_lang_cells(s.take(i + 1)) == (match spec_lang_cells(s.take(i)) {
            Err(k) => Err(k),
            Ok(items) => match spec_lang_cell(s[i]) {
                Err(k) => Err(k),
                Ok(v) => Ok(items.push(v)),
            },
        }),
{
    let p = s.take(i + 1);
    assert(p.drop_last() =~= s.take(i));
    assert(p.last() == s[i]);
}

proof fn lemma_lang_cells_err_persists(s: Seq<XmlElem>, i: int)
    requires
        0 <= i <= s.len(),
        spec_lang_cells(s.take(i)) is Err,
    ensures
        spec_lang_cells(s) == spec_lang_cells(s.take(i)),
    decreases s.len() - i,
{
    if i == s.len() {
        assert(s.take(i) =~= s);
    } else {
        lemma_lang_cells_step(s, i);
        lemma_lang_cells_err_persists(s, i + 1);
    }
}

proof fn lemma_record_slots_step(fields: Seq<FieldF>, s: Seq<XmlElem>, i: int)
    requires
        0 <= i < s.len(),
    ensures
        spec_record_slots(fields, s.take(i + 1)) == (match spec_record_slots(fields, s.take(i)) {
            Err(k) => Err(k),
            Ok(slots) => {
                let j = field_index(fields, s[i].name@);
                if j < 0 {
                    Err(ErrorKind::UnknownField)
                } else if slots[j] is Some {
                    Err(ErrorKind::InvariantViolation)
                } else {
                    match spec_cell(fields[j].dt, s[i]) {
                        Err(k) => Err(k),
                        Ok(v) => Ok(slots.update(j, Some(v))),
                    }
                }
            },
        }),
{
    let p = s.take(i + 1);
    assert(p.drop_last() =~= s.take(i));
    assert(p.last() == s[i]);
}

proof fn lemma_record_slots_err_persists(fields: Seq<FieldF>, s: Seq<XmlElem>, i: int)
    requires
        0 <= i <= s.len(),
        spec_record_slots(fields, s.take(i)) is Err,
    ensures
        spec_record_slots(fields, s) == spec_record_slots(fields, s.take(i)),
    decreases s.len() - i,
{
    if i == s.len() {
        assert(s.take(i) =~= s);
    } else {
        lemma_record_slots_step(fields, s, i);
        lemma_record_slots_err_persists(fields, s, i + 1);
    }
}

proof fn lemma_assoc_items_step(fields: Seq<FieldF>, s: Seq<XmlElem>, i: int)
    requires
        0 <= i < s.len(),
    ensures
        spec_assoc_items(fields, s.take(i + 1)) == (match spec_assoc_items(fields, s.take(i)) {
            Err(k) => Err(k),
            Ok(items) => match spec_assoc_record(fields, s[i]) {
                Err(k) => Err(k),
                Ok(rec) => Ok(items.push(rec)),
            },
        }),
{
    let p = s.take(i + 1);
    assert(p.drop_last() =~= s.take(i));
    assert(p.last() == s[i]);
}

proof fn lemma_assoc_items_err_persists(fields: Seq<FieldF>, s: Seq<XmlElem>, i: int)
    requires
        0 <= i <= s.len(),
        spec_assoc_items(fields, s.take(i)) is Err,
    ensures
        spec_assoc_items(fields, s) == spec_assoc_items(fields, s.take(i)),
    decreases s.len() - i,
{
    if i == s.len() {
        assert(s.take(i) =~= s);
    } else {
        lemma_assoc_items_step(fields, s, i);
        lemma_assoc_items_err_persists(fields, s, i + 1);
    }
}

proof fn lemma_block_slots_step(assocs: Seq<crate::flat::AssocV>, s: Seq<XmlElem>, i: int)
    requires
        0 <= i < s.len(),
    ensures
        spec_block_slots(assocs, s.take(i + 1)) == (match spec_block_slots(assocs, s.take(i)) {
            Err(k) => Err(k),
            Ok(slots) => {
                let k = assoc_index(assocs, s[i].name@);
                if k < 0 {
                    Err(ErrorKind::UnknownField)
                } else if slots[k] is Some {
                    Err(ErrorKind::InvariantViolation)
                } else {
                    match spec_assoc_items(assocs[k].fields, s[i].children@) {
                        Err(e) => Err(e),
                        Ok(items) => Ok(slots.update(k, Some(items))),
                    }
                }
            },
        }),
{
    let p = s.take(i + 1);
    assert(p.drop_last() =~= s.take(i));
    assert(p.last() == s[i]);
}

proof fn lemma_block_slots_err_persists(assocs: Seq<crate::flat::AssocV>, s: Seq<XmlElem>, i: int)
    requires
        0 <= i <= s.len(),
        spec_block_slots(assocs, s.take(i)) is Err,
    ensures
        spec_block_slots(assocs, s) == spec_block_slots(assocs, s.take(i)),
    decreases s.len() - i,
{
    if i == s.len() {
        assert(s.take(i) =~= s);
    } else {
        lemma_block_slots_step(assocs, s, i);
        lemma_block_slots_err_persists(assocs, s, i + 1);
    }
}

proof fn lemma_row_fold_step(sv: Schema3V, s: Seq<XmlElem>, i: int)
    requires
        0 <= i < s.len(),
    ensures
        spec_row_fold(sv, s.take(i + 1)) == (match spec_row_fold(sv, s.take(i)) {
            Err(k) => Err(k),
            Ok((slots, ablock)) => {
                let c = s[i];
                if sv.associations.len() > 0 && c.name@ == "associations"@ {
                    if ablock is Some {
                        Err(ErrorKind::InvariantViolation)
                    } else {
                        match spec_block_slots(sv.associations, c.children@) {
                            Err(k) => Err(k),
                            Ok(b) => Ok((slots, Some(b))),
                        }
                    }
                } else {
                    let j = field_index(sv.fields, c.name@);
                    if j < 0 {
                        Err(ErrorKind::UnknownField)
                    } else if slots[j] is Some {
                        Err(ErrorKind::InvariantViolation)
                    } else {
                        match spec_cell(sv.fields[j].dt, c) {
                            Err(k) => Err(k),
                            Ok(v) => Ok((slots.update(j, Some(v)), ablock)),
                        }
                    }
                }
            },
        }),
{
    let p = s.take(i + 1);
    assert(p.drop_last() =~= s.take(i));
    assert(p.last() == s[i]);
}

proof fn lemma_row_fold_err_persists(sv: Schema3V, s: Seq<XmlElem>, i: int)
    requires
        0 <= i <= s.len(),
        spec_row_fold(sv, s.take(i)) is Err,
    ensures
        spec_row_fold(sv, s) == spec_row_fold(sv, s.take(i)),
    decreases s.len() - i,
{
    if i == s.len() {
        assert(s.take(i) =~= s);
    } else {
        lemma_row_fold_step(sv, s, i);
        lemma_row_fold_err_persists(sv, s, i + 1);
    }
}

proof fn lemma_doc_fold_step(sv: Schema3V, rows: Seq<XmlElem>, i: int)
    requires
        0 <= i < rows.len(),
    ensures
        spec_doc_fold(sv, rows.take(i + 1)) == (match spec_doc_fold(sv, rows.take(i)) {
            Err(k) => Err(k),
            Ok(b) => match spec_row(sv, rows[i]) {
                Err(k) => Err(k),
                Ok((cells, p, arows)) => Ok(
                    BatchV {
                        columns: Seq::new(sv.fields.len(), |j: int| b.columns[j].push(cells[j])),
                        present: b.present.push(p),
                        assoc_rows: Seq::new(
                            sv.associations.len(),
                            |k: int| b.assoc_rows[k].push(arows[k]),
                        ),
                    },
                ),
            },
        }),
{
    let p = rows.take(i + 1);
    assert(p.drop_last() =~= rows.take(i));
    assert(p.last() == rows[i]);
}

proof fn lemma_doc_fold_err_persists(sv: Schema3V, rows: Seq<XmlElem>, i: int)
    requires
        0 <= i <= rows.len(),
        spec_doc_fold(sv, rows.take(i)) is Err,
    ensures
        spec_doc_fold(sv, rows) == spec_doc_fold(sv, rows.take(i)),
    decreases rows.len() - i,
{
    if i == rows.len() {
        assert(rows.take(i) =~= rows);
    } else {
        lemma_doc_fold_step(sv, rows, i);
        lemma_doc_fold_err_persists(sv, rows, i + 1);
    }
}

// ------------------------------------------------------------------
// Executable decode.
// ------------------------------------------------------------------

/// The view of a sequence of optional cells.
pub open spec fn slots_view(s: Seq<Option<Cell>>) -> Seq<Option<CellV>> {
    s.map_values(
        |o: Option<Cell>|
            match o {
                Some(c) => Some(c@),
                None => None::<CellV>,
            },
    )
}

fn err_at(kind: ErrorKind, path: &Vec<String>) -> (r: DecodeError)
    ensures
        r.kind == kind,
        r.path@ == path@,
{
    DecodeError { kind, path: clone_strings(path) }
}

/// Decodes one multilingual entry.  `path` is the entry element's
/// breadcrumb, carried by any failure.
fn decode_lang_cell(c: &XmlElem, path: &Vec<String>) -> (r: Result<LangItem, DecodeError>)
    ensures
        match r {
            Ok(item) => spec_lang_cell(*c) == Ok::<LangItemV, ErrorKind>(item@),
            Err(e) => spec_lang_cell(*c) == Err::<LangItemV, ErrorKind>(e.kind) && e.path@
                == path@,
        },
{
    if c.children.len() > 0 {
        return Err(err_at(ErrorKind::UnknownField, path));
    }
    let id: Option<u32> = match c.attr("id") {
        None => None,
        Some(v) => match parse_u32_text(v) {
            None => {
                return Err(err_at(ErrorKind::Parse, path));
            },
            Some(n) => Some(n),
        },
    };
    let text: Option<String> = match &c.text {
        Some(s) => Some(s.clone()),
        None => None,
    };
    Ok(LangItem { id, text })
}

/// Decodes one present field element as a cell of the declared type.
/// `path` is the element's breadcrumb; failures carry a breadcrumb
/// extending it.
fn decode_cell(dt: DataType, e: &XmlElem, path: &Vec<String>) -> (r: Result<Cell, DecodeError>)
    ensures
        match r {
            Ok(cell) => spec_cell(dt, *e) == Ok::<CellV, ErrorKind>(cell@),
            Err(err) => spec_cell(dt, *e) == Err::<CellV, ErrorKind>(err.kind) && extends_path(
                err.path@,
                path@,
            ),
        },
{
    proof {
        lemma_extends_path_refl(path@);
    }
    match dt {
        DataType::Int32 => match decode_i32_text(opt_str(&e.text)) {
            Ok(Some(v)) => Ok(Cell::Int32(v)),
            Ok(None) => Ok(Cell::Null),
            Err(_) => Err(err_at(ErrorKind::Parse, path)),
        },
        DataType::UInt32 => match decode_u32_text(opt_str(&e.text)) {
            Ok(Some(v)) => Ok(Cell::UInt32(v)),
            Ok(None) => Ok(Cell::Null),
            Err(_) => Err(err_at(ErrorKind::Parse, path)),
        },
        DataType::Float64 => match decode_float_text(opt_str(&e.text), false) {
            Ok(Some(m)) => Ok(Cell::Float64(m)),
            Ok(None) => Ok(Cell::Null),
            Err(_) => Err(err_at(ErrorKind::Parse, path)),
        },
        DataType::Boolean => match decode_bool_text(opt_str(&e.text)) {
            Ok(Some(b)) => Ok(Cell::Boolean(b)),
            Ok(None) => Ok(Cell::Null),
            Err(_) => Err(err_at(ErrorKind::Parse, path)),
        },
        DataType::Date => match decode_date_text(opt_str(&e.text)) {
            Ok(Some(ms)) => Ok(Cell::Date(ms)),
            Ok(None) => Ok(Cell::Null),
            Err(_) => Err(err_at(ErrorKind::Parse, path)),
        },
        DataType::Utf8 => match &e.text {
            Some(s) => Ok(Cell::Utf8(s.clone())),
            None => Ok(Cell::Null),
        },
        DataType::MultilingualUtf8 => {
            let n = e.children.len();
            let mut items: Vec<LangItem> = Vec::new();
            let mut i: usize = 0;
            proof {
                assert(e.children@.take(0) =~= Seq::<XmlElem>::empty());
                assert(items@.map_values(|x: LangItem| x@) =~= Seq::<LangItemV>::empty());
            }
            while i < n
                invariant
                    n == e.children@.len(),
                    i <= n,
                    dt == DataType::MultilingualUtf8,
                    spec_lang_cells(e.children@.take(i as int)) == Ok::<
                        Seq<LangItemV>,
                        ErrorKind,
                    >(items@.map_values(|x: LangItem| x@)),
                decreases n - i,
            {
                proof {
                    lemma_lang_cells_step(e.children@, i as int);
                }
                let cpath = extended(path, &e.children[i].name);
                match decode_lang_cell(&e.children[i], &cpath) {
                    Err(err) => {
                        proof {
                            lemma_lang_cells_err_persists(e.children@, i + 1);
                            lemma_extends_path_push(path@, e.children@[i as int].name);
                        }
                        return Err(err);
                    },
                    Ok(item) => {
                        let ghost pre = items@;
                        let ghost iv = item@;
                        items.push(item);
                        proof {
                            assert(items@.map_values(|x: LangItem| x@) =~= pre.map_values(
                                |x: LangItem| x@,
                            ).push(iv));
                        }
                    },
                }
                i = i + 1;
            }
            proof {
                assert(e.children@.take(n as int) =~= e.children@);
            }
            Ok(Cell::LangList(items))
        },
    }
}

fn opt_str(t: &Option<String>) -> (r: Option<&str>)
    ensures
        ({
            let s = match r {
                Some(x) => Some(x@),
                None => None::<Seq<char>>,
            };
            s == text_view(*t)
        }),
{
    match t {
        Some(s) => Some(s.as_str()),
        None => None,
    }
}

/// Finds the declared field a data element belongs to.
fn field_index_x(fields: &Vec<Field>, name: &str) -> (r: Option<usize>)
    ensures
        ({
            let fv = fields@.map_values(|f: Field| f@);
            match r {
                Some(j) => field_index(fv, name@) == j && j < fields@.len(),
                None => field_index(fv, name@) == -1,
            }
        }),
{
    let ghost fv = fields@.map_values(|f: Field| f@);
    let n = fields.len();
    let mut i: usize = 0;
    while i < n
        invariant
            n == fields@.len(),
            i <= n,
            fv == fields@.map_values(|f: Field| f@),
            forall|k: int| 0 <= k < i ==> (#[trigger] fv[k]).name != name@,
        decreases n - i,
    {
        if str_eq(fields[i].name.as_str(), name) {
            proof {
                lemma_field_index_at(fv, name@, i as int);
            }
            return Some(i);
        }
        i = i + 1;
    }
    proof {
        lemma_field_index_none(fv, name@);
    }
    None
}

/// Finds the declared association a data element belongs to.
fn assoc_index_x(assocs: &Vec<Association>, name: &str) -> (r: Option<usize>)
    ensures
        ({
            let av = assocs@.map_values(|a: Association| a@);
            match r {
                Some(k) => assoc_index(av, name@) == k && k < assocs@.len(),
                None => assoc_index(av, name@) == -1,
            }
        }),
{
    let ghost av = assocs@.map_values(|a: Association| a@);
    let n = assocs.len();
    let mut i: usize = 0;
    while i < n
        invariant
            n == assocs@.len(),
            i <= n,
            av == assocs@.map_values(|a: Association| a@),
            forall|k: int| 0 <= k < i ==> (#[trigger] av[k]).name != name@,
        decreases n - i,
    {
        if str_eq(assocs[i].name.as_str(), name) {
            proof {
                lemma_assoc_index_at(av, name@, i as int);
            }
            return Some(i);
        }
        i = i + 1;
    }
    proof {
        lemma_assoc_index_none(av, name@);
    }
    None
}

fn none_slots(n: usize) -> (r: Vec<Option<Cell>>)
    ensures
        slots_view(r@) =~= Seq::new(n as nat, |j: int| None::<CellV>),
        r@.len() == n,
{
    let mut out: Vec<Option<Cell>> = Vec::new();
    let mut i: usize = 0;
    while i < n
        invariant
            i <= n,
            out@.len() == i,
            forall|k: int| 0 <= k < i ==> out@[k] is None,
        decreases n - i,
    {
        out.push(None);
        i = i + 1;
    }
    out
}

/// Dispatches the children of one record element into field slots.
/// `path` is the record element's breadcrumb; failures carry a breadcrumb
/// extending it.
fn decode_record_slots(fields: &Vec<Field>, item: &XmlElem, path: &Vec<String>) -> (r: Result<
    Vec<Option<Cell>>,
    DecodeError,
>)
    ensures
        ({
            let fv = fields@.map_values(|f: Field| f@);
            match r {
                Ok(slots) => spec_record_slots(fv, item.children@) == Ok::<
                    Seq<Option<CellV>>,
                    ErrorKind,
                >(slots_view(slots@)) && slots@.len() == fields@.len(),
                Err(e) => spec_record_slots(fv, item.children@) == Err::<
                    Seq<Option<CellV>>,
                    ErrorKind,
                >(e.kind) && extends_path(e.path@, path@),
            }
        }),
{
    let ghost fv = fields@.map_values(|f: Field| f@);
    let mut slots = none_slots(fields.len());
    let n = item.children.len();
    let mut i: usize = 0;
    proof {
        assert(item.children@.take(0) =~= Seq::<XmlElem>::empty());
    }
    while i < n
        invariant
            n == item.children@.len(),
            i <= n,
            fv == fields@.map_values(|f: Field| f@),
            slots@.len() == fields@.len(),
            spec_record_slots(fv, item.children@.take(i as int)) == Ok::<
                Seq<Option<CellV>>,
                ErrorKind,
            >(slots_view(slots@)),
        decreases n - i,
    {
        proof {
            lemma_record_slots_step(fv, item.children@, i as int);
        }
        let c = &item.children[i];
        let cpath = extended(path, &c.name);
        proof {
            lemma_extends_path_push(path@, item.children@[i as int].name);
        }
        match field_index_x(fields, c.name.as_str()) {
            None => {
                proof {
                    lemma_record_slots_err_persists(fv, item.children@, i + 1);
                }
                return Err(err_at(ErrorKind::UnknownField, &cpath));
            },
            Some(j) => {
                if slots[j].is_some() {
                    proof {
                        lemma_record_slots_err_persists(fv, item.children@, i + 1);
                    }
                    return Err(err_at(ErrorKind::InvariantViolation, &cpath));
                }
                proof {
                    lemma_field_index(fv, c.name@);
                }
                match decode_cell(fields[j].data_type, c, &cpath) {
                    Err(e) => {
                        proof {
                            lemma_record_slots_err_persists(fv, item.children@, i + 1);
                            lemma_extends_path_trans(e.path@, cpath@, path@);
                        }
                        return Err(e);
                    },
                    Ok(cell) => {
                        let ghost pre = slots@;
                        let ghost cv = cell@;
                        let slot = &mut slots[j];
                        *slot = Some(cell);
                        proof {
                            assert(slots_view(slots@) =~= slots_view(pre).update(
                                j as int,
                                Some(cv),
                            ));
                        }
                    },
                }
            },
        }
        i = i + 1;
    }
    proof {
        assert(item.children@.take(n as int) =~= item.children@);
    }
    Ok(slots)
}

/// Null-pads the unfilled slots.
fn null_pad(slots: Vec<Option<Cell>>) -> (r: Vec<Cell>)
    ensures
        r@.map_values(|c: Cell| c@) == unslot(slots_view(slots@)),
        r@.len() == slots@.len(),
{
    let ghost orig = slots@;
    let mut slots = slots;
    let n = slots.len();
    let mut out: Vec<Cell> = Vec::new();
    let mut i: usize = 0;
    proof {
        assert(slots@ =~= orig.skip(0));
    }
    while i < n
        invariant
            n == orig.len(),
            i <= n,
            slots@ == orig.skip(i as int),
            out@.len() == i,
            forall|k: int| 0 <= k < i ==> (#[trigger] out@[k])@ == unslot(slots_view(orig))[k],
        decreases n - i,
    {
        proof {
            assert(orig.skip(i as int)[0] == orig[i as int]);
        }
        let cell = slots.remove(0);
        proof {
            assert(slots@ =~= orig.skip(i + 1));
        }
        match cell {
            Some(c) => out.push(c),
            None => out.push(Cell::Null),
        }
        i = i + 1;
    }
    proof {
        assert(out@.map_values(|c: Cell| c@) =~= unslot(slots_view(orig)));
    }
    out
}

/// One association record from one repeated element.  `path` is the
/// element's breadcrumb; failures carry a breadcrumb extending it.
fn decode_assoc_record(fields: &Vec<Field>, item: &XmlElem, path: &Vec<String>) -> (r: Result<
    AssocRecord,
    DecodeError,
>)
    ensures
        ({
            let fv = fields@.map_values(|f: Field| f@);
            match r {
                Ok(rec) => spec_assoc_record(fv, *item) == Ok::<Seq<CellV>, ErrorKind>(
                    record_view(rec),
                ),
                Err(e) => spec_assoc_record(fv, *item) == Err::<Seq<CellV>, ErrorKind>(e.kind)
                    && extends_path(e.path@, path@),
            }
        }),
{
    let slots = decode_record_slots(fields, item, path)?;
    Ok(AssocRecord { cells: null_pad(slots) })
}

/// The records of one association element.  `path` is the association
/// element's breadcrumb; failures carry a breadcrumb extending it.
fn decode_assoc_items(fields: &Vec<Field>, e: &XmlElem, path: &Vec<String>) -> (r: Result<
    Vec<AssocRecord>,
    DecodeError,
>)
    ensures
        ({
            let fv = fields@.map_values(|f: Field| f@);
            match r {
                Ok(items) => spec_assoc_items(fv, e.children@) == Ok::<ListV, ErrorKind>(
                    items@.map_values(|x: AssocRecord| record_view(x)),
                ),
                Err(err) => spec_assoc_items(fv, e.children@) == Err::<ListV, ErrorKind>(err.kind)
                    && extends_path(err.path@, path@),
            }
        }),
{
    let ghost fv = fields@.map_values(|f: Field| f@);
    let n = e.children.len();
    let mut items: Vec<AssocRecord> = Vec::new();
    let mut i: usize = 0;
    proof {
        assert(e.children@.take(0) =~= Seq::<XmlElem>::empty());
        assert(items@.map_values(|x: AssocRecord| record_view(x)) =~= Seq::<Seq<CellV>>::empty());
    }
    while i < n
        invariant
            n == e.children@.len(),
            i <= n,
            fv == fields@.map_values(|f: Field| f@),
            spec_assoc_items(fv, e.children@.take(i as int)) == Ok::<ListV, ErrorKind>(
                items@.map_values(|x: AssocRecord| record_view(x)),
            ),
        decreases n - i,
    {
        proof {
            lemma_assoc_items_step(fv, e.children@, i as int);
        }
        let ipath = extended(path, &e.children[i].name);
        match decode_assoc_record(fields, &e.children[i], &ipath) {
            Err(err) => {
                proof {
                    lemma_assoc_items_err_persists(fv, e.children@, i + 1);
                    lemma_extends_path_push(path@, e.children@[i as int].name);
                    lemma_extends_path_trans(err.path@, ipath@, path@);
                }
                return Err(err);
            },
            Ok(rec) => {
                let ghost pre = items@;
                let ghost rv = record_view(rec);
                items.push(rec);
                proof {
                    assert(items@.map_values(|x: AssocRecord| record_view(x)) =~= pre.map_values(
                        |x: AssocRecord| record_view(x),
                    ).push(rv));
                }
            },
        }
        i = i + 1;
    }
    proof {
        assert(e.children@.take(n as int) =~= e.children@);
    }
    Ok(items)
}

/// The view of the association slots of one row.
pub open spec fn block_view(b: Seq<Option<Vec<AssocRecord>>>) -> Seq<Option<ListV>> {
    b.map_values(
        |o: Option<Vec<AssocRecord>>|
            match o {
                None => None::<ListV>,
                Some(v) => Some(v@.map_values(|x: AssocRecord| record_view(x))),
            },
    )
}

fn none_block(n: usize) -> (r: Vec<Option<Vec<AssocRecord>>>)
    ensures
        block_view(r@) =~= Seq::new(n as nat, |k: int| None::<ListV>),
        r@.len() == n,
{
    let mut out: Vec<Option<Vec<AssocRecord>>> = Vec::new();
    let mut i: usize = 0;
    while i < n
        invariant
            i <= n,
            out@.len() == i,
            forall|k: int| 0 <= k < i ==> out@[k] is None,
        decreases n - i,
    {
        out.push(None);
        i = i + 1;
    }
    out
}

/// Dispatches the children of one `associations` element into the
/// declared associations.  `path` is the `associations` element's
/// breadcrumb; failures carry a breadcrumb extending it.
fn decode_block(assocs: &Vec<Association>, e: &XmlElem, path: &Vec<String>) -> (r: Result<
    Vec<Option<Vec<AssocRecord>>>,
    DecodeError,
>)
    ensures
        ({
            let av = assocs@.map_values(|a: Association| a@);
            match r {
                Ok(b) => spec_block_slots(av, e.children@) == Ok::<Seq<Option<ListV>>, ErrorKind>(
                    block_view(b@),
                ) && b@.len() == assocs@.len(),
                Err(err) => spec_block_slots(av, e.children@) == Err::<
                    Seq<Option<ListV>>,
                    ErrorKind,
                >(err.kind) && extends_path(err.path@, path@),
            }
        }),
{
    let ghost av = assocs@.map_values(|a: Association| a@);
    let mut block = none_block(assocs.len());
    let n = e.children.len();
    let mut i: usize = 0;
    proof {
        assert(e.children@.take(0) =~= Seq::<XmlElem>::empty());
    }
    while i < n
        invariant
            n == e.children@.len(),
            i <= n,
            av == assocs@.map_values(|a: Association| a@),
            block@.len() == assocs@.len(),
            spec_block_slots(av, e.children@.take(i as int)) == Ok::<
                Seq<Option<ListV>>,
                ErrorKind,
            >(block_view(block@)),
        decreases n - i,
    {
        proof {
            lemma_block_slots_step(av, e.children@, i as int);
        }
        let g = &e.children[i];
        let gpath = extended(path, &g.name);
        proof {
            lemma_extends_path_push(path@, e.children@[i as int].name);
        }
        match assoc_index_x(assocs, g.name.as_str()) {
            None => {
                proof {
                    lemma_block_slots_err_persists(av, e.children@, i + 1);
                }
                return Err(err_at(ErrorKind::UnknownField, &gpath));
            },
            Some(k) => {
                if block[k].is_some() {
                    proof {
                        lemma_block_slots_err_persists(av, e.children@, i + 1);
                    }
                    return Err(err_at(ErrorKind::InvariantViolation, &gpath));
                }
                match decode_assoc_items(&assocs[k].fields, g, &gpath) {
                    Err(err) => {
                        proof {
                            lemma_block_slots_err_persists(av, e.children@, i + 1);
                            lemma_extends_path_trans(err.path@, gpath@, path@);
                        }
                        return Err(err);
                    },
                    Ok(items) => {
                        let ghost pre = block@;
                        let ghost lv = items@.map_values(|x: AssocRecord| record_view(x));
                        let slot = &mut block[k];
                        *slot = Some(items);
                        proof {
                            assert(block_view(block@) =~= block_view(pre).update(
                                k as int,
                                Some(lv),
                            ));
                        }
                    },
                }
            },
        }
        i = i + 1;
    }
    proof {
        assert(e.children@.take(n as int) =~= e.children@);
    }
    Ok(block)
}

/// Decodes one row: its null-padded cells, the presence of its
/// `associations` element, and the per-association lists.  `path` is the
/// row element's breadcrumb; failures carry a breadcrumb extending it.
fn decode_row(schema: &Schema3, row: &XmlElem, path: &Vec<String>) -> (r: Result<
    (Vec<Cell>, bool, Vec<Option<Vec<AssocRecord>>>),
    DecodeError,
>)
    ensures
        match r {
            Ok((cells, p, arows)) => spec_row(schema@, *row) == Ok::<
                (Seq<CellV>, bool, Seq<Option<ListV>>),
                ErrorKind,
            >((cells@.map_values(|c: Cell| c@), p, block_view(arows@))) && cells@.len()
                == schema.fields@.len() && arows@.len() == schema.associations@.len(),
            Err(e) => spec_row(schema@, *row) == Err::<
                (Seq<CellV>, bool, Seq<Option<ListV>>),
                ErrorKind,
            >(e.kind) && extends_path(e.path@, path@),
        },
{
    let ghost sv = schema@;
    let mut slots = none_slots(schema.fields.len());
    let mut ablock: Option<Vec<Option<Vec<AssocRecord>>>> = None;
    let n = row.children.len();
    let mut i: usize = 0;
    proof {
        assert(row.children@.take(0) =~= Seq::<XmlElem>::empty());
    }
    while i < n
        invariant
            n == row.children@.len(),
            i <= n,
            sv == schema@,
            slots@.len() == schema.fields@.len(),
            match ablock {
                Some(b) => b@.len() == schema.associations@.len(),
                None => true,
            },
            spec_row_fold(sv, row.children@.take(i as int)) == Ok::<
                (Seq<Option<CellV>>, Option<Seq<Option<ListV>>>),
                ErrorKind,
            >(
                (
                    slots_view(slots@),
                    match ablock {
                        Some(b) => Some(block_view(b@)),
                        None => None,
                    },
                ),
            ),
        decreases n - i,
    {
        proof {
            lemma_row_fold_step(sv, row.children@, i as int);
        }
        let c = &row.children[i];
        let cpath = extended(path, &c.name);
        proof {
            lemma_extends_path_push(path@, row.children@[i as int].name);
        }
        if schema.associations.len() > 0 && str_eq(c.name.as_str(), "associations") {
            if ablock.is_some() {
                proof {
                    lemma_row_fold_err_persists(sv, row.children@, i + 1);
                }
                return Err(err_at(ErrorKind::InvariantViolation, &cpath));
            }
            match decode_block(&schema.associations, c, &cpath) {
                Err(err) => {
                    proof {
                        lemma_row_fold_err_persists(sv, row.children@, i + 1);
                        lemma_extends_path_trans(err.path@, cpath@, path@);
                    }
                    return Err(err);
                },
                Ok(b) => {
                    ablock = Some(b);
                },
            }
        } else {
            proof {
                if !(sv.associations.len() > 0 && c.name@ == "associations"@) {
                } else {
                    assert(false);
                }
            }
            match field_index_x(&schema.fields, c.name.as_str()) {
                None => {
                    proof {
                        lemma_row_fold_err_persists(sv, row.children@, i + 1);
                    }
                    return Err(err_at(ErrorKind::UnknownField, &cpath));
                },
                Some(j) => {
                    if slots[j].is_some() {
                        proof {
                            lemma_row_fold_err_persists(sv, row.children@, i + 1);
                        }
                        return Err(err_at(ErrorKind::InvariantViolation, &cpath));
                    }
                    proof {
                        lemma_field_index(sv.fields, c.name@);
                    }
                    match decode_cell(schema.fields[j].data_type, c, &cpath) {
                        Err(err) => {
                            proof {
                                lemma_row_fold_err_persists(sv, row.children@, i + 1);
                                lemma_extends_path_trans(err.path@, cpath@, path@);
                            }
                            return Err(err);
                        },
                        Ok(cell) => {
                            let ghost pre = slots@;
                            let ghost cv = cell@;
                            let slot = &mut slots[j];
                            *slot = Some(cell);
                            proof {
                                assert(slots_view(slots@) =~= slots_view(pre).update(
                                    j as int,
                                    Some(cv),
                                ));
                            }
                        },
                    }
                },
            }
        }
        i = i + 1;
    }
    proof {
        assert(row.children@.take(n as int) =~= row.children@);
    }
    let cells = null_pad(slots);
    match ablock {
        Some(b) => {
            proof {
                assert(spec_row(sv, *row) == Ok::<
                    (Seq<CellV>, bool, Seq<Option<ListV>>),
                    ErrorKind,
                >((cells@.map_values(|c: Cell| c@), true, block_view(b@))));
            }
            Ok((cells, true, b))
        },
        None => {
            let b = none_block(schema.associations.len());
            proof {
                assert(block_view(b@) =~= Seq::new(sv.associations.len(), |k: int| None::<ListV>));
                assert(spec_row(sv, *row) == Ok::<
                    (Seq<CellV>, bool, Seq<Option<ListV>>),
                    ErrorKind,
                >((cells@.map_values(|c: Cell| c@), false, block_view(b@))));
            }
            Ok((cells, false, b))
        },
    }
}

/// Decodes a whole data document against a flat schema: the root's first
/// child is the row container, and every container child is one row.  On
/// success every column holds exactly one cell per row — the null-padding
/// law — and the columns carry the schema's names and types in order.
/// The breadcrumb of row `i`: the container's name, then the row's name.
pub open spec fn row_breadcrumb(root: XmlElem, i: int) -> Seq<String> {
    seq![root.children@[0].name, root.children@[0].children@[i].name]
}

pub fn decode_document(schema: &Schema3, root: &XmlElem) -> (r: Result<Batch, DecodeError>)
    ensures
        match r {
            Ok(b) => ({
                let nrows = root.children@[0].children@.len();
                &&& spec_decode_doc(schema@, *root) == Ok::<BatchV, ErrorKind>(b@)
                &&& root.children@.len() > 0
                &&& b.columns@.len() == schema.fields@.len()
                &&& forall|j: int|
                    0 <= j < b.columns@.len() ==> (#[trigger] b.columns@[j]).name@
                        == schema@.fields[j].name && b.columns@[j].data_type
                        == schema@.fields[j].dt && b.columns@[j].cells@.len() == nrows
                &&& b.assoc_present@.len() == nrows
                &&& b.assoc_columns@.len() == schema.associations@.len()
                &&& forall|k: int|
                    0 <= k < b.assoc_columns@.len() ==> (#[trigger] b.assoc_columns@[k]).name@
                        == schema@.associations[k].name && b.assoc_columns@[k].element_name@
                        == schema@.associations[k].element_name && b.assoc_columns@[k].rows@.len()
                        == nrows
            }),
            Err(e) => spec_decode_doc(schema@, *root) == Err::<BatchV, ErrorKind>(e.kind) && (
            if root.children@.len() == 0 {
                e.path@ == Seq::<String>::empty()
            } else {
                exists|i: int|
                    0 <= i < root.children@[0].children@.len() && #[trigger] extends_path(
                        e.path@,
                        row_breadcrumb(*root, i),
                    )
            }),
        },
{
    let ghost sv = schema@;
    if root.children.len() == 0 {
        let empty_path: Vec<String> = Vec::new();
        return Err(err_at(ErrorKind::Structure, &empty_path));
    }
    let container = &root.children[0];
    let mut container_path: Vec<String> = Vec::new();
    container_path.push(container.name.clone());
    proof {
        assert(container_path@ =~= seq![root.children@[0].name]);
    }
    let nf = schema.fields.len();
    let na = schema.associations.len();
    let mut columns: Vec<Column> = Vec::new();
    let mut j: usize = 0;
    while j < nf
        invariant
            nf == schema.fields@.len(),
            sv == schema@,
            j <= nf,
            columns@.len() == j,
            forall|k: int|
                0 <= k < j ==> (#[trigger] columns@[k]).name@ == sv.fields[k].name
                    && columns@[k].data_type == sv.fields[k].dt && columns@[k].cells@.len() == 0,
        decreases nf - j,
    {
        columns.push(
            Column {
                name: schema.fields[j].name.clone(),
                data_type: schema.fields[j].data_type,
                cells: Vec::new(),
            },
        );
        j = j + 1;
    }
    let mut assoc_present: Vec<bool> = Vec::new();
    let mut assoc_columns: Vec<AssocColumn> = Vec::new();
    let mut k: usize = 0;
    while k < na
        invariant
            na == schema.associations@.len(),
            sv == schema@,
            k <= na,
            assoc_columns@.len() == k,
            forall|m: int|
                0 <= m < k ==> (#[trigger] assoc_columns@[m]).name@ == sv.associations[m].name
                    && assoc_columns@[m].element_name@ == sv.associations[m].element_name
                    && assoc_columns@[m].rows@.len() == 0,
        decreases na - k,
    {
        assoc_columns.push(
            AssocColumn {
                name: schema.associations[k].name.clone(),
                element_name: schema.associations[k].element_name.clone(),
                rows: Vec::new(),
            },
        );
        k = k + 1;
    }
    let nrows = container.children.len();
    let mut i: usize = 0;
    proof {
        assert(container.children@.take(0) =~= Seq::<XmlElem>::empty());
        assert(columns@.map_values(|c: Column| c.cells@.map_values(|x: Cell| x@)) =~~= Seq::new(
            sv.fields.len(),
            |j: int| Seq::<CellV>::empty(),
        ));
        assert(assoc_columns@.map_values(|a: AssocColumn| rows_view(a.rows@)) =~~= Seq::new(
            sv.associations.len(),
            |k: int| Seq::<Option<ListV>>::empty(),
        ));
    }
    while i < nrows
        invariant
            nrows == container.children@.len(),
            nf == schema.fields@.len(),
            na == schema.associations@.len(),
            sv == schema@,
            *container == root.children@[0],
            root.children@.len() > 0,
            container_path@ == seq![root.children@[0].name],
            i <= nrows,
            columns@.len() == nf,
            assoc_columns@.len() == na,
            assoc_present@.len() == i,
            forall|m: int|
                0 <= m < nf ==> (#[trigger] columns@[m]).name@ == sv.fields[m].name
                    && columns@[m].data_type == sv.fields[m].dt && columns@[m].cells@.len() == i,
            forall|m: int|
                0 <= m < na ==> (#[trigger] assoc_columns@[m]).name@ == sv.associations[m].name
                    && assoc_columns@[m].element_name@ == sv.associations[m].element_name
                    && assoc_columns@[m].rows@.len() == i,
            spec_doc_fold(sv, container.children@.take(i as int)) == Ok::<BatchV, ErrorKind>(
                BatchV {
                    columns: columns@.map_values(|c: Column| c.cells@.map_values(|x: Cell| x@)),
                    present: assoc_present@,
                    assoc_rows: assoc_columns@.map_values(|a: AssocColumn| rows_view(a.rows@)),
                },
            ),
        decreases nrows - i,
    {
        proof {
            lemma_doc_fold_step(sv, container.children@, i as int);
        }
        let row_path = extended(&container_path, &container.children[i].name);
        match decode_row(schema, &container.children[i], &row_path) {
            Err(e) => {
                proof {
                    lemma_doc_fold_err_persists(sv, container.children@, i + 1);
                    assert(row_path@ =~= row_breadcrumb(*root, i as int));
                    assert(extends_path(e.path@, row_breadcrumb(*root, i as int)));
                }
                return Err(e);
            },
            Ok((cells, p, arows)) => {
                let ghost cellsv = cells@.map_values(|c: Cell| c@);
                let ghost pre_cols = columns@;
                let mut cells = cells;
                let ghost cells_full = cells@;
                let mut j: usize = 0;
                proof {
                    assert(cells@ =~= cells_full.skip(0));
                }
                while j < nf
                    invariant
                        j <= nf,
                        nf == cells_full.len(),
                        columns@.len() == nf,
                        pre_cols.len() == nf,
                        cells@ == cells_full.skip(j as int),
                        cellsv == cells_full.map_values(|c: Cell| c@),
                        forall|m: int|
                            0 <= m < j ==> (#[trigger] columns@[m]).name == pre_cols[m].name
                                && columns@[m].data_type == pre_cols[m].data_type
                                && columns@[m].cells@ == pre_cols[m].cells@.push(cells_full[m]),
                        forall|m: int| j <= m < nf ==> (#[trigger] columns@[m]) == pre_cols[m],
                    decreases nf - j,
                {
                    proof {
                        assert(cells_full.skip(j as int)[0] == cells_full[j as int]);
                    }
                    let cell = cells.remove(0);
                    proof {
                        assert(cells@ =~= cells_full.skip(j + 1));
                    }
                    let col = &mut columns[j];
                    col.cells.push(cell);
                    j = j + 1;
                }
                assoc_present.push(p);
                let ghost arowsv = block_view(arows@);
                let ghost pre_assoc = assoc_columns@;
                let mut arows = arows;
                let ghost arows_full = arows@;
                let mut k: usize = 0;
                proof {
                    assert(arows@ =~= arows_full.skip(0));
                }
                while k < na
                    invariant
                        k <= na,
                        na == arows_full.len(),
                        assoc_columns@.len() == na,
                        pre_assoc.len() == na,
                        arows@ == arows_full.skip(k as int),
                        arowsv == block_view(arows_full),
                        forall|m: int|
                            0 <= m < k ==> (#[trigger] assoc_columns@[m]).name == pre_assoc[m].name
                                && assoc_columns@[m].element_name == pre_assoc[m].element_name
                                && assoc_columns@[m].rows@ == pre_assoc[m].rows@.push(
                                arows_full[m],
                            ),
                        forall|m: int| k <= m < na ==> (#[trigger] assoc_columns@[m]) == pre_assoc[m],
                    decreases na - k,
                {
                    proof {
                        assert(arows_full.skip(k as int)[0] == arows_full[k as int]);
                    }
                    let item = arows.remove(0);
                    proof {
                        assert(arows@ =~= arows_full.skip(k + 1));
                    }
                    let ac = &mut assoc_columns[k];
                    ac.rows.push(item);
                    k = k + 1;
                }
                proof {
                    assert(columns@.map_values(|c: Column| c.cells@.map_values(|x: Cell| x@))
                        =~~= Seq::new(
                        sv.fields.len(),
                        |j: int|
                            pre_cols.map_values(
                                |c: Column| c.cells@.map_values(|x: Cell| x@),
                            )[j].push(cellsv[j]),
                    ));
                    assert(assoc_columns@.map_values(|a: AssocColumn| rows_view(a.rows@))
                        =~~= Seq::new(
                        sv.associations.len(),
                        |k: int|
                            pre_assoc.map_values(
                                |a: AssocColumn| rows_view(a.rows@),
                            )[k].push(arowsv[k]),
                    ));
                }
            },
        }
        i = i + 1;
    }
    proof {
        assert(container.children@.take(nrows as int) =~= container.children@);
    }
    Ok(Batch { columns, assoc_present, assoc_columns })
}

/// The batch of a data document given as bytes: the bytes must be valid
/// UTF-8 and well-formed XML.
pub open spec fn spec_parse_response(sv: Schema3V, bytes: Seq<u8>) -> Result<BatchV, ErrorKind> {
    match spec_parse_document(bytes) {
        None => Err(ErrorKind::Structure),
        Some(root) => spec_decode_doc(sv, root),
    }
}

/// Decodes a data document, given as bytes, into an aligned columnar
/// batch.
pub fn parse_response_to_columns(schema: &Schema3, bytes: &[u8]) -> (r: Result<Batch, DecodeError>)
    ensures
        match r {
            Ok(b) => ({
                &&& spec_parse_response(schema@, bytes@) == Ok::<BatchV, ErrorKind>(b@)
                &&& spec_parse_document(bytes@) matches Some(root) && ({
                    let nrows = root.children@[0].children@.len();
                    &&& root.children@.len() > 0
                    &&& b.columns@.len() == schema.fields@.len()
                    &&& forall|j: int|
                        0 <= j < b.columns@.len() ==> (#[trigger] b.columns@[j]).name@
                            == schema@.fields[j].name && b.columns@[j].data_type
                            == schema@.fields[j].dt && b.columns@[j].cells@.len() == nrows
                    &&& b.assoc_present@.len() == nrows
                    &&& b.assoc_columns@.len() == schema.associations@.len()
                    &&& forall|k: int|
                        0 <= k < b.assoc_columns@.len() ==> (#[trigger] b.assoc_columns@[k]).name@
                            == schema@.associations[k].name && b.assoc_columns@[k].element_name@
                            == schema@.associations[k].element_name
                            && b.assoc_columns@[k].rows@.len() == nrows
                })
            }),
            Err(e) => spec_parse_response(schema@, bytes@) == Err::<BatchV, ErrorKind>(e.kind)
                && match spec_parse_document(bytes@) {
                None => e.path@ == Seq::<String>::empty(),
                Some(root) => if root.children@.len() == 0 {
                    e.path@ == Seq::<String>::empty()
                } else {
                    exists|i: int|
                        0 <= i < root.children@[0].children@.len() && #[trigger] extends_path(
                            e.path@,
                            row_breadcrumb(root, i),
                        )
                },
            },
        },
{
    let root = match parse_document(bytes) {
        Some(root) => root,
        None => {
            let empty_path: Vec<String> = Vec::new();
            return Err(err_at(ErrorKind::Structure, &empty_path));
        },
    };
    decode_document(schema, &root)
}

} // verus!

use vstd::prelude::*;
use crate::query_param;
use crate::text::{dec_str, u32_to_string, usize_to_string};

verus! {

// ------------------------------------------------------------------
// Resources, date fields, calendar dates and query parameters.
// ------------------------------------------------------------------

/// A resource of the web API, addressed by its identifier.
#[derive(Debug)]
pub struct Resource {
    pub identifier: String,
}

impl Resource {
    pub fn new(identifier: String) -> (r: Resource)
        ensures
            r.identifier == identifier,
    {
        Resource { identifier }
    }

    pub fn identifier(&self) -> (r: &str)
        ensures
            r@ == self.identifier@,
    {
        self.identifier.as_str()
    }
}

/// The two date fields a range filter can address.
#[derive(Clone, Copy, Debug, PartialEq, Eq, Structural)]
pub enum DateField {
    DateUpd,
    DateAdd,
}

pub open spec fn spec_date_field_id(f: DateField) -> Seq<char> {
    match f {
        DateField::DateAdd => "date_add"@,
        DateField::DateUpd => "date_upd"@,
    }
}

impl DateField {
    pub fn identifier(&self) -> (r: &str)
        ensures
            r@ == spec_date_field_id(*self),
    {
        match self {
            DateField::DateAdd => "date_add",
            DateField::DateUpd => "date_upd",
        }
    }
}

/// A calendar date as plain numbers, rendered as `YYYY-MM-DD` in query
/// filters.
#[derive(Clone, Copy, Debug, PartialEq, Eq, Structural)]
pub struct CalDate {
    pub year: u32,
    pub month: u32,
    pub day: u32,
}

/// A number rendered in decimal, zero-padded to at least `width` digits.
pub open spec fn padded_dec(n: int, width: int) -> Seq<char>
    decreases width,
{
    if dec_str(n).len() >= width {
        dec_str(n)
    } else {
        seq!['0'] + padded_dec(n, width - 1)
    }
}

/// The query rendering of a calendar date.
pub open spec fn spec_date_str(d: CalDate) -> Seq<char> {
    padded_dec(d.year as int, 4) + seq!['-'] + padded_dec(d.month as int, 2) + seq!['-']
        + padded_dec(d.day as int, 2)
}

proof fn lemma_dec_str_len(n: int)
    ensures
        dec_str(n).len() >= 1,
        n >= 10 ==> dec_str(n).len() >= 2,
        n >= 100 ==> dec_str(n).len() >= 3,
        n >= 1000 ==> dec_str(n).len() >= 4,
    decreases n,
{
    if n >= 10 {
        lemma_dec_str_len(n / 10);
    }
}

fn padded_u32(n: u32, width: usize) -> (r: String)
    requires
        width <= 4,
    ensures
        r@ == padded_dec(n as int, width as int),
{
    proof {
        lemma_dec_str_len(n as int);
        reveal_strlit("0");
        assert("0"@ =~= seq!['0']);
    }
    let ds = u32_to_string(n);
    let len = ds.as_str().unicode_len();
    let mut out = String::new();
    let mut pad: usize = 0;
    if len < width {
        pad = width - len;
    }
    let mut i: usize = 0;
    while i < pad
        invariant
            i <= pad,
            "0"@ =~= seq!['0'],
            out@ == padding_zeros(i as int),
        decreases pad - i,
    {
        out.append("0");
        i = i + 1;
    }
    out.append(ds.as_str());
    proof {
        lemma_padded_shape(n as int, width as int, pad as int);
    }
    out
}

spec fn padding_zeros(k: int) -> Seq<char>
    decreases k,
{
    if k <= 0 {
        Seq::<char>::empty()
    } else {
        padding_zeros(k - 1) + seq!['0']
    }
}

proof fn lemma_padded_shape(n: int, width: int, pad: int)
    requires
        pad == if dec_str(n).len() >= width {
            0int
        } else {
            width - dec_str(n).len()
        },
    ensures
        padded_dec(n, width) == padding_zeros(pad) + dec_str(n),
    decreases width,
{
    if dec_str(n).len() >= width {
        assert(padding_zeros(0) + dec_str(n) =~= dec_str(n));
    } else {
        lemma_padded_shape(n, width - 1, pad - 1);
        assert(padding_zeros(pad) =~= seq!['0'] + padding_zeros(pad - 1)) by {
            lemma_padding_zeros_swap(pad);
        }
        assert(seq!['0'] + (padding_zeros(pad - 1) + dec_str(n)) =~= (seq!['0'] + padding_zeros(
            pad - 1,
        )) + dec_str(n));
    }
}

proof fn lemma_padding_zeros_swap(k: int)
    requires
        k >= 1,
    ensures
        padding_zeros(k) =~= seq!['0'] + padding_zeros(k - 1),
    decreases k,
{
    if k > 1 {
        lemma_padding_zeros_swap(k - 1);
        assert(padding_zeros(k) == padding_zeros(k - 1) + seq!['0']);
        assert((seq!['0'] + padding_zeros(k - 2)) + seq!['0'] =~= seq!['0'] + (padding_zeros(k - 2)
            + seq!['0']));
    } else {
        assert(padding_zeros(1) =~= seq!['0'] + padding_zeros(0));
    }
}

/// One query parameter of a resource request.
#[derive(Clone, Debug)]
pub enum QueryParam {
    Schema(query_param::Schema),
    Language(usize),
    Display(query_param::Display),
    Limit(usize),
    LimitFromIndex(usize, usize),
    WsKey(String),
    DateRange(DateField, CalDate, CalDate),
    FieldValueIn(String, Vec<String>),
}

/// Strings joined by one separator character between elements.
pub open spec fn spec_join(vs: Seq<String>, sep: char) -> Seq<char>
    decreases vs.len(),
{
    if vs.len() == 0 {
        Seq::<char>::empty()
    } else if vs.len() == 1 {
        vs[0]@
    } else {
        spec_join(vs.drop_last(), sep) + seq![sep] + vs.last()@
    }
}

/// The key/value pairs one parameter renders to.
pub open spec fn spec_param_pairs(p: QueryParam) -> Seq<(Seq<char>, Seq<char>)> {
    match p {
        QueryParam::Limit(n) => seq![("limit"@, dec_str(n as int))],
        QueryParam::LimitFromIndex(i, n) => seq![
            ("limit"@, dec_str(i as int) + seq![','] + dec_str(n as int)),
        ],
        QueryParam::FieldValueIn(name, values) => seq![
            (
                "filter["@ + name@ + "]"@,
                "["@ + spec_join(values@, '|') + "]"@,
            ),
        ],
        QueryParam::Language(id) => seq![("language"@, dec_str(id as int))],
        QueryParam::Schema(query_param::Schema::Blank) => seq![("schema"@, "blank"@)],
        QueryParam::Schema(query_param::Schema::Synopsis) => seq![("schema"@, "synopsis"@)],
        QueryParam::Display(query_param::Display::Full) => seq![("display"@, "full"@)],
        QueryParam::Display(query_param::Display::Fields(fields)) => seq![
            ("display"@, "["@ + spec_join(fields@, ',') + "]"@),
        ],
        QueryParam::WsKey(key) => seq![("ws_key"@, key@)],
        QueryParam::DateRange(df, from, to) => seq![
            (
                "filter["@ + spec_date_field_id(df) + "]"@,
                "["@ + spec_date_str(from) + seq![','] + spec_date_str(to) + "]"@,
            ),
            ("date"@, "1"@),
        ],
    }
}

/// The rendering of a parameter list, in order.
pub open spec fn spec_render(ps: Seq<QueryParam>) -> Seq<(Seq<char>, Seq<char>)>
    decreases ps.len(),
{
    if ps.len() == 0 {
        Seq::<(Seq<char>, Seq<char>)>::empty()
    } else {
        spec_render(ps.drop_last()) + spec_param_pairs(ps.last())
    }
}

proof fn lemma_render_take_step(ps: Seq<QueryParam>, i: int)
    requires
        0 <= i < ps.len(),
    ensures
        spec_render(ps.take(i + 1)) == spec_render(ps.take(i)) + spec_param_pairs(ps[i]),
{
    let p = ps.take(i + 1);
    assert(p.drop_last() =~= ps.take(i));
    assert(p.last() == ps[i]);
}

fn join_strings(vs: &Vec<String>, sep: &str) -> (r: String)
    requires
        sep@.len() == 1,
    ensures
        r@ == spec_join(vs@, sep@[0]),
{
    let mut out = String::new();
    let n = vs.len();
    let mut i: usize = 0;
    while i < n
        invariant
            n == vs@.len(),
            i <= n,
            sep@.len() == 1,
            out@ == spec_join(vs@.take(i as int), sep@[0]),
        decreases n - i,
    {
        if i > 0 {
            out.append(sep);
            proof {
                assert(sep@ =~= seq![sep@[0]]);
            }
        }
        out.append(vs[i].as_str());
        proof {
            let p = vs@.take(i + 1);
            assert(p.drop_last() =~= vs@.take(i as int));
            assert(p.last() == vs@[i as int]);
            if i == 0 {
                assert(spec_join(p, sep@[0]) == vs@[0]@);
                assert(out@ =~= vs@[0]@);
            }
        }
        i = i + 1;
    }
    proof {
        assert(vs@.take(n as int) =~= vs@);
    }
    out
}

fn date_string(d: &CalDate) -> (r: String)
    ensures
        r@ == spec_date_str(*d),
{
    proof {
        reveal_strlit("-");
        assert("-"@ =~= seq!['-']);
    }
    let mut out = padded_u32(d.year, 4);
    out.append("-");
    let m = padded_u32(d.month, 2);
    out.append(m.as_str());
    out.append("-");
    let dd = padded_u32(d.day, 2);
    out.append(dd.as_str());
    out
}

/// Renders query parameters to key/value pairs, in order.
pub fn render_query_params(params: &Vec<QueryParam>) -> (r: Vec<(String, String)>)
    ensures
        r@.map_values(|p: (String, String)| (p.0@, p.1@)) == spec_render(params@),
{
    let mut out: Vec<(String, String)> = Vec::new();
    let n = params.len();
    let mut i: usize = 0;
    proof {
        assert(params@.take(0) =~= Seq::<QueryParam>::empty());
        assert(out@.map_values(|p: (String, String)| (p.0@, p.1@)) =~= Seq::<
            (Seq<char>, Seq<char>),
        >::empty());
    }
    while i < n
        invariant
            n == params@.len(),
            i <= n,
            out@.map_values(|p: (String, String)| (p.0@, p.1@)) == spec_render(
                params@.take(i as int),
            ),
        decreases n - i,
    {
        proof {
            lemma_render_take_step(params@, i as int);
        }
        let ghost pre = out@;
        match &params[i] {
            QueryParam::Limit(lim) => {
                out.push((String::from_str("limit"), usize_to_string(*lim)));
            },
            QueryParam::LimitFromIndex(from, lim) => {
                proof {
                    reveal_strlit(",");
                    assert(","@ =~= seq![',']);
                }
                let mut v = usize_to_string(*from);
                v.append(",");
                let l = usize_to_string(*lim);
                v.append(l.as_str());
                out.push((String::from_str("limit"), v));
            },
            QueryParam::FieldValueIn(name, values) => {
                let mut key = String::from_str("filter[");
                key.append(name.as_str());
                key.append("]");
                let mut v = String::from_str("[");
                proof {
                    reveal_strlit("|");
                    assert("|"@ =~= seq!['|']);
                }
                let joined = join_strings(values, "|");
                v.append(joined.as_str());
                v.append("]");
                out.push((key, v));
            },
            QueryParam::Language(id) => {
                out.push((String::from_str("language"), usize_to_string(*id)));
            },
            QueryParam::Schema(query_param::Schema::Blank) => {
                out.push((String::from_str("schema"), String::from_str("blank")));
            },
            QueryParam::Schema(query_param::Schema::Synopsis) => {
                out.push((String::from_str("schema"), String::from_str("synopsis")));
            },
            QueryParam::Display(query_param::Display::Full) => {
                out.push((String::from_str("display"), String::from_str("full")));
            },
            QueryParam::Display(query_param::Display::Fields(fields)) => {
                let mut v = String::from_str("[");
                proof {
                    reveal_strlit(",");
                    assert(","@ =~= seq![',']);
                }
                let joined = join_strings(fields, ",");
                v.append(joined.as_str());
                v.append("]");
                out.push((String::from_str("display"), v));
            },
            QueryParam::WsKey(key) => {
                out.push((String::from_str("ws_key"), key.clone()));
            },
            QueryParam::DateRange(df, from, to) => {
                proof {
                    reveal_strlit(",");
                    assert(","@ =~= seq![',']);
                }
                let mut key = String::from_str("filter[");
                key.append(df.identifier());
                key.append("]");
                let mut v = String::from_str("[");
                let f = date_string(from);
                v.append(f.as_str());
                v.append(",");
                let t = date_string(to);
                v.append(t.as_str());
                v.append("]");
                out.push((key, v));
                out.push((String::from_str("date"), String::from_str("1")));
            },
        }
        proof {
            assert(out@.map_values(|p: (String, String)| (p.0@, p.1@)) =~= pre.map_values(
                |p: (String, String)| (p.0@, p.1@),
            ) + spec_param_pairs(params@[i as int]));
        }
        i = i + 1;
    }
    proof {
        assert(params@.take(n as int) =~= params@);
    }
    out
}

} // verus!

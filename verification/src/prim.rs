use vstd::prelude::*;
use crate::error::ErrorKind;
use crate::text::{
    i32_text, is_float_text, is_float_word, parse_i32_text, parse_u32_text, float_text_ok,
    trim_str, trimmed, u32_text,
};

verus! {

// ------------------------------------------------------------------
// Scalar decoding rules, shared by the value-tree and the columnar
// pathways.  Element text is handed in as it stands; absent or
// all-whitespace text decodes to null; text that does not parse as the
// target primitive is a parse error.
// ------------------------------------------------------------------

/// The view of an element's optional text.
pub open spec fn text_view(t: Option<String>) -> Option<Seq<char>> {
    match t {
        Some(s) => Some(s@),
        None => None,
    }
}

pub open spec fn spec_prim_u32(t: Option<Seq<char>>) -> Result<Option<u32>, ErrorKind> {
    match t {
        None => Ok(None),
        Some(s) => {
            let m = trimmed(s);
            if m.len() == 0 {
                Ok(None)
            } else {
                match u32_text(m) {
                    Some(v) => Ok(Some(v)),
                    None => Err(ErrorKind::Parse),
                }
            }
        },
    }
}

pub open spec fn spec_prim_i32(t: Option<Seq<char>>) -> Result<Option<i32>, ErrorKind> {
    match t {
        None => Ok(None),
        Some(s) => {
            let m = trimmed(s);
            if m.len() == 0 {
                Ok(None)
            } else {
                match i32_text(m) {
                    Some(v) => Ok(Some(v)),
                    None => Err(ErrorKind::Parse),
                }
            }
        },
    }
}

/// Float values are carried as their trimmed text, which must parse under
/// the float grammar.
pub open spec fn spec_prim_float(t: Option<Seq<char>>) -> Result<Option<Seq<char>>, ErrorKind> {
    match t {
        None => Ok(None),
        Some(s) => {
            let m = trimmed(s);
            if m.len() == 0 {
                Ok(None)
            } else if is_float_text(m) {
                Ok(Some(m))
            } else {
                Err(ErrorKind::Parse)
            }
        },
    }
}

/// The value-tree pathway additionally rejects the non-finite word forms,
/// which its output format cannot carry.
pub open spec fn spec_prim_float_strict(t: Option<Seq<char>>) -> Result<
    Option<Seq<char>>,
    ErrorKind,
> {
    match spec_prim_float(t) {
        Ok(Some(m)) => if is_float_word(m) {
            Err(ErrorKind::Parse)
        } else {
            Ok(Some(m))
        },
        r => r,
    }
}

/// The boolean rule: `1` is true, `0` is false, absent or all-whitespace
/// text is null, and any other text is a parse error.
pub open spec fn spec_prim_bool(t: Option<Seq<char>>) -> Result<Option<bool>, ErrorKind> {
    match t {
        None => Ok(None),
        Some(s) => {
            let m = trimmed(s);
            if m.len() == 0 {
                Ok(None)
            } else if m =~= seq!['1'] {
                Ok(Some(true))
            } else if m =~= seq!['0'] {
                Ok(Some(false))
            } else {
                Err(ErrorKind::Parse)
            }
        },
    }
}

/// The moment named by a date-time text, as milliseconds since the epoch,
/// if the text matches the layout `%Y-%m-%d %H:%M:%S`.
pub uninterp spec fn datetime_millis(s: Seq<char>) -> Option<i64>;

/// Relies on chrono::NaiveDateTime::parse_from_str with the fixed layout
/// `%Y-%m-%d %H:%M:%S`, and on and_utc().timestamp_millis(): both are
/// functions of the text alone, and parsing fails exactly on text not of
/// that layout.
#[verifier::external_body]
fn parse_datetime_text(s: &str) -> (r: Option<i64>)
    ensures
        r == datetime_millis(s@),
{
    chrono::NaiveDateTime::parse_from_str(s, "%Y-%m-%d %H:%M:%S")
        .ok()
        .map(|d| d.and_utc().timestamp_millis())
}

pub open spec fn spec_prim_date(t: Option<Seq<char>>) -> Result<Option<i64>, ErrorKind> {
    match t {
        None => Ok(None),
        Some(s) => {
            let m = trimmed(s);
            if m.len() == 0 {
                Ok(None)
            } else {
                match datetime_millis(m) {
                    Some(ms) => Ok(Some(ms)),
                    None => Err(ErrorKind::Parse),
                }
            }
        },
    }
}

// ------------------------------------------------------------------
// Executable decoders.  Each returns `Err(())` exactly where its spec
// function yields a parse error; callers attach the breadcrumb.
// ------------------------------------------------------------------

pub fn decode_u32_text(t: Option<&str>) -> (r: Result<Option<u32>, ()>)
    ensures
        ({
            let s = match t {
                Some(x) => Some(x@),
                None => None,
            };
            match r {
                Ok(v) => spec_prim_u32(s) == Ok::<Option<u32>, ErrorKind>(v),
                Err(_) => spec_prim_u32(s) == Err::<Option<u32>, ErrorKind>(ErrorKind::Parse),
            }
        }),
{
    match t {
        None => Ok(None),
        Some(x) => {
            let m = trim_str(x);
            if m.unicode_len() == 0 {
                Ok(None)
            } else {
                match parse_u32_text(m) {
                    Some(v) => Ok(Some(v)),
                    None => Err(()),
                }
            }
        },
    }
}

pub fn decode_i32_text(t: Option<&str>) -> (r: Result<Option<i32>, ()>)
    ensures
        ({
            let s = match t {
                Some(x) => Some(x@),
                None => None,
            };
            match r {
                Ok(v) => spec_prim_i32(s) == Ok::<Option<i32>, ErrorKind>(v),
                Err(_) => spec_prim_i32(s) == Err::<Option<i32>, ErrorKind>(ErrorKind::Parse),
            }
        }),
{
    match t {
        None => Ok(None),
        Some(x) => {
            let m = trim_str(x);
            if m.unicode_len() == 0 {
                Ok(None)
            } else {
                match parse_i32_text(m) {
                    Some(v) => Ok(Some(v)),
                    None => Err(()),
                }
            }
        },
    }
}

/// Decodes float text, returning the trimmed text of the value.
pub fn decode_float_text(t: Option<&str>, strict: bool) -> (r: Result<Option<String>, ()>)
    ensures
        ({
            let s = match t {
                Some(x) => Some(x@),
                None => None,
            };
            let spec_r = if strict {
                spec_prim_float_strict(s)
            } else {
                spec_prim_float(s)
            };
            match r {
                Ok(Some(v)) => spec_r == Ok::<Option<Seq<char>>, ErrorKind>(Some(v@)),
                Ok(None) => spec_r == Ok::<Option<Seq<char>>, ErrorKind>(None),
                Err(_) => spec_r == Err::<Option<Seq<char>>, ErrorKind>(ErrorKind::Parse),
            }
        }),
{
    match t {
        None => Ok(None),
        Some(x) => {
            let m = trim_str(x);
            if m.unicode_len() == 0 {
                Ok(None)
            } else if !float_text_ok(m) {
                Err(())
            } else if strict && is_float_word_x(m) {
                Err(())
            } else {
                Ok(Some(m.to_owned()))
            }
        },
    }
}

fn is_float_word_x(s: &str) -> (r: bool)
    ensures
        r == is_float_word(s@),
{
    let n = s.unicode_len();
    let from: usize = if n > 0 {
        let c0 = s.get_char(0);
        if c0 == '+' || c0 == '-' {
            1
        } else {
            0
        }
    } else {
        0
    };
    proof {
        if from == 1 {
            assert(s@.drop_first() =~= s@.subrange(1, s@.len() as int));
        } else {
            assert(s@ =~= s@.subrange(0, s@.len() as int));
        }
    }
    crate::text::check_float_word_body(s, from)
}

pub fn decode_bool_text(t: Option<&str>) -> (r: Result<Option<bool>, ()>)
    ensures
        ({
            let s = match t {
                Some(x) => Some(x@),
                None => None,
            };
            match r {
                Ok(v) => spec_prim_bool(s) == Ok::<Option<bool>, ErrorKind>(v),
                Err(_) => spec_prim_bool(s) == Err::<Option<bool>, ErrorKind>(ErrorKind::Parse),
            }
        }),
{
    match t {
        None => Ok(None),
        Some(x) => {
            let m = trim_str(x);
            let n = m.unicode_len();
            if n == 0 {
                Ok(None)
            } else if n == 1 && m.get_char(0) == '1' {
                proof {
                    assert(m@ =~= seq!['1']);
                }
                Ok(Some(true))
            } else if n == 1 && m.get_char(0) == '0' {
                proof {
                    assert(m@ =~= seq!['0']);
                }
                Ok(Some(false))
            } else {
                proof {
                    assert(!(m@ =~= seq!['1']));
                    assert(!(m@ =~= seq!['0']));
                }
                Err(())
            }
        },
    }
}

pub fn decode_date_text(t: Option<&str>) -> (r: Result<Option<i64>, ()>)
    ensures
        ({
            let s = match t {
                Some(x) => Some(x@),
                None => None,
            };
            match r {
                Ok(v) => spec_prim_date(s) == Ok::<Option<i64>, ErrorKind>(v),
                Err(_) => spec_prim_date(s) == Err::<Option<i64>, ErrorKind>(ErrorKind::Parse),
            }
        }),
{
    match t {
        None => Ok(None),
        Some(x) => {
            let m = trim_str(x);
            if m.unicode_len() == 0 {
                Ok(None)
            } else {
                match parse_datetime_text(m) {
                    Some(ms) => Ok(Some(ms)),
                    None => Err(()),
                }
            }
        },
    }
}

} // verus!

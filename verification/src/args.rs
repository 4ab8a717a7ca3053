use vstd::prelude::*;
use crate::error::{DecodeError, ErrorKind};
use crate::text::{parse_usize_text, str_eq, usize_text};

verus! {

// ------------------------------------------------------------------
// The plain argument values the command surface hands the library.
// ------------------------------------------------------------------

/// The output serialization to use.
#[derive(Clone, Copy, Debug, PartialEq, Eq, Structural)]
pub enum OutputFormat {
    JSON,
    Parquet,
}

impl Default for OutputFormat {
    fn default() -> (r: OutputFormat)
        ensures
            r == OutputFormat::JSON,
    {
        OutputFormat::JSON
    }
}

/// The optional output-format choice.
#[derive(Debug)]
pub struct OutputFormatArgs {
    pub output_format: Option<OutputFormat>,
}

/// The options every command shares: the configuration path and an
/// optional output path.
#[derive(Debug)]
pub struct Common {
    pub conf: String,
    pub output_path: Option<String>,
}

/// The options of the schema command.
#[derive(Debug)]
pub struct GetSchema {
    pub resource: String,
    pub common: Common,
}

// ------------------------------------------------------------------
// The `field=value1|value2` filter argument.
// ------------------------------------------------------------------

/// A filter on one field taking any of several values.
#[derive(Clone, Debug)]
pub struct FieldValueIn {
    pub field_name: String,
    pub values: Vec<String>,
}

/// The index of the first occurrence of `c`, or `-1`.
pub open spec fn char_index(s: Seq<char>, c: char) -> int
    decreases s.len(),
{
    if s.len() == 0 {
        -1
    } else if s[0] == c {
        0
    } else {
        let r = char_index(s.drop_first(), c);
        if r < 0 {
            -1
        } else {
            r + 1
        }
    }
}

proof fn lemma_char_index_at(s: Seq<char>, c: char, i: int)
    requires
        0 <= i < s.len(),
        s[i] == c,
        forall|k: int| 0 <= k < i ==> s[k] != c,
    ensures
        char_index(s, c) == i,
    decreases i,
{
    if i > 0 {
        let t = s.drop_first();
        assert(forall|k: int| 0 <= k < i - 1 ==> t[k] != c);
        lemma_char_index_at(t, c, i - 1);
    }
}

proof fn lemma_char_index_none(s: Seq<char>, c: char)
    requires
        forall|k: int| 0 <= k < s.len() ==> s[k] != c,
    ensures
        char_index(s, c) == -1,
    decreases s.len(),
{
    if s.len() > 0 {
        let t = s.drop_first();
        assert(forall|k: int| 0 <= k < t.len() ==> t[k] != c) by {
            assert(forall|k: int| 0 <= k < t.len() ==> t[k] == s[k + 1]);
        }
        lemma_char_index_none(t, c);
    }
}

/// The scanner of the value list: `\` escapes the next character, `|`
/// closes the value under construction; a trailing `\` fails.  `vals` and
/// `tmp` are the values closed so far and the one under construction.
pub open spec fn fv_scan(s: Seq<char>, vals: Seq<Seq<char>>, tmp: Seq<char>) -> Option<
    (Seq<Seq<char>>, Seq<char>),
>
    decreases s.len(),
{
    if s.len() == 0 {
        Some((vals, tmp))
    } else if s[0] == '\\' {
        if s.len() == 1 {
            None
        } else {
            fv_scan(s.skip(2), vals, tmp.push(s[1]))
        }
    } else if s[0] == '|' {
        fv_scan(s.drop_first(), vals.push(tmp), Seq::<char>::empty())
    } else {
        fv_scan(s.drop_first(), vals, tmp.push(s[0]))
    }
}

/// The parse of a whole `name=value1|value2` argument: the name is what
/// stands before the first `=` and must be non-empty; the values come
/// from the scanner, a non-empty final fragment counting as one more
/// value; an empty value list fails.
pub open spec fn spec_parse_fv(s: Seq<char>) -> Option<(Seq<char>, Seq<Seq<char>>)> {
    let e = char_index(s, '=');
    if e <= 0 {
        None
    } else {
        match fv_scan(s.skip(e + 1), Seq::<Seq<char>>::empty(), Seq::<char>::empty()) {
            None => None,
            Some((vals, tmp)) => {
                let vals2 = if tmp.len() > 0 {
                    vals.push(tmp)
                } else {
                    vals
                };
                if vals2.len() == 0 {
                    None
                } else {
                    Some((s.take(e), vals2))
                }
            },
        }
    }
}

impl FieldValueIn {
    /// Parses a `name=value1|value2` argument.
    pub fn parse_str(s: &str) -> (r: Result<FieldValueIn, DecodeError>)
        ensures
            match r {
                Ok(fv) => spec_parse_fv(s@) == Some(
                    (fv.field_name@, fv.values@.map_values(|v: String| v@)),
                ),
                Err(e) => spec_parse_fv(s@) is None && e.kind == ErrorKind::Parse,
            },
    {
        let n = s.unicode_len();
        // Find the first `=`.
        let mut e: usize = 0;
        while e < n && s.get_char(e) != '='
            invariant
                n == s@.len(),
                e <= n,
                forall|k: int| 0 <= k < e ==> s@[k] != '=',
            decreases n - e,
        {
            e = e + 1;
        }
        if e == n {
            proof {
                lemma_char_index_none(s@, '=');
            }
            return Err(DecodeError::new(ErrorKind::Parse, Vec::new()));
        }
        proof {
            lemma_char_index_at(s@, '=', e as int);
        }
        if e == 0 {
            return Err(DecodeError::new(ErrorKind::Parse, Vec::new()));
        }
        let field_name = s.substring_char(0, e).to_owned();
        let mut vals: Vec<String> = Vec::new();
        let mut tmp = String::new();
        let mut i: usize = e + 1;
        proof {
            assert(s@.skip(e + 1) =~= s@.subrange(e + 1, s@.len() as int));
            assert(vals@.map_values(|v: String| v@) =~= Seq::<Seq<char>>::empty());
            assert(tmp@ =~= Seq::<char>::empty());
        }
        while i < n
            invariant
                n == s@.len(),
                e + 1 <= i <= n,
                0 < e < n,
                char_index(s@, '=') == e,
                fv_scan(
                    s@.skip(e + 1),
                    Seq::<Seq<char>>::empty(),
                    Seq::<char>::empty(),
                ) == fv_scan(s@.skip(i as int), vals@.map_values(|v: String| v@), tmp@),
            decreases n - i,
        {
            let ghost rest = s@.skip(i as int);
            proof {
                assert(rest[0] == s@[i as int]);
            }
            let c = s.get_char(i);
            if c == '\\' {
                if i + 1 == n {
                    proof {
                        assert(rest.len() == 1);
                    }
                    return Err(DecodeError::new(ErrorKind::Parse, Vec::new()));
                }
                proof {
                    assert(rest[1] == s@[i + 1]);
                    assert(rest.skip(2) =~= s@.skip(i + 2));
                }
                let ghost pre_tmp = tmp@;
                tmp.append(s.substring_char(i + 1, i + 2));
                proof {
                    assert(s@.subrange(i + 1, i + 2) =~= seq![s@[i + 1]]);
                    assert(tmp@ =~= pre_tmp.push(s@[i + 1]));
                }
                i = i + 2;
            } else if c == '|' {
                proof {
                    assert(rest.drop_first() =~= s@.skip(i + 1));
                }
                let ghost pre_vals = vals@;
                let ghost pre_tmp = tmp@;
                vals.push(tmp);
                tmp = String::new();
                proof {
                    assert(vals@.map_values(|v: String| v@) =~= pre_vals.map_values(
                        |v: String| v@,
                    ).push(pre_tmp));
                    assert(tmp@ =~= Seq::<char>::empty());
                }
                i = i + 1;
            } else {
                proof {
                    assert(rest.drop_first() =~= s@.skip(i + 1));
                }
                let ghost pre_tmp = tmp@;
                tmp.append(s.substring_char(i, i + 1));
                proof {
                    assert(s@.subrange(i as int, i + 1) =~= seq![s@[i as int]]);
                    assert(tmp@ =~= pre_tmp.push(s@[i as int]));
                }
                i = i + 1;
            }
        }
        proof {
            assert(s@.skip(i as int).len() == 0);
        }
        if tmp.as_str().unicode_len() > 0 {
            vals.push(tmp);
        }
        if vals.len() == 0 {
            return Err(DecodeError::new(ErrorKind::Parse, Vec::new()));
        }
        proof {
            assert(s@.take(e as int) =~= s@.subrange(0, e as int));
        }
        Ok(FieldValueIn { field_name, values: vals })
    }
}

impl core::str::FromStr for FieldValueIn {
    type Err = DecodeError;

    fn from_str(s: &str) -> Result<FieldValueIn, DecodeError> {
        FieldValueIn::parse_str(s)
    }
}

// ------------------------------------------------------------------
// The record-count limit argument.
// ------------------------------------------------------------------

/// How many records to request: all of them, the first `n`, or `n` from
/// an index.
#[derive(Clone, Copy, Debug, PartialEq, Eq, Structural)]
pub enum Limit {
    All,
    Limit(usize),
    LimitFromIndex(usize, usize),
}

impl Default for Limit {
    fn default() -> (r: Limit)
        ensures
            r == Limit::All,
    {
        Limit::All
    }
}

/// The parse of a limit argument: `all`, a number, or `from,count`.
pub open spec fn spec_parse_limit(s: Seq<char>) -> Option<Limit> {
    if s == "all"@ {
        Some(Limit::All)
    } else {
        let c = char_index(s, ',');
        if c >= 0 {
            match (usize_text(s.take(c)), usize_text(s.skip(c + 1))) {
                (Some(a), Some(b)) => Some(Limit::LimitFromIndex(a, b)),
                _ => None,
            }
        } else {
            match usize_text(s) {
                Some(v) => Some(Limit::Limit(v)),
                None => None,
            }
        }
    }
}

impl Limit {
    /// Parses a limit argument.
    pub fn parse_str(s: &str) -> (r: Result<Limit, DecodeError>)
        ensures
            match r {
                Ok(l) => spec_parse_limit(s@) == Some(l),
                Err(e) => spec_parse_limit(s@) is None && e.kind == ErrorKind::Parse,
            },
    {
        if str_eq(s, "all") {
            return Ok(Limit::All);
        }
        let n = s.unicode_len();
        let mut c: usize = 0;
        while c < n && s.get_char(c) != ','
            invariant
                n == s@.len(),
                c <= n,
                forall|k: int| 0 <= k < c ==> s@[k] != ',',
            decreases n - c,
        {
            c = c + 1;
        }
        if c < n {
            proof {
                lemma_char_index_at(s@, ',', c as int);
                assert(s@.take(c as int) =~= s@.subrange(0, c as int));
                assert(s@.skip(c + 1) =~= s@.subrange(c + 1, s@.len() as int));
            }
            let a = s.substring_char(0, c);
            let b = s.substring_char(c + 1, n);
            match (parse_usize_text(a), parse_usize_text(b)) {
                (Some(x), Some(y)) => Ok(Limit::LimitFromIndex(x, y)),
                _ => Err(DecodeError::new(ErrorKind::Parse, Vec::new())),
            }
        } else {
            proof {
                lemma_char_index_none(s@, ',');
            }
            match parse_usize_text(s) {
                Some(v) => Ok(Limit::Limit(v)),
                None => Err(DecodeError::new(ErrorKind::Parse, Vec::new())),
            }
        }
    }
}

impl core::str::FromStr for Limit {
    type Err = DecodeError;

    fn from_str(s: &str) -> Result<Limit, DecodeError> {
        Limit::parse_str(s)
    }
}

} // verus!

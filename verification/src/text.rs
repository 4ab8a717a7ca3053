use vstd::prelude::*;

verus! {

// ------------------------------------------------------------------
// Character-level string equality.
// ------------------------------------------------------------------

/// Compares two string slices character by character.
pub fn str_eq(a: &str, b: &str) -> (r: bool)
    ensures
        r == (a@ == b@),
{
    let na = a.unicode_len();
    let nb = b.unicode_len();
    if na != nb {
        assert(a@.len() != b@.len());
        return false;
    }
    let mut i: usize = 0;
    while i < na
        invariant
            na == a@.len(),
            na == b@.len(),
            i <= na,
            forall|k: int| 0 <= k < i ==> a@[k] == b@[k],
        decreases na - i,
    {
        if a.get_char(i) != b.get_char(i) {
            return false;
        }
        i = i + 1;
    }
    proof {
        assert(a@ =~= b@);
    }
    true
}

// ------------------------------------------------------------------
// Whitespace trimming (ASCII whitespace, as XML text uses).
// ------------------------------------------------------------------

pub open spec fn is_space(c: char) -> bool {
    c == ' ' || c == '\t' || c == '\n' || c == '\r' || c == '\u{c}'
}

pub open spec fn drop_leading_spaces(s: Seq<char>) -> Seq<char>
    decreases s.len(),
{
    if s.len() > 0 && is_space(s[0]) {
        drop_leading_spaces(s.drop_first())
    } else {
        s
    }
}

pub open spec fn drop_trailing_spaces(s: Seq<char>) -> Seq<char>
    decreases s.len(),
{
    if s.len() > 0 && is_space(s.last()) {
        drop_trailing_spaces(s.drop_last())
    } else {
        s
    }
}

/// The sequence with leading and trailing whitespace removed.
pub open spec fn trimmed(s: Seq<char>) -> Seq<char> {
    drop_trailing_spaces(drop_leading_spaces(s))
}

proof fn lemma_drop_leading_is_suffix(s: Seq<char>, a: int)
    requires
        0 <= a <= s.len(),
        forall|k: int| 0 <= k < a ==> is_space(s[k]),
        a == s.len() || !is_space(s[a]),
    ensures
        drop_leading_spaces(s) == s.subrange(a, s.len() as int),
    decreases a,
{
    if a == 0 {
        if s.len() > 0 && is_space(s[0]) {
            assert(false);
        }
        assert(s.subrange(0, s.len() as int) =~= s);
    } else {
        assert(is_space(s[0]));
        let t = s.drop_first();
        assert(forall|k: int| 0 <= k < a - 1 ==> is_space(#[trigger] t[k]));
        lemma_drop_leading_is_suffix(t, a - 1);
        assert(t.subrange(a - 1, t.len() as int) =~= s.subrange(a, s.len() as int));
    }
}

proof fn lemma_drop_trailing_is_prefix(s: Seq<char>, b: int)
    requires
        0 <= b <= s.len(),
        forall|k: int| b <= k < s.len() ==> is_space(s[k]),
        b == 0 || !is_space(s[b - 1]),
    ensures
        drop_trailing_spaces(s) == s.subrange(0, b),
    decreases s.len() - b,
{
    if b == s.len() {
        if s.len() > 0 && is_space(s.last()) {
            assert(false);
        }
        assert(s.subrange(0, s.len() as int) =~= s);
    } else {
        assert(is_space(s.last()));
        let t = s.drop_last();
        assert(forall|k: int| b <= k < t.len() ==> is_space(#[trigger] t[k]));
        lemma_drop_trailing_is_prefix(t, b);
        assert(t.subrange(0, b) =~= s.subrange(0, b));
    }
}

fn is_space_char(c: char) -> (r: bool)
    ensures
        r == is_space(c),
{
    c == ' ' || c == '\t' || c == '\n' || c == '\r' || c == '\u{c}'
}

/// Returns the slice of `s` with leading and trailing whitespace removed.
pub fn trim_str(s: &str) -> (r: &str)
    ensures
        r@ == trimmed(s@),
{
    let n = s.unicode_len();
    let mut a: usize = 0;
    while a < n && is_space_char(s.get_char(a))
        invariant
            n == s@.len(),
            a <= n,
            forall|k: int| 0 <= k < a ==> is_space(s@[k]),
        decreases n - a,
    {
        a = a + 1;
    }
    if a == n {
        proof {
            lemma_drop_leading_is_suffix(s@, a as int);
            assert(drop_leading_spaces(s@) =~= Seq::<char>::empty());
        }
        let r = s.substring_char(n, n);
        proof {
            assert(r@ =~= Seq::<char>::empty());
        }
        return r;
    }
    let mut b: usize = n;
    while b > a && is_space_char(s.get_char(b - 1))
        invariant
            n == s@.len(),
            a <= b <= n,
            !is_space(s@[a as int]),
            forall|k: int| b <= k < n ==> is_space(s@[k]),
        decreases b,
    {
        b = b - 1;
    }
    proof {
        lemma_drop_leading_is_suffix(s@, a as int);
        let m = s@.subrange(a as int, s@.len() as int);
        assert(forall|k: int| b - a <= k < m.len() ==> is_space(#[trigger] m[k]));
        assert(!is_space(m[(b - a) - 1]));
        lemma_drop_trailing_is_prefix(m, b - a);
        assert(m.subrange(0, b - a) =~= s@.subrange(a as int, b as int));
    }
    s.substring_char(a, b)
}

// ------------------------------------------------------------------
// Decimal digit sequences.
// ------------------------------------------------------------------

pub open spec fn is_digit(c: char) -> bool {
    '0' <= c && c <= '9'
}

pub open spec fn digit_val(c: char) -> int {
    (c as int) - ('0' as int)
}

pub open spec fn all_digits(s: Seq<char>) -> bool {
    forall|i: int| 0 <= i < s.len() ==> is_digit(#[trigger] s[i])
}

/// The value of a sequence of decimal digits, most significant first.
pub open spec fn dec_val(s: Seq<char>) -> int
    decreases s.len(),
{
    if s.len() == 0 {
        0
    } else {
        dec_val(s.drop_last()) * 10 + digit_val(s.last())
    }
}

proof fn lemma_dec_val_step(s: Seq<char>, i: int)
    requires
        0 <= i < s.len(),
    ensures
        dec_val(s.subrange(0, i + 1)) == dec_val(s.subrange(0, i)) * 10 + digit_val(s[i]),
{
    let p = s.subrange(0, i + 1);
    assert(p.drop_last() =~= s.subrange(0, i));
    assert(p.last() == s[i]);
}

proof fn lemma_dec_val_nonneg(s: Seq<char>)
    requires
        all_digits(s),
    ensures
        dec_val(s) >= 0,
    decreases s.len(),
{
    if s.len() > 0 {
        assert(all_digits(s.drop_last()));
        lemma_dec_val_nonneg(s.drop_last());
    }
}

proof fn lemma_dec_val_prefix_le(s: Seq<char>, i: int)
    requires
        0 <= i <= s.len(),
        all_digits(s),
    ensures
        dec_val(s.subrange(0, i)) <= dec_val(s),
    decreases s.len() - i,
{
    if i == s.len() {
        assert(s.subrange(0, i) =~= s);
    } else {
        lemma_dec_val_step(s, i);
        assert(all_digits(s.subrange(0, i)));
        lemma_dec_val_nonneg(s.subrange(0, i));
        lemma_dec_val_prefix_le(s, i + 1);
    }
}

fn digit_of(c: char) -> (r: Option<u32>)
    ensures
        r is Some <==> is_digit(c),
        r is Some ==> r->0 == digit_val(c) && r->0 <= 9,
{
    if '0' <= c && c <= '9' {
        Some((c as u32) - ('0' as u32))
    } else {
        None
    }
}

/// Parses an unsigned decimal digit run `s[from..]`, returning its value if
/// every remaining character is a digit, there is at least one, and the value
/// is at most `limit`.
fn parse_digits_u64(s: &str, from: usize, limit: u64) -> (r: Option<u64>)
    requires
        from <= s@.len(),
        limit <= 0xffff_ffff,
    ensures
        ({
            let t = s@.subrange(from as int, s@.len() as int);
            match r {
                Some(v) => t.len() > 0 && all_digits(t) && dec_val(t) == v && v <= limit,
                None => !(t.len() > 0 && all_digits(t) && dec_val(t) <= limit),
            }
        }),
{
    let ghost t = s@.subrange(from as int, s@.len() as int);
    let n = s.unicode_len();
    if from == n {
        assert(t.len() == 0);
        return None;
    }
    let mut i: usize = from;
    let mut acc: u64 = 0;
    while i < n
        invariant
            n == s@.len(),
            from <= i <= n,
            from < n,
            limit <= 0xffff_ffff,
            t == s@.subrange(from as int, s@.len() as int),
            all_digits(t.subrange(0, i - from)),
            acc == dec_val(t.subrange(0, i - from)),
            acc <= limit,
        decreases n - i,
    {
        let c = s.get_char(i);
        assert(c == t[i - from]);
        match digit_of(c) {
            None => {
                assert(!all_digits(t));
                return None;
            },
            Some(d) => {
                proof {
                    lemma_dec_val_step(t, i - from);
                }
                let next: u64 = acc * 10 + (d as u64);
                if next > limit {
                    proof {
                        if all_digits(t) && dec_val(t) <= limit {
                            lemma_dec_val_prefix_le(t, i - from + 1);
                        }
                    }
                    return None;
                }
                acc = next;
                i = i + 1;
            },
        }
    }
    proof {
        assert(t.subrange(0, i - from) =~= t);
    }
    Some(acc)
}

// ------------------------------------------------------------------
// Integer text parsing, with the grammar of Rust's integer `from_str`:
// an optional sign followed by one or more decimal digits, rejecting
// values out of range.
// ------------------------------------------------------------------

pub open spec fn u32_text(s: Seq<char>) -> Option<u32> {
    let t = if s.len() > 0 && s[0] == '+' {
        s.drop_first()
    } else {
        s
    };
    if t.len() > 0 && all_digits(t) && dec_val(t) <= u32::MAX {
        Some(dec_val(t) as u32)
    } else {
        None
    }
}

pub open spec fn i32_text(s: Seq<char>) -> Option<i32> {
    if s.len() > 0 && s[0] == '-' {
        let t = s.drop_first();
        if t.len() > 0 && all_digits(t) && dec_val(t) <= 0x8000_0000 {
            Some((0 - dec_val(t)) as i32)
        } else {
            None
        }
    } else {
        let t = if s.len() > 0 && s[0] == '+' {
            s.drop_first()
        } else {
            s
        };
        if t.len() > 0 && all_digits(t) && dec_val(t) <= i32::MAX {
            Some(dec_val(t) as i32)
        } else {
            None
        }
    }
}

/// Parses unsigned decimal text as `u32`.
pub fn parse_u32_text(s: &str) -> (r: Option<u32>)
    ensures
        r == u32_text(s@),
{
    let n = s.unicode_len();
    let from: usize = if n > 0 && s.get_char(0) == '+' {
        1
    } else {
        0
    };
    proof {
        if from == 1 {
            assert(s@.drop_first() =~= s@.subrange(1, s@.len() as int));
        } else {
            assert(s@ =~= s@.subrange(0, s@.len() as int));
        }
    }
    match parse_digits_u64(s, from, u32::MAX as u64) {
        Some(v) => Some(v as u32),
        None => None,
    }
}

/// Parses an unsigned decimal digit run `s[from..]` against a wide limit.
fn parse_digits_u128(s: &str, from: usize, limit: u128) -> (r: Option<u128>)
    requires
        from <= s@.len(),
        limit <= 0xffff_ffff_ffff_ffff,
    ensures
        ({
            let t = s@.subrange(from as int, s@.len() as int);
            match r {
                Some(v) => t.len() > 0 && all_digits(t) && dec_val(t) == v && v <= limit,
                None => !(t.len() > 0 && all_digits(t) && dec_val(t) <= limit),
            }
        }),
{
    let ghost t = s@.subrange(from as int, s@.len() as int);
    let n = s.unicode_len();
    if from == n {
        assert(t.len() == 0);
        return None;
    }
    let mut i: usize = from;
    let mut acc: u128 = 0;
    while i < n
        invariant
            n == s@.len(),
            from <= i <= n,
            from < n,
            limit <= 0xffff_ffff_ffff_ffff,
            t == s@.subrange(from as int, s@.len() as int),
            all_digits(t.subrange(0, i - from)),
            acc == dec_val(t.subrange(0, i - from)),
            acc <= limit,
        decreases n - i,
    {
        let c = s.get_char(i);
        assert(c == t[i - from]);
        match digit_of(c) {
            None => {
                assert(!all_digits(t));
                return None;
            },
            Some(d) => {
                proof {
                    lemma_dec_val_step(t, i - from);
                }
                let next: u128 = acc * 10 + (d as u128);
                if next > limit {
                    proof {
                        if all_digits(t) && dec_val(t) <= limit {
                            lemma_dec_val_prefix_le(t, i - from + 1);
                        }
                    }
                    return None;
                }
                acc = next;
                i = i + 1;
            },
        }
    }
    proof {
        assert(t.subrange(0, i - from) =~= t);
    }
    Some(acc)
}

pub open spec fn usize_text(s: Seq<char>) -> Option<usize> {
    let t = if s.len() > 0 && s[0] == '+' {
        s.drop_first()
    } else {
        s
    };
    if t.len() > 0 && all_digits(t) && dec_val(t) <= usize::MAX {
        Some(dec_val(t) as usize)
    } else {
        None
    }
}

/// Parses unsigned decimal text as `usize`.
pub fn parse_usize_text(s: &str) -> (r: Option<usize>)
    ensures
        r == usize_text(s@),
{
    let n = s.unicode_len();
    let from: usize = if n > 0 && s.get_char(0) == '+' {
        1
    } else {
        0
    };
    proof {
        if from == 1 {
            assert(s@.drop_first() =~= s@.subrange(1, s@.len() as int));
        } else {
            assert(s@ =~= s@.subrange(0, s@.len() as int));
        }
    }
    match parse_digits_u128(s, from, usize::MAX as u128) {
        Some(v) => Some(v as usize),
        None => None,
    }
}

// ------------------------------------------------------------------
// Decimal rendering.
// ------------------------------------------------------------------

pub open spec fn digit_char(d: int) -> char {
    if d == 0 {
        '0'
    } else if d == 1 {
        '1'
    } else if d == 2 {
        '2'
    } else if d == 3 {
        '3'
    } else if d == 4 {
        '4'
    } else if d == 5 {
        '5'
    } else if d == 6 {
        '6'
    } else if d == 7 {
        '7'
    } else if d == 8 {
        '8'
    } else {
        '9'
    }
}

/// The decimal rendering of a non-negative number, most significant digit
/// first.
pub open spec fn dec_str(n: int) -> Seq<char>
    decreases n,
{
    if n < 10 {
        seq![digit_char(n)]
    } else {
        dec_str(n / 10) + seq![digit_char(n % 10)]
    }
}

fn digit_str(d: u64) -> (r: &'static str)
    requires
        d < 10,
    ensures
        r@ == seq![digit_char(d as int)],
{
    if d == 0 {
        proof {
            reveal_strlit("0");
            assert("0"@ =~= seq!['0']);
        }
        "0"
    } else if d == 1 {
        proof {
            reveal_strlit("1");
            assert("1"@ =~= seq!['1']);
        }
        "1"
    } else if d == 2 {
        proof {
            reveal_strlit("2");
            assert("2"@ =~= seq!['2']);
        }
        "2"
    } else if d == 3 {
        proof {
            reveal_strlit("3");
            assert("3"@ =~= seq!['3']);
        }
        "3"
    } else if d == 4 {
        proof {
            reveal_strlit("4");
            assert("4"@ =~= seq!['4']);
        }
        "4"
    } else if d == 5 {
        proof {
            reveal_strlit("5");
            assert("5"@ =~= seq!['5']);
        }
        "5"
    } else if d == 6 {
        proof {
            reveal_strlit("6");
            assert("6"@ =~= seq!['6']);
        }
        "6"
    } else if d == 7 {
        proof {
            reveal_strlit("7");
            assert("7"@ =~= seq!['7']);
        }
        "7"
    } else if d == 8 {
        proof {
            reveal_strlit("8");
            assert("8"@ =~= seq!['8']);
        }
        "8"
    } else {
        proof {
            reveal_strlit("9");
            assert("9"@ =~= seq!['9']);
        }
        "9"
    }
}

/// Renders a number in decimal.
pub fn u64_to_string(n: u64) -> (r: String)
    ensures
        r@ == dec_str(n as int),
    decreases n,
{
    if n < 10 {
        String::from_str(digit_str(n))
    } else {
        let mut s = u64_to_string(n / 10);
        s.append(digit_str(n % 10));
        s
    }
}

/// Renders a `u32` in decimal.
pub fn u32_to_string(n: u32) -> (r: String)
    ensures
        r@ == dec_str(n as int),
{
    u64_to_string(n as u64)
}

/// Renders a `usize` in decimal.
pub fn usize_to_string(n: usize) -> (r: String)
    ensures
        r@ == dec_str(n as int),
{
    u64_to_string(n as u64)
}

// ------------------------------------------------------------------
// Float literal grammar, as Rust's `f64` `from_str` documents it:
// an optional sign, then either one of the words `inf`, `infinity`,
// `nan` (case-insensitively) or a decimal number
//     digits [ '.' [digits] ] [exp]  |  '.' digits [exp]
// with exp = ('e'|'E') [sign] digits.  The library stores float values
// as their text, so this predicate is what "parsable as a float" means.
// ------------------------------------------------------------------

pub open spec fn strip_sign(s: Seq<char>) -> Seq<char> {
    if s.len() > 0 && (s[0] == '+' || s[0] == '-') {
        s.drop_first()
    } else {
        s
    }
}

pub open spec fn lower_word_char(c: char) -> char {
    if c == 'I' {
        'i'
    } else if c == 'N' {
        'n'
    } else if c == 'F' {
        'f'
    } else if c == 'A' {
        'a'
    } else if c == 'T' {
        't'
    } else if c == 'Y' {
        'y'
    } else {
        c
    }
}

/// The unsigned word forms accepted by the float grammar.
pub open spec fn is_float_word_body(t: Seq<char>) -> bool {
    let l = t.map_values(|c: char| lower_word_char(c));
    l =~= seq!['i', 'n', 'f'] || l =~= seq!['i', 'n', 'f', 'i', 'n', 'i', 't', 'y'] || l
        =~= seq!['n', 'a', 'n']
}

/// Whether the text is a signed word form (`inf`, `infinity`, `nan`).
pub open spec fn is_float_word(s: Seq<char>) -> bool {
    is_float_word_body(strip_sign(s))
}

/// The number of leading decimal digits.
pub open spec fn span_digits(s: Seq<char>) -> int
    decreases s.len(),
{
    if s.len() > 0 && is_digit(s[0]) {
        1 + span_digits(s.drop_first())
    } else {
        0
    }
}

proof fn lemma_span_digits_char(s: Seq<char>, n: int)
    requires
        0 <= n <= s.len(),
        forall|k: int| 0 <= k < n ==> is_digit(s[k]),
        n == s.len() || !is_digit(s[n]),
    ensures
        span_digits(s) == n,
    decreases n,
{
    if n == 0 {
    } else {
        let t = s.drop_first();
        assert(forall|k: int| 0 <= k < n - 1 ==> is_digit(#[trigger] t[k]));
        lemma_span_digits_char(t, n - 1);
    }
}

/// An optional exponent part: empty, or `e`/`E`, an optional sign, and
/// one or more digits.
pub open spec fn exp_ok(s: Seq<char>) -> bool {
    if s.len() == 0 {
        true
    } else if s[0] == 'e' || s[0] == 'E' {
        let t = strip_sign(s.drop_first());
        t.len() > 0 && all_digits(t)
    } else {
        false
    }
}

/// An unsigned decimal number with optional fraction and exponent.
pub open spec fn is_float_number(t: Seq<char>) -> bool {
    let d1 = span_digits(t);
    let r1 = t.skip(d1);
    if d1 == 0 {
        r1.len() > 0 && r1[0] == '.' && ({
            let r2 = r1.drop_first();
            let d2 = span_digits(r2);
            d2 > 0 && exp_ok(r2.skip(d2))
        })
    } else if r1.len() > 0 && r1[0] == '.' {
        let r2 = r1.drop_first();
        let d2 = span_digits(r2);
        exp_ok(r2.skip(d2))
    } else {
        exp_ok(r1)
    }
}

/// Whether the text parses as a float under Rust's grammar.
pub open spec fn is_float_text(s: Seq<char>) -> bool {
    let t = strip_sign(s);
    is_float_word_body(t) || is_float_number(t)
}

fn lower_word_char_x(c: char) -> (r: char)
    ensures
        r == lower_word_char(c),
{
    if c == 'I' {
        'i'
    } else if c == 'N' {
        'n'
    } else if c == 'F' {
        'f'
    } else if c == 'A' {
        'a'
    } else if c == 'T' {
        't'
    } else if c == 'Y' {
        'y'
    } else {
        c
    }
}

/// Checks the word forms `inf`, `infinity` and `nan`, case-insensitively,
/// on `s[from..]`.
pub(crate) fn check_float_word_body(s: &str, from: usize) -> (r: bool)
    requires
        from <= s@.len(),
    ensures
        r == is_float_word_body(s@.subrange(from as int, s@.len() as int)),
{
    let ghost t = s@.subrange(from as int, s@.len() as int);
    let ghost l = t.map_values(|c: char| lower_word_char(c));
    proof {
        assert(l.len() == t.len());
    }
    let n = s.unicode_len();
    let len = n - from;
    if len == 3 {
        let c0 = lower_word_char_x(s.get_char(from));
        let c1 = lower_word_char_x(s.get_char(from + 1));
        let c2 = lower_word_char_x(s.get_char(from + 2));
        assert(c0 == l[0] && c1 == l[1] && c2 == l[2]);
        let inf = c0 == 'i' && c1 == 'n' && c2 == 'f';
        let nan = c0 == 'n' && c1 == 'a' && c2 == 'n';
        proof {
            if inf {
                assert(l =~= seq!['i', 'n', 'f']);
            }
            if nan {
                assert(l =~= seq!['n', 'a', 'n']);
            }
        }
        inf || nan
    } else if len == 8 {
        let c0 = lower_word_char_x(s.get_char(from));
        let c1 = lower_word_char_x(s.get_char(from + 1));
        let c2 = lower_word_char_x(s.get_char(from + 2));
        let c3 = lower_word_char_x(s.get_char(from + 3));
        let c4 = lower_word_char_x(s.get_char(from + 4));
        let c5 = lower_word_char_x(s.get_char(from + 5));
        let c6 = lower_word_char_x(s.get_char(from + 6));
        let c7 = lower_word_char_x(s.get_char(from + 7));
        assert(c0 == l[0] && c1 == l[1] && c2 == l[2] && c3 == l[3] && c4 == l[4] && c5 == l[5]
            && c6 == l[6] && c7 == l[7]);
        let r = c0 == 'i' && c1 == 'n' && c2 == 'f' && c3 == 'i' && c4 == 'n' && c5 == 'i' && c6
            == 't' && c7 == 'y';
        proof {
            if r {
                assert(l =~= seq!['i', 'n', 'f', 'i', 'n', 'i', 't', 'y']);
            }
        }
        r
    } else {
        false
    }
}

/// Counts the decimal digits of `s` starting at `from`.
fn scan_digits(s: &str, from: usize) -> (r: usize)
    requires
        from <= s@.len(),
    ensures
        from + r <= s@.len(),
        r == span_digits(s@.subrange(from as int, s@.len() as int)),
        forall|k: int|
            0 <= k < r ==> is_digit(#[trigger] s@.subrange(from as int, s@.len() as int)[k]),
        from + r == s@.len() || !is_digit(s@.subrange(from as int, s@.len() as int)[r as int]),
{
    let ghost t = s@.subrange(from as int, s@.len() as int);
    let n = s.unicode_len();
    let mut i: usize = from;
    while i < n && digit_of(s.get_char(i)).is_some()
        invariant
            n == s@.len(),
            from <= i <= n,
            t == s@.subrange(from as int, s@.len() as int),
            forall|k: int| 0 <= k < i - from ==> is_digit(#[trigger] t[k]),
        decreases n - i,
    {
        i = i + 1;
    }
    proof {
        lemma_span_digits_char(t, i - from);
    }
    i - from
}

/// Checks an optional exponent on `s[from..]`.
fn check_exp(s: &str, from: usize) -> (r: bool)
    requires
        from <= s@.len(),
    ensures
        r == exp_ok(s@.subrange(from as int, s@.len() as int)),
{
    let ghost t = s@.subrange(from as int, s@.len() as int);
    let n = s.unicode_len();
    if from == n {
        return true;
    }
    let c = s.get_char(from);
    assert(c == t[0]);
    if c != 'e' && c != 'E' {
        return false;
    }
    let mut p = from + 1;
    proof {
        assert(t.drop_first() =~= s@.subrange(from + 1, s@.len() as int));
    }
    if p < n {
        let c2 = s.get_char(p);
        if c2 == '+' || c2 == '-' {
            p = p + 1;
            proof {
                let d = s@.subrange(from + 1, s@.len() as int);
                assert(d.drop_first() =~= s@.subrange(from + 2, s@.len() as int));
            }
        }
    }
    let ghost rest = s@.subrange(p as int, s@.len() as int);
    assert(rest == strip_sign(t.drop_first()));
    let d = scan_digits(s, p);
    if p == n {
        return false;
    }
    if p + d == n {
        assert(all_digits(rest));
        true
    } else {
        assert(!is_digit(rest[d as int]));
        false
    }
}

/// Checks whether the whole of `s` parses as a float under Rust's grammar.
pub fn float_text_ok(s: &str) -> (r: bool)
    ensures
        r == is_float_text(s@),
{
    let n = s.unicode_len();
    let from: usize = if n > 0 {
        let c0 = s.get_char(0);
        if c0 == '+' || c0 == '-' {
            1
        } else {
            0
        }
    } else {
        0
    };
    let ghost t = strip_sign(s@);
    proof {
        if from == 1 {
            assert(s@.drop_first() =~= s@.subrange(1, s@.len() as int));
        } else {
            assert(s@ =~= s@.subrange(0, s@.len() as int));
        }
        assert(t == s@.subrange(from as int, s@.len() as int));
    }
    if check_float_word_body(s, from) {
        return true;
    }
    // Number form.
    let d1 = scan_digits(s, from);
    let ghost r1 = t.skip(span_digits(t));
    proof {
        assert(r1 =~= s@.subrange(from + d1, s@.len() as int));
    }
    let p1 = from + d1;
    if d1 == 0 {
        if p1 < n && s.get_char(p1) == '.' {
            proof {
                assert(r1.drop_first() =~= s@.subrange(p1 + 1, s@.len() as int));
            }
            let d2 = scan_digits(s, p1 + 1);
            let ghost r2 = r1.drop_first();
            proof {
                assert(r2.skip(span_digits(r2)) =~= s@.subrange(p1 + 1 + d2, s@.len() as int));
            }
            if d2 > 0 {
                check_exp(s, p1 + 1 + d2)
            } else {
                false
            }
        } else {
            false
        }
    } else if p1 < n && s.get_char(p1) == '.' {
        proof {
            assert(r1.drop_first() =~= s@.subrange(p1 + 1, s@.len() as int));
        }
        let d2 = scan_digits(s, p1 + 1);
        let ghost r2 = r1.drop_first();
        proof {
            assert(r2.skip(span_digits(r2)) =~= s@.subrange(p1 + 1 + d2, s@.len() as int));
        }
        check_exp(s, p1 + 1 + d2)
    } else {
        check_exp(s, p1)
    }
}

/// Parses signed decimal text as `i32`.
pub fn parse_i32_text(s: &str) -> (r: Option<i32>)
    ensures
        r == i32_text(s@),
{
    let n = s.unicode_len();
    if n > 0 && s.get_char(0) == '-' {
        proof {
            assert(s@.drop_first() =~= s@.subrange(1, s@.len() as int));
        }
        match parse_digits_u64(s, 1, 0x8000_0000u64) {
            Some(v) => Some((0i64 - (v as i64)) as i32),
            None => None,
        }
    } else {
        let from: usize = if n > 0 && s.get_char(0) == '+' {
            1
        } else {
            0
        };
        proof {
            if from == 1 {
                assert(s@.drop_first() =~= s@.subrange(1, s@.len() as int));
            } else {
                assert(s@ =~= s@.subrange(0, s@.len() as int));
            }
        }
        match parse_digits_u64(s, from, i32::MAX as u64) {
            Some(v) => Some(v as i32),
            None => None,
        }
    }
}

} // verus!

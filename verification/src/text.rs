//! Character-level string helpers shared by the parsers: whitespace
//! trimming, ASCII case folding, decimal numbers.
use vstd::prelude::*;

verus! {

broadcast use vstd::string::group_string_axioms;

/// The characters of `s`, in order.
pub fn chars_of(s: &str) -> (v: Vec<char>)
    ensures
        v@ == s@,
{
    let mut v: Vec<char> = Vec::new();
    for c in it: s.chars()
        invariant
            v@ == it.seq().take(it.index() as int),
            it.seq() == s@,
    {
        v.push(c);
    }
    assert(v@ == s@);
    v
}

/// A string holding exactly the characters `v[a..b]`.
pub fn string_of(v: &Vec<char>, a: usize, b: usize) -> (s: String)
    requires
        a <= b <= v@.len(),
    ensures
        s@ == v@.subrange(a as int, b as int),
{
    let mut s = String::new();
    let mut i = a;
    while i < b
        invariant
            a <= i <= b <= v@.len(),
            s@ == v@.subrange(a as int, i as int),
        decreases b - i,
    {
        s.push(v[i]);
        assert(v@.subrange(a as int, i + 1) == v@.subrange(a as int, i as int).push(v@[i as int]));
        i = i + 1;
    }
    s
}

/// The characters `v[a..b]` as a vector.
pub fn slice_chars(v: &Vec<char>, a: usize, b: usize) -> (r: Vec<char>)
    requires
        a <= b <= v@.len(),
    ensures
        r@ == v@.subrange(a as int, b as int),
{
    let mut r: Vec<char> = Vec::new();
    let mut i = a;
    while i < b
        invariant
            a <= i <= b <= v@.len(),
            r@ == v@.subrange(a as int, i as int),
        decreases b - i,
    {
        r.push(v[i]);
        assert(v@.subrange(a as int, i + 1) == v@.subrange(a as int, i as int).push(v@[i as int]));
        i = i + 1;
    }
    r
}

/// `a` and `b` hold the same characters.
pub fn str_eq(a: &str, b: &str) -> (r: bool)
    ensures
        r == (a@ == b@),
{
    let x = a.as_bytes();
    let y = b.as_bytes();
    proof {
        vstd::utf8::encode_utf8_decode_utf8(a@);
        vstd::utf8::encode_utf8_decode_utf8(b@);
    }
    if x.len() != y.len() {
        return false;
    }
    let mut i: usize = 0;
    while i < x.len()
        invariant
            x@ == vstd::utf8::encode_utf8(a@),
            y@ == vstd::utf8::encode_utf8(b@),
            x@.len() == y@.len(),
            i <= x@.len(),
            forall|j: int| 0 <= j < i ==> x@[j] == y@[j],
        decreases x@.len() - i,
    {
        if x[i] != y[i] {
            return false;
        }
        i = i + 1;
    }
    assert(x@ =~= y@);
    true
}

/// A fresh `String` equal to `s`.
pub fn string_from(s: &str) -> (r: String)
    ensures
        r@ == s@,
{
    s.to_owned()
}

// ---------------------------------------------------------------------------
// Whitespace.
// ---------------------------------------------------------------------------

/// Unicode `White_Space` (what `char::is_whitespace` accepts).
pub open spec fn is_unicode_whitespace(c: char) -> bool {
    ||| ('\u{9}' <= c && c <= '\u{d}')
    ||| c == ' '
    ||| c == '\u{85}'
    ||| c == '\u{a0}'
    ||| c == '\u{1680}'
    ||| ('\u{2000}' <= c && c <= '\u{200a}')
    ||| c == '\u{2028}'
    ||| c == '\u{2029}'
    ||| c == '\u{202f}'
    ||| c == '\u{205f}'
    ||| c == '\u{3000}'
}

pub fn is_whitespace(c: char) -> (r: bool)
    ensures
        r == is_unicode_whitespace(c),
{
    ('\u{9}' <= c && c <= '\u{d}') || c == ' ' || c == '\u{85}' || c == '\u{a0}' || c
        == '\u{1680}' || ('\u{2000}' <= c && c <= '\u{200a}') || c == '\u{2028}' || c
        == '\u{2029}' || c == '\u{202f}' || c == '\u{205f}' || c == '\u{3000}'
}

/// Number of leading characters of `s` that satisfy `p`.
pub open spec fn leading_count(s: Seq<char>, p: spec_fn(char) -> bool) -> nat
    decreases s.len(),
{
    if s.len() > 0 && p(s[0]) {
        1 + leading_count(s.drop_first(), p)
    } else {
        0
    }
}

/// Number of trailing characters of `s` that satisfy `p`.
pub open spec fn trailing_count(s: Seq<char>, p: spec_fn(char) -> bool) -> nat
    decreases s.len(),
{
    if s.len() > 0 && p(s.last()) {
        1 + trailing_count(s.drop_last(), p)
    } else {
        0
    }
}

/// `s` without its leading characters that satisfy `p`.
pub open spec fn trim_start_by(s: Seq<char>, p: spec_fn(char) -> bool) -> Seq<char> {
    s.subrange(leading_count(s, p) as int, s.len() as int)
}

/// `s` without its trailing characters that satisfy `p`.
pub open spec fn trim_end_by(s: Seq<char>, p: spec_fn(char) -> bool) -> Seq<char> {
    s.subrange(0, s.len() - trailing_count(s, p))
}

/// `s` without leading and trailing characters that satisfy `p`.
pub open spec fn trim_by(s: Seq<char>, p: spec_fn(char) -> bool) -> Seq<char> {
    trim_end_by(trim_start_by(s, p), p)
}

/// `str::trim`: leading and trailing Unicode whitespace removed.
pub open spec fn trim_ws(s: Seq<char>) -> Seq<char> {
    trim_by(s, |c: char| is_unicode_whitespace(c))
}

pub proof fn lemma_leading_count(s: Seq<char>, p: spec_fn(char) -> bool, i: int)
    requires
        0 <= i <= s.len(),
        forall|j: int| 0 <= j < i ==> p(#[trigger] s[j]),
        i == s.len() || !p(s[i]),
    ensures
        leading_count(s, p) == i,
    decreases s.len(),
{
    if i > 0 {
        assert(p(s[0]));
        let t = s.drop_first();
        assert forall|j: int| 0 <= j < i - 1 implies p(#[trigger] t[j]) by {
            assert(t[j] == s[j + 1]);
        }
        if i - 1 < t.len() {
            assert(t[i - 1] == s[i]);
        }
        lemma_leading_count(t, p, i - 1);
    }
}

pub proof fn lemma_trailing_count(s: Seq<char>, p: spec_fn(char) -> bool, i: int)
    requires
        0 <= i <= s.len(),
        forall|j: int| i <= j < s.len() ==> p(#[trigger] s[j]),
        i == 0 || !p(s[i - 1]),
    ensures
        trailing_count(s, p) == s.len() - i,
    decreases s.len(),
{
    if i < s.len() {
        assert(p(s.last()));
        let t = s.drop_last();
        assert forall|j: int| i <= j < t.len() implies p(#[trigger] t[j]) by {
            assert(t[j] == s[j]);
        }
        if i > 0 {
            assert(t[i - 1] == s[i - 1]);
        }
        lemma_trailing_count(t, p, i);
    }
}

/// Positions `[a, b)` of `v` that remain once leading and trailing Unicode
/// whitespace is removed.
pub fn trim_bounds(v: &Vec<char>) -> (r: (usize, usize))
    ensures
        r.0 <= r.1 <= v@.len(),
        v@.subrange(r.0 as int, r.1 as int) == trim_ws(v@),
{
    let ghost p = |c: char| is_unicode_whitespace(c);
    let mut a: usize = 0;
    while a < v.len() && is_whitespace(v[a])
        invariant
            a <= v@.len(),
            forall|j: int| 0 <= j < a ==> is_unicode_whitespace(#[trigger] v@[j]),
        decreases v@.len() - a,
    {
        a = a + 1;
    }
    proof {
        lemma_leading_count(v@, p, a as int);
    }
    let ghost t = v@.subrange(a as int, v@.len() as int);
    let mut b: usize = v.len();
    while b > a && is_whitespace(v[b - 1])
        invariant
            a <= b <= v@.len(),
            t == v@.subrange(a as int, v@.len() as int),
            forall|j: int| b <= j < v@.len() ==> is_unicode_whitespace(#[trigger] v@[j]),
        decreases b - a,
    {
        b = b - 1;
    }
    proof {
        assert forall|j: int| b - a <= j < t.len() implies p(#[trigger] t[j]) by {
            assert(t[j] == v@[a + j]);
        }
        if b > a {
            assert(t[b - a - 1] == v@[b - 1]);
        }
        lemma_trailing_count(t, p, b - a);
        assert(trim_start_by(v@, p) == t);
        assert(t.subrange(0, b - a) == v@.subrange(a as int, b as int));
    }
    (a, b)
}

/// `str::trim` into a fresh `String`.
pub fn trim(s: &str) -> (r: String)
    ensures
        r@ == trim_ws(s@),
{
    let v = chars_of(s);
    let (a, b) = trim_bounds(&v);
    string_of(&v, a, b)
}

// ---------------------------------------------------------------------------
// ASCII case folding.
// ---------------------------------------------------------------------------

pub open spec fn ascii_lower(c: char) -> char {
    if 'A' <= c && c <= 'Z' {
        ((c as u32) + 32) as char
    } else {
        c
    }
}

pub open spec fn ascii_upper(c: char) -> char {
    if 'a' <= c && c <= 'z' {
        ((c as u32) - 32) as char
    } else {
        c
    }
}

/// `s` with ASCII letters lowered (what `to_ascii_lowercase` does).
pub open spec fn lower_seq(s: Seq<char>) -> Seq<char> {
    s.map_values(|c: char| ascii_lower(c))
}

/// `s` with ASCII letters raised (what `to_ascii_uppercase` does).
pub open spec fn upper_seq(s: Seq<char>) -> Seq<char> {
    s.map_values(|c: char| ascii_upper(c))
}

pub fn to_lower_char(c: char) -> (r: char)
    ensures
        r == ascii_lower(c),
{
    if 'A' <= c && c <= 'Z' {
        ((c as u8) + 32) as char
    } else {
        c
    }
}

pub fn to_upper_char(c: char) -> (r: char)
    ensures
        r == ascii_upper(c),
{
    if 'a' <= c && c <= 'z' {
        ((c as u8) - 32) as char
    } else {
        c
    }
}

/// `v` with ASCII letters lowered.
pub fn lower_chars(v: &Vec<char>) -> (r: Vec<char>)
    ensures
        r@ == lower_seq(v@),
{
    let mut r: Vec<char> = Vec::new();
    for i in 0..v.len()
        invariant
            r@ == lower_seq(v@.take(i as int)),
    {
        r.push(to_lower_char(v[i]));
        assert(v@.take(i + 1) == v@.take(i as int).push(v@[i as int]));
    }
    assert(v@.take(v@.len() as int) == v@);
    r
}

/// `v` with ASCII letters raised.
pub fn upper_chars(v: &Vec<char>) -> (r: Vec<char>)
    ensures
        r@ == upper_seq(v@),
{
    let mut r: Vec<char> = Vec::new();
    for i in 0..v.len()
        invariant
            r@ == upper_seq(v@.take(i as int)),
    {
        r.push(to_upper_char(v[i]));
        assert(v@.take(i + 1) == v@.take(i as int).push(v@[i as int]));
    }
    assert(v@.take(v@.len() as int) == v@);
    r
}

/// `a` and `b` are equal ignoring ASCII case (`str::eq_ignore_ascii_case`).
pub open spec fn eq_ignore_case(a: Seq<char>, b: Seq<char>) -> bool {
    lower_seq(a) == lower_seq(b)
}

pub fn eq_ignore_ascii_case(a: &str, b: &str) -> (r: bool)
    ensures
        r == eq_ignore_case(a@, b@),
{
    let va = chars_of(a);
    let vb = chars_of(b);
    if va.len() != vb.len() {
        proof {
            assert(lower_seq(a@).len() != lower_seq(b@).len());
        }
        return false;
    }
    let mut i: usize = 0;
    while i < va.len()
        invariant
            va@ == a@,
            vb@ == b@,
            va@.len() == vb@.len(),
            i <= va@.len(),
            forall|j: int| 0 <= j < i ==> ascii_lower(#[trigger] va@[j]) == ascii_lower(vb@[j]),
        decreases va@.len() - i,
    {
        if to_lower_char(va[i]) != to_lower_char(vb[i]) {
            proof {
                assert(lower_seq(a@)[i as int] != lower_seq(b@)[i as int]);
            }
            return false;
        }
        i = i + 1;
    }
    assert(lower_seq(a@) =~= lower_seq(b@));
    true
}

/// `needle` occurs in `hay` at position `i`.
pub open spec fn occurs_at(hay: Seq<char>, needle: Seq<char>, i: int) -> bool {
    0 <= i && i + needle.len() <= hay.len() && hay.subrange(i, i + needle.len()) == needle
}

/// `needle` occurs somewhere in `hay`.
pub open spec fn contains_seq(hay: Seq<char>, needle: Seq<char>) -> bool {
    exists|i: int| occurs_at(hay, needle, i)
}

/// `needle` occurs in `hay` ignoring ASCII case.
pub open spec fn contains_ignore_case(hay: Seq<char>, needle: Seq<char>) -> bool {
    contains_seq(lower_seq(hay), lower_seq(needle))
}

fn occurs_at_exec(hay: &Vec<char>, needle: &Vec<char>, i: usize) -> (r: bool)
    requires
        i + needle@.len() <= hay@.len(),
    ensures
        r == occurs_at(hay@, needle@, i as int),
{
    let hl = hay.len();
    let mut k: usize = 0;
    while k < needle.len()
        invariant
            hl == hay@.len(),
            i + needle@.len() <= hay@.len(),
            k <= needle@.len(),
            forall|m: int| 0 <= m < k ==> hay@[i + m] == needle@[m],
        decreases needle@.len() - k,
    {
        if hay[i + k] != needle[k] {
            assert(hay@.subrange(i as int, i + needle@.len())[k as int] != needle@[k as int]);
            return false;
        }
        k = k + 1;
    }
    assert(hay@.subrange(i as int, i + needle@.len()) =~= needle@);
    true
}

/// `needle` occurs in `hay`.
pub fn contains_chars(hay: &Vec<char>, needle: &Vec<char>) -> (r: bool)
    ensures
        r == contains_seq(hay@, needle@),
{
    if needle.len() > hay.len() {
        return false;
    }
    let last = hay.len() - needle.len();
    let mut i: usize = 0;
    loop
        invariant
            i <= last,
            last == hay@.len() - needle@.len(),
            forall|j: int| 0 <= j < i ==> !occurs_at(hay@, needle@, j),
        decreases last - i,
    {
        if occurs_at_exec(hay, needle, i) {
            return true;
        }
        if i == last {
            assert forall|j: int| !occurs_at(hay@, needle@, j) by {
                if 0 <= j && j + needle@.len() <= hay@.len() {
                    assert(j <= i);
                }
            }
            return false;
        }
        i = i + 1;
    }
}

/// `needle` occurs in `hay`, ignoring ASCII case.
pub fn contains_ignore_ascii_case(hay: &str, needle: &str) -> (r: bool)
    ensures
        r == contains_ignore_case(hay@, needle@),
{
    let h = lower_chars(&chars_of(hay));
    let n = lower_chars(&chars_of(needle));
    contains_chars(&h, &n)
}

// ---------------------------------------------------------------------------
// Decimal numbers.
// ---------------------------------------------------------------------------

pub open spec fn is_ascii_digit(c: char) -> bool {
    '0' <= c && c <= '9'
}

pub open spec fn digit_value(c: char) -> int {
    (c as int) - ('0' as int)
}

/// Value of a sequence of ASCII digits, most significant first.
pub open spec fn digits_value(ds: Seq<char>) -> int
    decreases ds.len(),
{
    if ds.len() == 0 {
        0
    } else {
        digits_value(ds.drop_last()) * 10 + digit_value(ds.last())
    }
}

pub open spec fn all_digits(ds: Seq<char>) -> bool {
    forall|i: int| 0 <= i < ds.len() ==> is_ascii_digit(#[trigger] ds[i])
}

/// What `u32::from_str` (and the other unsigned parses) accept: an optional
/// `+` followed by at least one ASCII digit. `None` on any other input; the
/// caller checks the range.
pub open spec fn unsigned_decimal(s: Seq<char>) -> Option<int> {
    let ds = if s.len() > 0 && s[0] == '+' {
        s.drop_first()
    } else {
        s
    };
    if ds.len() > 0 && all_digits(ds) {
        Some(digits_value(ds))
    } else {
        None
    }
}

/// What `u32::from_str` returns on `s`.
pub open spec fn parse_u32_spec(s: Seq<char>) -> Option<u32> {
    match unsigned_decimal(s) {
        Some(v) => if v <= u32::MAX {
            Some(v as u32)
        } else {
            None
        },
        None => None,
    }
}

/// What `i64::from_str` accepts: an optional `+` or `-` followed by at least
/// one ASCII digit, within range.
pub open spec fn signed_decimal(s: Seq<char>) -> Option<int> {
    if s.len() > 0 && s[0] == '-' {
        let ds = s.drop_first();
        if ds.len() > 0 && all_digits(ds) {
            Some(-digits_value(ds))
        } else {
            None
        }
    } else {
        unsigned_decimal(s)
    }
}

pub open spec fn parse_i64_spec(s: Seq<char>) -> Option<i64> {
    match signed_decimal(s) {
        Some(v) => if i64::MIN <= v <= i64::MAX {
            Some(v as i64)
        } else {
            None
        },
        None => None,
    }
}

pub proof fn lemma_digits_value_nonneg(ds: Seq<char>)
    requires
        all_digits(ds),
    ensures
        digits_value(ds) >= 0,
    decreases ds.len(),
{
    if ds.len() > 0 {
        assert(is_ascii_digit(ds[ds.len() - 1]));
        lemma_digits_value_nonneg(ds.drop_last());
    }
}

/// Value of the digits `v[a..b]`, or `None` once it exceeds `limit`.
fn digits_upto(v: &Vec<char>, a: usize, b: usize, limit: u64) -> (r: Option<u64>)
    requires
        a <= b <= v@.len(),
        all_digits(v@.subrange(a as int, b as int)),
    ensures
        match r {
            Some(n) => n == digits_value(v@.subrange(a as int, b as int)) && n <= limit,
            None => digits_value(v@.subrange(a as int, b as int)) > limit,
        },
{
    let mut acc: u64 = 0;
    let mut i = a;
    while i < b
        invariant
            a <= i <= b <= v@.len(),
            all_digits(v@.subrange(a as int, b as int)),
            acc == digits_value(v@.subrange(a as int, i as int)),
            acc <= limit,
        decreases b - i,
    {
        let ghost prev = v@.subrange(a as int, i as int);
        let ghost next = v@.subrange(a as int, i + 1);
        assert(next.drop_last() == prev);
        assert(v@.subrange(a as int, b as int)[i - a] == v@[i as int]);
        assert(is_ascii_digit(v@.subrange(a as int, b as int)[i - a]));
        let d = (v[i] as u32 - '0' as u32) as u64;
        let grown = match acc.checked_mul(10) {
            Some(t) => t.checked_add(d),
            None => None,
        };
        match grown {
            Some(g) if g <= limit => {
                acc = g;
            },
            _ => {
                proof {
                    lemma_digits_value_monotone(v@.subrange(a as int, b as int), i + 1 - a);
                    assert(v@.subrange(a as int, b as int).subrange(0, i + 1 - a) == next);
                }
                return None;
            },
        }
        i = i + 1;
    }
    Some(acc)
}

/// A prefix of a digit string never has a larger value than the whole.
pub proof fn lemma_digits_value_monotone(ds: Seq<char>, k: int)
    requires
        all_digits(ds),
        0 <= k <= ds.len(),
    ensures
        digits_value(ds.subrange(0, k)) <= digits_value(ds),
    decreases ds.len(),
{
    if k < ds.len() {
        let p = ds.drop_last();
        assert(p.subrange(0, k) == ds.subrange(0, k));
        assert forall|i: int| 0 <= i < p.len() implies is_ascii_digit(#[trigger] p[i]) by {
            assert(p[i] == ds[i]);
        }
        lemma_digits_value_monotone(p, k);
        lemma_digits_value_nonneg(p);
        assert(is_ascii_digit(ds[ds.len() - 1]));
    } else {
        assert(ds.subrange(0, k) == ds);
    }
}

/// The characters `v[a..b]` are all ASCII digits.
fn all_digits_in(v: &Vec<char>, a: usize, b: usize) -> (r: bool)
    requires
        a <= b <= v@.len(),
    ensures
        r == all_digits(v@.subrange(a as int, b as int)),
{
    let mut i = a;
    while i < b
        invariant
            a <= i <= b <= v@.len(),
            forall|j: int| a <= j < i ==> is_ascii_digit(#[trigger] v@[j]),
        decreases b - i,
    {
        if !('0' <= v[i] && v[i] <= '9') {
            assert(!is_ascii_digit(v@.subrange(a as int, b as int)[i - a]));
            return false;
        }
        i = i + 1;
    }
    assert forall|j: int| 0 <= j < b - a implies is_ascii_digit(
        #[trigger] v@.subrange(a as int, b as int)[j],
    ) by {
        assert(v@.subrange(a as int, b as int)[j] == v@[a + j]);
    }
    true
}

/// `u32::from_str` on the characters `v[a..b]`.
pub fn parse_u32_chars(v: &Vec<char>, a: usize, b: usize) -> (r: Option<u32>)
    requires
        a <= b <= v@.len(),
    ensures
        r == parse_u32_spec(v@.subrange(a as int, b as int)),
{
    let ghost s = v@.subrange(a as int, b as int);
    let start = if a < b && v[a] == '+' {
        a + 1
    } else {
        a
    };
    assert(v@.subrange(start as int, b as int) == if s.len() > 0 && s[0] == '+' {
        s.drop_first()
    } else {
        s
    });
    if start >= b || !all_digits_in(v, start, b) {
        return None;
    }
    match digits_upto(v, start, b, 0xffff_ffff) {
        Some(n) => Some(n as u32),
        None => None,
    }
}

/// `u32::from_str`.
pub fn parse_u32(s: &str) -> (r: Option<u32>)
    ensures
        r == parse_u32_spec(s@),
{
    let v = chars_of(s);
    assert(v@.subrange(0, v@.len() as int) == v@);
    parse_u32_chars(&v, 0, v.len())
}

/// What `i32::from_str` returns on `s`.
pub open spec fn parse_i32_spec(s: Seq<char>) -> Option<i32> {
    match signed_decimal(s) {
        Some(v) => if i32::MIN <= v <= i32::MAX {
            Some(v as i32)
        } else {
            None
        },
        None => None,
    }
}

/// `i32::from_str`.
pub fn parse_i32(s: &str) -> (r: Option<i32>)
    ensures
        r == parse_i32_spec(s@),
{
    match parse_i64(s) {
        Some(n) => if -2147483648 <= n && n <= 2147483647 {
            Some(n as i32)
        } else {
            None
        },
        None => None,
    }
}

/// `i64::from_str`.
pub fn parse_i64(s: &str) -> (r: Option<i64>)
    ensures
        r == parse_i64_spec(s@),
{
    let v = chars_of(s);
    let n = v.len();
    let neg = n > 0 && v[0] == '-';
    let start: usize = if n > 0 && (v[0] == '-' || v[0] == '+') {
        1
    } else {
        0
    };
    proof {
        assert(v@.subrange(1, n as int) == s@.drop_first());
        assert(v@.subrange(0, n as int) == s@);
    }
    if start >= n || !all_digits_in(&v, start, n) {
        return None;
    }
    let limit: u64 = if neg {
        0x8000_0000_0000_0000
    } else {
        0x7fff_ffff_ffff_ffff
    };
    match digits_upto(&v, start, n, limit) {
        Some(m) => {
            if neg {
                if m == 0x8000_0000_0000_0000 {
                    Some(i64::MIN)
                } else {
                    Some(-(m as i64))
                }
            } else {
                Some(m as i64)
            }
        },
        None => None,
    }
}

pub proof fn lemma_leading_zero(ds: Seq<char>)
    requires
        ds.len() > 0,
        ds[0] == '0',
    ensures
        digits_value(ds) == digits_value(ds.drop_first()),
    decreases ds.len(),
{
    if ds.len() > 1 {
        lemma_leading_zero(ds.drop_last());
        assert(ds.drop_last().drop_first() == ds.drop_first().drop_last());
        assert(ds.drop_first().last() == ds.last());
        assert(digits_value(ds.drop_first()) == digits_value(ds.drop_first().drop_last()) * 10
            + digit_value(ds.drop_first().last()));
        assert(digits_value(ds) == digits_value(ds.drop_last()) * 10 + digit_value(ds.last()));
    } else {
        assert(ds.drop_first().len() == 0);
        assert(ds.drop_last().len() == 0);
        assert(digits_value(ds.drop_last()) == 0);
        assert(ds.last() == '0');
        assert(digit_value('0') == 0);
        assert(digits_value(ds) == digits_value(ds.drop_last()) * 10 + digit_value(ds.last()));
    }
}

/// Decimal digits of `n`, most significant first, without leading zeros
/// (`"0"` for zero).
pub open spec fn decimal(n: nat) -> Seq<char>
    decreases n,
{
    if n < 10 {
        seq![digit_char(n)]
    } else {
        decimal(n / 10).push(digit_char(n % 10))
    }
}

/// The ASCII digit for `d < 10`.
pub open spec fn digit_char(d: nat) -> char {
    ((d + 48) as u32) as char
}

pub proof fn lemma_digit_char(d: nat)
    requires
        d < 10,
    ensures
        is_ascii_digit(digit_char(d)),
        digit_value(digit_char(d)) == d,
        digit_char(d) == '0' <==> d == 0,
{
    let c = digit_char(d);
    vstd::utf8::char_u32_cast(c, (d + 48) as u32);
    assert(vstd::utf8::is_scalar((d + 48) as u32));
}

/// Decimal form of `n` (what `to_string` prints for an unsigned integer).
pub fn push_decimal(out: &mut String, n: u64)
    ensures
        final(out)@ == old(out)@ + decimal(n as nat),
    decreases n,
{
    if n < 10 {
        let c = ((n as u8) + 48) as char;
        assert(c == digit_char(n as nat));
        out.push(c);
    } else {
        push_decimal(out, n / 10);
        let c = (((n % 10) as u8) + 48) as char;
        assert(c == digit_char((n % 10) as nat));
        out.push(c);
    }
}

pub proof fn lemma_decimal_digits(n: nat)
    ensures
        all_digits(decimal(n)),
        decimal(n).len() > 0,
        digits_value(decimal(n)) == n,
        decimal(n)[0] != '0' || n == 0,
    decreases n,
{
    lemma_digit_char(n % 10);
    if n < 10 {
        assert(decimal(n).drop_last().len() == 0);
    }
    if n >= 10 {
        lemma_decimal_digits(n / 10);
        let d = decimal(n);
        assert(d.drop_last() == decimal(n / 10));
        assert forall|i: int| 0 <= i < d.len() implies is_ascii_digit(#[trigger] d[i]) by {
            if i < d.len() - 1 {
                assert(d[i] == decimal(n / 10)[i]);
            }
        }
        assert(d[0] == decimal(n / 10)[0]);
        assert(digits_value(d) == digits_value(d.drop_last()) * 10 + digit_value(d.last()));
        assert(n == (n / 10) * 10 + n % 10);
    } else {
        let d = decimal(n);
        assert(digits_value(d) == digits_value(d.drop_last()) * 10 + digit_value(d.last()));
    }
}

/// A signed integer as `to_string` writes it: a minus sign for negative
/// values, then the decimal digits of the magnitude.
pub open spec fn signed_text(n: int) -> Seq<char> {
    if n >= 0 {
        decimal(n as nat)
    } else {
        seq!['-'] + decimal((-n) as nat)
    }
}

/// Append `n` as `to_string` writes it.
pub fn push_signed_decimal(out: &mut String, n: i64)
    ensures
        final(out)@ == old(out)@ + signed_text(n as int),
{
    if n >= 0 {
        push_decimal(out, n as u64);
    } else {
        out.push('-');
        let a: u64 = ((-(n + 1)) as u64) + 1;
        push_decimal(out, a);
        assert(final(out)@ =~= old(out)@ + signed_text(n as int));
    }
}

/// Reading back what `to_string` wrote of a signed 64-bit integer gives the
/// integer.
pub proof fn law_signed_text_reads_back(n: i64)
    ensures
        parse_i64_spec(signed_text(n as int)) == Some(n),
{
    if n >= 0 {
        let d = decimal(n as nat);
        lemma_decimal_digits(n as nat);
        assert(is_ascii_digit(d[0]));
        assert(unsigned_decimal(d) == Some(n as int));
    } else {
        let m = (-(n as int)) as nat;
        let d = decimal(m);
        lemma_decimal_digits(m);
        let t = seq!['-'] + d;
        assert(t.drop_first() =~= d);
        assert(signed_decimal(t) == Some(-(m as int)));
    }
}

// ---------------------------------------------------------------------------
// Lines and joins.
// ---------------------------------------------------------------------------

/// Position of the first `\n` of `s` at or after `i`, or `s.len()`.
pub open spec fn next_line_break(s: Seq<char>, i: int) -> int
    decreases s.len() - i,
{
    if i >= s.len() {
        s.len() as int
    } else if s[i] == '\n' {
        i
    } else {
        next_line_break(s, i + 1)
    }
}

pub proof fn lemma_next_line_break(s: Seq<char>, i: int)
    requires
        0 <= i <= s.len(),
    ensures
        i <= next_line_break(s, i) <= s.len(),
        next_line_break(s, i) < s.len() ==> s[next_line_break(s, i)] == '\n',
        forall|j: int| i <= j < next_line_break(s, i) ==> s[j] != '\n',
    decreases s.len() - i,
{
    if i < s.len() && s[i] != '\n' {
        lemma_next_line_break(s, i + 1);
    }
}

/// `l` without one trailing carriage return.
pub open spec fn strip_cr(l: Seq<char>) -> Seq<char> {
    if l.len() > 0 && l.last() == '\r' {
        l.drop_last()
    } else {
        l
    }
}

/// The lines of `s` as `str::lines` yields them: cut at each `\n`, one `\r`
/// before it dropped; a line ending at the very end adds no empty line.
pub open spec fn text_lines(s: Seq<char>) -> Seq<Seq<char>>
    decreases s.len(),
{
    if s.len() == 0 {
        seq![]
    } else {
        let k = next_line_break(s, 0);
        proof {
            lemma_next_line_break(s, 0);
        }
        if k >= s.len() {
            seq![strip_cr(s)]
        } else {
            seq![strip_cr(s.subrange(0, k))] + text_lines(s.subrange(k + 1, s.len() as int))
        }
    }
}

/// `parts` joined with `sep` between consecutive parts.
pub open spec fn join_seqs(parts: Seq<Seq<char>>, sep: Seq<char>) -> Seq<char>
    decreases parts.len(),
{
    if parts.len() == 0 {
        seq![]
    } else if parts.len() == 1 {
        parts[0]
    } else {
        join_seqs(parts.drop_last(), sep) + sep + parts.last()
    }
}

/// The views of a list of strings.
pub open spec fn views(v: Seq<String>) -> Seq<Seq<char>> {
    v.map_values(|x: String| x@)
}

/// Append `s` to `out`.
pub fn push_str(out: &mut String, s: &str)
    ensures
        final(out)@ == old(out)@ + s@,
{
    out.append(s);
}

/// `parts` joined with `sep`.
pub fn join_strings(parts: &Vec<String>, sep: &str) -> (r: String)
    ensures
        r@ == join_seqs(views(parts@), sep@),
{
    let mut out = String::new();
    for i in 0..parts.len()
        invariant
            out@ == join_seqs(views(parts@.take(i as int)), sep@),
    {
        let ghost before = parts@.take(i as int);
        proof {
            assert(parts@.take(i + 1).drop_last() == before);
            assert(views(parts@.take(i + 1)).drop_last() =~= views(before));
            assert(views(parts@.take(i + 1)).last() == parts@[i as int]@);
        }
        if i > 0 {
            push_str(&mut out, sep);
        }
        push_str(&mut out, parts[i].as_str());
        proof {
            if i == 0 {
                assert(views(parts@.take(1)) =~= seq![parts@[0]@]);
            }
        }
    }
    assert(parts@.take(parts@.len() as int) == parts@);
    out
}

/// Strip one trailing carriage return from `v[a..b]`.
fn line_of(v: &Vec<char>, a: usize, b: usize) -> (r: String)
    requires
        a <= b <= v@.len(),
    ensures
        r@ == strip_cr(v@.subrange(a as int, b as int)),
{
    if b > a && v[b - 1] == '\r' {
        let r = string_of(v, a, b - 1);
        assert(v@.subrange(a as int, b as int).drop_last() =~= v@.subrange(a as int, b - 1));
        r
    } else {
        string_of(v, a, b)
    }
}

proof fn lemma_next_line_break_shift(s: Seq<char>, a: int, i: int)
    requires
        0 <= a <= i <= s.len(),
    ensures
        next_line_break(s.subrange(a, s.len() as int), i - a) == next_line_break(s, i) - a,
    decreases s.len() - i,
{
    let t = s.subrange(a, s.len() as int);
    if i < s.len() {
        assert(t[i - a] == s[i]);
        if s[i] != '\n' {
            lemma_next_line_break_shift(s, a, i + 1);
        }
    }
}

/// The lines of `s`, as `str::lines` yields them.
pub fn lines_of(s: &str) -> (r: Vec<String>)
    ensures
        views(r@) == text_lines(s@),
{
    let v = chars_of(s);
    let n = v.len();
    let mut out: Vec<String> = Vec::new();
    let mut start: usize = 0;
    assert(s@.subrange(0, n as int) =~= s@);
    assert(views(out@) + text_lines(s@) =~= text_lines(s@));
    while start < n
        invariant
            v@ == s@,
            n == v@.len(),
            start <= n,
            text_lines(s@) == views(out@) + text_lines(s@.subrange(start as int, n as int)),
        decreases n - start,
    {
        let mut k = start;
        while k < n && v[k] != '\n'
            invariant
                start <= k <= n,
                n == v@.len(),
                forall|j: int| start <= j < k ==> v@[j] != '\n',
            decreases n - k,
        {
            k = k + 1;
        }
        let ghost rest = s@.subrange(start as int, n as int);
        let ghost old_out = out@;
        proof {
            lemma_next_line_break_shift(s@, start as int, start as int);
            lemma_next_line_break(s@, start as int);
            assert(next_line_break(s@, start as int) == k) by {
                if next_line_break(s@, start as int) < k {
                    assert(v@[next_line_break(s@, start as int)] == '\n');
                }
            }
            assert(next_line_break(rest, 0) == k - start);
            assert(rest.subrange(0, k - start) =~= s@.subrange(start as int, k as int));
        }
        let line = line_of(&v, start, k);
        out.push(line);
        proof {
            assert(views(out@) =~= views(old_out).push(line@));
        }
        if k == n {
            proof {
                assert(rest.len() > 0);
                assert(rest =~= s@.subrange(start as int, k as int));
                assert(text_lines(rest) == seq![strip_cr(rest)]);
                assert(s@.subrange(n as int, n as int) =~= Seq::<char>::empty());
                assert(views(out@) =~= views(old_out) + text_lines(rest));
            }
            start = n;
        } else {
            proof {
                assert(rest.subrange(k - start + 1, rest.len() as int) =~= s@.subrange(k + 1, n as int));
                assert(text_lines(rest) == seq![strip_cr(rest.subrange(0, k - start))] + text_lines(
                    s@.subrange(k + 1, n as int),
                ));
                assert(views(out@) + text_lines(s@.subrange(k + 1, n as int)) =~= views(old_out)
                    + text_lines(rest));
            }
            start = k + 1;
        }
    }
    proof {
        assert(s@.subrange(n as int, n as int) =~= Seq::<char>::empty());
        assert(views(out@) + text_lines(Seq::<char>::empty()) =~= views(out@));
    }
    out
}

} // verus!

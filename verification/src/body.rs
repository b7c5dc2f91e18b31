//! Rendered-text handling for RFC bodies: line-ending normalisation and
//! detection of numbered section headers.
use crate::error::IndexError;
use crate::model::{rfc_has_xml, Body, Rfc};
use crate::text::{decimal, push_decimal, push_str, string_from};
use vstd::prelude::*;
use vstd::string::StringSliceAdditionalSpecFns;
use vstd::utf8::*;

verus! {

broadcast use vstd::string::group_string_axioms;

// ---------------------------------------------------------------------------
// Byte-level model of section headers.
// ---------------------------------------------------------------------------

pub open spec fn is_digit_byte(c: u8) -> bool {
    48 <= c <= 57
}

pub open spec fn is_ascii_byte(c: u8) -> bool {
    c < 128
}

/// First position at or after `i` (stopping at `e`) that does not hold a space.
pub open spec fn skip_spaces(b: Seq<u8>, i: int, e: int) -> int
    decreases e - i,
{
    if i < e && b[i] == 32 {
        skip_spaces(b, i + 1, e)
    } else {
        i
    }
}

/// First position at or after `i` (stopping at `e`) that does not hold an ASCII digit.
pub open spec fn skip_digits(b: Seq<u8>, i: int, e: int) -> int
    decreases e - i,
{
    if i < e && is_digit_byte(b[i]) {
        skip_digits(b, i + 1, e)
    } else {
        i
    }
}

pub proof fn lemma_skip_digits_bounds(b: Seq<u8>, i: int, e: int)
    requires
        i <= e,
    ensures
        i <= skip_digits(b, i, e) <= e,
        forall|j: int| i <= j < skip_digits(b, i, e) ==> is_digit_byte(#[trigger] b[j]),
        skip_digits(b, i, e) < e ==> !is_digit_byte(b[skip_digits(b, i, e)]),
    decreases e - i,
{
    if i < e && is_digit_byte(b[i]) {
        lemma_skip_digits_bounds(b, i + 1, e);
    }
}

pub proof fn lemma_skip_spaces_bounds(b: Seq<u8>, i: int, e: int)
    requires
        i <= e,
    ensures
        i <= skip_spaces(b, i, e) <= e,
        forall|j: int| i <= j < skip_spaces(b, i, e) ==> #[trigger] b[j] == 32,
        skip_spaces(b, i, e) < e ==> b[skip_spaces(b, i, e)] != 32,
    decreases e - i,
{
    if i < e && b[i] == 32 {
        lemma_skip_spaces_bounds(b, i + 1, e);
    }
}

/// End of a dotted section number `N(.N)*` whose first run of digits ends at `i`:
/// every `.` that is directly followed by a digit extends the number.
pub open spec fn number_end(b: Seq<u8>, i: int, e: int) -> int
    decreases e - i,
{
    if i + 1 < e && b[i] == 46 && is_digit_byte(b[i + 1]) {
        proof {
            lemma_skip_digits_bounds(b, i + 1, e);
        }
        number_end(b, skip_digits(b, i + 1, e), e)
    } else {
        i
    }
}

pub proof fn lemma_number_end_bounds(b: Seq<u8>, i: int, e: int)
    requires
        i <= e,
    ensures
        i <= number_end(b, i, e) <= e,
        number_end(b, i, e) < e ==> !(number_end(b, i, e) + 1 < e && b[number_end(b, i, e)] == 46
            && is_digit_byte(b[number_end(b, i, e) + 1])),
        number_end(b, i, e) > i ==> number_end(b, i, e) >= i + 2,
        forall|j: int|
            i <= j < number_end(b, i, e) ==> (#[trigger] is_digit_byte(b[j]) || b[j] == 46),
    decreases e - i,
{
    if i + 1 < e && b[i] == 46 && is_digit_byte(b[i + 1]) {
        lemma_skip_digits_bounds(b, i + 1, e);
        lemma_number_end_bounds(b, skip_digits(b, i + 1, e), e);
    }
}

/// Position just after the last non-space byte in `b[s..e]` (or `s` if there is none).
pub open spec fn trim_end(b: Seq<u8>, s: int, e: int) -> int
    decreases e - s,
{
    if e > s && b[e - 1] == 32 {
        trim_end(b, s, e - 1)
    } else {
        e
    }
}

pub proof fn lemma_trim_end_bounds(b: Seq<u8>, s: int, e: int)
    requires
        s <= e,
    ensures
        s <= trim_end(b, s, e) <= e,
        forall|j: int| trim_end(b, s, e) <= j < e ==> #[trigger] b[j] == 32,
        trim_end(b, s, e) > s ==> b[trim_end(b, s, e) - 1] != 32,
    decreases e - s,
{
    if e > s && b[e - 1] == 32 {
        lemma_trim_end_bounds(b, s, e - 1);
    }
}

/// Four consecutive dots start at `j` (a table-of-contents dot leader).
pub open spec fn dot_leader_at(b: Seq<u8>, j: int) -> bool {
    b[j] == 46 && b[j + 1] == 46 && b[j + 2] == 46 && b[j + 3] == 46
}

/// `b[s..e]` contains no run of four or more dots.
pub open spec fn no_dot_leader(b: Seq<u8>, s: int, e: int) -> bool {
    forall|j: int| s <= j && j + 4 <= e ==> !#[trigger] dot_leader_at(b, j)
}

/// The header recognised on the line `b[s..e]`, as absolute positions
/// `(number start, number end, title start, title end)`.
///
/// A header is: at most three leading spaces, a dotted number `N(.N)*`
/// (which must contain a dot when the line is indented), an optional
/// terminating `.`, at least one space, and a non-empty title (trailing
/// spaces excluded) that holds no run of four dots.
pub open spec fn header_in(b: Seq<u8>, s: int, e: int) -> Option<(int, int, int, int)> {
    let k = skip_spaces(b, s, e);
    if s >= e || k - s > 3 || k >= e || !is_digit_byte(b[k]) {
        None
    } else {
        let d = skip_digits(b, k, e);
        let ne = number_end(b, d, e);
        if k > s && ne == d {
            None
        } else {
            let p = if ne < e && b[ne] == 46 {
                ne + 1
            } else {
                ne
            };
            let ts = skip_spaces(b, p, e);
            if ts == p || ts >= e {
                None
            } else {
                let te = trim_end(b, ts, e);
                if te <= ts || !no_dot_leader(b, ts, te) {
                    None
                } else {
                    Some((k, ne, ts, te))
                }
            }
        }
    }
}

/// Position of the first line feed at or after `i`, or the end of `b`.
pub open spec fn next_newline(b: Seq<u8>, i: int) -> int
    decreases b.len() - i,
{
    if 0 <= i < b.len() && b[i] != 10 {
        next_newline(b, i + 1)
    } else {
        i
    }
}

pub proof fn lemma_next_newline_bounds(b: Seq<u8>, i: int)
    requires
        0 <= i <= b.len(),
    ensures
        i <= next_newline(b, i) <= b.len(),
        next_newline(b, i) < b.len() ==> b[next_newline(b, i)] == 10,
    decreases b.len() - i,
{
    if 0 <= i < b.len() && b[i] != 10 {
        lemma_next_newline_bounds(b, i + 1);
    }
}

/// All section headers on the lines starting at or after line start `i`, as
/// `(line start, number start, number end, title start, title end)`.
pub open spec fn headers_from(b: Seq<u8>, i: int) -> Seq<(int, int, int, int, int)>
    decreases b.len() - i,
{
    if i < 0 || i >= b.len() {
        seq![]
    } else {
        let e = next_newline(b, i);
        proof {
            lemma_next_newline_bounds(b, i);
        }
        let rest = if e < b.len() {
            headers_from(b, e + 1)
        } else {
            seq![]
        };
        match header_in(b, i, e) {
            Some(h) => seq![(i, h.0, h.1, h.2, h.3)] + rest,
            None => rest,
        }
    }
}

/// The section headers of a whole text, in document order.
pub open spec fn section_headers(b: Seq<u8>) -> Seq<(int, int, int, int, int)> {
    headers_from(b, 0)
}

/// Byte offset where section `i` of `hs` ends: the start of the next header
/// line, or the end of the text.
pub open spec fn section_end(b: Seq<u8>, hs: Seq<(int, int, int, int, int)>, i: int) -> int {
    if i + 1 < hs.len() {
        hs[i + 1].0
    } else {
        b.len() as int
    }
}

/// Bytes of the number of header `h`.
pub open spec fn header_number(b: Seq<u8>, h: (int, int, int, int, int)) -> Seq<u8> {
    b.subrange(h.1, h.2)
}

/// `n` names a subsection of `t`: it starts with `t` followed by a dot.
pub open spec fn is_subsection_of(n: Seq<u8>, t: Seq<u8>) -> bool {
    n.len() > t.len() && n.subrange(0, t.len() as int) == t && n[t.len() as int] == 46
}

/// Index of the first header at or after `j` whose number is `t`.
pub open spec fn first_header_numbered(
    b: Seq<u8>,
    hs: Seq<(int, int, int, int, int)>,
    t: Seq<u8>,
    j: int,
) -> Option<int>
    decreases hs.len() - j,
{
    if j < 0 || j >= hs.len() {
        None
    } else if header_number(b, hs[j]) == t {
        Some(j)
    } else {
        first_header_numbered(b, hs, t, j + 1)
    }
}

/// End offset of the section `t` whose header is followed by header `j`:
/// the line start of the first header at or after `j` that is not a
/// subsection of `t`, or the end of the text.
pub open spec fn subtree_end(
    b: Seq<u8>,
    hs: Seq<(int, int, int, int, int)>,
    t: Seq<u8>,
    j: int,
) -> int
    decreases hs.len() - j,
{
    if j < 0 || j >= hs.len() {
        b.len() as int
    } else if !is_subsection_of(header_number(b, hs[j]), t) {
        hs[j].0
    } else {
        subtree_end(b, hs, t, j + 1)
    }
}

/// Well-formedness facts about one recognised header.
pub open spec fn header_wf(b: Seq<u8>, h: (int, int, int, int, int)) -> bool {
    &&& 0 <= h.0 <= h.1 < h.2 < h.3 < h.4 <= b.len()
    &&& is_ascii_byte(b[h.0])
    &&& is_digit_byte(b[h.1])
    &&& is_ascii_byte(b[h.2])
    &&& b[h.3 - 1] == 32
    &&& (h.4 == b.len() || is_ascii_byte(b[h.4]))
}

pub proof fn lemma_header_in_wf(b: Seq<u8>, s: int, e: int)
    requires
        0 <= s <= e <= b.len(),
        e == b.len() || b[e] == 10,
        header_in(b, s, e) is Some,
    ensures
        match header_in(b, s, e) {
            Some(h) => header_wf(b, (s, h.0, h.1, h.2, h.3)) && h.3 <= e,
            None => true,
        },
{
    let k = skip_spaces(b, s, e);
    lemma_skip_spaces_bounds(b, s, e);
    let d = skip_digits(b, k, e);
    lemma_skip_digits_bounds(b, k, e);
    let ne = number_end(b, d, e);
    lemma_number_end_bounds(b, d, e);
    let p = if ne < e && b[ne] == 46 {
        ne + 1
    } else {
        ne
    };
    let ts = skip_spaces(b, p, e);
    lemma_skip_spaces_bounds(b, p, e);
    let te = trim_end(b, ts, e);
    lemma_trim_end_bounds(b, ts, e);
    assert(k > s ==> b[s] == 32);
    assert(ne < e);
}

pub proof fn lemma_headers_from_wf(b: Seq<u8>, i: int)
    requires
        0 <= i,
    ensures
        forall|j: int|
            0 <= j < headers_from(b, i).len() ==> header_wf(b, #[trigger] headers_from(b, i)[j])
                && headers_from(b, i)[j].0 >= i,
        forall|j: int, l: int|
            0 <= j < l < headers_from(b, i).len() ==> #[trigger] headers_from(b, i)[j].4
                < #[trigger] headers_from(b, i)[l].0,
    decreases b.len() - i,
{
    if i < b.len() {
        let e = next_newline(b, i);
        lemma_next_newline_bounds(b, i);
        if e < b.len() {
            lemma_headers_from_wf(b, e + 1);
        }
        let rest = if e < b.len() {
            headers_from(b, e + 1)
        } else {
            seq![]
        };
        if header_in(b, i, e) is Some {
            lemma_header_in_wf(b, i, e);
            let h = header_in(b, i, e)->0;
            let hs = headers_from(b, i);
            assert(hs == seq![(i, h.0, h.1, h.2, h.3)] + rest);
            assert forall|j: int, l: int| 0 <= j < l < hs.len() implies #[trigger] hs[j].4
                < #[trigger] hs[l].0 by {
                if j == 0 {
                    assert(hs[l] == rest[l - 1]);
                    assert(e < b.len());
                    assert(rest[l - 1].0 >= e + 1);
                }
            }
        }
    }
}

// ---------------------------------------------------------------------------
// UTF-8 boundaries at ASCII bytes.
// ---------------------------------------------------------------------------

proof fn lemma_boundary_after_ascii(bytes: Seq<u8>, i: int)
    requires
        valid_utf8(bytes),
        0 <= i < bytes.len(),
        is_char_boundary(bytes, i),
        bytes[i] < 128,
    ensures
        is_char_boundary(bytes, i + 1),
    decreases bytes.len(),
{
    reveal_with_fuel(is_char_boundary, 2);
    let k = length_of_first_scalar(bytes);
    if i == 0 {
        assert(is_leading_byte_width_1(bytes[0]));
    } else {
        let rest = pop_first_scalar(bytes);
        assert(i >= k);
        assert(rest[i - k] == bytes[i]);
        lemma_boundary_after_ascii(rest, i - k);
    }
}

/// Every position that holds an ASCII byte, follows an ASCII byte, or is the
/// end of the text starts a character.
proof fn lemma_ascii_boundary(bytes: Seq<u8>, p: int)
    requires
        valid_utf8(bytes),
        0 <= p <= bytes.len(),
        p == bytes.len() || bytes[p] < 128 || (p > 0 && bytes[p - 1] < 128),
    ensures
        is_char_boundary(bytes, p),
{
    broadcast use is_char_boundary_start_end_of_seq, is_char_boundary_iff_is_leading_byte;

    if p == bytes.len() {
    } else if bytes[p] < 128 {
        assert(is_leading_byte_width_1(bytes[p]));
    } else {
        assert(is_leading_byte_width_1(bytes[p - 1]));
        lemma_boundary_after_ascii(bytes, p - 1);
    }
}

/// The part of `s` between byte offsets `a` and `b`.
fn byte_slice<'a>(s: &'a str, a: usize, b: usize) -> (r: &'a str)
    requires
        a <= b <= s.spec_bytes().len(),
        is_char_boundary(s.spec_bytes(), a as int),
        is_char_boundary(s.spec_bytes(), b as int),
    ensures
        r.spec_bytes() == s.spec_bytes().subrange(a as int, b as int),
{
    broadcast use encode_utf8_valid_utf8, is_char_boundary_start_end_of_seq,
        is_char_boundary_iff_not_is_continuation_byte, valid_utf8_split;

    let ghost bytes = s.spec_bytes();
    let (_, rest) = s.split_at(a);
    let ghost rb = rest.spec_bytes();
    assert(rb == bytes.subrange(a as int, bytes.len() as int));
    assert(valid_utf8(bytes));
    assert(valid_utf8(rb));
    proof {
        if b < bytes.len() {
            assert(rb[b - a] == bytes[b as int]);
            is_char_boundary_iff_not_is_continuation_byte(bytes, b as int);
            is_char_boundary_iff_not_is_continuation_byte(rb, b - a);
        } else {
            assert(b - a == rb.len());
            is_char_boundary_start_end_of_seq(rb);
        }
    }
    let (mid, _) = rest.split_at(b - a);
    assert(mid.spec_bytes() == bytes.subrange(a as int, b as int));
    mid
}

// ---------------------------------------------------------------------------
// Executable parsing.
// ---------------------------------------------------------------------------

fn is_digit(c: u8) -> (r: bool)
    ensures
        r == is_digit_byte(c),
{
    48 <= c && c <= 57
}

/// Position of the first line feed in `bytes` at or after `from`, or its length.
fn memchr_lf(bytes: &[u8], from: usize) -> (r: usize)
    requires
        from <= bytes@.len(),
    ensures
        r == next_newline(bytes@, from as int),
{
    let mut i = from;
    while i < bytes.len() && bytes[i] != 10u8
        invariant
            from <= i <= bytes@.len(),
            next_newline(bytes@, i as int) == next_newline(bytes@, from as int),
        decreases bytes@.len() - i,
    {
        i = i + 1;
    }
    i
}

/// Recognise a section header on the line `bytes[s..e]`; see [`header_in`].
#[verifier::loop_isolation(false)]
fn parse_header_line(bytes: &[u8], s: usize, e: usize) -> (r: Option<(usize, usize, usize, usize)>)
    requires
        s <= e <= bytes@.len(),
    ensures
        match r {
            None => header_in(bytes@, s as int, e as int) is None,
            Some(h) => header_in(bytes@, s as int, e as int) == Some(
                (h.0 as int, h.1 as int, h.2 as int, h.3 as int),
            ),
        },
{
    let ghost b = bytes@;
    if s >= e {
        return None;
    }
    let mut i = s;
    while i < e && bytes[i] == 32u8
        invariant
            s <= i <= e <= b.len(),
            skip_spaces(b, i as int, e as int) == skip_spaces(b, s as int, e as int),
        decreases e - i,
    {
        i = i + 1;
    }
    let leading = i - s;
    if leading > 3 {
        return None;
    }
    let num_start = i;
    if i >= e || !is_digit(bytes[i]) {
        return None;
    }
    while i < e && is_digit(bytes[i])
        invariant
            num_start <= i <= e <= b.len(),
            skip_digits(b, i as int, e as int) == skip_digits(b, num_start as int, e as int),
        decreases e - i,
    {
        i = i + 1;
    }
    let ghost d = i as int;
    let mut has_dot_separator = false;
    while e - i > 1 && bytes[i] == 46u8 && is_digit(bytes[i + 1])
        invariant
            d <= i <= e <= b.len(),
            number_end(b, i as int, e as int) == number_end(b, d, e as int),
            has_dot_separator == (i > d),
        decreases e - i,
    {
        has_dot_separator = true;
        i = i + 1;
        let ghost j = i as int;
        while i < e && is_digit(bytes[i])
            invariant
                j <= i <= e <= b.len(),
                skip_digits(b, i as int, e as int) == skip_digits(b, j, e as int),
            decreases e - i,
        {
            i = i + 1;
        }
    }
    let num_end = i;
    if num_end == num_start {
        return None;
    }
    if leading > 0 && !has_dot_separator {
        return None;
    }
    if i < e && bytes[i] == 46u8 {
        i = i + 1;
    }
    let space_start = i;
    while i < e && bytes[i] == 32u8
        invariant
            space_start <= i <= e <= b.len(),
            skip_spaces(b, i as int, e as int) == skip_spaces(b, space_start as int, e as int),
        decreases e - i,
    {
        i = i + 1;
    }
    if i - space_start < 1 {
        return None;
    }
    if i >= e {
        return None;
    }
    let title_start = i;
    let mut title_end = e;
    while title_end > title_start && bytes[title_end - 1] == 32u8
        invariant
            title_start <= title_end <= e <= b.len(),
            trim_end(b, title_start as int, title_end as int) == trim_end(
                b,
                title_start as int,
                e as int,
            ),
        decreases title_end - title_start,
    {
        title_end = title_end - 1;
    }
    if title_end <= title_start {
        return None;
    }
    let mut j = title_start;
    let mut dot_run: usize = 0;
    while j < title_end
        invariant
            title_start <= j <= title_end <= e <= b.len(),
            dot_run <= 3,
            j - dot_run >= title_start,
            dot_run >= 1 ==> b[j - 1] == 46,
            dot_run >= 2 ==> b[j - 2] == 46,
            dot_run >= 3 ==> b[j - 3] == 46,
            j - dot_run > title_start ==> b[j - dot_run - 1] != 46,
            no_dot_leader(b, title_start as int, j as int),
        decreases title_end - j,
    {
        if bytes[j] == 46u8 {
            dot_run = dot_run + 1;
            if dot_run >= 4 {
                assert(dot_leader_at(b, j - 3));
                return None;
            }
        } else {
            dot_run = 0;
        }
        proof {
            assert forall|t: int| title_start <= t && t + 4 <= j + 1 implies !#[trigger] dot_leader_at(
                b,
                t,
            ) by {
                if t + 4 == j + 1 && dot_leader_at(b, t) {
                    assert(b[j - 1] == 46 && b[j - 2] == 46 && b[j - 3] == 46);
                }
            }
        }
        j = j + 1;
    }
    Some((num_start, num_end, title_start, title_end))
}

/// One `(line start, number start, number end, title start, title end)`
/// entry per detected section header, in document order.
fn section_starts(text: &str) -> (out: Vec<(usize, usize, usize, usize, usize)>)
    ensures
        out@.len() == section_headers(text.spec_bytes()).len(),
        forall|j: int|
            0 <= j < out@.len() ==> {
                let h = #[trigger] section_headers(text.spec_bytes())[j];
                &&& out@[j].0 == h.0
                &&& out@[j].1 == h.1
                &&& out@[j].2 == h.2
                &&& out@[j].3 == h.3
                &&& out@[j].4 == h.4
            },
{
    let bytes = text.as_bytes();
    let ghost b = bytes@;
    let mut out: Vec<(usize, usize, usize, usize, usize)> = Vec::new();
    let ghost mut acc: Seq<(int, int, int, int, int)> = seq![];
    let mut i: usize = 0;
    while i < bytes.len()
        invariant
            b == bytes@,
            b == text.spec_bytes(),
            i <= b.len(),
            acc + headers_from(b, i as int) == headers_from(b, 0),
            out@.len() == acc.len(),
            forall|j: int|
                0 <= j < out@.len() ==> {
                    let h = #[trigger] acc[j];
                    &&& out@[j].0 == h.0
                    &&& out@[j].1 == h.1
                    &&& out@[j].2 == h.2
                    &&& out@[j].3 == h.3
                    &&& out@[j].4 == h.4
                },
        decreases b.len() - i,
    {
        let line_start = i;
        let line_end = memchr_lf(bytes, i);
        proof {
            lemma_next_newline_bounds(b, i as int);
        }
        let ghost rest = if line_end < b.len() {
            headers_from(b, line_end + 1)
        } else {
            seq![]
        };
        match parse_header_line(bytes, line_start, line_end) {
            Some((ns, ne, ts, te)) => {
                out.push((line_start, ns, ne, ts, te));
                proof {
                    let h = (line_start as int, ns as int, ne as int, ts as int, te as int);
                    assert(headers_from(b, i as int) == seq![h] + rest);
                    assert(acc.push(h) + rest == acc + (seq![h] + rest));
                    acc = acc.push(h);
                }
            },
            None => {
                assert(headers_from(b, i as int) == rest);
            },
        }
        i = if line_end < bytes.len() {
            line_end + 1
        } else {
            line_end
        };
        assert(headers_from(b, i as int) == rest);
    }
    assert(acc == headers_from(b, 0));
    out
}

/// View into one section of a body's text.
#[derive(Debug, Clone, Copy)]
pub struct SectionRef<'a> {
    /// Dotted section number (e.g. `"5.2"`, `"5.2.1"`).
    pub number: &'a str,
    /// Section title as it appears in the header line.
    pub title: &'a str,
    /// Slice of the body covering this section (header line through last line
    /// of the deepest descendant before the next non-descendant header).
    pub text: &'a str,
}

/// Section `i` of the headers `hs` of `b`, as the section record holds it.
pub open spec fn section_matches(
    s: SectionRef,
    b: Seq<u8>,
    h: (int, int, int, int, int),
    end: int,
) -> bool {
    &&& s.number.spec_bytes() == b.subrange(h.1, h.2)
    &&& s.title.spec_bytes() == b.subrange(h.3, h.4)
    &&& s.text.spec_bytes() == b.subrange(h.0, end)
}

/// Walk the lines of `text`, emitting one section per detected header.
pub fn scan_sections(text: &str) -> (out: Vec<SectionRef<'_>>)
    ensures
        out@.len() == section_headers(text.spec_bytes()).len(),
        forall|i: int|
            0 <= i < out@.len() ==> section_matches(
                #[trigger] out@[i],
                text.spec_bytes(),
                section_headers(text.spec_bytes())[i],
                section_end(text.spec_bytes(), section_headers(text.spec_bytes()), i),
            ),
{
    broadcast use encode_utf8_valid_utf8;

    let ghost b = text.spec_bytes();
    let ghost hs = section_headers(b);
    let starts = section_starts(text);
    proof {
        lemma_headers_from_wf(b, 0);
    }
    let mut out: Vec<SectionRef<'_>> = Vec::new();
    let n = starts.len();
    let tlen = text.as_bytes().len();
    for i in 0..n
        invariant
            n == starts@.len(),
            tlen == b.len(),
            b == text.spec_bytes(),
            hs == section_headers(b),
            starts@.len() == hs.len(),
            forall|j: int|
                0 <= j < starts@.len() ==> {
                    let h = #[trigger] hs[j];
                    &&& starts@[j].0 == h.0
                    &&& starts@[j].1 == h.1
                    &&& starts@[j].2 == h.2
                    &&& starts@[j].3 == h.3
                    &&& starts@[j].4 == h.4
                },
            forall|j: int| 0 <= j < hs.len() ==> header_wf(b, #[trigger] hs[j]),
            forall|j: int, l: int|
                0 <= j < l < hs.len() ==> #[trigger] hs[j].4 < #[trigger] hs[l].0,
            out@.len() == i,
            forall|j: int|
                0 <= j < i ==> section_matches(
                    #[trigger] out@[j],
                    b,
                    hs[j],
                    section_end(b, hs, j),
                ),
    {
        let (start_byte, ns, ne, ts, te) = starts[i];
        let end_byte = if i + 1 < n {
            starts[i + 1].0
        } else {
            tlen
        };
        let ghost h = hs[i as int];
        proof {
            assert(header_wf(b, h));
            encode_utf8_valid_utf8(text@);
            assert(valid_utf8(b));
            lemma_ascii_boundary(b, ns as int);
            lemma_ascii_boundary(b, ne as int);
            lemma_ascii_boundary(b, ts as int);
            lemma_ascii_boundary(b, te as int);
            lemma_ascii_boundary(b, start_byte as int);
            if i + 1 < n {
                assert(header_wf(b, hs[i + 1]));
                assert(hs[i as int].4 < hs[i + 1].0);
                assert(end_byte == hs[i + 1].0);
            } else {
                assert(end_byte == b.len());
            }
            lemma_ascii_boundary(b, end_byte as int);
        }
        let sec = SectionRef {
            number: byte_slice(text, ns, ne),
            title: byte_slice(text, ts, te),
            text: byte_slice(text, start_byte, end_byte),
        };
        out.push(sec);
    }
    out
}

pub proof fn lemma_first_header_numbered(
    b: Seq<u8>,
    hs: Seq<(int, int, int, int, int)>,
    t: Seq<u8>,
    j: int,
)
    requires
        0 <= j,
    ensures
        match first_header_numbered(b, hs, t, j) {
            Some(i) => j <= i < hs.len() && header_number(b, hs[i]) == t && forall|k: int|
                j <= k < i ==> header_number(b, #[trigger] hs[k]) != t,
            None => forall|k: int| j <= k < hs.len() ==> header_number(b, #[trigger] hs[k]) != t,
        },
    decreases hs.len() - j,
{
    if j < hs.len() && header_number(b, hs[j]) != t {
        lemma_first_header_numbered(b, hs, t, j + 1);
    }
}

pub proof fn lemma_subtree_end(b: Seq<u8>, hs: Seq<(int, int, int, int, int)>, t: Seq<u8>, j: int)
    requires
        0 <= j,
    ensures
        subtree_end(b, hs, t, j) == b.len() || exists|k: int|
            j <= k < hs.len() && subtree_end(b, hs, t, j) == #[trigger] hs[k].0,
    decreases hs.len() - j,
{
    if j < hs.len() && is_subsection_of(header_number(b, hs[j]), t) {
        lemma_subtree_end(b, hs, t, j + 1);
    }
}

/// Where the section numbered `t` lies in `b`: the index of its header among
/// [`section_headers`] and the byte offset where it ends (the next header that
/// is not one of its subsections, or the end of the text).
pub open spec fn section_lookup(b: Seq<u8>, t: Seq<u8>) -> Option<(int, int)> {
    let hs = section_headers(b);
    match first_header_numbered(b, hs, t, 0) {
        Some(i) => Some((i, subtree_end(b, hs, t, i + 1))),
        None => None,
    }
}

/// `bytes[a..e]` equals `t`.
fn bytes_equal(bytes: &[u8], a: usize, e: usize, t: &[u8]) -> (r: bool)
    requires
        a <= e <= bytes@.len(),
    ensures
        r == (bytes@.subrange(a as int, e as int) == t@),
{
    if e - a != t.len() {
        return false;
    }
    let mut k: usize = 0;
    while k < t.len()
        invariant
            a <= e <= bytes@.len(),
            e - a == t@.len(),
            k <= t@.len(),
            forall|m: int| 0 <= m < k ==> bytes@[a + m] == t@[m],
        decreases t@.len() - k,
    {
        if bytes[a + k] != t[k] {
            assert(bytes@.subrange(a as int, e as int)[k as int] != t@[k as int]);
            return false;
        }
        k = k + 1;
    }
    assert(bytes@.subrange(a as int, e as int) =~= t@);
    true
}

/// `bytes[a..e]` names a subsection of `t` (it starts with `t` and a dot).
fn is_subsection(bytes: &[u8], a: usize, e: usize, t: &[u8]) -> (r: bool)
    requires
        a <= e <= bytes@.len(),
    ensures
        r == is_subsection_of(bytes@.subrange(a as int, e as int), t@),
{
    let ghost n = bytes@.subrange(a as int, e as int);
    if e - a <= t.len() {
        return false;
    }
    let tl = t.len();
    let r = bytes_equal(bytes, a, a + tl, t) && bytes[a + tl] == 46u8;
    assert(n.subrange(0, tl as int) =~= bytes@.subrange(a as int, a + tl));
    r
}

/// Look up the section numbered `target` (e.g. `"5.2"`): its header line
/// through (but not including) the next header that is not one of its
/// subsections.
pub fn find_section<'a>(text: &'a str, target: &str) -> (r: Option<SectionRef<'a>>)
    ensures
        match section_lookup(text.spec_bytes(), target.spec_bytes()) {
            None => r is None,
            Some((i, end)) => r matches Some(s) && section_matches(
                s,
                text.spec_bytes(),
                section_headers(text.spec_bytes())[i],
                end,
            ),
        },
{
    let bytes = text.as_bytes();
    let t = target.as_bytes();
    let ghost b = bytes@;
    let ghost hs = section_headers(b);
    let starts = section_starts(text);
    let n = starts.len();
    proof {
        lemma_headers_from_wf(b, 0);
    }
    let mut idx: usize = 0;
    while idx < n && !bytes_equal(bytes, starts[idx].1, starts[idx].2, t)
        invariant
            idx <= n == starts@.len() == hs.len(),
            b == bytes@,
            forall|j: int|
                0 <= j < starts@.len() ==> {
                    let h = #[trigger] hs[j];
                    &&& starts@[j].0 == h.0
                    &&& starts@[j].1 == h.1
                    &&& starts@[j].2 == h.2
                    &&& starts@[j].3 == h.3
                    &&& starts@[j].4 == h.4
                },
            forall|j: int| 0 <= j < hs.len() ==> header_wf(b, #[trigger] hs[j]),
            first_header_numbered(b, hs, t@, idx as int) == first_header_numbered(b, hs, t@, 0),
        decreases n - idx,
    {
        assert(header_wf(b, hs[idx as int]));
        idx = idx + 1;
    }
    if idx == n {
        return None;
    }
    assert(header_wf(b, hs[idx as int]));
    let mut j = idx + 1;
    while j < n && is_subsection(bytes, starts[j].1, starts[j].2, t)
        invariant
            idx < j <= n == starts@.len() == hs.len(),
            b == bytes@,
            forall|k: int|
                0 <= k < starts@.len() ==> {
                    let h = #[trigger] hs[k];
                    &&& starts@[k].0 == h.0
                    &&& starts@[k].1 == h.1
                    &&& starts@[k].2 == h.2
                    &&& starts@[k].3 == h.3
                    &&& starts@[k].4 == h.4
                },
            forall|k: int| 0 <= k < hs.len() ==> header_wf(b, #[trigger] hs[k]),
            subtree_end(b, hs, t@, j as int) == subtree_end(b, hs, t@, idx + 1),
        decreases n - j,
    {
        assert(header_wf(b, hs[j as int]));
        j = j + 1;
    }
    let (start_byte, ns, ne, ts, te) = starts[idx];
    let end_byte = if j < n {
        starts[j].0
    } else {
        bytes.len()
    };
    proof {
        vstd::utf8::encode_utf8_valid_utf8(text@);
        assert(valid_utf8(b));
        lemma_ascii_boundary(b, ns as int);
        lemma_ascii_boundary(b, ne as int);
        lemma_ascii_boundary(b, ts as int);
        lemma_ascii_boundary(b, te as int);
        lemma_ascii_boundary(b, start_byte as int);
        if j < n {
            assert(header_wf(b, hs[j as int]));
            assert(hs[idx as int].4 < hs[j as int].0);
        }
        lemma_ascii_boundary(b, end_byte as int);
    }
    Some(
        SectionRef {
            number: byte_slice(text, ns, ne),
            title: byte_slice(text, ts, te),
            text: byte_slice(text, start_byte, end_byte),
        },
    )
}

/// Looking a section up by number finds one exactly when some detected
/// section carries that number, and what it finds starts with the first
/// such section's header.
pub proof fn law_lookup_agrees_with_scan(b: Seq<u8>, t: Seq<u8>)
    ensures
        section_lookup(b, t) is Some <==> exists|i: int|
            0 <= i < section_headers(b).len() && header_number(b, #[trigger] section_headers(b)[i])
                == t,
        section_lookup(b, t) matches Some((i, end)) ==> {
            &&& 0 <= i < section_headers(b).len()
            &&& header_number(b, section_headers(b)[i]) == t
            &&& forall|k: int| 0 <= k < i ==> header_number(b, #[trigger] section_headers(b)[k]) != t
            &&& section_headers(b)[i].0 < end <= b.len()
        },
{
    let hs = section_headers(b);
    lemma_first_header_numbered(b, hs, t, 0);
    lemma_headers_from_wf(b, 0);
    if let Some(i) = first_header_numbered(b, hs, t, 0) {
        lemma_subtree_end(b, hs, t, i + 1);
        let end = subtree_end(b, hs, t, i + 1);
        if end != b.len() {
            let k = choose|k: int| i + 1 <= k < hs.len() && end == #[trigger] hs[k].0;
            assert(hs[i].4 < hs[k].0);
        }
        assert(header_wf(b, hs[i]));
    }
}

/// The text of each scanned section starts at its own header line and stops
/// exactly where the header line of the next section begins, so it never
/// holds a later header; only the last section runs to the end of the body.
pub proof fn law_sections_stop_at_next_header(b: Seq<u8>, i: int)
    requires
        0 <= i < section_headers(b).len(),
    ensures
        i + 1 < section_headers(b).len() ==> section_end(b, section_headers(b), i)
            == section_headers(b)[i + 1].0,
        i + 1 < section_headers(b).len() ==> section_end(b, section_headers(b), i) < b.len(),
        i + 1 == section_headers(b).len() ==> section_end(b, section_headers(b), i) == b.len(),
        section_headers(b)[i].4 <= section_end(b, section_headers(b), i),
        forall|l: int|
            i < l < section_headers(b).len() ==> section_end(b, section_headers(b), i)
                <= #[trigger] section_headers(b)[l].0,
{
    let hs = section_headers(b);
    lemma_headers_from_wf(b, 0);
    assert(header_wf(b, hs[i]));
    if i + 1 < hs.len() {
        assert(header_wf(b, hs[i + 1]));
        assert(hs[i].4 < hs[i + 1].0);
        assert forall|l: int| i < l < hs.len() implies section_end(b, hs, i) <= #[trigger] hs[l].0 by {
            if l > i + 1 {
                assert(hs[i + 1].4 < hs[l].0);
                assert(header_wf(b, hs[i + 1]));
            }
        }
    }
}

// ---------------------------------------------------------------------------
// Text normalisation.
// ---------------------------------------------------------------------------

/// A character kept by [`normalize_text`]: anything but carriage return and form feed.
pub open spec fn kept_by_normalize(c: char) -> bool {
    c != '\r' && c != '\u{000C}'
}

/// `s` without carriage returns and form feeds.
pub open spec fn normalized(s: Seq<char>) -> Seq<char> {
    s.filter(|c: char| kept_by_normalize(c))
}

/// Normalize line endings and strip form-feed page-break characters.
pub fn normalize_text(s: &str) -> (out: String)
    ensures
        out@ == normalized(s@),
{
    let mut out = String::new();
    for c in it: s.chars()
        invariant
            it.seq() == s@,
            out@ == s@.take(it.index() as int).filter(|c: char| kept_by_normalize(c)),
    {
        proof {
            assert(s@.take(it.index() + 1) == s@.take(it.index() as int).push(c));
            s@.take(it.index() as int).lemma_filter_push(c, |c: char| kept_by_normalize(c));
        }
        if c != '\r' && c != '\u{000C}' {
            out.push(c);
        }
    }
    assert(s@.take(s@.len() as int) == s@);
    out
}

/// Normalized text holds no carriage return and no form feed, and
/// normalizing it again changes nothing.
pub proof fn law_normalize_text_settles(s: Seq<char>)
    ensures
        forall|i: int| 0 <= i < normalized(s).len() ==> kept_by_normalize(#[trigger] normalized(s)[i]),
        normalized(normalized(s)) == normalized(s),
    decreases s.len(),
{
    let k = |c: char| kept_by_normalize(c);
    if s.len() > 0 {
        let p = s.drop_last();
        law_normalize_text_settles(p);
        assert(s == p.push(s.last()));
        p.lemma_filter_push(s.last(), k);
        p.filter(k).lemma_filter_push(s.last(), k);
    } else {
        assert(s.filter(k) =~= Seq::<char>::empty());
        assert(s.filter(k).filter(k) =~= Seq::<char>::empty());
    }
}

// ---------------------------------------------------------------------------
// Fetching a body.
// ---------------------------------------------------------------------------

/// The message for fetching the body of an RFC that is not in the index.
pub open spec fn not_in_index_message(number: u32) -> Seq<char> {
    "RFC "@ + decimal(number as nat) + " not in index — run sync_index first"@
}

/// The message for an RFC whose rendered text is not published.
pub open spec fn no_text_message(number: u32) -> Seq<char> {
    "RFC "@ + decimal(number as nat) + " text body (404)"@
}

/// Whether fetching the body of RFC `number` also fetches its XML source:
/// exactly when the index lists an XML format for it. Fetching the body of
/// an RFC that is not in the index (`rfc` is `None`) is refused.
pub fn xml_wanted(number: u32, rfc: Option<&Rfc>) -> (r: Result<bool, IndexError>)
    ensures
        match rfc {
            Some(x) => r matches Ok(b) && b == rfc_has_xml(*x),
            None => r matches Err(IndexError::NotFound(m)) && m@ == not_in_index_message(number),
        },
{
    match rfc {
        Some(x) => Ok(x.has_xml()),
        None => {
            let mut m = string_from("RFC ");
            push_decimal(&mut m, number as u64);
            push_str(&mut m, " not in index — run sync_index first");
            Err(IndexError::NotFound(m))
        },
    }
}

/// The body of RFC `number` from what was downloaded: the rendered text
/// (`None` when it is not published, which is refused), normalised, and the
/// XML source if any, stamped with `fetched_at`.
pub fn assemble_body(number: u32, text: Option<String>, xml: Option<String>, fetched_at: i64) -> (r:
    Result<Body, IndexError>)
    ensures
        match text {
            Some(t) => r matches Ok(b) && b.number == number && b.text@ == normalized(t@) && b.xml
                == xml && b.fetched_at == fetched_at,
            None => r matches Err(IndexError::NotFound(m)) && m@ == no_text_message(number),
        },
{
    match text {
        Some(t) => Ok(Body { number, text: normalize_text(t.as_str()), xml, fetched_at }),
        None => {
            let mut m = string_from("RFC ");
            push_decimal(&mut m, number as u64);
            push_str(&mut m, " text body (404)");
            Err(IndexError::NotFound(m))
        },
    }
}

} // verus!

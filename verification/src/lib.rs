//! Local cache, full-text search, and reference graph for IETF RFCs: the
//! verified core.
//!
//! This crate holds what the index computes: parsing of `rfc-index.xml`
//! entries and `errata.json` records, section detection in rendered RFC
//! text, reference extraction, query filtering and facet listings, the
//! decisions of the conditional-sync protocol, calendar arithmetic for
//! timestamps, and the text the command line prints. Storage and network
//! access live in the application around it.
use vstd::prelude::*;

pub mod body;
pub mod calendar;
pub mod cli;
pub mod errata;
pub mod error;
pub mod facets;
pub mod index;
pub mod model;
pub mod outside;
pub mod query;
pub mod refs;
pub mod render;
pub mod search;
pub mod sync;
pub mod text;

pub use body::SectionRef;
pub use error::IndexError;
pub use model::{
    Author, Body, Counts, Date, ErrataSyncStats, Erratum, Facet, FacetKind, Rfc, SeriesKind,
    SubSeries, SubSeriesRef, SyncStats,
};

use model::opt_view;
use text::{
    chars_of, digits_value, decimal, lemma_decimal_digits, lemma_leading_count,
    lemma_trailing_count, parse_u32_chars, parse_u32_spec, push_decimal, slice_chars,
    string_from, string_of, trim_bounds, trim_ws, trim_start_by, trim_end_by, upper_chars,
    upper_seq, is_unicode_whitespace, all_digits,
    is_ascii_digit, unsigned_decimal, lemma_leading_zero, ascii_upper,
};

verus! {

// ---------------------------------------------------------------------------
// Base URL.
// ---------------------------------------------------------------------------

/// `base` with surrounding whitespace and trailing slashes removed.
pub open spec fn trimmed_base_url(base: Seq<char>) -> Seq<char> {
    trim_end_by(trim_ws(base), |c: char| c == '/')
}

/// Trim whitespace and trailing slashes from a base URL; an empty result is
/// refused.
pub fn normalize_base_url(base_url: &str) -> (r: Result<String, IndexError>)
    ensures
        match r {
            Ok(s) => s@ == trimmed_base_url(base_url@) && s@.len() > 0,
            Err(e) => trimmed_base_url(base_url@).len() == 0 && (e matches IndexError::Malformed(m)
                && m@ == "base URL must not be empty"@),
        },
{
    let v = chars_of(base_url);
    let (a, b0) = trim_bounds(&v);
    let ghost t = v@.subrange(a as int, b0 as int);
    let mut b = b0;
    while b > a && v[b - 1] == '/'
        invariant
            a <= b <= b0 <= v@.len(),
            t == v@.subrange(a as int, b0 as int),
            forall|j: int| b <= j < b0 ==> #[trigger] v@[j] == '/',
        decreases b - a,
    {
        b = b - 1;
    }
    proof {
        let p = |c: char| c == '/';
        assert forall|j: int| b - a <= j < t.len() implies p(#[trigger] t[j]) by {
            assert(t[j] == v@[a + j]);
        }
        if b > a {
            assert(t[b - a - 1] == v@[b - 1]);
        }
        lemma_trailing_count(t, p, b - a);
        assert(t.subrange(0, b - a) == v@.subrange(a as int, b as int));
    }
    if b == a {
        return Err(IndexError::Malformed(string_from("base URL must not be empty")));
    }
    Ok(string_of(&v, a, b))
}

// ---------------------------------------------------------------------------
// Sub-series identifiers.
// ---------------------------------------------------------------------------

/// Separators allowed between a sub-series prefix and its number.
pub open spec fn is_id_separator(c: char) -> bool {
    is_unicode_whitespace(c) || c == '-' || c == '_'
}

/// The sub-series prefix (`BCP`, `STD`, `FYI`) that `u` starts with.
pub open spec fn sub_series_prefix(u: Seq<char>) -> Option<Seq<char>> {
    if u.len() >= 3 && u.subrange(0, 3) == "BCP"@ {
        Some("BCP"@)
    } else if u.len() >= 3 && u.subrange(0, 3) == "STD"@ {
        Some("STD"@)
    } else if u.len() >= 3 && u.subrange(0, 3) == "FYI"@ {
        Some("FYI"@)
    } else {
        None
    }
}

/// Decimal digits zero-padded on the left to at least four characters.
pub open spec fn pad4(d: Seq<char>) -> Seq<char> {
    if d.len() < 4 {
        Seq::new((4 - d.len()) as nat, |i: int| '0') + d
    } else {
        d
    }
}

/// The canonical doc-id that a user-written sub-series id denotes: after
/// trimming and upper-casing, a `BCP`/`STD`/`FYI` prefix, optional
/// whitespace, `-` or `_`, and a decimal number; the result is the prefix and
/// the number zero-padded to four digits.
pub open spec fn canonical_sub_series_id(s: Seq<char>) -> Option<Seq<char>> {
    let u = upper_seq(trim_ws(s));
    match sub_series_prefix(u) {
        Some(p) => {
            let digits = trim_start_by(
                u.subrange(3, u.len() as int),
                |c: char| is_id_separator(c),
            );
            match parse_u32_spec(digits) {
                Some(n) => Some(p + pad4(decimal(n as nat))),
                None => None,
            }
        },
        None => None,
    }
}

/// `v[0..3]` equals the three characters of `lit`.
fn starts_with3(v: &Vec<char>, lit: &str) -> (r: bool)
    requires
        lit@.len() == 3,
    ensures
        r == (v@.len() >= 3 && v@.subrange(0, 3) == lit@),
{
    let w = chars_of(lit);
    if v.len() < 3 {
        return false;
    }
    let r = v[0] == w[0] && v[1] == w[1] && v[2] == w[2];
    assert(r ==> v@.subrange(0, 3) =~= w@);
    assert(v@.subrange(0, 3) == w@ ==> v@.subrange(0, 3)[1] == w@[1] && v@.subrange(0, 3)[2]
        == w@[2] && v@.subrange(0, 3)[0] == w@[0]);
    r
}

/// "BCP14" / "bcp 14" / "std-3" / "BCP0014" → canonical "BCP0014" (similarly
/// for STD/FYI). Returns `None` if the input doesn't look like a sub-series id.
pub fn parse_sub_series_id(s: &str) -> (r: Option<String>)
    ensures
        opt_view(r) == canonical_sub_series_id(s@),
{
    proof {
        reveal_strlit("BCP");
        reveal_strlit("STD");
        reveal_strlit("FYI");
    }
    let v = chars_of(s);
    let (a, b) = trim_bounds(&v);
    let u = upper_chars(&slice_chars(&v, a, b));
    let prefix: &str = if starts_with3(&u, "BCP") {
        "BCP"
    } else if starts_with3(&u, "STD") {
        "STD"
    } else if starts_with3(&u, "FYI") {
        "FYI"
    } else {
        return None;
    };
    assert(sub_series_prefix(u@) == Some(prefix@));
    let mut i: usize = 3;
    while i < u.len() && (is_sep(u[i]))
        invariant
            3 <= i <= u@.len(),
            forall|j: int| 3 <= j < i ==> is_id_separator(#[trigger] u@[j]),
        decreases u@.len() - i,
    {
        i = i + 1;
    }
    let ghost rest = u@.subrange(3, u@.len() as int);
    proof {
        let p = |c: char| is_id_separator(c);
        assert forall|j: int| 0 <= j < i - 3 implies p(#[trigger] rest[j]) by {
            assert(rest[j] == u@[j + 3]);
        }
        if i < u@.len() {
            assert(rest[i - 3] == u@[i as int]);
        }
        lemma_leading_count(rest, p, i - 3);
        assert(trim_start_by(rest, p) == u@.subrange(i as int, u@.len() as int));
    }
    match parse_u32_chars(&u, i, u.len()) {
        Some(n) => {
            let mut out = string_from(prefix);
            let mut digits = String::new();
            push_decimal(&mut digits, n as u64);
            proof {
                lemma_decimal_digits(n as nat);
            }
            let dv = chars_of(digits.as_str());
            let mut k = dv.len();
            while k < 4
                invariant
                    dv@ == decimal(n as nat),
                    dv@.len() <= k,
                    k <= 4 || k == dv@.len(),
                    out@ == prefix@ + Seq::new((k - dv@.len()) as nat, |j: int| '0'),
                decreases 4 - k,
            {
                out.push('0');
                proof {
                    assert(Seq::new((k + 1 - dv@.len()) as nat, |j: int| '0') == Seq::new(
                        (k - dv@.len()) as nat,
                        |j: int| '0',
                    ).push('0'));
                }
                k = k + 1;
            }
            let ghost zeros = Seq::new((k - dv@.len()) as nat, |j: int| '0');
            out.append(digits.as_str());
            proof {
                if dv@.len() >= 4 {
                    assert(zeros.len() == 0);
                    assert(out@ == prefix@ + dv@);
                } else {
                    assert(k == 4);
                }
                assert(out@ == prefix@ + pad4(decimal(n as nat)));
            }
            Some(out)
        },
        None => None,
    }
}

fn is_sep(c: char) -> (r: bool)
    ensures
        r == is_id_separator(c),
{
    text::is_whitespace(c) || c == '-' || c == '_'
}

/// Zeros in front of decimal digits do not change their value.
proof fn lemma_zero_padding_value(k: nat, ds: Seq<char>)
    ensures
        digits_value(Seq::new(k, |i: int| '0') + ds) == digits_value(ds),
    decreases k,
{
    if k > 0 {
        let z = Seq::new(k, |i: int| '0') + ds;
        lemma_leading_zero(z);
        assert(z.drop_first() =~= Seq::new((k - 1) as nat, |i: int| '0') + ds);
        lemma_zero_padding_value((k - 1) as nat, ds);
    }
}

/// A canonical sub-series id is canonical: parsing it gives it back.
pub proof fn law_canonical_sub_series_id_is_fixed(s: Seq<char>)
    requires
        canonical_sub_series_id(s) is Some,
    ensures
        canonical_sub_series_id(canonical_sub_series_id(s)->0) == canonical_sub_series_id(s),
{
    reveal_strlit("BCP");
    reveal_strlit("STD");
    reveal_strlit("FYI");
    let u = upper_seq(trim_ws(s));
    let p = sub_series_prefix(u)->0;
    let digits = trim_start_by(u.subrange(3, u.len() as int), |c: char| is_id_separator(c));
    let n = parse_u32_spec(digits)->0;
    let dec = decimal(n as nat);
    let d = pad4(dec);
    let c = p + d;
    assert(c == canonical_sub_series_id(s)->0);
    lemma_decimal_digits(n as nat);
    let zeros = if dec.len() < 4 {
        Seq::new((4 - dec.len()) as nat, |i: int| '0')
    } else {
        Seq::<char>::empty()
    };
    assert(d =~= zeros + dec);
    assert(all_digits(d)) by {
        assert forall|i: int| 0 <= i < d.len() implies is_ascii_digit(#[trigger] d[i]) by {
            if i >= zeros.len() {
                assert(d[i] == dec[i - zeros.len()]);
            }
        }
    }
    assert(p.len() == 3);
    assert(c.len() >= 4);
    assert forall|i: int| 0 <= i < c.len() implies ascii_upper(#[trigger] c[i]) == c[i] by {
        if i >= 3 {
            assert(c[i] == d[i - 3]);
            assert(is_ascii_digit(d[i - 3]));
        }
    }
    let ws = |ch: char| is_unicode_whitespace(ch);
    assert(is_ascii_digit(d[d.len() - 1]));
    lemma_leading_count(c, ws, 0);
    assert(trim_start_by(c, ws) =~= c);
    lemma_trailing_count(c, ws, c.len() as int);
    assert(trim_ws(c) =~= c);
    assert(upper_seq(c) =~= c);
    assert(c.subrange(0, 3) =~= p);
    assert(sub_series_prefix(c) == Some(p));
    let rest = c.subrange(3, c.len() as int);
    assert(rest =~= d);
    let sep = |ch: char| is_id_separator(ch);
    assert(is_ascii_digit(d[0]));
    lemma_leading_count(d, sep, 0);
    assert(trim_start_by(rest, sep) =~= d);
    lemma_zero_padding_value(zeros.len(), dec);
    if dec.len() >= 4 {
        assert(zeros + dec =~= dec);
    } else {
        assert(zeros == Seq::new(zeros.len(), |i: int| '0'));
    }
    assert(digits_value(d) == n);
    assert(unsigned_decimal(d) == Some(n as int));
    assert(parse_u32_spec(d) == Some(n));
}

} // verus!

//! Reading back stored records and filtering the index: timestamps, format
//! lists, sub-series kinds, and the composable filters of a listing.
use crate::error::IndexError;
use crate::model::{rfc_has_xml, series_prefix, Date, Rfc, SeriesKind};
use crate::outside::{
    compile_pattern, pattern_is_match, regex_compiles, regex_is_match, str_debug, debug_quoted,
    Pattern,
};
use crate::text::{
    chars_of, digits_value, is_ascii_digit, contains_ignore_ascii_case, contains_ignore_case, eq_ignore_ascii_case,
    eq_ignore_case, law_signed_text_reads_back, parse_i64, parse_i64_spec, push_signed_decimal,
    signed_decimal, signed_text, string_from, string_of, str_eq,
};
use vstd::prelude::*;

verus! {

// ---------------------------------------------------------------------------
// Stored timestamps.
// ---------------------------------------------------------------------------

/// How reading the digits `ds` from the left first fails, where `bound` is
/// the largest magnitude the sign allows: `Some(false)` at a character that
/// is not a digit, `Some(true)` at a digit that takes the value read so far
/// past `bound`, `None` when neither happens.
pub open spec fn digit_scan_failure(ds: Seq<char>, bound: int) -> Option<bool>
    decreases ds.len(),
{
    if ds.len() == 0 {
        None
    } else {
        match digit_scan_failure(ds.drop_last(), bound) {
            Some(f) => Some(f),
            None => if !is_ascii_digit(ds.last()) {
                Some(false)
            } else if digits_value(ds) > bound {
                Some(true)
            } else {
                None
            },
        }
    }
}

/// The digits of `s` after an optional leading sign.
pub open spec fn unsigned_part(s: Seq<char>) -> Seq<char> {
    if s.len() > 0 && (s[0] == '-' || s[0] == '+') {
        s.drop_first()
    } else {
        s
    }
}

/// The largest magnitude an `i64` written as `s` may have: `2^63` after a
/// minus sign, `2^63 - 1` otherwise.
pub open spec fn magnitude_bound(s: Seq<char>) -> int {
    if s.len() > 0 && s[0] == '-' {
        0x8000_0000_0000_0000int
    } else {
        0x7fff_ffff_ffff_ffffint
    }
}

/// Why a stored value is not an `i64`, in the words of `ParseIntError`: the
/// first problem met reading it from the left, a character that is not a
/// digit (a lone sign among them) or a digit that overflows.
pub open spec fn int_error_text(s: Seq<char>) -> Seq<char> {
    if s.len() == 0 {
        "cannot parse integer from empty string"@
    } else if digit_scan_failure(unsigned_part(s), magnitude_bound(s)) == Some(true) {
        if s[0] == '-' {
            "number too small to fit in target type"@
        } else {
            "number too large to fit in target type"@
        }
    } else {
        "invalid digit found in string"@
    }
}

/// A failure met in a prefix of `ds` is the failure of `ds` itself.
proof fn lemma_scan_failure_prefix(ds: Seq<char>, k: int, bound: int)
    requires
        0 <= k <= ds.len(),
        digit_scan_failure(ds.take(k), bound) is Some,
    ensures
        digit_scan_failure(ds, bound) == digit_scan_failure(ds.take(k), bound),
    decreases ds.len(),
{
    if k < ds.len() {
        assert(ds.drop_last().take(k) == ds.take(k));
        lemma_scan_failure_prefix(ds.drop_last(), k, bound);
    } else {
        assert(ds.take(k) == ds);
    }
}

/// The message for a stored timestamp that is not a number.
pub open spec fn epoch_error_message(key: Seq<char>, value: Seq<char>) -> Seq<char> {
    "meta["@ + key + "] is not valid epoch seconds ("@ + str_debug(value) + "): "@
        + int_error_text(value)
}

/// Read a stored epoch-seconds value: absent is `None`, a decimal `i64` is
/// its value, anything else is `Malformed`.
pub fn parse_epoch_meta(key: &str, value: Option<String>) -> (r: Result<Option<i64>, IndexError>)
    ensures
        match value {
            None => r == Ok::<Option<i64>, IndexError>(None),
            Some(s) => match parse_i64_spec(s@) {
                Some(n) => r == Ok::<Option<i64>, IndexError>(Some(n)),
                None => r matches Err(IndexError::Malformed(m)) && m@ == epoch_error_message(
                    key@,
                    s@,
                ),
            },
        },
{
    match value {
        Some(s) => match parse_i64(s.as_str()) {
            Some(n) => Ok(Some(n)),
            None => {
                let mut m = string_from("meta[");
                m.append(key);
                m.append("] is not valid epoch seconds (");
                let q = debug_quoted(s.as_str());
                m.append(q.as_str());
                m.append("): ");
                let why = int_error_text_of(s.as_str());
                m.append(why);
                Err(IndexError::Malformed(m))
            },
        },
        None => Ok(None),
    }
}

/// The stored form of an epoch-seconds value: its decimal text, which
/// [`parse_epoch_meta`] reads back as the same value.
pub fn epoch_meta_value(n: i64) -> (r: String)
    ensures
        r@ == signed_text(n as int),
        parse_i64_spec(r@) == Some(n),
{
    let mut r = String::new();
    push_signed_decimal(&mut r, n);
    proof {
        law_signed_text_reads_back(n);
    }
    r
}

fn int_error_text_of(s: &str) -> (r: &'static str)
    ensures
        r@ == int_error_text(s@),
{
    let v = chars_of(s);
    if v.len() == 0 {
        return "cannot parse integer from empty string";
    }
    let neg = v[0] == '-';
    let start: usize = if v[0] == '-' || v[0] == '+' {
        1
    } else {
        0
    };
    let bound: u64 = if neg {
        0x8000_0000_0000_0000u64
    } else {
        0x7fff_ffff_ffff_ffffu64
    };
    let ghost ds = v@.subrange(start as int, v@.len() as int);
    proof {
        assert(ds == unsigned_part(s@));
        assert(bound as int == magnitude_bound(s@));
        assert(ds.take(0) =~= Seq::<char>::empty());
    }
    let mut acc: u64 = 0;
    let mut i = start;
    while i < v.len()
        invariant
            v@ == s@,
            start <= i <= v@.len(),
            start == v@.len() - ds.len(),
            ds == v@.subrange(start as int, v@.len() as int),
            ds == unsigned_part(s@),
            bound as int == magnitude_bound(s@),
            neg == (s@[0] == '-'),
            digit_scan_failure(ds.take(i - start), bound as int) is None,
            acc == digits_value(ds.take(i - start)),
            acc <= bound,
        decreases v@.len() - i,
    {
        let ghost j: int = i - start;
        let ghost next = ds.take(j + 1);
        assert(next.drop_last() =~= ds.take(j));
        assert(next.last() == v@[i as int]);
        let c = v[i];
        if !('0' <= c && c <= '9') {
            proof {
                lemma_scan_failure_prefix(ds, j + 1, bound as int);
            }
            return "invalid digit found in string";
        }
        let d = (c as u32 - '0' as u32) as u64;
        let grown = match acc.checked_mul(10) {
            Some(t) => t.checked_add(d),
            None => None,
        };
        match grown {
            Some(g) if g <= bound => {
                acc = g;
            },
            _ => {
                proof {
                    assert(digits_value(next) > bound);
                    lemma_scan_failure_prefix(ds, j + 1, bound as int);
                }
                if neg {
                    return "number too small to fit in target type";
                } else {
                    return "number too large to fit in target type";
                }
            },
        }
        i = i + 1;
    }
    proof {
        assert(ds.take(ds.len() as int) =~= ds);
    }
    "invalid digit found in string"
}

// ---------------------------------------------------------------------------
// Stored format lists.
// ---------------------------------------------------------------------------

/// The pieces of `s` between commas (what `str::split(',')` yields).
pub open spec fn split_commas(s: Seq<char>) -> Seq<Seq<char>>
    decreases s.len(),
{
    if s.len() == 0 {
        seq![seq![]]
    } else {
        let w = split_commas(s.drop_last());
        if s.last() == ',' {
            w.push(seq![])
        } else {
            w.update(w.len() - 1, w.last().push(s.last()))
        }
    }
}

pub proof fn lemma_split_commas_nonempty(s: Seq<char>)
    ensures
        split_commas(s).len() > 0,
    decreases s.len(),
{
    if s.len() > 0 {
        lemma_split_commas_nonempty(s.drop_last());
    }
}

/// The format list stored as comma-separated text: none when empty.
pub open spec fn formats_of_csv(csv: Seq<char>) -> Seq<Seq<char>> {
    if csv.len() == 0 {
        seq![]
    } else {
        split_commas(csv)
    }
}

/// Formats stored as comma-separated text back into a list.
pub fn formats_from_csv(csv: &str) -> (r: Vec<String>)
    ensures
        r@.map_values(|s: String| s@) == formats_of_csv(csv@),
{
    let v = chars_of(csv);
    let mut out: Vec<String> = Vec::new();
    if v.len() == 0 {
        return out;
    }
    let mut start: usize = 0;
    let n = v.len();
    proof {
        assert(v@.take(0) == Seq::<char>::empty());
        assert(v@.subrange(0, 0) == Seq::<char>::empty());
        assert(out@.map_values(|s: String| s@) == Seq::<Seq<char>>::empty());
    }
    for i in 0..n
        invariant
            n == v@.len(),
            v@ == csv@,
            start <= i,
            split_commas(v@.take(i as int)) == out@.map_values(|s: String| s@).push(
                v@.subrange(start as int, i as int),
            ),
    {
        proof {
            assert(v@.take(i + 1).drop_last() == v@.take(i as int));
            assert(v@.take(i + 1).last() == v@[i as int]);
        }
        if v[i] == ',' {
            let piece = string_of(&v, start, i);
            out.push(piece);
            start = i + 1;
            proof {
                assert(v@.subrange(start as int, i + 1) == Seq::<char>::empty());
            }
        } else {
            proof {
                assert(v@.subrange(start as int, i + 1) == v@.subrange(start as int, i as int).push(
                    v@[i as int],
                ));
            }
        }
    }
    let last = string_of(&v, start, n);
    out.push(last);
    assert(v@.take(n as int) == v@);
    out
}

/// The formats joined with commas, as they are stored.
pub open spec fn join_commas(fs: Seq<Seq<char>>) -> Seq<char>
    decreases fs.len(),
{
    if fs.len() == 0 {
        seq![]
    } else if fs.len() == 1 {
        fs[0]
    } else {
        join_commas(fs.drop_last()) + seq![','] + fs.last()
    }
}

/// Join the formats with commas for storage.
pub fn formats_to_csv(formats: &Vec<String>) -> (r: String)
    ensures
        r@ == join_commas(formats@.map_values(|s: String| s@)),
{
    let ghost fv = formats@.map_values(|s: String| s@);
    let mut out = String::new();
    for i in 0..formats.len()
        invariant
            fv == formats@.map_values(|s: String| s@),
            out@ == join_commas(fv.take(i as int)),
    {
        assert(fv.take(i + 1).drop_last() == fv.take(i as int));
        assert(fv.take(i + 1).last() == formats@[i as int]@);
        if i > 0 {
            out.push(',');
        }
        out.append(formats[i].as_str());
    }
    assert(fv.take(formats@.len() as int) == fv);
    out
}

proof fn lemma_split_join(fs: Seq<Seq<char>>)
    requires
        fs.len() > 0,
        forall|i: int, j: int| 0 <= i < fs.len() && 0 <= j < fs[i].len() ==> #[trigger] fs[i][j] != ',',
    ensures
        split_commas(join_commas(fs)) == fs,
    decreases fs.len(),
{
    if fs.len() == 1 {
        lemma_split_piece(seq![], seq![seq![]], fs[0]);
        assert(seq![] + fs[0] == fs[0]);
    } else {
        let init = fs.drop_last();
        assert forall|i: int, j: int| 0 <= i < init.len() && 0 <= j < init[i].len() implies #[trigger] init[i][j] != ',' by {
            assert(init[i] == fs[i]);
        }
        lemma_split_join(init);
        let j = join_commas(init) + seq![','];
        assert(j.drop_last() == join_commas(init));
        assert(split_commas(j) == init.push(seq![]));
        lemma_split_piece(j, init.push(seq![]), fs.last());
        assert(init.push(seq![]).update(init.len() as int, fs.last()) == fs);
    }
}

/// Appending comma-free text `p` to `s` extends the last piece of `s` by `p`.
proof fn lemma_split_piece(s: Seq<char>, w: Seq<Seq<char>>, p: Seq<char>)
    requires
        split_commas(s) == w,
        w.len() > 0,
        forall|j: int| 0 <= j < p.len() ==> #[trigger] p[j] != ',',
    ensures
        split_commas(s + p) == w.update(w.len() - 1, w.last() + p),
    decreases p.len(),
{
    if p.len() == 0 {
        assert(s + p == s);
        assert(w.last() + p == w.last());
        assert(w.update(w.len() - 1, w.last()) == w);
    } else {
        let q = p.drop_last();
        assert forall|j: int| 0 <= j < q.len() implies #[trigger] q[j] != ',' by {
            assert(q[j] == p[j]);
        }
        lemma_split_piece(s, w, q);
        assert((s + p).drop_last() == s + q);
        assert((s + p).last() == p.last());
        assert(p[p.len() - 1] != ',');
        assert((w.last() + q).push(p.last()) == w.last() + p);
    }
}

/// A stored format list reads back as written, as long as no format
/// contains a comma and the list is not a single empty format.
pub proof fn law_formats_round_trip(fs: Seq<Seq<char>>)
    requires
        forall|i: int, j: int| 0 <= i < fs.len() && 0 <= j < fs[i].len() ==> #[trigger] fs[i][j] != ',',
        !(fs.len() == 1 && fs[0].len() == 0),
    ensures
        formats_of_csv(join_commas(fs)) == fs,
{
    if fs.len() > 0 {
        lemma_split_join(fs);
        if join_commas(fs).len() == 0 {
            lemma_join_commas_empty(fs);
        }
    }
}

proof fn lemma_join_commas_empty(fs: Seq<Seq<char>>)
    requires
        fs.len() > 0,
        join_commas(fs).len() == 0,
    ensures
        fs.len() == 1 && fs[0].len() == 0,
{
    if fs.len() > 1 {
        assert(join_commas(fs).len() >= 1);
    }
}

// ---------------------------------------------------------------------------
// Stored sub-series kinds and dates.
// ---------------------------------------------------------------------------

/// The sub-series kind stored as `s`.
pub open spec fn series_of_code(s: Seq<char>) -> Option<SeriesKind> {
    if s == "BCP"@ {
        Some(SeriesKind::Bcp)
    } else if s == "STD"@ {
        Some(SeriesKind::Std)
    } else if s == "FYI"@ {
        Some(SeriesKind::Fyi)
    } else {
        None
    }
}

/// Read a stored sub-series kind; anything but `BCP`, `STD`, `FYI` is malformed.
pub fn series_from_code(s: &str) -> (r: Result<SeriesKind, IndexError>)
    ensures
        match series_of_code(s@) {
            Some(k) => r == Ok::<SeriesKind, IndexError>(k),
            None => r matches Err(IndexError::Malformed(m)) && m@ == "invalid sub-series kind in DB: "@
                + s@,
        },
{
    if str_eq(s, "BCP") {
        Ok(SeriesKind::Bcp)
    } else if str_eq(s, "STD") {
        Ok(SeriesKind::Std)
    } else if str_eq(s, "FYI") {
        Ok(SeriesKind::Fyi)
    } else {
        let mut m = string_from("invalid sub-series kind in DB: ");
        m.append(s);
        Err(IndexError::Malformed(m))
    }
}

/// A stored year and month as a date: no year, no date.
pub fn date_from_parts(year: Option<i32>, month: Option<u8>) -> (r: Option<Date>)
    ensures
        match year {
            Some(y) => r == Some(Date { year: y, month }),
            None => r is None,
        },
{
    match year {
        Some(y) => Some(Date { year: y, month }),
        None => None,
    }
}

// ---------------------------------------------------------------------------
// Listing filters.
// ---------------------------------------------------------------------------

/// Filter set for a listing. All filters compose with logical AND.
#[derive(Debug, Clone)]
pub struct RfcQuery {
    /// Case-insensitive regex applied to the title.
    pub title_regex: Option<String>,
    /// Inclusive lower bound on publication year.
    pub min_year: Option<i32>,
    /// Inclusive upper bound on publication year.
    pub max_year: Option<i32>,
    /// Case-insensitive substring match against the current status.
    pub status_contains: Option<String>,
    /// Restrict to RFCs whose XML source is available.
    pub xml_only: bool,
    /// Case-insensitive exact match against the working-group acronym.
    pub wg: Option<String>,
    /// Case-insensitive exact match against the IETF area code.
    pub area: Option<String>,
    /// Case-insensitive exact match against the publication stream.
    pub stream: Option<String>,
    /// Restrict to RFCs carrying this keyword (case-insensitive exact match).
    pub keyword: Option<String>,
    /// Case-insensitive regex applied to any author name.
    pub author_regex: Option<String>,
    /// Case-insensitive regex applied to the abstract text.
    pub abstract_regex: Option<String>,
    /// Restrict to members of any sub-series of this kind.
    pub series: Option<SeriesKind>,
    /// Exclude RFCs that have been obsoleted by another RFC.
    pub not_obsoleted: bool,
    /// Maximum results to return. `None` (or `Some(0)`) means no limit.
    pub limit: Option<usize>,
}

impl Default for RfcQuery {
    fn default() -> (r: RfcQuery)
        ensures
            r.title_regex is None && r.min_year is None && r.max_year is None
                && r.status_contains is None && !r.xml_only && r.wg is None && r.area is None
                && r.stream is None && r.keyword is None && r.author_regex is None
                && r.abstract_regex is None && r.series is None && !r.not_obsoleted
                && r.limit is None,
    {
        RfcQuery {
            title_regex: None,
            min_year: None,
            max_year: None,
            status_contains: None,
            xml_only: false,
            wg: None,
            area: None,
            stream: None,
            keyword: None,
            author_regex: None,
            abstract_regex: None,
            series: None,
            not_obsoleted: false,
            limit: None,
        }
    }
}

/// The case-insensitive form of a user pattern.
pub open spec fn ci(p: Seq<char>) -> Seq<char> {
    "(?i)"@ + p
}

/// An optional exact, ASCII-case-insensitive filter on an optional field.
pub open spec fn opt_eq_filter(f: Option<String>, v: Option<String>) -> bool {
    match f {
        Some(w) => match v {
            Some(x) => eq_ignore_case(x@, w@),
            None => false,
        },
        None => true,
    }
}

/// `r` is a member of some sub-series of kind `k`.
pub open spec fn in_series(r: Rfc, k: SeriesKind) -> bool {
    exists|i: int|
        0 <= i < r.sub_series@.len() && #[trigger] r.sub_series@[i].doc_id@.len() >= 3
            && r.sub_series@[i].doc_id@.subrange(0, 3) == series_prefix(k)
}

/// `r` passes the metadata filters of `q`.
pub open spec fn passes_metadata(q: RfcQuery, r: Rfc) -> bool {
    &&& match q.min_year {
        Some(y) => match r.date {
            Some(d) => d.year >= y,
            None => false,
        },
        None => true,
    }
    &&& match q.max_year {
        Some(y) => match r.date {
            Some(d) => d.year <= y,
            None => false,
        },
        None => true,
    }
    &&& match q.status_contains {
        Some(s) => match r.current_status {
            Some(cs) => contains_ignore_case(cs@, s@),
            None => false,
        },
        None => true,
    }
    &&& (q.xml_only ==> rfc_has_xml(r))
    &&& opt_eq_filter(q.wg, r.wg)
    &&& opt_eq_filter(q.area, r.area)
    &&& opt_eq_filter(q.stream, r.stream)
    &&& match q.keyword {
        Some(k) => exists|i: int|
            0 <= i < r.keywords@.len() && eq_ignore_case(#[trigger] r.keywords@[i]@, k@),
        None => true,
    }
    &&& match q.series {
        Some(k) => in_series(r, k),
        None => true,
    }
    &&& (q.not_obsoleted ==> r.obsoleted_by@.len() == 0)
}

/// `r` passes the pattern filters of `q`.
pub open spec fn passes_patterns(q: RfcQuery, r: Rfc) -> bool {
    &&& match q.title_regex {
        Some(p) => regex_is_match(ci(p@), r.title@),
        None => true,
    }
    &&& match q.author_regex {
        Some(p) => exists|i: int|
            0 <= i < r.authors@.len() && regex_is_match(ci(p@), #[trigger] r.authors@[i].name@),
        None => true,
    }
    &&& match q.abstract_regex {
        Some(p) => match r.abstract_text {
            Some(a) => regex_is_match(ci(p@), a@),
            None => false,
        },
        None => true,
    }
}

/// `r` passes every filter of `q`.
pub open spec fn passes(q: RfcQuery, r: Rfc) -> bool {
    passes_metadata(q, r) && passes_patterns(q, r)
}

/// `x` when it is set, else `y`.
pub open spec fn either<T>(x: Option<T>, y: Option<T>) -> Option<T> {
    if x is Some {
        x
    } else {
        y
    }
}

/// The query holding the filters of both `a` and `b` (the limit of `a`, or
/// else of `b`).
pub open spec fn combined(a: RfcQuery, b: RfcQuery) -> RfcQuery {
    RfcQuery {
        title_regex: either(a.title_regex, b.title_regex),
        min_year: either(a.min_year, b.min_year),
        max_year: either(a.max_year, b.max_year),
        status_contains: either(a.status_contains, b.status_contains),
        xml_only: a.xml_only || b.xml_only,
        wg: either(a.wg, b.wg),
        area: either(a.area, b.area),
        stream: either(a.stream, b.stream),
        keyword: either(a.keyword, b.keyword),
        author_regex: either(a.author_regex, b.author_regex),
        abstract_regex: either(a.abstract_regex, b.abstract_regex),
        series: either(a.series, b.series),
        not_obsoleted: a.not_obsoleted || b.not_obsoleted,
        limit: either(a.limit, b.limit),
    }
}

/// No filter is set in both `a` and `b`.
pub open spec fn disjoint_filters(a: RfcQuery, b: RfcQuery) -> bool {
    &&& !(a.title_regex is Some && b.title_regex is Some)
    &&& !(a.min_year is Some && b.min_year is Some)
    &&& !(a.max_year is Some && b.max_year is Some)
    &&& !(a.status_contains is Some && b.status_contains is Some)
    &&& !(a.wg is Some && b.wg is Some)
    &&& !(a.area is Some && b.area is Some)
    &&& !(a.stream is Some && b.stream is Some)
    &&& !(a.keyword is Some && b.keyword is Some)
    &&& !(a.author_regex is Some && b.author_regex is Some)
    &&& !(a.abstract_regex is Some && b.abstract_regex is Some)
    &&& !(a.series is Some && b.series is Some)
}

/// The filters of a listing compose with logical AND: an RFC passes the
/// filters of two queries put together exactly when it passes each.
pub proof fn law_filters_compose_by_and(a: RfcQuery, b: RfcQuery, r: Rfc)
    requires
        disjoint_filters(a, b),
    ensures
        passes(combined(a, b), r) == (passes(a, r) && passes(b, r)),
{
}

/// Every pattern of `q` compiles.
pub open spec fn patterns_compile(q: RfcQuery) -> bool {
    &&& (q.title_regex matches Some(p) ==> regex_compiles(ci(p@)))
    &&& (q.author_regex matches Some(p) ==> regex_compiles(ci(p@)))
    &&& (q.abstract_regex matches Some(p) ==> regex_compiles(ci(p@)))
}

/// The first `n` of `s` when `limit` is `Some(n)` with `n > 0`; all of `s` otherwise.
pub open spec fn cap<A>(s: Seq<A>, limit: Option<usize>) -> Seq<A> {
    match limit {
        Some(n) => if 0 < n < s.len() {
            s.take(n as int)
        } else {
            s
        },
        None => s,
    }
}

/// What a listing returns: the candidates that pass every filter, in
/// order, up to the limit.
pub open spec fn selection(q: RfcQuery, candidates: Seq<Rfc>) -> Seq<Rfc> {
    cap(candidates.filter(|r: Rfc| passes(q, r)), q.limit)
}

/// A listing restricted to RFCs with XML source returns only RFCs whose
/// formats include `XML`, each one of the candidates.
pub proof fn law_xml_only_listing_has_xml(q: RfcQuery, candidates: Seq<Rfc>, r: Rfc)
    requires
        q.xml_only,
        selection(q, candidates).contains(r),
    ensures
        rfc_has_xml(r),
        candidates.contains(r),
{
    broadcast use Seq::lemma_filter_pred, Seq::lemma_filter_contains_rev;

    let pred = |x: Rfc| passes(q, x);
    let f = candidates.filter(pred);
    let s = selection(q, candidates);
    let i = choose|i: int| 0 <= i < s.len() && s[i] == r;
    assert(s[i] == f[i]);
    assert(pred(f[i]));
    assert(f.contains(r));
}

fn compile_opt(p: &Option<String>) -> (r: Result<Option<Pattern>, IndexError>)
    ensures
        match p {
            None => r matches Ok(None),
            Some(s) => match r {
                Ok(Some(pt)) => regex_compiles(ci(s@)) && pt.source() == ci(s@),
                Ok(None) => false,
                Err(e) => !regex_compiles(ci(s@)) && e is Regex,
            },
        },
{
    match p {
        None => Ok(None),
        Some(s) => {
            let mut src = string_from("(?i)");
            src.append(s.as_str());
            match compile_pattern(src) {
                Ok(pt) => Ok(Some(pt)),
                Err(e) => Err(IndexError::Regex(e)),
            }
        },
    }
}

fn opt_eq_ok(f: &Option<String>, v: &Option<String>) -> (r: bool)
    ensures
        r == opt_eq_filter(*f, *v),
{
    match f {
        Some(w) => match v {
            Some(x) => eq_ignore_ascii_case(x.as_str(), w.as_str()),
            None => false,
        },
        None => true,
    }
}

fn has_keyword(r: &Rfc, k: &String) -> (b: bool)
    ensures
        b == exists|i: int| 0 <= i < r.keywords@.len() && eq_ignore_case(#[trigger] r.keywords@[i]@, k@),
{
    for i in 0..r.keywords.len()
        invariant
            forall|j: int| 0 <= j < i ==> !eq_ignore_case(#[trigger] r.keywords@[j]@, k@),
    {
        if eq_ignore_ascii_case(r.keywords[i].as_str(), k.as_str()) {
            return true;
        }
    }
    false
}

fn in_series_exec(r: &Rfc, k: SeriesKind) -> (b: bool)
    ensures
        b == in_series(*r, k),
{
    let prefix = chars_of(k.as_str());
    for i in 0..r.sub_series.len()
        invariant
            prefix@ == series_prefix(k),
            prefix@.len() == 3,
            forall|j: int|
                0 <= j < i ==> !(#[trigger] r.sub_series@[j].doc_id@.len() >= 3
                    && r.sub_series@[j].doc_id@.subrange(0, 3) == series_prefix(k)),
    {
        let d = chars_of(r.sub_series[i].doc_id.as_str());
        if d.len() >= 3 && d[0] == prefix[0] && d[1] == prefix[1] && d[2] == prefix[2] {
            assert(d@.subrange(0, 3) =~= prefix@);
            return true;
        }
        proof {
            if d@.len() >= 3 && d@.subrange(0, 3) == prefix@ {
                assert(d@.subrange(0, 3)[0] == prefix@[0]);
                assert(d@.subrange(0, 3)[1] == prefix@[1]);
                assert(d@.subrange(0, 3)[2] == prefix@[2]);
            }
        }
    }
    false
}

/// Whether `r` passes the metadata filters of `q`.
pub fn matches_metadata(q: &RfcQuery, r: &Rfc) -> (b: bool)
    ensures
        b == passes_metadata(*q, *r),
{
    let year_ok = match q.min_year {
        Some(y) => match r.date {
            Some(d) => d.year >= y,
            None => false,
        },
        None => true,
    } && match q.max_year {
        Some(y) => match r.date {
            Some(d) => d.year <= y,
            None => false,
        },
        None => true,
    };
    let status_ok = match &q.status_contains {
        Some(s) => match &r.current_status {
            Some(cs) => contains_ignore_ascii_case(cs.as_str(), s.as_str()),
            None => false,
        },
        None => true,
    };
    let keyword_ok = match &q.keyword {
        Some(k) => has_keyword(r, k),
        None => true,
    };
    let series_ok = match q.series {
        Some(k) => in_series_exec(r, k),
        None => true,
    };
    year_ok && status_ok && (!q.xml_only || r.has_xml()) && opt_eq_ok(&q.wg, &r.wg) && opt_eq_ok(
        &q.area,
        &r.area,
    ) && opt_eq_ok(&q.stream, &r.stream) && keyword_ok && series_ok && (!q.not_obsoleted
        || r.obsoleted_by.len() == 0)
}

fn any_author_matches(p: &Pattern, r: &Rfc) -> (b: bool)
    ensures
        b == exists|i: int|
            0 <= i < r.authors@.len() && regex_is_match(p.source(), #[trigger] r.authors@[i].name@),
{
    for i in 0..r.authors.len()
        invariant
            forall|j: int|
                0 <= j < i ==> !regex_is_match(p.source(), #[trigger] r.authors@[j].name@),
    {
        if pattern_is_match(p, r.authors[i].name.as_str()) {
            return true;
        }
    }
    false
}

/// Whether `r` passes the pattern filters of `q`, given the compiled patterns.
fn matches_patterns(
    q: &RfcQuery,
    r: &Rfc,
    title: &Option<Pattern>,
    author: &Option<Pattern>,
    abs: &Option<Pattern>,
) -> (b: bool)
    requires
        match q.title_regex {
            None => title is None,
            Some(s) => title matches Some(pt) && pt.source() == ci(s@),
        },
        match q.author_regex {
            None => author is None,
            Some(s) => author matches Some(pt) && pt.source() == ci(s@),
        },
        match q.abstract_regex {
            None => abs is None,
            Some(s) => abs matches Some(pt) && pt.source() == ci(s@),
        },
    ensures
        b == passes_patterns(*q, *r),
{
    let t = match title {
        Some(pt) => pattern_is_match(pt, r.title.as_str()),
        None => true,
    };
    let a = match author {
        Some(pt) => any_author_matches(pt, r),
        None => true,
    };
    let s = match abs {
        Some(pt) => match &r.abstract_text {
            Some(text) => pattern_is_match(pt, text.as_str()),
            None => false,
        },
        None => true,
    };
    t && a && s
}

/// The first `n` candidates that pass the metadata filters of `q` and whose
/// verdict in `oks` is true, in order.
pub open spec fn kept(q: RfcQuery, cands: Seq<Rfc>, oks: Seq<bool>, n: int) -> Seq<Rfc>
    decreases n,
{
    if n <= 0 {
        seq![]
    } else if passes_metadata(q, cands[n - 1]) && oks[n - 1] {
        kept(q, cands, oks, n - 1).push(cands[n - 1])
    } else {
        kept(q, cands, oks, n - 1)
    }
}

/// With verdicts that are the pattern filters' own, the kept candidates are
/// those that pass every filter.
proof fn lemma_kept_is_filter(q: RfcQuery, cands: Seq<Rfc>, oks: Seq<bool>, n: int)
    requires
        0 <= n <= cands.len(),
        oks.len() == cands.len(),
        forall|i: int| 0 <= i < cands.len() ==> oks[i] == passes_patterns(q, #[trigger] cands[i]),
    ensures
        kept(q, cands, oks, n) == cands.take(n).filter(|r: Rfc| passes(q, r)),
    decreases n,
{
    let pred = |r: Rfc| passes(q, r);
    if n > 0 {
        lemma_kept_is_filter(q, cands, oks, n - 1);
        assert(cands.take(n) == cands.take(n - 1).push(cands[n - 1]));
        cands.take(n - 1).lemma_filter_push(cands[n - 1], pred);
    } else {
        assert(cands.take(0).filter(pred) =~= Seq::<Rfc>::empty());
    }
}

/// The candidates that pass the metadata filters of `q` and whose verdict in
/// `pattern_ok` (one per candidate: whether it passes the pattern filters)
/// is true, in order, up to the limit of `q`.
pub fn select_by_verdicts(q: &RfcQuery, candidates: Vec<Rfc>, pattern_ok: &Vec<bool>) -> (r: Vec<Rfc>)
    requires
        pattern_ok@.len() == candidates@.len(),
    ensures
        r@ == cap(kept(*q, candidates@, pattern_ok@, candidates@.len() as int), q.limit),
{
    let limit: usize = match q.limit {
        Some(n) => n,
        None => 0,
    };
    let ghost orig = candidates@;
    let ghost oks = pattern_ok@;
    let mut out: Vec<Rfc> = Vec::new();
    let mut k: usize = 0;
    let n = candidates.len();
    for c in it: candidates.into_iter()
        invariant
            it.seq() == orig,
            k == it.index(),
            n == orig.len(),
            oks == pattern_ok@,
            oks.len() == orig.len(),
            limit == match q.limit {
                Some(n) => n,
                None => 0usize,
            },
            out@ == cap(kept(*q, orig, oks, it.index() as int), q.limit),
            limit > 0 ==> out@.len() <= limit,
    {
        let ghost i = it.index() as int;
        let ghost f = kept(*q, orig, oks, i);
        let ghost f2 = kept(*q, orig, oks, i + 1);
        proof {
            assert(orig[i] == c);
            assert(f2 == if passes_metadata(*q, c) && oks[i] {
                f.push(c)
            } else {
                f
            });
        }
        if limit == 0 || out.len() < limit {
            let keep = matches_metadata(q, &c) && pattern_ok[k];
            if keep {
                out.push(c);
            }
            proof {
                if limit == 0 {
                    assert(cap(f, q.limit) == f);
                    assert(cap(f2, q.limit) == f2);
                } else {
                    assert(out@.len() <= limit);
                    if f.len() > limit {
                        assert(cap(f, q.limit) == f.take(limit as int));
                        assert(false);
                    }
                    assert(cap(f, q.limit) == f);
                    assert(f2.len() <= limit);
                    assert(cap(f2, q.limit) == f2);
                }
            }
        } else {
            proof {
                assert(out@.len() == limit);
                assert(f.len() >= limit);
                if passes_metadata(*q, c) && oks[i] {
                    assert(f.push(c).take(limit as int) == f.take(limit as int));
                    if f.len() == limit {
                        assert(f.take(limit as int) == f);
                    }
                }
            }
        }
        k = k + 1;
    }
    out
}

/// The candidates (in the order given, normally by RFC number) that pass
/// every filter of `q`, up to its limit. A pattern that does not compile
/// gives `IndexError::Regex`.
pub fn select_rfcs(q: &RfcQuery, candidates: Vec<Rfc>) -> (r: Result<Vec<Rfc>, IndexError>)
    ensures
        match r {
            Ok(v) => patterns_compile(*q) && v@ == selection(*q, candidates@),
            Err(e) => !patterns_compile(*q) && e is Regex,
        },
{
    let title = match compile_opt(&q.title_regex) {
        Ok(p) => p,
        Err(e) => return Err(e),
    };
    let author = match compile_opt(&q.author_regex) {
        Ok(p) => p,
        Err(e) => return Err(e),
    };
    let abs = match compile_opt(&q.abstract_regex) {
        Ok(p) => p,
        Err(e) => return Err(e),
    };
    let mut oks: Vec<bool> = Vec::new();
    for i in 0..candidates.len()
        invariant
            match q.title_regex {
                None => title is None,
                Some(s) => title matches Some(pt) && pt.source() == ci(s@),
            },
            match q.author_regex {
                None => author is None,
                Some(s) => author matches Some(pt) && pt.source() == ci(s@),
            },
            match q.abstract_regex {
                None => abs is None,
                Some(s) => abs matches Some(pt) && pt.source() == ci(s@),
            },
            oks@.len() == i,
            forall|j: int| 0 <= j < i ==> oks@[j] == passes_patterns(*q, #[trigger] candidates@[j]),
    {
        oks.push(matches_patterns(q, &candidates[i], &title, &author, &abs));
    }
    proof {
        lemma_kept_is_filter(*q, candidates@, oks@, candidates@.len() as int);
        assert(candidates@.take(candidates@.len() as int) == candidates@);
    }
    Ok(select_by_verdicts(q, candidates, &oks))
}

} // verus!

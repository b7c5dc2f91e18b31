//! The listing options of the command line and how they become a query.
use crate::body::{section_end, section_headers, section_lookup, section_matches, SectionRef};
use crate::model::{series_prefix, Body, SeriesKind};
use crate::outside::{debug_quoted, str_debug};
use crate::query::RfcQuery;
use crate::text::{
    chars_of, decimal, is_unicode_whitespace, lemma_leading_count, lemma_trailing_count,
    parse_u32_chars, parse_u32_spec, push_decimal, push_str, slice_chars, str_eq, string_from,
    string_of, trim, trim_bounds, trim_ws, upper_chars, upper_seq,
};
use vstd::string::StringSliceAdditionalSpecFns;
use vstd::prelude::*;

verus! {

/// The sub-series kind that `s` names: after trimming and ASCII
/// upper-casing, one of `BCP`, `STD`, `FYI`.
pub open spec fn series_kind_named(s: Seq<char>) -> Option<SeriesKind> {
    let u = upper_seq(trim_ws(s));
    if u == series_prefix(SeriesKind::Bcp) {
        Some(SeriesKind::Bcp)
    } else if u == series_prefix(SeriesKind::Std) {
        Some(SeriesKind::Std)
    } else if u == series_prefix(SeriesKind::Fyi) {
        Some(SeriesKind::Fyi)
    } else {
        None
    }
}

/// The message for a string that names no sub-series kind.
pub open spec fn unknown_series_message(s: Seq<char>) -> Seq<char> {
    "unknown series kind "@ + str_debug(upper_seq(trim_ws(s))) + "; expected bcp/std/fyi"@
}

/// Parse a sub-series kind given on the command line (`bcp`, `std`, `fyi`,
/// any case, surrounding whitespace ignored).
pub fn parse_series_kind(s: &str) -> (r: Result<SeriesKind, String>)
    ensures
        match series_kind_named(s@) {
            Some(k) => r == Ok::<SeriesKind, String>(k),
            None => r matches Err(m) && m@ == unknown_series_message(s@),
        },
{
    let t = trim(s);
    let u = upper_chars(&chars_of(t.as_str()));
    let upper = string_of(&u, 0, u.len());
    assert(u@.subrange(0, u@.len() as int) == u@);
    assert(upper@ == upper_seq(trim_ws(s@)));
    proof {
        reveal_strlit("BCP");
        reveal_strlit("STD");
        reveal_strlit("FYI");
        assert("BCP"@ =~= series_prefix(SeriesKind::Bcp));
        assert("STD"@ =~= series_prefix(SeriesKind::Std));
        assert("FYI"@ =~= series_prefix(SeriesKind::Fyi));
    }
    if str_eq(upper.as_str(), "BCP") {
        Ok(SeriesKind::Bcp)
    } else if str_eq(upper.as_str(), "STD") {
        Ok(SeriesKind::Std)
    } else if str_eq(upper.as_str(), "FYI") {
        Ok(SeriesKind::Fyi)
    } else {
        let mut m = string_from("unknown series kind ");
        let q = debug_quoted(upper.as_str());
        m.append(q.as_str());
        m.append("; expected bcp/std/fyi");
        Err(m)
    }
}

/// The prefix of every sub-series kind names that kind again.
pub proof fn law_series_kind_round_trip(k: SeriesKind)
    ensures
        series_kind_named(series_prefix(k)) == Some(k),
{
    let s = series_prefix(k);
    let p = |c: char| is_unicode_whitespace(c);
    lemma_leading_count(s, p, 0);
    lemma_trailing_count(s, p, s.len() as int);
    assert(trim_ws(s) =~= s);
    assert(upper_seq(s) =~= s);
}

/// The filter options shared by the listing and bulk-fetch commands. They
/// map directly onto [`RfcQuery`]; every filter composes with logical AND.
#[derive(Debug, Clone)]
pub struct ListFilters {
    /// Case-insensitive regex applied to the RFC title.
    pub title_regex: Option<String>,
    /// Inclusive lower bound on publication year.
    pub since: Option<i32>,
    /// Inclusive upper bound on publication year.
    pub until: Option<i32>,
    /// Case-insensitive substring match against the current status.
    pub status: Option<String>,
    /// Restrict to RFCs whose XML source is available.
    pub xml_only: bool,
    /// Working-group acronym; case-insensitive exact match.
    pub wg: Option<String>,
    /// IETF area code; case-insensitive exact match.
    pub area: Option<String>,
    /// Publication stream; case-insensitive exact match.
    pub stream: Option<String>,
    /// Editor-assigned keyword; case-insensitive exact match.
    pub keyword: Option<String>,
    /// Case-insensitive regex applied to any author name.
    pub author_regex: Option<String>,
    /// Case-insensitive regex applied to the abstract text.
    pub abstract_regex: Option<String>,
    /// Sub-series kind (`bcp`, `std`, `fyi`) the RFC must belong to.
    pub series: Option<String>,
    /// Exclude RFCs that have been obsoleted by another RFC.
    pub not_obsoleted: bool,
}

/// The query that the options `f` stand for, with the sub-series kind
/// already parsed.
pub open spec fn query_of(f: ListFilters, series: Option<SeriesKind>, limit: Option<usize>) -> RfcQuery {
    RfcQuery {
        title_regex: f.title_regex,
        min_year: f.since,
        max_year: f.until,
        status_contains: f.status,
        xml_only: f.xml_only,
        wg: f.wg,
        area: f.area,
        stream: f.stream,
        keyword: f.keyword,
        author_regex: f.author_regex,
        abstract_regex: f.abstract_regex,
        series,
        not_obsoleted: f.not_obsoleted,
        limit,
    }
}

impl ListFilters {
    /// The query these options describe; an unknown sub-series kind is
    /// refused.
    pub fn into_query(self, limit: Option<usize>) -> (r: Result<RfcQuery, String>)
        ensures
            match self.series {
                None => r == Ok::<RfcQuery, String>(query_of(self, None, limit)),
                Some(s) => match series_kind_named(s@) {
                    Some(k) => r == Ok::<RfcQuery, String>(query_of(self, Some(k), limit)),
                    None => r matches Err(m) && m@ == unknown_series_message(s@),
                },
            },
    {
        let ghost f = self;
        let series = match &self.series {
            None => None,
            Some(s) => match parse_series_kind(s.as_str()) {
                Ok(k) => Some(k),
                Err(m) => {
                    return Err(m);
                },
            },
        };
        Ok(RfcQuery {
            title_regex: self.title_regex,
            min_year: self.since,
            max_year: self.until,
            status_contains: self.status,
            xml_only: self.xml_only,
            wg: self.wg,
            area: self.area,
            stream: self.stream,
            keyword: self.keyword,
            author_regex: self.author_regex,
            abstract_regex: self.abstract_regex,
            series,
            not_obsoleted: self.not_obsoleted,
            limit,
        })
    }
}

// ---------------------------------------------------------------------------
// What an `info` argument names.
// ---------------------------------------------------------------------------

/// What the argument of `info` names.
#[derive(Debug, Clone)]
pub enum InfoTarget {
    /// A sub-series, by the id as given (trimmed).
    SubSeries(String),
    /// An RFC, by number.
    Rfc(u32),
}

/// `s` begins with `p`.
pub open spec fn starts_with(s: Seq<char>, p: Seq<char>) -> bool {
    s.len() >= p.len() && s.subrange(0, p.len() as int) == p
}

/// The digits part of an RFC id: after upper-casing, an optional `RFC`
/// prefix dropped, then trimmed.
pub open spec fn rfc_digits(u: Seq<char>) -> Seq<char> {
    trim_ws(
        if starts_with(u, "RFC"@) {
            u.subrange(3, u.len() as int)
        } else {
            u
        },
    )
}

/// `id` names a sub-series: trimmed and upper-cased, it starts with `BCP`,
/// `STD` or `FYI`.
pub open spec fn names_sub_series(id: Seq<char>) -> bool {
    let u = upper_seq(trim_ws(id));
    starts_with(u, "BCP"@) || starts_with(u, "STD"@) || starts_with(u, "FYI"@)
}

/// The RFC number that `id` gives, optionally after an `RFC` prefix.
pub open spec fn info_rfc_number(id: Seq<char>) -> Option<u32> {
    parse_u32_spec(rfc_digits(upper_seq(trim_ws(id))))
}

/// The message for an `info` argument that names nothing.
pub open spec fn bad_info_id_message(id: Seq<char>) -> Seq<char> {
    "'"@ + id + "' is not an RFC number or sub-series id"@
}

fn starts_with_lit(v: &Vec<char>, lit: &str) -> (r: bool)
    ensures
        r == starts_with(v@, lit@),
{
    let p = chars_of(lit);
    if v.len() < p.len() {
        return false;
    }
    let mut i: usize = 0;
    while i < p.len()
        invariant
            p@ == lit@,
            p@.len() <= v@.len(),
            i <= p@.len(),
            forall|j: int| 0 <= j < i ==> v@[j] == p@[j],
        decreases p@.len() - i,
    {
        if v[i] != p[i] {
            assert(v@.subrange(0, p@.len() as int)[i as int] != p@[i as int]);
            return false;
        }
        i = i + 1;
    }
    assert(v@.subrange(0, p@.len() as int) =~= p@);
    true
}

/// Work out what the argument of `info` names.
pub fn info_target(id: &str) -> (r: Result<InfoTarget, String>)
    ensures
        names_sub_series(id@) ==> (r matches Ok(InfoTarget::SubSeries(x)) && x@ == trim_ws(id@)),
        !names_sub_series(id@) ==> match info_rfc_number(id@) {
            Some(n) => r matches Ok(InfoTarget::Rfc(m)) && m == n,
            None => r matches Err(m) && m@ == bad_info_id_message(id@),
        },
{
    let t = trim(id);
    let u = upper_chars(&chars_of(t.as_str()));
    if starts_with_lit(&u, "BCP") || starts_with_lit(&u, "STD") || starts_with_lit(&u, "FYI") {
        return Ok(InfoTarget::SubSeries(t));
    }
    let rest = if starts_with_lit(&u, "RFC") {
        proof {
            reveal_strlit("RFC");
        }
        slice_chars(&u, 3, u.len())
    } else {
        slice_chars(&u, 0, u.len())
    };
    assert(u@.subrange(0, u@.len() as int) =~= u@);
    let (a, b) = trim_bounds(&rest);
    assert(rest@.subrange(a as int, b as int) == trim_ws(rest@));
    match parse_u32_chars(&rest, a, b) {
        Some(n) => Ok(InfoTarget::Rfc(n)),
        None => {
            let mut m = string_from("'");
            push_str(&mut m, id);
            push_str(&mut m, "' is not an RFC number or sub-series id");
            Err(m)
        },
    }
}

// ---------------------------------------------------------------------------
// What `get` prints of a body.
// ---------------------------------------------------------------------------

/// What `get` prints of a body: a list of sections, or a text.
pub enum BodyView<'a> {
    /// The sections, to be listed as number and title.
    Sections(Vec<SectionRef<'a>>),
    /// A text to print as it is.
    Text(&'a str),
}

/// The message for a body without an XML source.
pub open spec fn no_xml_message(n: u32) -> Seq<char> {
    "RFC "@ + decimal(n as nat) + " has no XML source"@
}

/// The message for a section number that the body does not have.
pub open spec fn no_section_message(num: Seq<char>, n: u32) -> Seq<char> {
    "section "@ + num + " not found in RFC "@ + decimal(n as nat) + " (try `rfc get "@ + decimal(
        n as nat,
    ) + " --sections`)"@
}

/// Choose what to print of `body`: its section list when `list_sections`;
/// else its XML source when `want_xml` (refused when it has none); else the
/// section numbered `section` when one is asked for (refused when there is
/// no such section); else the rendered text.
pub fn body_view<'a>(body: &'a Body, section: Option<&str>, list_sections: bool, want_xml: bool) -> (r:
    Result<BodyView<'a>, String>)
    ensures
        list_sections ==> (r matches Ok(BodyView::Sections(v)) && v@.len() == section_headers(
            body.text_bytes(),
        ).len() && forall|i: int|
            0 <= i < v@.len() ==> section_matches(
                #[trigger] v@[i],
                body.text_bytes(),
                section_headers(body.text_bytes())[i],
                section_end(body.text_bytes(), section_headers(body.text_bytes()), i),
            )),
        !list_sections && want_xml ==> match body.xml {
            Some(x) => r matches Ok(BodyView::Text(t)) && t@ == x@,
            None => r matches Err(m) && m@ == no_xml_message(body.number),
        },
        !list_sections && !want_xml ==> match section {
            Some(num) => match section_lookup(body.text_bytes(), num.spec_bytes()) {
                Some((i, end)) => r matches Ok(BodyView::Text(t)) && t.spec_bytes()
                    == body.text_bytes().subrange(section_headers(body.text_bytes())[i].0, end),
                None => r matches Err(m) && m@ == no_section_message(num@, body.number),
            },
            None => r matches Ok(BodyView::Text(t)) && t@ == body.text@,
        },
{
    if list_sections {
        return Ok(BodyView::Sections(body.sections()));
    }
    if want_xml {
        return match &body.xml {
            Some(x) => Ok(BodyView::Text(x.as_str())),
            None => {
                let mut m = string_from("RFC ");
                push_decimal(&mut m, body.number as u64);
                push_str(&mut m, " has no XML source");
                Err(m)
            },
        };
    }
    match section {
        Some(num) => match body.section(num) {
            Some(s) => Ok(BodyView::Text(s.text)),
            None => {
                let mut m = string_from("section ");
                push_str(&mut m, num);
                push_str(&mut m, " not found in RFC ");
                push_decimal(&mut m, body.number as u64);
                push_str(&mut m, " (try `rfc get ");
                push_decimal(&mut m, body.number as u64);
                push_str(&mut m, " --sections`)");
                Err(m)
            },
        },
        None => Ok(BodyView::Text(body.text.as_str())),
    }
}

// ---------------------------------------------------------------------------
// Bulk fetching.
// ---------------------------------------------------------------------------

/// The tally of a bulk fetch: bodies fetched, RFCs skipped because their
/// body was cached, and failures with their messages, in order.
pub struct FetchTally {
    /// Bodies fetched.
    pub fetched: usize,
    /// RFCs skipped because their body is cached.
    pub skipped: usize,
    /// RFC number and message of each failed fetch, in order.
    pub failed: Vec<(u32, String)>,
}

/// Whether a bulk fetch fetches an RFC: always when overwriting, otherwise
/// only when its body is not cached.
pub fn should_fetch(overwrite: bool, cached: bool) -> (r: bool)
    ensures
        r == (overwrite || !cached),
{
    overwrite || !cached
}

impl FetchTally {
    /// Nothing done yet.
    pub fn new() -> (t: FetchTally)
        ensures
            t.fetched == 0 && t.skipped == 0 && t.failed@.len() == 0,
    {
        FetchTally { fetched: 0, skipped: 0, failed: Vec::new() }
    }

    /// One RFC skipped.
    pub fn skip(&mut self)
        requires
            old(self).skipped < usize::MAX,
        ensures
            final(self).skipped == old(self).skipped + 1,
            final(self).fetched == old(self).fetched,
            final(self).failed@ == old(self).failed@,
    {
        self.skipped = self.skipped + 1;
    }

    /// One body fetched.
    pub fn fetched_one(&mut self)
        requires
            old(self).fetched < usize::MAX,
        ensures
            final(self).fetched == old(self).fetched + 1,
            final(self).skipped == old(self).skipped,
            final(self).failed@ == old(self).failed@,
    {
        self.fetched = self.fetched + 1;
    }

    /// One fetch failed with `message`; answers whether the run goes on,
    /// which it does unless it stops on the first error.
    pub fn failed_one(&mut self, number: u32, message: String, stop_on_error: bool) -> (go_on: bool)
        ensures
            final(self).failed@ == old(self).failed@.push((number, message)),
            final(self).fetched == old(self).fetched,
            final(self).skipped == old(self).skipped,
            go_on == !stop_on_error,
    {
        self.failed.push((number, message));
        !stop_on_error
    }

    /// The summary line.
    pub fn summary(&self) -> (l: String)
        ensures
            l@ == "Fetched: "@ + decimal(self.fetched as nat) + "  Skipped: "@ + decimal(
                self.skipped as nat,
            ) + "  Failed: "@ + decimal(self.failed@.len()),
    {
        let mut l = string_from("Fetched: ");
        push_decimal(&mut l, self.fetched as u64);
        push_str(&mut l, "  Skipped: ");
        push_decimal(&mut l, self.skipped as u64);
        push_str(&mut l, "  Failed: ");
        push_decimal(&mut l, self.failed.len() as u64);
        l
    }

    /// One line per failure: the RFC and its message.
    pub fn failure_lines(&self) -> (v: Vec<String>)
        ensures
            v@.len() == self.failed@.len(),
            forall|i: int|
                0 <= i < v@.len() ==> (#[trigger] v@[i])@ == "  RFC"@ + decimal(
                    self.failed@[i].0 as nat,
                ) + ": "@ + self.failed@[i].1@,
    {
        let mut v: Vec<String> = Vec::new();
        for i in 0..self.failed.len()
            invariant
                v@.len() == i,
                forall|j: int|
                    0 <= j < i ==> (#[trigger] v@[j])@ == "  RFC"@ + decimal(
                        self.failed@[j].0 as nat,
                    ) + ": "@ + self.failed@[j].1@,
        {
            let mut l = string_from("  RFC");
            push_decimal(&mut l, self.failed[i].0 as u64);
            push_str(&mut l, ": ");
            push_str(&mut l, self.failed[i].1.as_str());
            v.push(l);
        }
        v
    }
}

} // verus!

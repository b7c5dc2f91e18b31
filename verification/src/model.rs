//! Records held by the index: RFC metadata, sub-series, errata, bodies, and
//! the query and statistics types around them.
use crate::body::{find_section, scan_sections, section_headers, section_lookup, section_end, section_matches, SectionRef};
use crate::text::{
    chars_of, eq_ignore_ascii_case, eq_ignore_case, is_unicode_whitespace, lemma_leading_count,
    lemma_trailing_count, lower_chars, lower_seq, slice_chars, trim_bounds, trim_ws,
};
use vstd::prelude::*;
use vstd::string::StringSliceAdditionalSpecFns;

verus! {

/// View of an optional string as an optional character sequence.
pub open spec fn opt_view(o: Option<String>) -> Option<Seq<char>> {
    match o {
        Some(s) => Some(s@),
        None => None,
    }
}

/// View of an optional borrowed string as an optional character sequence.
pub open spec fn opt_str_view(o: Option<&str>) -> Option<Seq<char>> {
    match o {
        Some(s) => Some(s@),
        None => None,
    }
}

/// A copy of an optional string.
pub fn copy_opt(o: &Option<String>) -> (r: Option<String>)
    ensures
        opt_view(r) == opt_view(*o),
{
    match o {
        Some(s) => Some(s.clone()),
        None => None,
    }
}

/// Borrow the contents of an optional string.
pub fn opt_as_str(o: &Option<String>) -> (r: Option<&str>)
    ensures
        opt_str_view(r) == opt_view(*o),
{
    match o {
        Some(s) => Some(s.as_str()),
        None => None,
    }
}

/// One of the formats `fs` is exactly `XML`.
pub open spec fn formats_have_xml(fs: Seq<Seq<char>>) -> bool {
    fs.contains("XML"@)
}

/// The formats of `r` include `XML`.
pub open spec fn rfc_has_xml(r: Rfc) -> bool {
    formats_have_xml(r.formats@.map_values(|s: String| s@))
}

/// Whether one of the formats `fs` is exactly `XML`.
pub fn lists_xml(fs: &Vec<String>) -> (r: bool)
    ensures
        r == formats_have_xml(fs@.map_values(|s: String| s@)),
{
    let ghost fv = fs@.map_values(|s: String| s@);
    for i in 0..fs.len()
        invariant
            fv == fs@.map_values(|s: String| s@),
            forall|j: int| 0 <= j < i ==> #[trigger] fv[j] != "XML"@,
    {
        if crate::text::str_eq(fs[i].as_str(), "XML") {
            assert(fv[i as int] == "XML"@);
            return true;
        }
    }
    false
}

/// Metadata for a single RFC, as published in `rfc-index.xml`.
#[derive(Debug, Clone)]
pub struct Rfc {
    /// RFC number.
    pub number: u32,
    /// Title as published.
    pub title: String,
    /// Abstract paragraphs joined with blank lines.
    pub abstract_text: Option<String>,
    /// Publication date.
    pub date: Option<Date>,
    /// Page count of the rendered text.
    pub page_count: Option<u32>,
    /// Source Internet-Draft name.
    pub draft: Option<String>,
    /// Current standardization status.
    pub current_status: Option<String>,
    /// Status at original publication.
    pub publication_status: Option<String>,
    /// Publication stream.
    pub stream: Option<String>,
    /// IETF area code.
    pub area: Option<String>,
    /// Working-group acronym.
    pub wg: Option<String>,
    /// DOI string.
    pub doi: Option<String>,
    /// Errata are published for this RFC.
    pub has_errata: bool,
    /// Available formats.
    pub formats: Vec<String>,
    /// Authors in publication order.
    pub authors: Vec<Author>,
    /// Editor-assigned keywords.
    pub keywords: Vec<String>,
    /// RFCs this one obsoletes.
    pub obsoletes: Vec<u32>,
    /// RFCs that obsolete this one.
    pub obsoleted_by: Vec<u32>,
    /// RFCs this one updates.
    pub updates: Vec<u32>,
    /// RFCs that update this one.
    pub updated_by: Vec<u32>,
    /// Sub-series this RFC belongs to.
    pub sub_series: Vec<SubSeriesRef>,
}

impl Rfc {
    /// RFC number (e.g. `9000`).
    pub fn number(&self) -> (r: u32)
        ensures
            r == self.number,
    {
        self.number
    }

    /// Title as published.
    pub fn title(&self) -> (r: &str)
        ensures
            r@ == self.title@,
    {
        self.title.as_str()
    }

    /// Abstract text (paragraphs joined with blank lines), if published.
    pub fn abstract_text(&self) -> (r: Option<&str>)
        ensures
            opt_str_view(r) == opt_view(self.abstract_text),
    {
        opt_as_str(&self.abstract_text)
    }

    /// Publication date (year, optional month).
    pub fn date(&self) -> (r: Option<Date>)
        ensures
            r == self.date,
    {
        self.date
    }

    /// Page count of the rendered text version, if published.
    pub fn page_count(&self) -> (r: Option<u32>)
        ensures
            r == self.page_count,
    {
        self.page_count
    }

    /// Source Internet-Draft name (e.g. `draft-ietf-quic-transport-34`).
    pub fn draft(&self) -> (r: Option<&str>)
        ensures
            opt_str_view(r) == opt_view(self.draft),
    {
        opt_as_str(&self.draft)
    }

    /// Current standardization status (`PROPOSED STANDARD`, `INFORMATIONAL`, ...).
    pub fn current_status(&self) -> (r: Option<&str>)
        ensures
            opt_str_view(r) == opt_view(self.current_status),
    {
        opt_as_str(&self.current_status)
    }

    /// Status at original publication.
    pub fn publication_status(&self) -> (r: Option<&str>)
        ensures
            opt_str_view(r) == opt_view(self.publication_status),
    {
        opt_as_str(&self.publication_status)
    }

    /// IETF stream the document came through.
    pub fn stream(&self) -> (r: Option<&str>)
        ensures
            opt_str_view(r) == opt_view(self.stream),
    {
        opt_as_str(&self.stream)
    }

    /// IETF area code (e.g. `sec`, `wit`).
    pub fn area(&self) -> (r: Option<&str>)
        ensures
            opt_str_view(r) == opt_view(self.area),
    {
        opt_as_str(&self.area)
    }

    /// Working-group acronym (e.g. `tls`, `quic`).
    pub fn wg(&self) -> (r: Option<&str>)
        ensures
            opt_str_view(r) == opt_view(self.wg),
    {
        opt_as_str(&self.wg)
    }

    /// DOI string (e.g. `10.17487/RFC9000`).
    pub fn doi(&self) -> (r: Option<&str>)
        ensures
            opt_str_view(r) == opt_view(self.doi),
    {
        opt_as_str(&self.doi)
    }

    /// `true` if rfc-editor.org publishes errata for this RFC.
    pub fn has_errata(&self) -> (r: bool)
        ensures
            r == self.has_errata,
    {
        self.has_errata
    }

    /// Available source/render formats (e.g. `["HTML", "TEXT", "PDF", "XML"]`).
    pub fn formats(&self) -> (r: &[String])
        ensures
            r@ == self.formats@,
    {
        self.formats.as_slice()
    }

    /// `true` if the formats contain `"XML"`.
    pub fn has_xml(&self) -> (r: bool)
        ensures
            r == rfc_has_xml(*self),
    {
        lists_xml(&self.formats)
    }

    /// Authors (and editors) in publication order.
    pub fn authors(&self) -> (r: &[Author])
        ensures
            r@ == self.authors@,
    {
        self.authors.as_slice()
    }

    /// Editor-assigned keywords/tags.
    pub fn keywords(&self) -> (r: &[String])
        ensures
            r@ == self.keywords@,
    {
        self.keywords.as_slice()
    }

    /// RFC numbers this document obsoletes.
    pub fn obsoletes(&self) -> (r: &[u32])
        ensures
            r@ == self.obsoletes@,
    {
        self.obsoletes.as_slice()
    }

    /// RFC numbers that obsolete this document.
    pub fn obsoleted_by(&self) -> (r: &[u32])
        ensures
            r@ == self.obsoleted_by@,
    {
        self.obsoleted_by.as_slice()
    }

    /// RFC numbers this document updates (without obsoleting).
    pub fn updates(&self) -> (r: &[u32])
        ensures
            r@ == self.updates@,
    {
        self.updates.as_slice()
    }

    /// RFC numbers that update this document.
    pub fn updated_by(&self) -> (r: &[u32])
        ensures
            r@ == self.updated_by@,
    {
        self.updated_by.as_slice()
    }

    /// BCP/STD/FYI sub-series this RFC is a member of, if any.
    pub fn sub_series(&self) -> (r: &[SubSeriesRef])
        ensures
            r@ == self.sub_series@,
    {
        self.sub_series.as_slice()
    }
}

/// Publication date for an RFC. Granularity is month.
#[derive(Debug, Clone, Copy)]
pub struct Date {
    /// Four-digit publication year.
    pub year: i32,
    /// Month number 1-12 if known, else `None`.
    pub month: Option<u8>,
}

/// One author or editor of an RFC.
#[derive(Debug, Clone)]
pub struct Author {
    /// Author name as printed.
    pub name: String,
    /// Role string when present (typically `"Editor"`).
    pub role: Option<String>,
}

impl Author {
    /// Author name as printed (e.g. `J. Iyengar`).
    pub fn name(&self) -> (r: &str)
        ensures
            r@ == self.name@,
    {
        self.name.as_str()
    }

    /// Role string when present (typically `"Editor"`); `None` for plain authors.
    pub fn role(&self) -> (r: Option<&str>)
        ensures
            opt_str_view(r) == opt_view(self.role),
    {
        opt_as_str(&self.role)
    }
}

/// One of the three RFC sub-series: BCP, STD, or FYI.
#[derive(Debug, Clone, Copy, PartialEq, Eq, Structural)]
pub enum SeriesKind {
    /// Best Current Practice.
    Bcp,
    /// Internet Standard.
    Std,
    /// For Your Information.
    Fyi,
}

/// The three-letter prefix of a sub-series kind.
pub open spec fn series_prefix(k: SeriesKind) -> Seq<char> {
    match k {
        SeriesKind::Bcp => seq!['B', 'C', 'P'],
        SeriesKind::Std => seq!['S', 'T', 'D'],
        SeriesKind::Fyi => seq!['F', 'Y', 'I'],
    }
}

impl SeriesKind {
    /// Three-letter prefix used in canonical doc-ids: `"BCP"`, `"STD"`, `"FYI"`.
    pub fn as_str(self) -> (r: &'static str)
        ensures
            r@ == series_prefix(self),
    {
        proof {
            reveal_strlit("BCP");
            reveal_strlit("STD");
            reveal_strlit("FYI");
        }
        match self {
            SeriesKind::Bcp => "BCP",
            SeriesKind::Std => "STD",
            SeriesKind::Fyi => "FYI",
        }
    }
}

/// A BCP/STD/FYI sub-series record with its constituent RFC numbers.
#[derive(Debug, Clone)]
pub struct SubSeries {
    /// Canonical, zero-padded doc-id.
    pub doc_id: String,
    /// Which sub-series this entry belongs to.
    pub series: SeriesKind,
    /// Numeric portion of the doc-id.
    pub number: u32,
    /// Optional human-readable title.
    pub title: Option<String>,
    /// Member RFC numbers.
    pub members: Vec<u32>,
}

impl SubSeries {
    /// Canonical, zero-padded doc-id (e.g. `"BCP0014"`).
    pub fn doc_id(&self) -> (r: &str)
        ensures
            r@ == self.doc_id@,
    {
        self.doc_id.as_str()
    }

    /// Which sub-series (BCP/STD/FYI) this entry belongs to.
    pub fn series(&self) -> (r: SeriesKind)
        ensures
            r == self.series,
    {
        self.series
    }

    /// Numeric portion of the doc-id (e.g. `14` for BCP14).
    pub fn number(&self) -> (r: u32)
        ensures
            r == self.number,
    {
        self.number
    }

    /// Optional human-readable sub-series title.
    pub fn title(&self) -> (r: Option<&str>)
        ensures
            opt_str_view(r) == opt_view(self.title),
    {
        opt_as_str(&self.title)
    }

    /// RFC numbers that make up this sub-series.
    pub fn members(&self) -> (r: &[u32])
        ensures
            r@ == self.members@,
    {
        self.members.as_slice()
    }
}

/// Lightweight back-reference from an [`Rfc`] to a sub-series it belongs to.
#[derive(Debug, Clone)]
pub struct SubSeriesRef {
    /// Canonical doc-id of the sub-series.
    pub doc_id: String,
    /// Optional sub-series title.
    pub title: Option<String>,
}

impl SubSeriesRef {
    /// Canonical doc-id of the sub-series (e.g. `"BCP0014"`).
    pub fn doc_id(&self) -> (r: &str)
        ensures
            r@ == self.doc_id@,
    {
        self.doc_id.as_str()
    }

    /// Optional sub-series title.
    pub fn title(&self) -> (r: Option<&str>)
        ensures
            opt_str_view(r) == opt_view(self.title),
    {
        opt_as_str(&self.title)
    }
}

/// One of the discoverable facets of the index.
#[derive(Debug, Clone, Copy, PartialEq, Eq, Structural)]
pub enum FacetKind {
    /// IETF working-group acronym (e.g. `pkix`, `tls`).
    WorkingGroup,
    /// IETF area code (e.g. `sec`, `art`).
    Area,
    /// Publication stream.
    Stream,
    /// Editor-assigned keyword.
    Keyword,
    /// Current standardization status.
    Status,
}

/// The slug of a facet kind.
pub open spec fn facet_slug(k: FacetKind) -> Seq<char> {
    match k {
        FacetKind::WorkingGroup => "wg"@,
        FacetKind::Area => "area"@,
        FacetKind::Stream => "stream"@,
        FacetKind::Keyword => "keyword"@,
        FacetKind::Status => "status"@,
    }
}

/// The facet kind named by an already trimmed and lower-cased slug.
pub open spec fn facet_for_slug(s: Seq<char>) -> Option<FacetKind> {
    if s == "wg"@ || s == "working-group"@ || s == "working_group"@ || s
        == "workinggroup"@ {
        Some(FacetKind::WorkingGroup)
    } else if s == "area"@ {
        Some(FacetKind::Area)
    } else if s == "stream"@ {
        Some(FacetKind::Stream)
    } else if s == "keyword"@ || s == "kw"@ || s
        == "keywords"@ {
        Some(FacetKind::Keyword)
    } else if s == "status"@ {
        Some(FacetKind::Status)
    } else {
        None
    }
}

/// `v` holds exactly the characters of the literal `lit`.
fn chars_equal(v: &Vec<char>, lit: &str) -> (r: bool)
    ensures
        r == (v@ == lit@),
{
    let w = chars_of(lit);
    if v.len() != w.len() {
        return false;
    }
    let mut i: usize = 0;
    while i < v.len()
        invariant
            w@ == lit@,
            v@.len() == w@.len(),
            i <= v@.len(),
            forall|j: int| 0 <= j < i ==> v@[j] == w@[j],
        decreases v@.len() - i,
    {
        if v[i] != w[i] {
            return false;
        }
        i = i + 1;
    }
    assert(v@ =~= w@);
    true
}

impl FacetKind {
    /// Lower-case slug used by the CLI / MCP surface (`"wg"`, `"area"`,
    /// `"stream"`, `"keyword"`, `"status"`).
    pub fn as_slug(self) -> (r: &'static str)
        ensures
            r@ == facet_slug(self),
    {
        proof {
            reveal_strlit("wg");
            reveal_strlit("area");
            reveal_strlit("stream");
            reveal_strlit("keyword");
            reveal_strlit("status");
        }
        match self {
            FacetKind::WorkingGroup => "wg",
            FacetKind::Area => "area",
            FacetKind::Stream => "stream",
            FacetKind::Keyword => "keyword",
            FacetKind::Status => "status",
        }
    }

    /// Parse a facet slug. Accepts `wg` / `working-group`, `area`, `stream`,
    /// `keyword` / `kw`, `status`, after trimming and ignoring ASCII case.
    /// Returns `None` for unrecognised input.
    pub fn parse(s: &str) -> (r: Option<FacetKind>)
        ensures
            r == facet_for_slug(lower_seq(trim_ws(s@))),
    {
        proof {
            reveal_strlit("wg");
            reveal_strlit("area");
            reveal_strlit("stream");
            reveal_strlit("keyword");
            reveal_strlit("kw");
            reveal_strlit("status");
        }
        let v = chars_of(s);
        let (a, b) = trim_bounds(&v);
        let t = lower_chars(&slice_chars(&v, a, b));
        if chars_equal(&t, "wg") || chars_equal(&t, "working-group") || chars_equal(
            &t,
            "working_group",
        ) || chars_equal(&t, "workinggroup") {
            Some(FacetKind::WorkingGroup)
        } else if chars_equal(&t, "area") {
            Some(FacetKind::Area)
        } else if chars_equal(&t, "stream") {
            Some(FacetKind::Stream)
        } else if chars_equal(&t, "keyword") || chars_equal(&t, "kw") || chars_equal(
            &t,
            "keywords",
        ) {
            Some(FacetKind::Keyword)
        } else if chars_equal(&t, "status") {
            Some(FacetKind::Status)
        } else {
            None
        }
    }
}

/// Parsing the slug of any facet kind gives that kind back.
pub proof fn law_facet_slug_round_trip(k: FacetKind)
    ensures
        facet_for_slug(lower_seq(trim_ws(facet_slug(k)))) == Some(k),
{
    reveal_strlit("wg");
    reveal_strlit("area");
    reveal_strlit("stream");
    reveal_strlit("keyword");
    reveal_strlit("kw");
    reveal_strlit("status");
    reveal_strlit("working-group");
    reveal_strlit("working_group");
    reveal_strlit("workinggroup");
    reveal_strlit("keywords");
    let s = facet_slug(k);
    let p = |c: char| is_unicode_whitespace(c);
    lemma_leading_count(s, p, 0);
    lemma_trailing_count(s, p, s.len() as int);
    assert(trim_ws(s) =~= s);
    assert(lower_seq(s) =~= s);
}

/// One bucket of a facet listing: a distinct value and the number of RFCs
/// carrying it.
#[derive(Debug, Clone)]
pub struct Facet {
    /// The facet value as published.
    pub value: String,
    /// Number of RFCs that carry this value.
    pub count: u32,
}

impl Facet {
    /// The facet value as published (e.g. `"pkix"`, `"sec"`, `"IETF"`).
    pub fn value(&self) -> (r: &str)
        ensures
            r@ == self.value@,
    {
        self.value.as_str()
    }

    /// Number of RFCs that carry this facet value.
    pub fn count(&self) -> (r: u32)
        ensures
            r == self.count,
    {
        self.count
    }
}

/// Aggregate counts of records currently in the local database.
#[derive(Debug, Clone, Copy)]
pub struct Counts {
    /// Total RFCs in the metadata index.
    pub rfcs: u32,
    /// Total BCP entries.
    pub bcps: u32,
    /// Total STD entries.
    pub stds: u32,
    /// Total FYI entries.
    pub fyis: u32,
    /// Number of RFC bodies currently cached locally.
    pub bodies_cached: u32,
}

/// Result of syncing the metadata index.
#[derive(Debug, Clone, Copy)]
pub struct SyncStats {
    /// Number of RFC entries ingested or updated.
    pub rfcs: usize,
    /// Number of BCP entries ingested or updated.
    pub bcps: usize,
    /// Number of STD entries ingested or updated.
    pub stds: usize,
    /// Number of FYI entries ingested or updated.
    pub fyis: usize,
    /// Bytes downloaded from the index URL (zero on `not_modified`).
    pub bytes: usize,
    /// `true` if validators matched and ingest was skipped.
    pub not_modified: bool,
}

impl SyncStats {
    /// Statistics of a sync that found the index unchanged.
    pub fn unchanged() -> (r: SyncStats)
        ensures
            r.not_modified,
            r.rfcs == 0 && r.bcps == 0 && r.stds == 0 && r.fyis == 0 && r.bytes == 0,
    {
        SyncStats { rfcs: 0, bcps: 0, stds: 0, fyis: 0, bytes: 0, not_modified: true }
    }
}

/// Result of syncing the errata.
#[derive(Debug, Clone, Copy)]
pub struct ErrataSyncStats {
    /// Number of errata records ingested.
    pub errata: usize,
    /// Bytes downloaded from the errata URL (zero on `not_modified`).
    pub bytes: usize,
    /// `true` if validators matched and ingest was skipped.
    pub not_modified: bool,
}

impl ErrataSyncStats {
    /// Statistics of a sync that found the errata unchanged.
    pub fn unchanged() -> (r: ErrataSyncStats)
        ensures
            r.not_modified,
            r.errata == 0 && r.bytes == 0,
    {
        ErrataSyncStats { errata: 0, bytes: 0, not_modified: true }
    }
}

/// One published erratum for an RFC.
#[derive(Debug, Clone)]
pub struct Erratum {
    /// Global errata ID.
    pub eid: u32,
    /// RFC number this erratum applies to.
    pub rfc: u32,
    /// Status as published.
    pub status: String,
    /// `"Technical"` or `"Editorial"`.
    pub kind: String,
    /// Section addressed.
    pub section: Option<String>,
    /// Original text.
    pub orig_text: Option<String>,
    /// Proposed corrected text.
    pub correct_text: Option<String>,
    /// Free-form notes.
    pub notes: Option<String>,
    /// Submission date.
    pub submitted: Option<String>,
    /// Last-update timestamp.
    pub updated: Option<String>,
    /// Submitter name.
    pub submitter: Option<String>,
    /// Verifier name.
    pub verifier: Option<String>,
}

impl Erratum {
    /// Global errata ID (the `EID` shown on rfc-editor.org).
    pub fn eid(&self) -> (r: u32)
        ensures
            r == self.eid,
    {
        self.eid
    }

    /// RFC number this erratum applies to.
    pub fn rfc(&self) -> (r: u32)
        ensures
            r == self.rfc,
    {
        self.rfc
    }

    /// One of `"Verified"`, `"Held for Document Update"`, `"Reported"`, `"Rejected"`.
    pub fn status(&self) -> (r: &str)
        ensures
            r@ == self.status@,
    {
        self.status.as_str()
    }

    /// `"Technical"` or `"Editorial"`.
    pub fn kind(&self) -> (r: &str)
        ensures
            r@ == self.kind@,
    {
        self.kind.as_str()
    }

    /// Section of the RFC the erratum addresses, if recorded.
    pub fn section(&self) -> (r: Option<&str>)
        ensures
            opt_str_view(r) == opt_view(self.section),
    {
        opt_as_str(&self.section)
    }

    /// Original (incorrect) text from the RFC, as quoted in the erratum.
    pub fn orig_text(&self) -> (r: Option<&str>)
        ensures
            opt_str_view(r) == opt_view(self.orig_text),
    {
        opt_as_str(&self.orig_text)
    }

    /// Proposed corrected text.
    pub fn correct_text(&self) -> (r: Option<&str>)
        ensures
            opt_str_view(r) == opt_view(self.correct_text),
    {
        opt_as_str(&self.correct_text)
    }

    /// Free-form notes from the submitter or verifier.
    pub fn notes(&self) -> (r: Option<&str>)
        ensures
            opt_str_view(r) == opt_view(self.notes),
    {
        opt_as_str(&self.notes)
    }

    /// Submission date as published (`YYYY-MM-DD`).
    pub fn submitted(&self) -> (r: Option<&str>)
        ensures
            opt_str_view(r) == opt_view(self.submitted),
    {
        opt_as_str(&self.submitted)
    }

    /// Last-update timestamp as published.
    pub fn updated(&self) -> (r: Option<&str>)
        ensures
            opt_str_view(r) == opt_view(self.updated),
    {
        opt_as_str(&self.updated)
    }

    /// Name of the person who submitted the erratum.
    pub fn submitter(&self) -> (r: Option<&str>)
        ensures
            opt_str_view(r) == opt_view(self.submitter),
    {
        opt_as_str(&self.submitter)
    }

    /// Name of the person who verified the erratum (if any).
    pub fn verifier_name(&self) -> (r: Option<&str>)
        ensures
            opt_str_view(r) == opt_view(self.verifier),
    {
        opt_as_str(&self.verifier)
    }

    /// Status is exactly `"Verified"`, ignoring ASCII case.
    pub fn is_verified(&self) -> (r: bool)
        ensures
            r == eq_ignore_case(self.status@, "Verified"@),
    {
        eq_ignore_ascii_case(self.status.as_str(), "Verified")
    }

    /// Status is exactly `"Held for Document Update"`, ignoring ASCII case.
    pub fn is_held(&self) -> (r: bool)
        ensures
            r == eq_ignore_case(self.status@, "Held for Document Update"@),
    {
        eq_ignore_ascii_case(self.status.as_str(), "Held for Document Update")
    }
}

/// Cached body of a single RFC: the rendered text and, when the RFC has an
/// XML source, the raw XML.
#[derive(Debug, Clone)]
pub struct Body {
    /// RFC number this body belongs to.
    pub number: u32,
    /// Rendered text (line endings normalized, form-feeds stripped).
    pub text: String,
    /// Raw xml2rfc source, when available.
    pub xml: Option<String>,
    /// Epoch seconds when the body was fetched.
    pub fetched_at: i64,
}

impl Body {
    /// RFC number this body belongs to.
    pub fn number(&self) -> (r: u32)
        ensures
            r == self.number,
    {
        self.number
    }

    /// Rendered text body (line endings normalized to LF, form-feeds stripped).
    pub fn text(&self) -> (r: &str)
        ensures
            r@ == self.text@,
    {
        self.text.as_str()
    }

    /// Raw xml2rfc v3 source, when available (modern RFCs only).
    pub fn xml(&self) -> (r: Option<&str>)
        ensures
            opt_str_view(r) == opt_view(self.xml),
    {
        opt_as_str(&self.xml)
    }

    /// Epoch seconds when the body was fetched.
    pub fn fetched_at(&self) -> (r: i64)
        ensures
            r == self.fetched_at,
    {
        self.fetched_at
    }

    /// Bytes of the rendered text.
    pub open spec fn text_bytes(&self) -> Seq<u8> {
        vstd::utf8::encode_utf8(self.text@)
    }

    /// All numeric top-level and nested sections detected in the rendered text,
    /// in document order.
    pub fn sections(&self) -> (r: Vec<SectionRef<'_>>)
        ensures
            r@.len() == section_headers(self.text_bytes()).len(),
            forall|i: int|
                0 <= i < r@.len() ==> section_matches(
                    #[trigger] r@[i],
                    self.text_bytes(),
                    section_headers(self.text_bytes())[i],
                    section_end(self.text_bytes(), section_headers(self.text_bytes()), i),
                ),
    {
        scan_sections(self.text.as_str())
    }

    /// Look up a single section by its dotted number (e.g. `"5.2"`). The
    /// returned slice covers the section header line through (but not
    /// including) the next section that is not a descendant.
    pub fn section(&self, number: &str) -> (r: Option<SectionRef<'_>>)
        ensures
            match section_lookup(self.text_bytes(), number.spec_bytes()) {
                None => r is None,
                Some((i, end)) => r matches Some(s) && section_matches(
                    s,
                    self.text_bytes(),
                    section_headers(self.text_bytes())[i],
                    end,
                ),
            },
    {
        find_section(self.text.as_str(), number)
    }
}

} // verus!

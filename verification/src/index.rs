//! Reading `rfc-index.xml`: RFC entries and BCP/STD/FYI sub-series entries.
use crate::errata::{parse_rfc_doc_id, rfc_doc_number};
use crate::error::IndexError;
use crate::model::{formats_have_xml, lists_xml, opt_view, series_prefix, Author, SeriesKind, SyncStats};
use crate::outside::{node_view, parse_xml_nodes, xml_document, XmlNode};
use crate::text::{
    chars_of, eq_ignore_ascii_case, eq_ignore_case, lower_chars, lower_seq, parse_i32,
    parse_i32_spec, parse_u32, parse_u32_chars, parse_u32_spec, slice_chars, str_eq, trim,
    trim_bounds, trim_ws,
};
use vstd::prelude::*;

verus! {

/// View of a node: `(element, name, text, children)`.
pub type NodeView = (bool, Seq<char>, Option<Seq<char>>, Seq<usize>);

// ---------------------------------------------------------------------------
// Navigation in the node model.
// ---------------------------------------------------------------------------

/// Node `c` is an element named `name`.
pub open spec fn is_elem(d: Seq<NodeView>, c: int, name: Seq<char>) -> bool {
    0 <= c < d.len() && d[c].0 && d[c].1 == name
}

/// The children of node `n`.
pub open spec fn kids(d: Seq<NodeView>, n: int) -> Seq<usize> {
    if 0 <= n < d.len() {
        d[n].3
    } else {
        seq![]
    }
}

/// The first of `ks` that is an element named `name`.
pub open spec fn first_named(d: Seq<NodeView>, ks: Seq<usize>, name: Seq<char>) -> Option<int>
    decreases ks.len(),
{
    if ks.len() == 0 {
        None
    } else if is_elem(d, ks[0] as int, name) {
        Some(ks[0] as int)
    } else {
        first_named(d, ks.drop_first(), name)
    }
}

/// The first child element of `n` named `name`.
pub open spec fn child(d: Seq<NodeView>, n: int, name: Seq<char>) -> Option<int> {
    first_named(d, kids(d, n), name)
}

/// The trimmed text of the first child element of `n` named `name`.
pub open spec fn child_text(d: Seq<NodeView>, n: int, name: Seq<char>) -> Option<Seq<char>> {
    match child(d, n, name) {
        Some(c) => match d[c].2 {
            Some(t) => Some(trim_ws(t)),
            None => None,
        },
        None => None,
    }
}

/// Texts of those of `ks` that are elements named `name` and have text.
pub open spec fn named_texts(d: Seq<NodeView>, ks: Seq<usize>, name: Seq<char>) -> Seq<Seq<char>>
    decreases ks.len(),
{
    if ks.len() == 0 {
        seq![]
    } else {
        let r = named_texts(d, ks.drop_last(), name);
        let c = ks.last() as int;
        if is_elem(d, c, name) && d[c].2 is Some {
            r.push(d[c].2->0)
        } else {
            r
        }
    }
}

/// RFC numbers spelled by the texts of those of `ks` that are `doc-id`
/// elements.
pub open spec fn named_doc_ids(d: Seq<NodeView>, ks: Seq<usize>) -> Seq<u32>
    decreases ks.len(),
{
    if ks.len() == 0 {
        seq![]
    } else {
        let r = named_doc_ids(d, ks.drop_last());
        let c = ks.last() as int;
        if is_elem(d, c, "doc-id"@) && d[c].2 is Some && rfc_doc_number(d[c].2->0) is Some {
            r.push(rfc_doc_number(d[c].2->0)->0)
        } else {
            r
        }
    }
}

/// `(name, role)` of those of `ks` that are `author` elements with a name.
pub open spec fn named_authors(d: Seq<NodeView>, ks: Seq<usize>) -> Seq<
    (Seq<char>, Option<Seq<char>>),
>
    decreases ks.len(),
{
    if ks.len() == 0 {
        seq![]
    } else {
        let r = named_authors(d, ks.drop_last());
        let c = ks.last() as int;
        if is_elem(d, c, "author"@) && child_text(d, c, "name"@) is Some {
            r.push((child_text(d, c, "name"@)->0, child_text(d, c, "title"@)))
        } else {
            r
        }
    }
}

/// Paragraphs joined with blank lines.
pub open spec fn join_paragraphs(ps: Seq<Seq<char>>) -> Seq<char>
    decreases ps.len(),
{
    if ps.len() == 0 {
        seq![]
    } else if ps.len() == 1 {
        ps[0]
    } else {
        join_paragraphs(ps.drop_last()) + seq!['\n', '\n'] + ps.last()
    }
}

/// Month name (any ASCII case, surrounding whitespace ignored) to its number.
pub open spec fn month_number(m: Seq<char>) -> Option<u8> {
    let l = lower_seq(trim_ws(m));
    if l == "january"@ {
        Some(1u8)
    } else if l == "february"@ {
        Some(2u8)
    } else if l == "march"@ {
        Some(3u8)
    } else if l == "april"@ {
        Some(4u8)
    } else if l == "may"@ {
        Some(5u8)
    } else if l == "june"@ {
        Some(6u8)
    } else if l == "july"@ {
        Some(7u8)
    } else if l == "august"@ {
        Some(8u8)
    } else if l == "september"@ {
        Some(9u8)
    } else if l == "october"@ {
        Some(10u8)
    } else if l == "november"@ {
        Some(11u8)
    } else if l == "december"@ {
        Some(12u8)
    } else {
        None
    }
}

// ---------------------------------------------------------------------------
// Executable navigation.
// ---------------------------------------------------------------------------

/// The nodes `nodes` form the document `d`, with in-range children.
pub open spec fn doc_wf(nodes: Seq<XmlNode>, d: Seq<NodeView>) -> bool {
    &&& d == nodes.map_values(|n: XmlNode| node_view(n))
    &&& forall|i: int, k: int|
        0 <= i < nodes.len() && 0 <= k < nodes[i].children@.len() ==> #[trigger] nodes[i].children@[k]
            < nodes.len()
}

/// Index of the first child element of `n` named `name`.
fn child_node(nodes: &Vec<XmlNode>, n: usize, name: &str, Ghost(d): Ghost<Seq<NodeView>>) -> (r: Option<usize>)
    requires
        doc_wf(nodes@, d),
        n < nodes@.len(),
    ensures
        match r {
            Some(c) => child(d, n as int, name@) == Some(c as int) && c < nodes@.len(),
            None => child(d, n as int, name@) is None,
        },
{
    let ks = &nodes[n].children;
    assert(d[n as int] == node_view(nodes@[n as int]));
    assert(ks@.subrange(0, ks@.len() as int) == ks@);
    let mut k: usize = 0;
    while k < ks.len()
        invariant
            doc_wf(nodes@, d),
            n < nodes@.len(),
            ks@ == nodes@[n as int].children@,
            k <= ks@.len(),
            first_named(d, ks@, name@) == first_named(d, ks@.subrange(k as int, ks@.len() as int), name@),
        decreases ks@.len() - k,
    {
        let c = ks[k];
        assert(ks@.subrange(k as int, ks@.len() as int).drop_first() == ks@.subrange(k + 1, ks@.len() as int));
        assert(c < nodes@.len());
        assert(d[c as int] == node_view(nodes@[c as int]));
        if nodes[c].element && str_eq(nodes[c].name.as_str(), name) {
            return Some(c);
        }
        k = k + 1;
    }
    None
}

/// Trimmed text of the first child element of `n` named `name`.
fn child_text_of(nodes: &Vec<XmlNode>, n: usize, name: &str, Ghost(d): Ghost<Seq<NodeView>>) -> (r: Option<String>)
    requires
        doc_wf(nodes@, d),
        n < nodes@.len(),
    ensures
        opt_view(r) == child_text(d, n as int, name@),
{
    match child_node(nodes, n, name, Ghost(d)) {
        Some(c) => {
            assert(d[c as int] == node_view(nodes@[c as int]));
            match &nodes[c].text {
                Some(t) => Some(trim(t.as_str())),
                None => None,
            }
        },
        None => None,
    }
}

/// Texts of the children of `n` that are elements named `name`.
fn texts_of(nodes: &Vec<XmlNode>, n: usize, name: &str, Ghost(d): Ghost<Seq<NodeView>>) -> (r: Vec<String>)
    requires
        doc_wf(nodes@, d),
        n < nodes@.len(),
    ensures
        r@.map_values(|s: String| s@) == named_texts(d, kids(d, n as int), name@),
{
    let ks = &nodes[n].children;
    assert(d[n as int] == node_view(nodes@[n as int]));
    let mut out: Vec<String> = Vec::new();
    for k in 0..ks.len()
        invariant
            doc_wf(nodes@, d),
            n < nodes@.len(),
            ks@ == nodes@[n as int].children@,
            ks@ == kids(d, n as int),
            out@.map_values(|s: String| s@) == named_texts(d, ks@.take(k as int), name@),
    {
        let c = ks[k];
        assert(ks@.take(k + 1).drop_last() == ks@.take(k as int));
        assert(c < nodes@.len());
        assert(d[c as int] == node_view(nodes@[c as int]));
        if nodes[c].element && str_eq(nodes[c].name.as_str(), name) {
            match &nodes[c].text {
                Some(t) => {
                    out.push(t.clone());
                },
                None => {},
            }
        }
        assert(out@.map_values(|s: String| s@) == named_texts(d, ks@.take(k + 1), name@));
    }
    assert(ks@.take(ks@.len() as int) == ks@);
    out
}

/// RFC numbers of the `doc-id` children of `n`.
fn doc_ids_of(nodes: &Vec<XmlNode>, n: usize, Ghost(d): Ghost<Seq<NodeView>>) -> (r: Vec<u32>)
    requires
        doc_wf(nodes@, d),
        n < nodes@.len(),
    ensures
        r@ == named_doc_ids(d, kids(d, n as int)),
{
    let ks = &nodes[n].children;
    assert(d[n as int] == node_view(nodes@[n as int]));
    let mut out: Vec<u32> = Vec::new();
    for k in 0..ks.len()
        invariant
            doc_wf(nodes@, d),
            n < nodes@.len(),
            ks@ == nodes@[n as int].children@,
            ks@ == kids(d, n as int),
            out@ == named_doc_ids(d, ks@.take(k as int)),
    {
        let c = ks[k];
        assert(ks@.take(k + 1).drop_last() == ks@.take(k as int));
        assert(c < nodes@.len());
        assert(d[c as int] == node_view(nodes@[c as int]));
        if nodes[c].element && str_eq(nodes[c].name.as_str(), "doc-id") {
            match &nodes[c].text {
                Some(t) => {
                    match parse_rfc_doc_id(t.as_str()) {
                        Some(x) => {
                            out.push(x);
                        },
                        None => {},
                    }
                },
                None => {},
            }
        }
    }
    assert(ks@.take(ks@.len() as int) == ks@);
    out
}

/// The RFC numbers listed under the child element `name` of `n`.
pub open spec fn listed_doc_ids(d: Seq<NodeView>, n: int, name: Seq<char>) -> Seq<u32> {
    match child(d, n, name) {
        Some(c) => named_doc_ids(d, kids(d, c)),
        None => seq![],
    }
}

fn collect_doc_ids(nodes: &Vec<XmlNode>, n: usize, name: &str, Ghost(d): Ghost<Seq<NodeView>>) -> (r: Vec<u32>)
    requires
        doc_wf(nodes@, d),
        n < nodes@.len(),
    ensures
        r@ == listed_doc_ids(d, n as int, name@),
{
    match child_node(nodes, n, name, Ghost(d)) {
        Some(c) => doc_ids_of(nodes, c, Ghost(d)),
        None => Vec::new(),
    }
}

/// Authors under `n`.
fn authors_of(nodes: &Vec<XmlNode>, n: usize, Ghost(d): Ghost<Seq<NodeView>>) -> (r: Vec<Author>)
    requires
        doc_wf(nodes@, d),
        n < nodes@.len(),
    ensures
        r@.map_values(|a: Author| (a.name@, opt_view(a.role))) == named_authors(
            d,
            kids(d, n as int),
        ),
{
    let ks = &nodes[n].children;
    assert(d[n as int] == node_view(nodes@[n as int]));
    let mut out: Vec<Author> = Vec::new();
    for k in 0..ks.len()
        invariant
            doc_wf(nodes@, d),
            n < nodes@.len(),
            ks@ == nodes@[n as int].children@,
            ks@ == kids(d, n as int),
            out@.map_values(|a: Author| (a.name@, opt_view(a.role))) == named_authors(
                d,
                ks@.take(k as int),
            ),
    {
        let c = ks[k];
        assert(ks@.take(k + 1).drop_last() == ks@.take(k as int));
        assert(c < nodes@.len());
        assert(d[c as int] == node_view(nodes@[c as int]));
        if nodes[c].element && str_eq(nodes[c].name.as_str(), "author") {
            match child_text_of(nodes, c, "name", Ghost(d)) {
                Some(name) => {
                    let role = child_text_of(nodes, c, "title", Ghost(d));
                    out.push(Author { name, role });
                },
                None => {},
            }
        }
        assert(out@.map_values(|a: Author| (a.name@, opt_view(a.role))) == named_authors(
            d,
            ks@.take(k + 1),
        ));
    }
    assert(ks@.take(ks@.len() as int) == ks@);
    out
}

/// Month name to number; see [`month_number`].
pub fn month_to_num(m: &str) -> (r: Option<u8>)
    ensures
        r == month_number(m@),
{
    let v = chars_of(m);
    let (a, b) = trim_bounds(&v);
    let l = lower_chars(&slice_chars(&v, a, b));
    if chars_are(&l, "january") {
        Some(1)
    } else if chars_are(&l, "february") {
        Some(2)
    } else if chars_are(&l, "march") {
        Some(3)
    } else if chars_are(&l, "april") {
        Some(4)
    } else if chars_are(&l, "may") {
        Some(5)
    } else if chars_are(&l, "june") {
        Some(6)
    } else if chars_are(&l, "july") {
        Some(7)
    } else if chars_are(&l, "august") {
        Some(8)
    } else if chars_are(&l, "september") {
        Some(9)
    } else if chars_are(&l, "october") {
        Some(10)
    } else if chars_are(&l, "november") {
        Some(11)
    } else if chars_are(&l, "december") {
        Some(12)
    } else {
        None
    }
}

/// `v` holds exactly the characters of `lit`.
fn chars_are(v: &Vec<char>, lit: &str) -> (r: bool)
    ensures
        r == (v@ == lit@),
{
    let w = chars_of(lit);
    if v.len() != w.len() {
        return false;
    }
    let mut i: usize = 0;
    while i < v.len()
        invariant
            w@ == lit@,
            v@.len() == w@.len(),
            i <= v@.len(),
            forall|j: int| 0 <= j < i ==> v@[j] == w@[j],
        decreases v@.len() - i,
    {
        if v[i] != w[i] {
            return false;
        }
        i = i + 1;
    }
    assert(v@ =~= w@);
    true
}

// ---------------------------------------------------------------------------
// RFC entries.
// ---------------------------------------------------------------------------

/// An `<rfc-entry>` of the index.
#[derive(Debug)]
pub struct ParsedRfc {
    /// RFC number (from `doc-id`).
    pub number: u32,
    /// Title (empty when absent).
    pub title: String,
    /// Abstract paragraphs joined with blank lines.
    pub abstract_text: Option<String>,
    /// Publication year.
    pub date_year: Option<i32>,
    /// Publication month, 1-12.
    pub date_month: Option<u8>,
    /// Page count.
    pub page_count: Option<u32>,
    /// Source draft name.
    pub draft: Option<String>,
    /// Current status.
    pub current_status: Option<String>,
    /// Status at publication.
    pub publication_status: Option<String>,
    /// Stream.
    pub stream: Option<String>,
    /// Area.
    pub area: Option<String>,
    /// Working group acronym.
    pub wg: Option<String>,
    /// DOI.
    pub doi: Option<String>,
    /// An errata URL is published.
    pub has_errata: bool,
    /// File formats.
    pub formats: Vec<String>,
    /// One of the formats is XML.
    pub has_xml: bool,
    /// Authors with a name, in order.
    pub authors: Vec<Author>,
    /// Keywords.
    pub keywords: Vec<String>,
    /// RFCs obsoleted.
    pub obsoletes: Vec<u32>,
    /// RFCs obsoleting this one.
    pub obsoleted_by: Vec<u32>,
    /// RFCs updated.
    pub updates: Vec<u32>,
    /// RFCs updating this one.
    pub updated_by: Vec<u32>,
}

/// An absent text stands for the empty string.
pub open spec fn or_empty(o: Option<Seq<char>>) -> Seq<char> {
    match o {
        Some(s) => s,
        None => seq![],
    }
}

/// Abstract of entry `n`: the trimmed texts of the `<p>` children of
/// `<abstract>`, joined with blank lines.
pub open spec fn abstract_of(d: Seq<NodeView>, n: int) -> Option<Seq<char>> {
    match child(d, n, "abstract"@) {
        Some(a) => Some(
            join_paragraphs(named_texts(d, kids(d, a), "p"@).map_values(|t: Seq<char>| trim_ws(t))),
        ),
        None => None,
    }
}

/// Publication year of entry `n`.
pub open spec fn year_of(d: Seq<NodeView>, n: int) -> Option<i32> {
    match child(d, n, "date"@) {
        Some(dt) => match child_text(d, dt, "year"@) {
            Some(y) => parse_i32_spec(y),
            None => None,
        },
        None => None,
    }
}

/// Publication month of entry `n`.
pub open spec fn month_of(d: Seq<NodeView>, n: int) -> Option<u8> {
    match child(d, n, "date"@) {
        Some(dt) => match child_text(d, dt, "month"@) {
            Some(m) => month_number(m),
            None => None,
        },
        None => None,
    }
}

/// Texts of the `item` children of the child element `list` of `n`.
pub open spec fn listed_texts(d: Seq<NodeView>, n: int, list: Seq<char>, item: Seq<char>) -> Seq<
    Seq<char>,
> {
    match child(d, n, list) {
        Some(c) => named_texts(d, kids(d, c), item),
        None => seq![],
    }
}

/// Entry `n` has a `doc-id` naming an RFC.
pub open spec fn rfc_entry_number(d: Seq<NodeView>, n: int) -> Option<u32> {
    match child_text(d, n, "doc-id"@) {
        Some(id) => rfc_doc_number(id),
        None => None,
    }
}

/// `p` is what entry `n` says.
pub open spec fn describes_rfc(d: Seq<NodeView>, n: int, p: ParsedRfc) -> bool {
    &&& rfc_entry_number(d, n) == Some(p.number)
    &&& p.title@ == or_empty(child_text(d, n, "title"@))
    &&& opt_view(p.abstract_text) == abstract_of(d, n)
    &&& p.date_year == year_of(d, n)
    &&& p.date_month == month_of(d, n)
    &&& p.page_count == match child_text(d, n, "page-count"@) {
        Some(t) => parse_u32_spec(t),
        None => None,
    }
    &&& opt_view(p.draft) == child_text(d, n, "draft"@)
    &&& opt_view(p.current_status) == child_text(d, n, "current-status"@)
    &&& opt_view(p.publication_status) == child_text(d, n, "publication-status"@)
    &&& opt_view(p.stream) == child_text(d, n, "stream"@)
    &&& opt_view(p.area) == child_text(d, n, "area"@)
    &&& opt_view(p.wg) == child_text(d, n, "wg_acronym"@)
    &&& opt_view(p.doi) == child_text(d, n, "doi"@)
    &&& p.has_errata == (child(d, n, "errata-url"@) is Some)
    &&& p.formats@.map_values(|s: String| s@) == listed_texts(d, n, "format"@, "file-format"@)
    &&& p.has_xml == formats_have_xml(listed_texts(d, n, "format"@, "file-format"@))
    &&& p.authors@.map_values(|a: Author| (a.name@, opt_view(a.role))) == named_authors(d, kids(d, n))
    &&& p.keywords@.map_values(|s: String| s@) == listed_texts(d, n, "keywords"@, "kw"@)
    &&& p.obsoletes@ == listed_doc_ids(d, n, "obsoletes"@)
    &&& p.obsoleted_by@ == listed_doc_ids(d, n, "obsoleted-by"@)
    &&& p.updates@ == listed_doc_ids(d, n, "updates"@)
    &&& p.updated_by@ == listed_doc_ids(d, n, "updated-by"@)
}

fn listed_texts_of(
    nodes: &Vec<XmlNode>,
    n: usize,
    list: &str,
    item: &str,
    Ghost(d): Ghost<Seq<NodeView>>,
) -> (r: Vec<String>)
    requires
        doc_wf(nodes@, d),
        n < nodes@.len(),
    ensures
        r@.map_values(|s: String| s@) == listed_texts(d, n as int, list@, item@),
{
    match child_node(nodes, n, list, Ghost(d)) {
        Some(c) => texts_of(nodes, c, item, Ghost(d)),
        None => {
            let v: Vec<String> = Vec::new();
            assert(v@.map_values(|s: String| s@) == Seq::<Seq<char>>::empty());
            v
        },
    }
}

fn abstract_text_of(nodes: &Vec<XmlNode>, n: usize, Ghost(d): Ghost<Seq<NodeView>>) -> (r: Option<String>)
    requires
        doc_wf(nodes@, d),
        n < nodes@.len(),
    ensures
        opt_view(r) == abstract_of(d, n as int),
{
    match child_node(nodes, n, "abstract", Ghost(d)) {
        Some(a) => {
            let ps = texts_of(nodes, a, "p", Ghost(d));
            let ghost pv = ps@.map_values(|s: String| s@);
            let ghost tv = pv.map_values(|t: Seq<char>| trim_ws(t));
            let mut out = String::new();
            for i in 0..ps.len()
                invariant
                    pv == ps@.map_values(|s: String| s@),
                    tv == pv.map_values(|t: Seq<char>| trim_ws(t)),
                    out@ == join_paragraphs(tv.take(i as int)),
            {
                let t = trim(ps[i].as_str());
                proof {
                    assert(tv.take(i + 1).drop_last() == tv.take(i as int));
                    assert(tv.take(i + 1).last() == t@);
                    reveal_strlit("\n\n");
                }
                if i > 0 {
                    out.append("\n\n");
                }
                out.append(t.as_str());
            }
            assert(tv.take(ps@.len() as int) == tv);
            Some(out)
        },
        None => None,
    }
}

fn year_month_of(nodes: &Vec<XmlNode>, n: usize, Ghost(d): Ghost<Seq<NodeView>>) -> (r: (Option<i32>, Option<u8>))
    requires
        doc_wf(nodes@, d),
        n < nodes@.len(),
    ensures
        r.0 == year_of(d, n as int),
        r.1 == month_of(d, n as int),
{
    match child_node(nodes, n, "date", Ghost(d)) {
        Some(dt) => {
            let year = match child_text_of(nodes, dt, "year", Ghost(d)) {
                Some(y) => parse_i32(y.as_str()),
                None => None,
            };
            let month = match child_text_of(nodes, dt, "month", Ghost(d)) {
                Some(m) => month_to_num(m.as_str()),
                None => None,
            };
            (year, month)
        },
        None => (None, None),
    }
}

/// Read one `<rfc-entry>`; `None` when it has no `doc-id` naming an RFC.
pub fn parse_rfc_entry(nodes: &Vec<XmlNode>, n: usize, Ghost(d): Ghost<Seq<NodeView>>) -> (r: Option<ParsedRfc>)
    requires
        doc_wf(nodes@, d),
        n < nodes@.len(),
    ensures
        r is Some <==> rfc_entry_number(d, n as int) is Some,
        r matches Some(p) ==> describes_rfc(d, n as int, p),
{
    let doc_id = match child_text_of(nodes, n, "doc-id", Ghost(d)) {
        Some(s) => s,
        None => return None,
    };
    let number = match parse_rfc_doc_id(doc_id.as_str()) {
        Some(x) => x,
        None => return None,
    };
    let title = match child_text_of(nodes, n, "title", Ghost(d)) {
        Some(t) => t,
        None => String::new(),
    };
    let (date_year, date_month) = year_month_of(nodes, n, Ghost(d));
    let abstract_text = abstract_text_of(nodes, n, Ghost(d));
    let formats = listed_texts_of(nodes, n, "format", "file-format", Ghost(d));
    let has_xml = lists_xml(&formats);
    let authors = authors_of(nodes, n, Ghost(d));
    let keywords = listed_texts_of(nodes, n, "keywords", "kw", Ghost(d));
    let page_count = match child_text_of(nodes, n, "page-count", Ghost(d)) {
        Some(t) => parse_u32(t.as_str()),
        None => None,
    };
    Some(
        ParsedRfc {
            number,
            title,
            abstract_text,
            date_year,
            date_month,
            page_count,
            draft: child_text_of(nodes, n, "draft", Ghost(d)),
            current_status: child_text_of(nodes, n, "current-status", Ghost(d)),
            publication_status: child_text_of(nodes, n, "publication-status", Ghost(d)),
            stream: child_text_of(nodes, n, "stream", Ghost(d)),
            area: child_text_of(nodes, n, "area", Ghost(d)),
            wg: child_text_of(nodes, n, "wg_acronym", Ghost(d)),
            doi: child_text_of(nodes, n, "doi", Ghost(d)),
            has_errata: child_node(nodes, n, "errata-url", Ghost(d)).is_some(),
            formats,
            has_xml,
            authors,
            keywords,
            obsoletes: collect_doc_ids(nodes, n, "obsoletes", Ghost(d)),
            obsoleted_by: collect_doc_ids(nodes, n, "obsoleted-by", Ghost(d)),
            updates: collect_doc_ids(nodes, n, "updates", Ghost(d)),
            updated_by: collect_doc_ids(nodes, n, "updated-by", Ghost(d)),
        },
    )
}

// ---------------------------------------------------------------------------
// Sub-series entries.
// ---------------------------------------------------------------------------

/// A `<bcp-entry>`, `<std-entry>` or `<fyi-entry>` of the index.
#[derive(Debug)]
pub struct ParsedSub {
    /// Doc-id as published (e.g. `BCP0014`).
    pub doc_id: String,
    /// Which sub-series.
    pub series: SeriesKind,
    /// Number within the sub-series.
    pub number: u32,
    /// Title.
    pub title: Option<String>,
    /// Member RFC numbers.
    pub members: Vec<u32>,
}

/// The number of a sub-series doc-id `<prefix><number>`.
pub open spec fn sub_doc_number(s: Seq<char>, prefix: Seq<char>) -> Option<u32> {
    if s.len() >= prefix.len() && s.subrange(0, prefix.len() as int) == prefix {
        parse_u32_spec(s.subrange(prefix.len() as int, s.len() as int))
    } else {
        None
    }
}

/// `s` without `prefix`, parsed as a number.
pub fn parse_sub_doc_id(s: &str, prefix: &str) -> (r: Option<u32>)
    ensures
        r == sub_doc_number(s@, prefix@),
{
    let v = chars_of(s);
    let p = chars_of(prefix);
    if v.len() < p.len() {
        return None;
    }
    let mut i: usize = 0;
    while i < p.len()
        invariant
            v@ == s@,
            p@ == prefix@,
            p@.len() <= v@.len(),
            i <= p@.len(),
            forall|j: int| 0 <= j < i ==> v@[j] == p@[j],
        decreases p@.len() - i,
    {
        if v[i] != p[i] {
            assert(v@.subrange(0, p@.len() as int)[i as int] != p@[i as int]);
            return None;
        }
        i = i + 1;
    }
    assert(v@.subrange(0, p@.len() as int) =~= p@);
    parse_u32_chars(&v, p.len(), v.len())
}

/// `s` is what sub-series entry `n` of kind `k` says.
pub open spec fn describes_sub(d: Seq<NodeView>, n: int, k: SeriesKind, s: ParsedSub) -> bool {
    &&& child_text(d, n, "doc-id"@) == Some(s.doc_id@)
    &&& sub_doc_number(s.doc_id@, series_prefix(k)) == Some(s.number)
    &&& s.series == k
    &&& opt_view(s.title) == child_text(d, n, "title"@)
    &&& s.members@ == listed_doc_ids(d, n, "is-also"@)
}

/// Sub-series entry `n` of kind `k` has a doc-id with the kind's prefix and a number.
pub open spec fn sub_entry_ok(d: Seq<NodeView>, n: int, k: SeriesKind) -> bool {
    match child_text(d, n, "doc-id"@) {
        Some(id) => sub_doc_number(id, series_prefix(k)) is Some,
        None => false,
    }
}

/// Read one sub-series entry of kind `kind`; `None` without a doc-id that
/// has the kind's prefix and a number.
pub fn parse_sub_entry(nodes: &Vec<XmlNode>, n: usize, kind: SeriesKind, Ghost(d): Ghost<Seq<NodeView>>) -> (r: Option<ParsedSub>)
    requires
        doc_wf(nodes@, d),
        n < nodes@.len(),
    ensures
        r is Some <==> sub_entry_ok(d, n as int, kind),
        r matches Some(s) ==> describes_sub(d, n as int, kind, s),
{
    let doc_id = match child_text_of(nodes, n, "doc-id", Ghost(d)) {
        Some(s) => s,
        None => return None,
    };
    let number = match parse_sub_doc_id(doc_id.as_str(), kind.as_str()) {
        Some(x) => x,
        None => return None,
    };
    let title = child_text_of(nodes, n, "title", Ghost(d));
    let members = collect_doc_ids(nodes, n, "is-also", Ghost(d));
    Some(ParsedSub { doc_id, series: kind, number, title, members })
}

// ---------------------------------------------------------------------------
// The whole index.
// ---------------------------------------------------------------------------

/// The first of `ks` that is an element.
pub open spec fn first_element(d: Seq<NodeView>, ks: Seq<usize>) -> Option<int>
    decreases ks.len(),
{
    if ks.len() == 0 {
        None
    } else if 0 <= ks[0] < d.len() && d[ks[0] as int].0 {
        Some(ks[0] as int)
    } else {
        first_element(d, ks.drop_first())
    }
}

/// The sub-series kind an entry tag names.
pub open spec fn entry_kind(name: Seq<char>) -> Option<SeriesKind> {
    if name == "bcp-entry"@ {
        Some(SeriesKind::Bcp)
    } else if name == "std-entry"@ {
        Some(SeriesKind::Std)
    } else if name == "fyi-entry"@ {
        Some(SeriesKind::Fyi)
    } else {
        None
    }
}

/// The `<rfc-entry>` elements among `ks` that name an RFC.
pub open spec fn rfc_entries(d: Seq<NodeView>, ks: Seq<usize>) -> Seq<int>
    decreases ks.len(),
{
    if ks.len() == 0 {
        seq![]
    } else {
        let r = rfc_entries(d, ks.drop_last());
        let c = ks.last() as int;
        if is_elem(d, c, "rfc-entry"@) && rfc_entry_number(d, c) is Some {
            r.push(c)
        } else {
            r
        }
    }
}

/// The sub-series entry elements among `ks` that carry a valid doc-id, with
/// their kinds.
pub open spec fn sub_entries(d: Seq<NodeView>, ks: Seq<usize>) -> Seq<(int, SeriesKind)>
    decreases ks.len(),
{
    if ks.len() == 0 {
        seq![]
    } else {
        let r = sub_entries(d, ks.drop_last());
        let c = ks.last() as int;
        if 0 <= c < d.len() && d[c].0 && entry_kind(d[c].1) is Some && sub_entry_ok(
            d,
            c,
            entry_kind(d[c].1)->0,
        ) {
            r.push((c, entry_kind(d[c].1)->0))
        } else {
            r
        }
    }
}

/// The entries of the root element of a document.
pub open spec fn top_entries(d: Seq<NodeView>) -> Seq<usize> {
    match first_element(d, kids(d, 0)) {
        Some(root) => kids(d, root),
        None => seq![],
    }
}

/// Everything the index holds.
#[derive(Debug)]
pub struct ParsedIndex {
    /// RFC entries, in document order.
    pub rfcs: Vec<ParsedRfc>,
    /// Sub-series entries, in document order.
    pub subs: Vec<ParsedSub>,
}

/// `ix` is what the document `d` holds.
pub open spec fn describes_index(d: Seq<NodeView>, ix: ParsedIndex) -> bool {
    let es = rfc_entries(d, top_entries(d));
    let ss = sub_entries(d, top_entries(d));
    &&& ix.rfcs@.len() == es.len()
    &&& forall|k: int| 0 <= k < es.len() ==> describes_rfc(d, es[k], #[trigger] ix.rfcs@[k])
    &&& ix.subs@.len() == ss.len()
    &&& forall|k: int|
        0 <= k < ss.len() ==> describes_sub(d, ss[k].0, ss[k].1, #[trigger] ix.subs@[k])
}

fn root_element(nodes: &Vec<XmlNode>, Ghost(d): Ghost<Seq<NodeView>>) -> (r: Option<usize>)
    requires
        doc_wf(nodes@, d),
    ensures
        match r {
            Some(c) => first_element(d, kids(d, 0)) == Some(c as int) && c < nodes@.len(),
            None => first_element(d, kids(d, 0)) is None,
        },
{
    if nodes.len() == 0 {
        return None;
    }
    let ks = &nodes[0].children;
    assert(d[0] == node_view(nodes@[0]));
    assert(ks@.subrange(0, ks@.len() as int) == ks@);
    let mut k: usize = 0;
    while k < ks.len()
        invariant
            doc_wf(nodes@, d),
            0 < nodes@.len(),
            ks@ == nodes@[0].children@,
            k <= ks@.len(),
            first_element(d, ks@) == first_element(d, ks@.subrange(k as int, ks@.len() as int)),
        decreases ks@.len() - k,
    {
        let c = ks[k];
        assert(ks@.subrange(k as int, ks@.len() as int).drop_first() == ks@.subrange(k + 1, ks@.len() as int));
        assert(c < nodes@.len());
        assert(d[c as int] == node_view(nodes@[c as int]));
        if nodes[c].element {
            return Some(c);
        }
        k = k + 1;
    }
    None
}

fn entry_kind_of(name: &str) -> (r: Option<SeriesKind>)
    ensures
        r == entry_kind(name@),
{
    if str_eq(name, "bcp-entry") {
        Some(SeriesKind::Bcp)
    } else if str_eq(name, "std-entry") {
        Some(SeriesKind::Std)
    } else if str_eq(name, "fyi-entry") {
        Some(SeriesKind::Fyi)
    } else {
        None
    }
}

/// Read all RFC and sub-series entries of `rfc-index.xml`. A text the XML
/// parser rejects gives `IndexError::Xml`.
pub fn parse_index(xml: &str) -> (r: Result<ParsedIndex, IndexError>)
    ensures
        match r {
            Ok(ix) => xml_document(xml@) matches Some(d) && describes_index(d, ix),
            Err(e) => xml_document(xml@) is None && e is Xml,
        },
{
    let nodes = match parse_xml_nodes(xml) {
        Ok(v) => v,
        Err(e) => return Err(IndexError::Xml(e)),
    };
    Ok(index_from_nodes(&nodes))
}

/// Each status of a parsed RFC entry is the trimmed text of the entry's own
/// child element of that name: the publication status is read from
/// `<publication-status>` and the current status from `<current-status>`.
pub proof fn law_statuses_read_from_their_own_elements(d: Seq<NodeView>, n: int, p: ParsedRfc)
    requires
        describes_rfc(d, n, p),
    ensures
        opt_view(p.publication_status) == child_text(d, n, "publication-status"@),
        opt_view(p.current_status) == child_text(d, n, "current-status"@),
{
}

/// Two parsed entries whose `<publication-status>` elements hold the same
/// text have the same publication status, whatever their current status.
pub proof fn law_publication_status_ignores_current_status(
    d1: Seq<NodeView>,
    n1: int,
    p1: ParsedRfc,
    d2: Seq<NodeView>,
    n2: int,
    p2: ParsedRfc,
)
    requires
        describes_rfc(d1, n1, p1),
        describes_rfc(d2, n2, p2),
        child_text(d1, n1, "publication-status"@) == child_text(d2, n2, "publication-status"@),
    ensures
        opt_view(p1.publication_status) == opt_view(p2.publication_status),
{
    law_statuses_read_from_their_own_elements(d1, n1, p1);
    law_statuses_read_from_their_own_elements(d2, n2, p2);
}

/// Each RFC entry of a parsed index takes its statuses from its own
/// `<publication-status>` and `<current-status>` elements.
pub proof fn law_index_statuses(d: Seq<NodeView>, ix: ParsedIndex, k: int)
    requires
        describes_index(d, ix),
        0 <= k < ix.rfcs@.len(),
    ensures
        opt_view(ix.rfcs@[k].publication_status) == child_text(
            d,
            rfc_entries(d, top_entries(d))[k],
            "publication-status"@,
        ),
        opt_view(ix.rfcs@[k].current_status) == child_text(
            d,
            rfc_entries(d, top_entries(d))[k],
            "current-status"@,
        ),
{
    let es = rfc_entries(d, top_entries(d));
    assert(describes_rfc(d, es[k], ix.rfcs@[k]));
    law_statuses_read_from_their_own_elements(d, es[k], ix.rfcs@[k]);
}

/// Every child position of `nodes` lies in `nodes`.
pub open spec fn nodes_wf(nodes: Seq<XmlNode>) -> bool {
    forall|i: int, k: int|
        0 <= i < nodes.len() && 0 <= k < nodes[i].children@.len() ==> #[trigger] nodes[i].children@[k]
            < nodes.len()
}

/// Read all RFC and sub-series entries of the parsed document `nodes`.
pub fn index_from_nodes(nodes: &Vec<XmlNode>) -> (ix: ParsedIndex)
    requires
        nodes_wf(nodes@),
    ensures
        describes_index(nodes@.map_values(|n: XmlNode| node_view(n)), ix),
{
    let ghost d = nodes@.map_values(|n: XmlNode| node_view(n));
    let mut rfcs: Vec<ParsedRfc> = Vec::new();
    let mut subs: Vec<ParsedSub> = Vec::new();
    let root = match root_element(nodes, Ghost(d)) {
        Some(r) => r,
        None => {
            let ix = ParsedIndex { rfcs, subs };
            assert(top_entries(d).len() == 0);
            return ix;
        },
    };
    let ks = &nodes[root].children;
    assert(d[root as int] == node_view(nodes@[root as int]));
    assert(ks@ == top_entries(d));
    for k in 0..ks.len()
        invariant
            doc_wf(nodes@, d),
            root < nodes@.len(),
            ks@ == top_entries(d),
            ks@ == nodes@[root as int].children@,
            rfcs@.len() == rfc_entries(d, ks@.take(k as int)).len(),
            forall|j: int|
                0 <= j < rfcs@.len() ==> describes_rfc(
                    d,
                    rfc_entries(d, ks@.take(k as int))[j],
                    #[trigger] rfcs@[j],
                ),
            subs@.len() == sub_entries(d, ks@.take(k as int)).len(),
            forall|j: int|
                0 <= j < subs@.len() ==> describes_sub(
                    d,
                    sub_entries(d, ks@.take(k as int))[j].0,
                    sub_entries(d, ks@.take(k as int))[j].1,
                    #[trigger] subs@[j],
                ),
    {
        let c = ks[k];
        proof {
            reveal_strlit("rfc-entry");
            reveal_strlit("bcp-entry");
            reveal_strlit("std-entry");
            reveal_strlit("fyi-entry");
            assert("rfc-entry"@[0] != "bcp-entry"@[0]);
            assert("rfc-entry"@[0] != "std-entry"@[0]);
            assert("rfc-entry"@[0] != "fyi-entry"@[0]);
            assert(entry_kind("rfc-entry"@) is None);
        }
        let ghost t = ks@.take(k + 1);
        assert(t.drop_last() == ks@.take(k as int));
        assert(t.last() == c);
        assert(c < nodes@.len());
        assert(d[c as int] == node_view(nodes@[c as int]));
        if nodes[c].element {
            if str_eq(nodes[c].name.as_str(), "rfc-entry") {
                match parse_rfc_entry(nodes, c, Ghost(d)) {
                    Some(p) => {
                        rfcs.push(p);
                    },
                    None => {},
                }
            } else {
                match entry_kind_of(nodes[c].name.as_str()) {
                    Some(kind) => {
                        match parse_sub_entry(nodes, c, kind, Ghost(d)) {
                            Some(sub) => {
                                subs.push(sub);
                            },
                            None => {},
                        }
                    },
                    None => {},
                }
            }
        }
    }
    assert(ks@.take(ks@.len() as int) == ks@);
    ParsedIndex { rfcs, subs }
}

/// Number of `k` entries among `ks`.
pub open spec fn count_kind(ks: Seq<SeriesKind>, k: SeriesKind) -> nat
    decreases ks.len(),
{
    if ks.len() == 0 {
        0
    } else {
        count_kind(ks.drop_last(), k) + if ks.last() == k {
            1nat
        } else {
            0nat
        }
    }
}

impl ParsedIndex {
    /// Ingest statistics: how many RFC entries and entries of each
    /// sub-series the index holds.
    pub fn stats(&self) -> (r: SyncStats)
        ensures
            r.rfcs == self.rfcs@.len(),
            r.bcps == count_kind(self.subs@.map_values(|s: ParsedSub| s.series), SeriesKind::Bcp),
            r.stds == count_kind(self.subs@.map_values(|s: ParsedSub| s.series), SeriesKind::Std),
            r.fyis == count_kind(self.subs@.map_values(|s: ParsedSub| s.series), SeriesKind::Fyi),
            r.bytes == 0,
            !r.not_modified,
    {
        let ghost ks = self.subs@.map_values(|s: ParsedSub| s.series);
        let mut bcps: usize = 0;
        let mut stds: usize = 0;
        let mut fyis: usize = 0;
        for i in 0..self.subs.len()
            invariant
                ks == self.subs@.map_values(|s: ParsedSub| s.series),
                bcps == count_kind(ks.take(i as int), SeriesKind::Bcp),
                stds == count_kind(ks.take(i as int), SeriesKind::Std),
                fyis == count_kind(ks.take(i as int), SeriesKind::Fyi),
                bcps + stds + fyis == i,
        {
            assert(ks.take(i + 1).drop_last() == ks.take(i as int));
            assert(ks.take(i + 1).last() == self.subs@[i as int].series);
            match self.subs[i].series {
                SeriesKind::Bcp => bcps = bcps + 1,
                SeriesKind::Std => stds = stds + 1,
                SeriesKind::Fyi => fyis = fyis + 1,
            }
        }
        assert(ks.take(self.subs@.len() as int) == ks);
        SyncStats {
            rfcs: self.rfcs.len(),
            bcps,
            stds,
            fyis,
            bytes: 0,
            not_modified: false,
        }
    }
}

} // verus!

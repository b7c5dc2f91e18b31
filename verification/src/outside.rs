//! Declarations of outside types that pass through the library, and the
//! trusted items that reach the standard library where vstd has no
//! specification.
use crate::model::opt_view;
use vstd::prelude::*;

verus! {

/// `roxmltree::Error`: why an XML document failed to parse. Carried opaquely.
#[verifier::external_type_specification]
#[verifier::external_body]
pub struct ExXmlError(roxmltree::Error);

/// `regex::Error`: why a pattern failed to compile. Carried opaquely.
#[verifier::external_type_specification]
#[verifier::external_body]
pub struct ExRegexError(regex::Error);

/// `regex::Regex`: a compiled pattern. Carried opaquely.
#[verifier::external_type_specification]
#[verifier::external_body]
pub struct ExRegex(regex::Regex);

/// `String::push` appends one character: the documentation of `String::push`
/// says exactly this.
pub assume_specification[ String::push ](s: &mut String, ch: char)
    ensures
        final(s)@ == old(s)@.push(ch),
;

// ---------------------------------------------------------------------------
// regex.
// ---------------------------------------------------------------------------

/// Whether `regex::Regex::new` accepts `pattern`. Compilation depends on the
/// pattern alone (the default size limits are fixed).
pub uninterp spec fn regex_compiles(pattern: Seq<char>) -> bool;

/// Capture group 1 of each successive non-overlapping match of `pattern` in
/// `text`, in the order `Regex::captures_iter` yields them; `None` where the
/// group took no part in the match.
pub uninterp spec fn regex_group1_captures(pattern: Seq<char>, text: Seq<char>) -> Seq<
    Option<Seq<char>>,
>;

/// Whether `pattern` matches somewhere in `text` (`Regex::is_match`).
pub uninterp spec fn regex_is_match(pattern: Seq<char>, text: Seq<char>) -> bool;

/// A compiled regular expression together with the pattern it was compiled
/// from. Only [`compile_pattern`] builds one, so the two always agree.
pub struct Pattern {
    regex: regex::Regex,
    source: String,
}

impl Pattern {
    /// The pattern this regular expression was compiled from.
    pub closed spec fn source(&self) -> Seq<char> {
        self.source@
    }
}

/// Calls `regex::Regex::new(&source)`. Claims: the result is `Ok` exactly
/// when the pattern compiles, and an `Ok` result remembers `source`.
#[verifier::external_body]
pub(crate) fn compile_pattern(source: String) -> (r: Result<Pattern, regex::Error>)
    ensures
        r is Ok <==> regex_compiles(source@),
        r matches Ok(p) ==> p.source() == source@,
{
    match regex::Regex::new(&source) {
        Ok(regex) => Ok(Pattern { regex, source }),
        Err(e) => Err(e),
    }
}

/// Calls `Regex::captures_iter(text)` and takes group 1 of each match.
/// Claims: the result is [`regex_group1_captures`] of the pattern and the text.
#[verifier::external_body]
pub(crate) fn group1_captures(p: &Pattern, text: &str) -> (r: Vec<Option<String>>)
    ensures
        r@.map_values(|o: Option<String>| opt_view(o)) == regex_group1_captures(p.source(), text@),
{
    p.regex.captures_iter(text).map(|c| c.get(1).map(|m| m.as_str().to_string())).collect()
}

/// Calls `Regex::is_match(text)`. Claims: the result is [`regex_is_match`] of
/// the pattern and the text.
#[verifier::external_body]
pub(crate) fn pattern_is_match(p: &Pattern, text: &str) -> (r: bool)
    ensures
        r == regex_is_match(p.source(), text@),
{
    p.regex.is_match(text)
}

// ---------------------------------------------------------------------------
// roxmltree.
// ---------------------------------------------------------------------------

/// One node of a parsed XML document, as far as the index reads it.
#[derive(Debug)]
pub struct XmlNode {
    /// The node is an element.
    pub element: bool,
    /// Local tag name (empty for nodes that are not elements).
    pub name: String,
    /// `Node::text()`: an element's leading text child, or a text node's text.
    pub text: Option<String>,
    /// Positions (in document order) of the node's children.
    pub children: Vec<usize>,
}

/// View of one node: `(element, name, text, children)`.
pub open spec fn node_view(n: XmlNode) -> (bool, Seq<char>, Option<Seq<char>>, Seq<usize>) {
    (n.element, n.name@, opt_view(n.text), n.children@)
}

/// The nodes of the document `xml` in document order (the document root
/// first), as `roxmltree::Document::parse` builds them; `None` when it
/// rejects the text.
pub uninterp spec fn xml_document(xml: Seq<char>) -> Option<
    Seq<(bool, Seq<char>, Option<Seq<char>>, Seq<usize>)>,
>;

/// Calls `roxmltree::Document::parse(xml)` and lists its nodes in document
/// order, each with the positions of its children. Claims: the list is
/// [`xml_document`] of the text, and every child position lies in the list
/// (`Document::descendants` visits all nodes in id order, so position and
/// `NodeId` coincide).
#[verifier::external_body]
pub(crate) fn parse_xml_nodes(xml: &str) -> (r: Result<Vec<XmlNode>, roxmltree::Error>)
    ensures
        match r {
            Ok(nodes) => xml_document(xml@) == Some(nodes@.map_values(|n: XmlNode| node_view(n)))
                && forall|i: int, k: int|
                0 <= i < nodes@.len() && 0 <= k < nodes@[i].children@.len()
                    ==> #[trigger] nodes@[i].children@[k] < nodes@.len(),
            Err(_) => xml_document(xml@) is None,
        },
{
    match roxmltree::Document::parse(xml) {
        Ok(doc) => Ok(doc.descendants().map(|n| XmlNode {
            element: n.is_element(),
            name: n.tag_name().name().to_string(),
            text: n.text().map(|t| t.to_string()),
            children: n.children().map(|c| c.id().get_usize()).collect(),
        }).collect()),
        Err(e) => Err(e),
    }
}

// ---------------------------------------------------------------------------
// Debug formatting of strings.
// ---------------------------------------------------------------------------

/// `format!("{:?}", s)`: `s` in double quotes with its special characters
/// escaped, as `<str as Debug>::fmt` writes it.
pub uninterp spec fn str_debug(s: Seq<char>) -> Seq<char>;

/// Calls `<str as Debug>::fmt` through `format!`. Claims: the result is
/// [`str_debug`] of the text.
#[verifier::external_body]
pub(crate) fn debug_quoted(s: &str) -> (r: String)
    ensures
        r@ == str_debug(s@),
{
    format!("{:?}", s)
}

// ---------------------------------------------------------------------------
// Unicode case.
// ---------------------------------------------------------------------------

/// What `str::to_lowercase` returns for a text: its full Unicode lowercase
/// mapping, which depends on the text alone.
pub uninterp spec fn unicode_lowercase(s: Seq<char>) -> Seq<char>;

/// Calls `str::to_lowercase`. Claims: the result is [`unicode_lowercase`] of
/// the text.
#[verifier::external_body]
pub(crate) fn lowercase(s: &str) -> (r: String)
    ensures
        r@ == unicode_lowercase(s@),
{
    s.to_lowercase()
}

// ---------------------------------------------------------------------------
// The system clock.
// ---------------------------------------------------------------------------

/// `std::time::SystemTime`: a reading of the system clock. Carried opaquely.
#[verifier::external_type_specification]
#[verifier::external_body]
pub struct ExSystemTime(std::time::SystemTime);

/// Calls `SystemTime::now`. Nothing is claimed of the reading: it depends on
/// the moment and on the machine's clock.
#[verifier::external_body]
pub(crate) fn system_time_now() -> (t: std::time::SystemTime) {
    std::time::SystemTime::now()
}

/// Calls `SystemTime::duration_since(UNIX_EPOCH)` and keeps the whole
/// seconds of the duration; `None` where the reading lies before the epoch.
/// Nothing more is claimed: the reading itself is unknown here.
#[verifier::external_body]
pub(crate) fn whole_seconds_since_epoch(t: &std::time::SystemTime) -> (r: Option<u64>) {
    match t.duration_since(std::time::UNIX_EPOCH) {
        Ok(d) => Some(d.as_secs()),
        Err(_) => None,
    }
}

} // verus!

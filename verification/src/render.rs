//! Plain-text renderings of index records, line by line, as the command
//! line prints them.
use crate::calendar::{push_signed_zero_padded, push_zero_padded, signed_zero_pad, zero_pad};
use crate::model::{
    opt_view, rfc_has_xml, series_prefix, Author, Counts, Date, ErrataSyncStats, Erratum, Facet, Rfc, SubSeries,
    SubSeriesRef, SyncStats,
};
use crate::calendar::{format_epoch_utc, is_utc_text_of};
use crate::text::{
    chars_of, decimal, join_seqs, join_strings, lines_of, push_decimal, push_signed_decimal,
    push_str, signed_text, string_from, string_of, text_lines, trim, trim_ws, views,
};
use vstd::string::StringSliceAdditionalSpecFns;
use vstd::prelude::*;

verus! {

/// `lines` extended by `more`.
fn append_lines(lines: &mut Vec<String>, more: Vec<String>)
    ensures
        views(final(lines)@) == views(old(lines)@) + views(more@),
{
    let ghost start = lines@;
    for i in 0..more.len()
        invariant
            views(lines@) == views(start) + views(more@.take(i as int)),
    {
        let ghost before = lines@;
        lines.push(more[i].clone());
        proof {
            assert(views(lines@) =~= views(before).push(more@[i as int]@));
            assert(views(more@.take(i + 1)) =~= views(more@.take(i as int)).push(more@[i as int]@));
        }
    }
    assert(more@.take(more@.len() as int) == more@);
}

/// `label` followed by the value, as a single line, when there is a value.
pub open spec fn labelled_line(label: Seq<char>, v: Option<String>) -> Seq<Seq<char>> {
    match v {
        Some(s) => seq![label + s@],
        None => seq![],
    }
}

fn labelled(label: &str, v: &Option<String>) -> (r: Vec<String>)
    ensures
        views(r@) == labelled_line(label@, *v),
{
    let mut r: Vec<String> = Vec::new();
    match v {
        Some(s) => {
            let mut l = string_from(label);
            push_str(&mut l, s.as_str());
            r.push(l);
            assert(views(r@) =~= seq![l@]);
        },
        None => {
            assert(views(r@) =~= Seq::<Seq<char>>::empty());
        },
    }
    r
}

/// The publication date as `YYYY-MM`, `YYYY`, or `unknown`.
pub open spec fn date_text(d: Option<Date>) -> Seq<char> {
    match d {
        Some(dt) => match dt.month {
            Some(m) => signed_zero_pad(dt.year as int, 4) + seq!['-'] + zero_pad(m as nat, 2),
            None => signed_zero_pad(dt.year as int, 4),
        },
        None => "unknown"@,
    }
}

/// `  (N pages)` when the page count is known.
pub open spec fn pages_text(p: Option<u32>) -> Seq<char> {
    match p {
        Some(n) => "  ("@ + decimal(n as nat) + " pages)"@,
        None => seq![],
    }
}

/// The `Stream:` line: stream, then area and working group when known.
pub open spec fn stream_line(r: Rfc) -> Seq<Seq<char>> {
    match r.stream {
        Some(s) => seq![
            "Stream:  "@ + s@ + match r.area {
                Some(a) => "  area="@ + a@,
                None => seq![],
            } + match r.wg {
                Some(w) => "  wg="@ + w@,
                None => seq![],
            },
        ],
        None => seq![],
    }
}

/// The `PubStatus:` line, shown only where it differs from the current status.
pub open spec fn pub_status_line(r: Rfc) -> Seq<Seq<char>> {
    match r.publication_status {
        Some(p) => if opt_view(r.current_status) == Some(p@) {
            seq![]
        } else {
            seq!["PubStatus: "@ + p@]
        },
        None => seq![],
    }
}

/// An author as printed: the name, with the role in parentheses.
pub open spec fn author_text(a: Author) -> Seq<char> {
    match a.role {
        Some(role) => a.name@ + " ("@ + role@ + ")"@,
        None => a.name@,
    }
}

/// `RFCn`.
pub open spec fn rfc_label(n: u32) -> Seq<char> {
    "RFC"@ + decimal(n as nat)
}

/// The line listing related RFCs under `label`, absent when there are none.
pub open spec fn relation_line(label: Seq<char>, nums: Seq<u32>) -> Seq<Seq<char>> {
    if nums.len() == 0 {
        seq![]
    } else {
        seq![label + ": "@ + join_seqs(nums.map_values(|n: u32| rfc_label(n)), ", "@)]
    }
}

/// One `Part of:` line per sub-series the RFC belongs to.
pub open spec fn part_of_text(s: SubSeriesRef) -> Seq<char> {
    match s.title {
        Some(t) => "Part of: "@ + s.doc_id@ + " — "@ + t@,
        None => "Part of: "@ + s.doc_id@,
    }
}

/// The abstract, after an empty line and a heading, indented by two.
pub open spec fn abstract_lines(a: Option<String>) -> Seq<Seq<char>> {
    match a {
        Some(t) => seq![seq![], "Abstract:"@] + text_lines(t@).map_values(|l: Seq<char>| "  "@ + l),
        None => seq![],
    }
}

/// The full metadata card of an RFC.
pub open spec fn rfc_card_lines(r: Rfc) -> Seq<Seq<char>> {
    seq!["RFC "@ + decimal(r.number as nat) + " — "@ + r.title@]
        + seq!["Date:    "@ + date_text(r.date) + pages_text(r.page_count)]
        + labelled_line("Status:  "@, r.current_status)
        + pub_status_line(r)
        + stream_line(r)
        + labelled_line("Draft:   "@, r.draft)
        + labelled_line("DOI:     "@, r.doi)
        + seq![
        "Formats: "@ + join_seqs(views(r.formats@), ","@) + if rfc_has_xml(r) {
            " (XML available)"@
        } else {
            seq![]
        },
    ] + (if r.authors@.len() == 0 {
        seq![]
    } else {
        seq!["Authors: "@ + join_seqs(r.authors@.map_values(|a: Author| author_text(a)), ", "@)]
    }) + relation_line("Obsoletes"@, r.obsoletes@)
        + relation_line("Obsoleted by"@, r.obsoleted_by@)
        + relation_line("Updates"@, r.updates@)
        + relation_line("Updated by"@, r.updated_by@)
        + r.sub_series@.map_values(|s: SubSeriesRef| part_of_text(s))
        + (if r.has_errata {
        seq!["Errata:  yes  (https://www.rfc-editor.org/errata/rfc"@ + decimal(r.number as nat) + ")"@]
    } else {
        seq![]
    }) + abstract_lines(r.abstract_text)
}

fn one_line(l: String) -> (r: Vec<String>)
    ensures
        views(r@) == seq![l@],
{
    let mut r: Vec<String> = Vec::new();
    r.push(l);
    assert(views(r@) =~= seq![l@]);
    r
}

fn no_lines() -> (r: Vec<String>)
    ensures
        views(r@) == Seq::<Seq<char>>::empty(),
{
    let r: Vec<String> = Vec::new();
    assert(views(r@) =~= Seq::<Seq<char>>::empty());
    r
}

fn date_line(r: &Rfc) -> (l: String)
    ensures
        l@ == "Date:    "@ + date_text(r.date) + pages_text(r.page_count),
{
    let mut l = string_from("Date:    ");
    match &r.date {
        Some(dt) => {
            push_signed_zero_padded(&mut l, dt.year as i64, 4);
            match dt.month {
                Some(m) => {
                    l.push('-');
                    push_zero_padded(&mut l, m as u64, 2);
                },
                None => {},
            }
        },
        None => {
            push_str(&mut l, "unknown");
        },
    }
    let ghost mid = l@;
    match r.page_count {
        Some(n) => {
            push_str(&mut l, "  (");
            push_decimal(&mut l, n as u64);
            push_str(&mut l, " pages)");
        },
        None => {},
    }
    assert(l@ =~= "Date:    "@ + date_text(r.date) + pages_text(r.page_count));
    l
}

fn pub_status(r: &Rfc) -> (v: Vec<String>)
    ensures
        views(v@) == pub_status_line(*r),
{
    match &r.publication_status {
        Some(p) => {
            let same = match &r.current_status {
                Some(c) => crate::text::str_eq(c.as_str(), p.as_str()),
                None => false,
            };
            if same {
                no_lines()
            } else {
                let mut l = string_from("PubStatus: ");
                push_str(&mut l, p.as_str());
                one_line(l)
            }
        },
        None => no_lines(),
    }
}

fn stream(r: &Rfc) -> (v: Vec<String>)
    ensures
        views(v@) == stream_line(*r),
{
    match &r.stream {
        Some(s) => {
            let mut l = string_from("Stream:  ");
            push_str(&mut l, s.as_str());
            let ghost a0 = l@;
            match &r.area {
                Some(a) => {
                    push_str(&mut l, "  area=");
                    push_str(&mut l, a.as_str());
                },
                None => {},
            }
            let ghost a1 = l@;
            match &r.wg {
                Some(w) => {
                    push_str(&mut l, "  wg=");
                    push_str(&mut l, w.as_str());
                },
                None => {},
            }
            assert(l@ =~= stream_line(*r)[0]);
            one_line(l)
        },
        None => no_lines(),
    }
}

fn formats_line(r: &Rfc) -> (l: String)
    ensures
        l@ == "Formats: "@ + join_seqs(views(r.formats@), ","@) + if rfc_has_xml(*r) {
            " (XML available)"@
        } else {
            seq![]
        },
{
    let mut l = string_from("Formats: ");
    let j = join_strings(&r.formats, ",");
    push_str(&mut l, j.as_str());
    let ghost mid = l@;
    if r.has_xml() {
        push_str(&mut l, " (XML available)");
    }
    assert(l@ =~= "Formats: "@ + join_seqs(views(r.formats@), ","@) + if rfc_has_xml(*r) {
        " (XML available)"@
    } else {
        seq![]
    });
    l
}

fn author_string(a: &Author) -> (s: String)
    ensures
        s@ == author_text(*a),
{
    let mut s = string_from(a.name.as_str());
    match &a.role {
        Some(role) => {
            push_str(&mut s, " (");
            push_str(&mut s, role.as_str());
            push_str(&mut s, ")");
        },
        None => {},
    }
    s
}

fn authors(r: &Rfc) -> (v: Vec<String>)
    ensures
        views(v@) == (if r.authors@.len() == 0 {
            seq![]
        } else {
            seq!["Authors: "@ + join_seqs(r.authors@.map_values(|a: Author| author_text(a)), ", "@)]
        }),
{
    if r.authors.len() == 0 {
        return no_lines();
    }
    let mut texts: Vec<String> = Vec::new();
    for i in 0..r.authors.len()
        invariant
            views(texts@) == r.authors@.take(i as int).map_values(|a: Author| author_text(a)),
    {
        let t = author_string(&r.authors[i]);
        let ghost before = texts@;
        texts.push(t);
        proof {
            assert(views(texts@) =~= views(before).push(t@));
            assert(r.authors@.take(i + 1).map_values(|a: Author| author_text(a)) =~= r.authors@.take(
                i as int,
            ).map_values(|a: Author| author_text(a)).push(author_text(r.authors@[i as int])));
        }
    }
    assert(r.authors@.take(r.authors@.len() as int) == r.authors@);
    let mut l = string_from("Authors: ");
    let j = join_strings(&texts, ", ");
    push_str(&mut l, j.as_str());
    one_line(l)
}

/// The line listing related RFCs under `label`, absent when there are none.
pub fn relation(label: &str, nums: &Vec<u32>) -> (v: Vec<String>)
    ensures
        views(v@) == relation_line(label@, nums@),
{
    if nums.len() == 0 {
        return no_lines();
    }
    let mut texts: Vec<String> = Vec::new();
    for i in 0..nums.len()
        invariant
            views(texts@) == nums@.take(i as int).map_values(|n: u32| rfc_label(n)),
    {
        let mut t = string_from("RFC");
        push_decimal(&mut t, nums[i] as u64);
        let ghost before = texts@;
        texts.push(t);
        proof {
            assert(views(texts@) =~= views(before).push(t@));
            assert(nums@.take(i + 1).map_values(|n: u32| rfc_label(n)) =~= nums@.take(
                i as int,
            ).map_values(|n: u32| rfc_label(n)).push(rfc_label(nums@[i as int])));
        }
    }
    assert(nums@.take(nums@.len() as int) == nums@);
    let mut l = string_from(label);
    push_str(&mut l, ": ");
    let j = join_strings(&texts, ", ");
    push_str(&mut l, j.as_str());
    one_line(l)
}

fn part_of(r: &Rfc) -> (v: Vec<String>)
    ensures
        views(v@) == r.sub_series@.map_values(|s: SubSeriesRef| part_of_text(s)),
{
    let mut v: Vec<String> = Vec::new();
    for i in 0..r.sub_series.len()
        invariant
            views(v@) == r.sub_series@.take(i as int).map_values(|s: SubSeriesRef| part_of_text(s)),
    {
        let sub = &r.sub_series[i];
        let mut l = string_from("Part of: ");
        push_str(&mut l, sub.doc_id.as_str());
        match &sub.title {
            Some(t) => {
                push_str(&mut l, " — ");
                push_str(&mut l, t.as_str());
            },
            None => {},
        }
        let ghost before = v@;
        v.push(l);
        proof {
            assert(views(v@) =~= views(before).push(l@));
            assert(r.sub_series@.take(i + 1).map_values(|s: SubSeriesRef| part_of_text(s))
                =~= r.sub_series@.take(i as int).map_values(|s: SubSeriesRef| part_of_text(s)).push(
                part_of_text(r.sub_series@[i as int]),
            ));
        }
    }
    assert(r.sub_series@.take(r.sub_series@.len() as int) == r.sub_series@);
    v
}

/// `lines`, each indented by `indent`.
fn indented(lines: &Vec<String>, indent: &str) -> (v: Vec<String>)
    ensures
        views(v@) == views(lines@).map_values(|l: Seq<char>| indent@ + l),
{
    let mut v: Vec<String> = Vec::new();
    for i in 0..lines.len()
        invariant
            views(v@) == views(lines@.take(i as int)).map_values(|l: Seq<char>| indent@ + l),
    {
        let mut l = string_from(indent);
        push_str(&mut l, lines[i].as_str());
        let ghost before = v@;
        v.push(l);
        proof {
            assert(views(v@) =~= views(before).push(l@));
            assert(views(lines@.take(i + 1)).map_values(|l: Seq<char>| indent@ + l) =~= views(
                lines@.take(i as int),
            ).map_values(|l: Seq<char>| indent@ + l).push(indent@ + lines@[i as int]@));
        }
    }
    assert(lines@.take(lines@.len() as int) == lines@);
    v
}

fn abstract_part(r: &Rfc) -> (v: Vec<String>)
    ensures
        views(v@) == abstract_lines(r.abstract_text),
{
    match &r.abstract_text {
        Some(t) => {
            let mut v: Vec<String> = Vec::new();
            v.push(String::new());
            v.push(string_from("Abstract:"));
            let body = indented(&lines_of(t.as_str()), "  ");
            let ghost head = v@;
            assert(views(head) =~= seq![seq![], "Abstract:"@]);
            append_lines(&mut v, body);
            v
        },
        None => no_lines(),
    }
}

/// The metadata card of an RFC, one string per printed line.
pub fn rfc_card(r: &Rfc) -> (lines: Vec<String>)
    ensures
        views(lines@) == rfc_card_lines(*r),
{
    let mut head = string_from("RFC ");
    push_decimal(&mut head, r.number as u64);
    push_str(&mut head, " — ");
    push_str(&mut head, r.title.as_str());
    let mut lines = one_line(head);
    append_lines(&mut lines, one_line(date_line(r)));
    append_lines(&mut lines, labelled("Status:  ", &r.current_status));
    append_lines(&mut lines, pub_status(r));
    append_lines(&mut lines, stream(r));
    append_lines(&mut lines, labelled("Draft:   ", &r.draft));
    append_lines(&mut lines, labelled("DOI:     ", &r.doi));
    append_lines(&mut lines, one_line(formats_line(r)));
    append_lines(&mut lines, authors(r));
    append_lines(&mut lines, relation("Obsoletes", &r.obsoletes));
    append_lines(&mut lines, relation("Obsoleted by", &r.obsoleted_by));
    append_lines(&mut lines, relation("Updates", &r.updates));
    append_lines(&mut lines, relation("Updated by", &r.updated_by));
    append_lines(&mut lines, part_of(r));
    if r.has_errata {
        let mut l = string_from("Errata:  yes  (https://www.rfc-editor.org/errata/rfc");
        push_decimal(&mut l, r.number as u64);
        push_str(&mut l, ")");
        append_lines(&mut lines, one_line(l));
    }
    append_lines(&mut lines, abstract_part(r));
    assert(views(lines@) =~= rfc_card_lines(*r));
    lines
}

/// Bytes of `s` in UTF-8.
pub open spec fn utf8_len(s: Seq<char>) -> int {
    vstd::utf8::encode_utf8(s).len() as int
}

/// Characters shown of a block before it is cut, counted in bytes.
pub open spec fn block_limit() -> int {
    200
}

/// The lines of a text block from line `lines[0]` on, indented by four,
/// `shown` bytes having been printed before: unless `full`, the line that
/// would pass the limit is cut to the characters that still fit, marked
/// with an ellipsis and followed by a note, and nothing follows.
pub open spec fn block_lines_from(lines: Seq<Seq<char>>, full: bool, shown: int) -> Seq<Seq<char>>
    decreases lines.len(),
{
    if lines.len() == 0 {
        seq![]
    } else {
        let l = lines[0];
        if !full && shown + utf8_len(l) > block_limit() {
            let remaining = if block_limit() - shown > 0 {
                block_limit() - shown
            } else {
                0
            };
            let cut = if remaining <= l.len() {
                l.take(remaining)
            } else {
                l
            };
            seq!["    "@ + cut + "…"@, "    [truncated; --full to show]"@]
        } else {
            seq!["    "@ + l] + block_lines_from(
                lines.drop_first(),
                full,
                if full {
                    shown
                } else {
                    shown + utf8_len(l) + 1
                },
            )
        }
    }
}

/// A text block as printed under an erratum.
pub open spec fn block_lines(text: Seq<char>, full: bool) -> Seq<Seq<char>> {
    block_lines_from(text_lines(text), full, 0)
}

/// A text block as printed under an erratum: each line indented by four;
/// unless `full`, cut after about 200 bytes.
pub fn block(text: &str, full: bool) -> (v: Vec<String>)
    ensures
        views(v@) == block_lines(text@, full),
{
    let lines = lines_of(text);
    let mut v: Vec<String> = Vec::new();
    let mut shown: usize = 0;
    let mut i: usize = 0;
    assert(views(lines@).skip(0) =~= views(lines@));
    assert(views(v@) + block_lines(text@, full) =~= block_lines(text@, full));
    while i < lines.len()
        invariant
            i <= lines@.len(),
            !full ==> shown <= block_limit() + 1,
            views(lines@) == text_lines(text@),
            block_lines(text@, full) == views(v@) + block_lines_from(
                views(lines@).skip(i as int),
                full,
                shown as int,
            ),
        decreases lines@.len() - i,
    {
        let ghost rest = views(lines@).skip(i as int);
        let l = &lines[i];
        let blen = l.as_str().as_bytes().len();
        proof {
            assert(rest[0] == l@);
            assert(rest.drop_first() =~= views(lines@).skip(i + 1));
        }
        if !full && (shown > 200 || blen > 200 - shown) {
            let remaining: usize = if shown < 200 {
                200 - shown
            } else {
                0
            };
            let cs = chars_of(l.as_str());
            let end = if remaining <= cs.len() {
                remaining
            } else {
                cs.len()
            };
            let mut a = string_from("    ");
            let cut = string_of(&cs, 0, end);
            push_str(&mut a, cut.as_str());
            push_str(&mut a, "…");
            let ghost before = v@;
            v.push(a);
            v.push(string_from("    [truncated; --full to show]"));
            proof {
                if remaining as int <= l@.len() {
                    assert(cs@.subrange(0, end as int) =~= l@.take(remaining as int));
                } else {
                    assert(cs@.subrange(0, end as int) =~= l@);
                }
                assert(views(v@) =~= views(before) + block_lines_from(rest, full, shown as int));
            }
            assert(block_lines(text@, full) == views(v@));
            return v;
        }
        let mut a = string_from("    ");
        push_str(&mut a, l.as_str());
        let ghost before = v@;
        v.push(a);
        proof {
            assert(views(v@) =~= views(before).push("    "@ + l@));
        }
        if !full {
            shown = shown + blen + 1;
        }
        i = i + 1;
    }
    proof {
        assert(views(lines@).skip(i as int) =~= Seq::<Seq<char>>::empty());
        assert(views(v@) + Seq::<Seq<char>>::empty() =~= views(v@));
    }
    v
}

/// The value of an optional text, or `dflt`.
pub open spec fn text_or(o: Option<String>, dflt: Seq<char>) -> Seq<char> {
    match o {
        Some(s) => s@,
        None => dflt,
    }
}

/// A labelled text block, absent without a text.
pub open spec fn block_part(label: Seq<char>, o: Option<String>, full: bool) -> Seq<Seq<char>> {
    match o {
        Some(t) => seq![label] + block_lines(t@, full),
        None => seq![],
    }
}

/// An erratum as printed: a header line, who submitted and verified it,
/// and its original text, correction and notes as blocks (notes only when
/// not blank).
pub open spec fn erratum_lines(e: Erratum, full: bool) -> Seq<Seq<char>> {
    seq![
        "EID "@ + decimal(e.eid as nat) + "  RFC"@ + decimal(e.rfc as nat) + "  ["@ + e.status@
            + " / "@ + e.kind@ + "]  §"@ + text_or(e.section, "-"@),
    ] + match e.submitter {
        Some(s) => seq!["  submitted: "@ + s@ + " ("@ + text_or(e.submitted, seq![]) + ")"@],
        None => seq![],
    } + labelled_line("  verifier:  "@, e.verifier) + block_part("  original:"@, e.orig_text, full)
        + block_part("  corrected:"@, e.correct_text, full) + match e.notes {
        Some(n) => if trim_ws(n@).len() > 0 {
            block_part("  notes:"@, e.notes, full)
        } else {
            seq![]
        },
        None => seq![],
    }
}

fn text_or_exec(o: &Option<String>, dflt: &str) -> (r: String)
    ensures
        r@ == text_or(*o, dflt@),
{
    match o {
        Some(s) => string_from(s.as_str()),
        None => string_from(dflt),
    }
}

fn block_part_exec(label: &str, o: &Option<String>, full: bool) -> (v: Vec<String>)
    ensures
        views(v@) == block_part(label@, *o, full),
{
    match o {
        Some(t) => {
            let mut v = one_line(string_from(label));
            append_lines(&mut v, block(t.as_str(), full));
            v
        },
        None => no_lines(),
    }
}

/// An erratum, one string per printed line; text blocks are cut after
/// about 200 bytes unless `full`.
pub fn erratum_card(e: &Erratum, full: bool) -> (lines: Vec<String>)
    ensures
        views(lines@) == erratum_lines(*e, full),
{
    let mut head = string_from("EID ");
    push_decimal(&mut head, e.eid as u64);
    push_str(&mut head, "  RFC");
    push_decimal(&mut head, e.rfc as u64);
    push_str(&mut head, "  [");
    push_str(&mut head, e.status.as_str());
    push_str(&mut head, " / ");
    push_str(&mut head, e.kind.as_str());
    push_str(&mut head, "]  §");
    let sec = text_or_exec(&e.section, "-");
    push_str(&mut head, sec.as_str());
    let mut lines = one_line(head);
    match &e.submitter {
        Some(s) => {
            let mut l = string_from("  submitted: ");
            push_str(&mut l, s.as_str());
            push_str(&mut l, " (");
            let d = text_or_exec(&e.submitted, "");
            push_str(&mut l, d.as_str());
            push_str(&mut l, ")");
            proof {
                reveal_strlit("");
                assert(""@ =~= Seq::<char>::empty());
            }
            append_lines(&mut lines, one_line(l));
        },
        None => {
            append_lines(&mut lines, no_lines());
        },
    }
    append_lines(&mut lines, labelled("  verifier:  ", &e.verifier));
    append_lines(&mut lines, block_part_exec("  original:", &e.orig_text, full));
    append_lines(&mut lines, block_part_exec("  corrected:", &e.correct_text, full));
    match &e.notes {
        Some(n) => {
            let t = trim(n.as_str());
            if t.as_str().unicode_len() > 0 {
                append_lines(&mut lines, block_part_exec("  notes:", &e.notes, full));
            } else {
                append_lines(&mut lines, no_lines());
            }
        },
        None => {
            append_lines(&mut lines, no_lines());
        },
    }
    assert(views(lines@) =~= erratum_lines(*e, full));
    lines
}

/// `s` padded with spaces on the right to `w` characters, as `{:<w}` does.
pub open spec fn pad_right(s: Seq<char>, w: int) -> Seq<char> {
    if s.len() < w {
        s + Seq::new((w - s.len()) as nat, |i: int| ' ')
    } else {
        s
    }
}


/// `s` padded with spaces on the right to `w` characters.
pub fn padded(s: &str, w: usize) -> (r: String)
    ensures
        r@ == pad_right(s@, w as int),
{
    let mut r = string_from(s);
    let n = s.unicode_len();
    let mut k: usize = n;
    while k < w
        invariant
            n == s@.len(),
            n <= k,
            n < w ==> k <= w,
            n >= w ==> k == n,
            r@ == s@ + Seq::new((k - n) as nat, |i: int| ' '),
        decreases w - k,
    {
        r.push(' ');
        k = k + 1;
        assert(r@ =~= s@ + Seq::new((k - n) as nat, |i: int| ' '));
    }
    proof {
        if n >= w {
            assert(Seq::new((k - n) as nat, |i: int| ' ') =~= Seq::<char>::empty());
            assert(r@ =~= s@);
        }
    }
    r
}

/// `n` in decimal, padded with spaces on the right to `w` characters.
fn padded_decimal(n: u64, w: usize) -> (r: String)
    ensures
        r@ == pad_right(decimal(n as nat), w as int),
{
    let mut d = String::new();
    push_decimal(&mut d, n);
    padded(d.as_str(), w)
}

/// A listing line: number, XML mark, year, status, title.
pub open spec fn list_line_text(r: Rfc) -> Seq<char> {
    "RFC"@ + pad_right(decimal(r.number as nat), 5) + " "@ + (if rfc_has_xml(r) {
        "x"@
    } else {
        "-"@
    }) + " ["@ + match r.date {
        Some(d) => signed_text(d.year as int),
        None => "----"@,
    } + " "@ + text_or(r.current_status, seq![]) + "] "@ + r.title@
}

/// The line that a listing prints for `r`.
pub fn list_line(r: &Rfc) -> (l: String)
    ensures
        l@ == list_line_text(*r),
{
    let mut l = string_from("RFC");
    let num = padded_decimal(r.number as u64, 5);
    push_str(&mut l, num.as_str());
    push_str(&mut l, " ");
    if r.has_xml() {
        push_str(&mut l, "x");
    } else {
        push_str(&mut l, "-");
    }
    push_str(&mut l, " [");
    match &r.date {
        Some(d) => {
            push_signed_decimal(&mut l, d.year as i64);
        },
        None => {
            push_str(&mut l, "----");
        },
    }
    push_str(&mut l, " ");
    let st = text_or_exec(&r.current_status, "");
    proof {
        reveal_strlit("");
        assert(""@ =~= Seq::<char>::empty());
    }
    push_str(&mut l, st.as_str());
    push_str(&mut l, "] ");
    push_str(&mut l, r.title.as_str());
    l
}

/// A referenced RFC as listed: number, then its title or a note that it is
/// not in the index.
pub open spec fn ref_line_text(n: u32, title: Option<String>) -> Seq<char> {
    "RFC"@ + pad_right(decimal(n as nat), 5) + " "@ + text_or(title, "(not in index)"@)
}

/// The line that lists a referenced RFC.
pub fn ref_line(n: u32, title: &Option<String>) -> (l: String)
    ensures
        l@ == ref_line_text(n, *title),
{
    let mut l = string_from("RFC");
    let num = padded_decimal(n as u64, 5);
    push_str(&mut l, num.as_str());
    push_str(&mut l, " ");
    let t = text_or_exec(title, "(not in index)");
    push_str(&mut l, t.as_str());
    l
}

/// A sub-series as printed: its kind and number with the title, then its
/// members with their titles (`titles[i]` being the title of member `i`).
pub open spec fn sub_series_lines(sub: SubSeries, titles: Seq<Option<String>>) -> Seq<Seq<char>> {
    let header = series_prefix(sub.series) + " "@ + decimal(sub.number as nat);
    seq![
        match sub.title {
            Some(t) => header + " — "@ + t@,
            None => header,
        },
    ] + if sub.members@.len() == 0 {
        seq!["(no member RFCs)"@]
    } else {
        seq!["Members:"@] + Seq::new(
            sub.members@.len(),
            |i: int|
                "  RFC"@ + pad_right(decimal(sub.members@[i] as nat), 5) + "  "@ + text_or(
                    titles[i],
                    "(not in index)"@,
                ),
        )
    }
}

/// A sub-series, one string per printed line; `titles[i]` is the title of
/// member `i`, `None` when it is not in the index.
pub fn sub_series_card(sub: &SubSeries, titles: &Vec<Option<String>>) -> (lines: Vec<String>)
    requires
        titles@.len() == sub.members@.len(),
    ensures
        views(lines@) == sub_series_lines(*sub, titles@),
{
    let mut head = string_from(sub.series.as_str());
    push_str(&mut head, " ");
    push_decimal(&mut head, sub.number as u64);
    match &sub.title {
        Some(t) => {
            push_str(&mut head, " — ");
            push_str(&mut head, t.as_str());
        },
        None => {},
    }
    let mut lines = one_line(head);
    if sub.members.len() == 0 {
        append_lines(&mut lines, one_line(string_from("(no member RFCs)")));
        return lines;
    }
    let ghost first = views(lines@);
    lines.push(string_from("Members:"));
    let ghost f = |i: int|
        "  RFC"@ + pad_right(decimal(sub.members@[i] as nat), 5) + "  "@ + text_or(
            titles@[i],
            "(not in index)"@,
        );
    for i in 0..sub.members.len()
        invariant
            titles@.len() == sub.members@.len(),
            f == (|i: int|
                "  RFC"@ + pad_right(decimal(sub.members@[i] as nat), 5) + "  "@ + text_or(
                    titles@[i],
                    "(not in index)"@,
                )),
            views(lines@) == first + seq!["Members:"@] + Seq::new(i as nat, f),
    {
        let mut l = string_from("  RFC");
        let num = padded_decimal(sub.members[i] as u64, 5);
        push_str(&mut l, num.as_str());
        push_str(&mut l, "  ");
        let t = text_or_exec(&titles[i], "(not in index)");
        push_str(&mut l, t.as_str());
        let ghost before = lines@;
        lines.push(l);
        proof {
            assert(views(lines@) =~= views(before).push(l@));
            assert(Seq::new((i + 1) as nat, f) =~= Seq::new(i as nat, f).push(f(i as int)));
        }
    }
    assert(views(lines@) =~= sub_series_lines(*sub, titles@));
    lines
}

/// The widest value of `fs`, in UTF-8 bytes.
pub open spec fn widest_value(fs: Seq<Facet>) -> int
    decreases fs.len(),
{
    if fs.len() == 0 {
        0
    } else {
        let w = widest_value(fs.drop_last());
        let l = utf8_len(fs.last().value@);
        if l > w {
            l
        } else {
            w
        }
    }
}

/// How many of `total` facet values are printed for `limit` (0: all).
pub open spec fn facets_shown(total: int, limit: int) -> int {
    if limit == 0 || limit >= total {
        total
    } else {
        limit
    }
}

/// The facet listing as printed: each shown value padded to the widest
/// value, two spaces, and its count.
pub open spec fn facet_lines(fs: Seq<Facet>, limit: int) -> Seq<Seq<char>> {
    Seq::new(
        facets_shown(fs.len() as int, limit) as nat,
        |i: int| pad_right(fs[i].value@, widest_value(fs)) + "  "@ + decimal(fs[i].count as nat),
    )
}

/// The note on values left out by the limit, if any.
pub open spec fn facet_more_note(total: int, limit: int) -> Option<Seq<char>> {
    if limit != 0 && total > limit {
        Some("("@ + decimal((total - limit) as nat) + " more — pass --limit 0 to show all)"@)
    } else {
        None
    }
}

fn widest(fs: &Vec<Facet>) -> (w: usize)
    ensures
        w == widest_value(fs@),
{
    let mut w: usize = 0;
    for i in 0..fs.len()
        invariant
            w == widest_value(fs@.take(i as int)),
    {
        let l = fs[i].value.as_str().as_bytes().len();
        proof {
            assert(fs@.take(i + 1).drop_last() =~= fs@.take(i as int));
            assert(fs@.take(i + 1).last() == fs@[i as int]);
        }
        if l > w {
            w = l;
        }
    }
    assert(fs@.take(fs@.len() as int) == fs@);
    w
}

/// A facet listing, one string per printed line, and the note on values
/// left out when `limit` (0: no limit) cuts it.
pub fn facet_listing(fs: &Vec<Facet>, limit: usize) -> (r: (Vec<String>, Option<String>))
    ensures
        views(r.0@) == facet_lines(fs@, limit as int),
        match r.1 {
            Some(s) => facet_more_note(fs@.len() as int, limit as int) == Some(s@),
            None => facet_more_note(fs@.len() as int, limit as int) is None,
        },
{
    let width = widest(fs);
    let take = if limit == 0 || limit >= fs.len() {
        fs.len()
    } else {
        limit
    };
    let ghost f = |i: int| pad_right(fs@[i].value@, widest_value(fs@)) + "  "@ + decimal(
        fs@[i].count as nat,
    );
    let mut lines: Vec<String> = Vec::new();
    for i in 0..take
        invariant
            take <= fs@.len(),
            width == widest_value(fs@),
            f == (|i: int| pad_right(fs@[i].value@, widest_value(fs@)) + "  "@ + decimal(
                fs@[i].count as nat,
            )),
            views(lines@) == Seq::new(i as nat, f),
    {
        let mut l = padded(fs[i].value.as_str(), width);
        push_str(&mut l, "  ");
        push_decimal(&mut l, fs[i].count as u64);
        let ghost before = lines@;
        lines.push(l);
        proof {
            assert(views(lines@) =~= views(before).push(l@));
            assert(Seq::new((i + 1) as nat, f) =~= Seq::new(i as nat, f).push(f(i as int)));
        }
    }
    assert(views(lines@) =~= facet_lines(fs@, limit as int));
    let note = if limit != 0 && fs.len() > limit {
        let mut m = string_from("(");
        push_decimal(&mut m, (fs.len() - limit) as u64);
        push_str(&mut m, " more — pass --limit 0 to show all)");
        Some(m)
    } else {
        None
    };
    (lines, note)
}

/// The status report of the local database (after its path line).
pub open spec fn status_lines_ok(c: Counts, synced: Option<i64>, lines: Seq<Seq<char>>) -> bool {
    &&& lines.len() == 4
    &&& lines[0] == "RFCs:          "@ + decimal(c.rfcs as nat)
    &&& lines[1] == "BCP/STD/FYI:   "@ + decimal(c.bcps as nat) + " / "@ + decimal(c.stds as nat)
        + " / "@ + decimal(c.fyis as nat)
    &&& lines[2] == "Bodies cached: "@ + decimal(c.bodies_cached as nat)
    &&& match synced {
        Some(ts) => exists|t: Seq<char>|
            #[trigger] is_utc_text_of(ts as int, t) && lines[3] == "Last sync:     "@ + t,
        None => lines[3] == "Last sync:     "@ + "never"@,
    }
}

/// The counts and the time of the last sync, one string per printed line.
pub fn status_lines(c: &Counts, synced: Option<i64>) -> (lines: Vec<String>)
    ensures
        status_lines_ok(*c, synced, views(lines@)),
{
    let mut lines: Vec<String> = Vec::new();
    let mut a = string_from("RFCs:          ");
    push_decimal(&mut a, c.rfcs as u64);
    lines.push(a);
    let mut b = string_from("BCP/STD/FYI:   ");
    push_decimal(&mut b, c.bcps as u64);
    push_str(&mut b, " / ");
    push_decimal(&mut b, c.stds as u64);
    push_str(&mut b, " / ");
    push_decimal(&mut b, c.fyis as u64);
    lines.push(b);
    let mut d = string_from("Bodies cached: ");
    push_decimal(&mut d, c.bodies_cached as u64);
    lines.push(d);
    let mut e = string_from("Last sync:     ");
    match synced {
        Some(ts) => {
            let t = format_epoch_utc(ts);
            push_str(&mut e, t.as_str());
            lines.push(e);
            assert(views(lines@)[3] == "Last sync:     "@ + t@);
            assert(is_utc_text_of(ts as int, t@));
            assert(exists|u: Seq<char>|
                #[trigger] is_utc_text_of(ts as int, u) && views(lines@)[3] == "Last sync:     "@ + u);
        },
        None => {
            push_str(&mut e, "never");
            lines.push(e);
        },
    }
    assert(views(lines@).len() == 4);
    assert(views(lines@)[0] == lines@[0]@);
    assert(views(lines@)[1] == lines@[1]@);
    assert(views(lines@)[2] == lines@[2]@);
    assert(views(lines@)[3] == lines@[3]@);
    lines
}

/// What an index sync reports.
pub open spec fn sync_report_text(s: SyncStats) -> Seq<char> {
    if s.not_modified {
        "Index unchanged (validators match)"@
    } else {
        "Ingested "@ + decimal(s.rfcs as nat) + " RFCs, "@ + decimal(s.bcps as nat) + " BCPs, "@
            + decimal(s.stds as nat) + " STDs, "@ + decimal(s.fyis as nat) + " FYIs ("@ + decimal(
            s.bytes as nat,
        ) + " bytes downloaded)"@
    }
}

/// The line an index sync prints.
pub fn sync_report(s: &SyncStats) -> (l: String)
    ensures
        l@ == sync_report_text(*s),
{
    if s.not_modified {
        return string_from("Index unchanged (validators match)");
    }
    let mut l = string_from("Ingested ");
    push_decimal(&mut l, s.rfcs as u64);
    push_str(&mut l, " RFCs, ");
    push_decimal(&mut l, s.bcps as u64);
    push_str(&mut l, " BCPs, ");
    push_decimal(&mut l, s.stds as u64);
    push_str(&mut l, " STDs, ");
    push_decimal(&mut l, s.fyis as u64);
    push_str(&mut l, " FYIs (");
    push_decimal(&mut l, s.bytes as u64);
    push_str(&mut l, " bytes downloaded)");
    l
}

/// What an errata sync reports.
pub open spec fn errata_report_text(s: ErrataSyncStats) -> Seq<char> {
    if s.not_modified {
        "Errata unchanged (validators match)"@
    } else {
        "Ingested "@ + decimal(s.errata as nat) + " errata ("@ + decimal(s.bytes as nat)
            + " bytes downloaded)"@
    }
}

/// The line an errata sync prints.
pub fn errata_report(s: &ErrataSyncStats) -> (l: String)
    ensures
        l@ == errata_report_text(*s),
{
    if s.not_modified {
        return string_from("Errata unchanged (validators match)");
    }
    let mut l = string_from("Ingested ");
    push_decimal(&mut l, s.errata as u64);
    push_str(&mut l, " errata (");
    push_decimal(&mut l, s.bytes as u64);
    push_str(&mut l, " bytes downloaded)");
    l
}

} // verus!

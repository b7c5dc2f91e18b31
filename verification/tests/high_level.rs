use rfc_index::errata::{errata_from_raw, RawErratum};
use rfc_index::facets::compute_facets;
use rfc_index::index::{index_from_nodes, parse_index, ParsedIndex, ParsedRfc};
use rfc_index::outside::XmlNode;
use rfc_index::body::{assemble_body, find_section, normalize_text, scan_sections, xml_wanted};
use rfc_index::query::{date_from_parts, select_by_verdicts, select_rfcs, RfcQuery};
use rfc_index::refs::extract;
use rfc_index::sync::{after_probe, first_action, HeadProbe, SyncAction};
use rfc_index::{parse_sub_series_id, FacetKind, Rfc, SeriesKind, SubSeriesRef};
use std::collections::HashMap;

const INDEX_ETAG: &str = "\"index-v1\"";
const INDEX_LAST_MODIFIED: &str = "Mon, 01 Jan 2024 00:00:00 GMT";

const RFC_INDEX_XML: &str = r#"<?xml version="1.0" encoding="UTF-8"?>
<rfc-index>
  <rfc-entry>
    <doc-id>RFC7000</doc-id>
    <title>Legacy Widget TLS</title>
    <author><name>O. Legacy</name></author>
    <date><month>March</month><year>2014</year></date>
    <current-status>HISTORIC</current-status>
    <publication-status>PROPOSED STANDARD</publication-status>
    <stream>IETF</stream>
    <area>sec</area>
    <wg_acronym>tls</wg_acronym>
    <format>
      <file-format>TEXT</file-format>
    </format>
    <abstract><p>Earlier TLS profile, now obsolete.</p></abstract>
    <obsoleted-by>
      <doc-id>RFC8446</doc-id>
    </obsoleted-by>
  </rfc-entry>
  <rfc-entry>
    <doc-id>RFC8446</doc-id>
    <title>Widget TLS Profile</title>
    <author><name>T. Handshake</name></author>
    <date><month>August</month><year>2018</year></date>
    <current-status>PROPOSED STANDARD</current-status>
    <publication-status>PROPOSED STANDARD</publication-status>
    <stream>IETF</stream>
    <area>sec</area>
    <wg_acronym>tls</wg_acronym>
    <format>
      <file-format>TEXT</file-format>
    </format>
    <abstract><p>TLS profile for widgets.</p></abstract>
    <obsoletes>
      <doc-id>RFC7000</doc-id>
    </obsoletes>
  </rfc-entry>
  <rfc-entry>
    <doc-id>RFC9000</doc-id>
    <title>Real-time Widget Transport</title>
    <author><name>A. Example</name></author>
    <author><name>E. Editor</name><title>Editor</title></author>
    <date><month>May</month><year>2021</year></date>
    <page-count>42</page-count>
    <draft>draft-ietf-widgets-transport-01</draft>
    <current-status>PROPOSED STANDARD</current-status>
    <publication-status>PROPOSED STANDARD</publication-status>
    <stream>IETF</stream>
    <area>art</area>
    <wg_acronym>widgets</wg_acronym>
    <doi>10.17487/RFC9000</doi>
    <format>
      <file-format>TEXT</file-format>
      <file-format>XML</file-format>
    </format>
    <abstract>
      <p>Transport for real-time widgets.</p>
      <p>Supports connection migration.</p>
    </abstract>
    <keywords>
      <kw>widgets</kw>
      <kw>realtime</kw>
    </keywords>
    <updates>
      <doc-id>RFC8446</doc-id>
    </updates>
    <errata-url>https://example.invalid/errata/rfc9000</errata-url>
  </rfc-entry>
  <rfc-entry>
    <doc-id>RFC9001</doc-id>
    <title>Widget Migration Guide</title>
    <author><name>M. Guide</name></author>
    <date><month>January</month><year>2024</year></date>
    <current-status>INFORMATIONAL</current-status>
    <publication-status>INFORMATIONAL</publication-status>
    <stream>IETF</stream>
    <format>
      <file-format>TEXT</file-format>
    </format>
    <abstract><p>Operational guidance for widget migration.</p></abstract>
    <keywords>
      <kw>migration</kw>
    </keywords>
  </rfc-entry>
  <bcp-entry>
    <doc-id>BCP0014</doc-id>
    <title>Widget Best Current Practices</title>
    <is-also>
      <doc-id>RFC9000</doc-id>
      <doc-id>RFC9001</doc-id>
    </is-also>
  </bcp-entry>
  <std-entry>
    <doc-id>STD0003</doc-id>
    <title>Widget Transport Standard</title>
    <is-also>
      <doc-id>RFC8446</doc-id>
    </is-also>
  </std-entry>
</rfc-index>
"#;

const RFC_9000_TEXT: &str = "1.  Introduction\r\n\r\nThis is RFC 9000. It builds on RFC 8446 and RFC 9001.\r\n\u{000C}5.2.  Widget Frames\r\n\r\nmoonshot frames carry ziggurat payloads.\r\n\r\n5.2.1.  Ack Widget\r\n\r\nAcknowledgements reuse RFC 8446 conventions.\r\n\r\n6.  Security Considerations\r\n\r\nSecurity text.\r\n";


const RFC_9001_TEXT: &str = "1.  Overview\n\nThis companion guide depends on RFC 9000.\n\n2.  Deployment\n\nDeploy carefully.\n";

/// The RFC records the store holds after ingesting `ix`: keywords and
/// relations sorted, sub-series memberships attached in doc-id order.
fn stored_rfcs(ix: &ParsedIndex) -> Vec<Rfc> {
    let mut out: Vec<Rfc> = ix.rfcs.iter().map(|p| stored_rfc(ix, p)).collect();
    out.sort_by_key(|r| r.number);
    out
}

fn stored_rfc(ix: &ParsedIndex, p: &ParsedRfc) -> Rfc {
    let mut keywords = p.keywords.clone();
    keywords.sort();
    let sorted = |v: &Vec<u32>| {
        let mut v = v.clone();
        v.sort();
        v
    };
    let mut subs: Vec<SubSeriesRef> = ix
        .subs
        .iter()
        .filter(|s| s.members.contains(&p.number))
        .map(|s| SubSeriesRef { doc_id: s.doc_id.clone(), title: s.title.clone() })
        .collect();
    subs.sort_by(|a, b| a.doc_id.cmp(&b.doc_id));
    Rfc {
        number: p.number,
        title: p.title.clone(),
        abstract_text: p.abstract_text.clone(),
        date: date_from_parts(p.date_year, p.date_month),
        page_count: p.page_count,
        draft: p.draft.clone(),
        current_status: p.current_status.clone(),
        publication_status: p.publication_status.clone(),
        stream: p.stream.clone(),
        area: p.area.clone(),
        wg: p.wg.clone(),
        doi: p.doi.clone(),
        has_errata: p.has_errata,
        formats: p.formats.clone(),
        authors: p.authors.clone(),
        keywords,
        obsoletes: sorted(&p.obsoletes),
        obsoleted_by: sorted(&p.obsoleted_by),
        updates: sorted(&p.updates),
        updated_by: sorted(&p.updated_by),
        sub_series: subs,
    }
}

fn fixture() -> (ParsedIndex, Vec<Rfc>) {
    let ix = parse_index(RFC_INDEX_XML).expect("fixture parses");
    let rfcs = stored_rfcs(&ix);
    (ix, rfcs)
}

fn numbers(q: &RfcQuery, rfcs: &[Rfc]) -> Vec<u32> {
    select_rfcs(q, rfcs.to_vec())
        .expect("patterns compile")
        .iter()
        .map(|r| r.number())
        .collect()
}

fn raw(id: Option<&str>, doc: &str, status: &str, kind: &str) -> RawErratum {
    RawErratum {
        errata_id: id.map(|s| s.to_string()),
        doc_id: doc.to_string(),
        errata_status_code: Some(status.to_string()),
        errata_type_code: Some(kind.to_string()),
        section: None,
        orig_text: None,
        correct_text: None,
        notes: None,
        submit_date: None,
        update_date: None,
        submitter_name: None,
        verifier_name: None,
    }
}

#[test]
fn sync_index_populates_queries_and_uses_head_probe_on_repeated_sync() {
    assert!(matches!(first_action(&None, &None), SyncAction::Fetch { .. }));
    let (ix, rfcs) = fixture();
    let first = ix.stats();
    assert_eq!(first.rfcs, 4);
    assert_eq!(first.bcps, 1);
    assert_eq!(first.stds, 1);
    assert_eq!(first.fyis, 0);
    assert!(!first.not_modified);

    let rfc = rfcs.iter().find(|r| r.number() == 9000).expect("RFC 9000 metadata");
    assert_eq!(rfc.title(), "Real-time Widget Transport");
    assert_eq!(
        rfc.abstract_text(),
        Some("Transport for real-time widgets.\n\nSupports connection migration.")
    );
    let date = rfc.date().expect("RFC 9000 date");
    assert_eq!(date.year, 2021);
    assert_eq!(date.month, Some(5));
    assert_eq!(rfc.page_count(), Some(42));
    assert_eq!(rfc.draft(), Some("draft-ietf-widgets-transport-01"));
    assert_eq!(rfc.current_status(), Some("PROPOSED STANDARD"));
    assert_eq!(rfc.publication_status(), Some("PROPOSED STANDARD"));
    assert_eq!(rfc.stream(), Some("IETF"));
    assert_eq!(rfc.area(), Some("art"));
    assert_eq!(rfc.wg(), Some("widgets"));
    assert_eq!(rfc.doi(), Some("10.17487/RFC9000"));
    assert!(rfc.has_errata());
    assert!(rfc.has_xml());
    assert_eq!(rfc.formats(), &["TEXT".to_string(), "XML".to_string()]);
    assert_eq!(rfc.authors().len(), 2);
    assert_eq!(rfc.authors()[0].name(), "A. Example");
    assert_eq!(rfc.authors()[1].role(), Some("Editor"));
    assert_eq!(rfc.keywords(), &["realtime".to_string(), "widgets".to_string()]);
    assert_eq!(rfc.updates(), &[8446]);
    assert_eq!(rfc.sub_series().len(), 1);
    assert_eq!(rfc.sub_series()[0].doc_id(), "BCP0014");
    assert_eq!(rfc.sub_series()[0].title(), Some("Widget Best Current Practices"));

    let id = parse_sub_series_id("bcp 14").expect("BCP14");
    assert_eq!(id, "BCP0014");
    let sub = ix.subs.iter().find(|s| s.doc_id == id).expect("BCP14");
    assert_eq!(sub.series, SeriesKind::Bcp);
    assert_eq!(sub.members, vec![9000, 9001]);

    let q = RfcQuery {
        title_regex: Some("real-time".into()),
        min_year: Some(2020),
        status_contains: Some("proposed".into()),
        xml_only: true,
        limit: Some(10),
        ..Default::default()
    };
    assert_eq!(numbers(&q, &rfcs), vec![9000]);

    let etag = Some(INDEX_ETAG.to_string());
    let lm = Some(INDEX_LAST_MODIFIED.to_string());
    assert!(matches!(first_action(&etag, &lm), SyncAction::Probe));
    let probe = Some(HeadProbe { etag: etag.clone(), last_modified: lm.clone() });
    assert!(matches!(after_probe(&etag, &lm, &probe), SyncAction::Unchanged));
}

#[test]
fn ensure_body_caches_and_reindexes_search_and_references() {
    let text = normalize_text(RFC_9000_TEXT);
    assert!(!text.contains('\r'));
    assert!(!text.contains('\u{000C}'));
    let sections: Vec<(String, String)> = scan_sections(&text)
        .into_iter()
        .map(|s| (s.number.to_string(), s.title.to_string()))
        .collect();
    assert_eq!(
        sections,
        vec![
            ("1".into(), "Introduction".into()),
            ("5.2".into(), "Widget Frames".into()),
            ("5.2.1".into(), "Ack Widget".into()),
            ("6".into(), "Security Considerations".into()),
        ]
    );
    let section = find_section(&text, "5.2").expect("section 5.2");
    assert!(section.text.contains("5.2.1.  Ack Widget"));
    assert!(!section.text.contains("6.  Security Considerations"));
    assert_eq!(extract(&text, 9000), vec![8446, 9001]);
    assert_eq!(extract(&normalize_text(RFC_9001_TEXT), 9001), vec![9000]);
}

#[test]
fn sync_errata_populates_queries_and_uses_head_probe_on_repeated_sync() {
    let mut first = raw(Some("1000"), "RFC9000", "Verified", "Technical");
    first.section = Some("5.2".into());
    first.orig_text = Some("moonshot frames".into());
    first.correct_text = Some("moon-shot frames".into());
    first.notes = Some("Hyphenation fix.".into());
    first.submit_date = Some("2024-01-03".into());
    first.update_date = Some("2024-01-04".into());
    first.submitter_name = Some("A. Reader".into());
    first.verifier_name = Some("V. Approver".into());
    let mut second = raw(Some("1001"), "RFC9000", "Held for Document Update", "Editorial");
    second.section = Some("1".into());
    let third = raw(Some("oops"), "RFC9001", "Reported", "Technical");
    let stored = errata_from_raw(&vec![first, second, third]);
    assert_eq!(stored.len(), 2);
    assert_eq!(stored[0].eid(), 1000);
    assert!(stored[0].is_verified());
    assert_eq!(stored[1].eid(), 1001);
    assert!(stored[1].is_held());
    let one = &stored[0];
    assert_eq!(one.rfc(), 9000);
    assert_eq!(one.kind(), "Technical");
    assert_eq!(one.section(), Some("5.2"));
    assert_eq!(one.correct_text(), Some("moon-shot frames"));
    assert_eq!(one.submitter(), Some("A. Reader"));
    assert_eq!(one.verifier_name(), Some("V. Approver"));
}

#[test]
fn discovery_filters_compose() {
    let (_, rfcs) = fixture();
    let q = |f: fn(&mut RfcQuery)| {
        let mut q = RfcQuery::default();
        f(&mut q);
        numbers(&q, &rfcs)
    };
    assert_eq!(q(|q| q.wg = Some("TLS".into())), vec![7000, 8446]);
    assert_eq!(q(|q| q.area = Some("sec".into())), vec![7000, 8446]);
    assert_eq!(q(|q| q.keyword = Some("realtime".into())), vec![9000]);
    assert_eq!(q(|q| q.series = Some(SeriesKind::Bcp)), vec![9000, 9001]);
    assert_eq!(q(|q| q.series = Some(SeriesKind::Std)), vec![8446]);
    assert_eq!(
        q(|q| {
            q.wg = Some("tls".into());
            q.not_obsoleted = true;
        }),
        vec![8446]
    );
    assert_eq!(
        q(|q| {
            q.min_year = Some(2018);
            q.max_year = Some(2021);
        }),
        vec![8446, 9000]
    );
    assert_eq!(q(|q| q.author_regex = Some("legacy".into())), vec![7000]);
    assert_eq!(q(|q| q.abstract_regex = Some(r"connection\s+migration".into())), vec![9000]);
}

#[test]
fn facets_enumerate_distinct_values_with_counts() {
    let (_, rfcs) = fixture();
    let wgs = compute_facets(&rfcs, FacetKind::WorkingGroup, None);
    let pairs: Vec<(String, u32)> = wgs.iter().map(|f| (f.value().to_string(), f.count())).collect();
    assert_eq!(pairs, vec![("tls".into(), 2u32), ("widgets".into(), 1u32)]);

    let pkix_search = compute_facets(&rfcs, FacetKind::WorkingGroup, Some("TL"));
    assert_eq!(pkix_search.len(), 1);
    assert_eq!(pkix_search[0].value(), "tls");
    assert_eq!(pkix_search[0].count(), 2);

    let streams = compute_facets(&rfcs, FacetKind::Stream, None);
    assert_eq!(streams.len(), 1);
    assert_eq!(streams[0].value(), "IETF");
    assert_eq!(streams[0].count(), 4);

    let keywords = compute_facets(&rfcs, FacetKind::Keyword, None);
    let kw_values: Vec<String> = keywords.iter().map(|f| f.value().to_string()).collect();
    assert!(kw_values.contains(&"widgets".to_string()));
    assert!(kw_values.contains(&"migration".to_string()));
    assert!(kw_values.contains(&"realtime".to_string()));

    let statuses = compute_facets(&rfcs, FacetKind::Status, None);
    let by_value: HashMap<String, u32> = statuses.iter().map(|f| (f.value().to_string(), f.count())).collect();
    assert_eq!(by_value.get("PROPOSED STANDARD").copied(), Some(2));
    assert_eq!(by_value.get("HISTORIC").copied(), Some(1));
    assert_eq!(by_value.get("INFORMATIONAL").copied(), Some(1));

    let no_match = compute_facets(&rfcs, FacetKind::WorkingGroup, Some("nonsuch"));
    assert!(no_match.is_empty());
}

#[test]
fn listing_limit_cuts_after_filtering() {
    let (_, rfcs) = fixture();
    let mut q = RfcQuery::default();
    q.limit = Some(2);
    assert_eq!(numbers(&q, &rfcs), vec![7000, 8446]);
    q.limit = Some(0);
    assert_eq!(numbers(&q, &rfcs), vec![7000, 8446, 9000, 9001]);
    q.title_regex = Some("(".into());
    assert!(matches!(select_rfcs(&q, rfcs.clone()), Err(rfc_index::IndexError::Regex(_))));
}

#[test]
fn facets_rank_by_count_then_value() {
    let (_, rfcs) = fixture();
    let areas = compute_facets(&rfcs, FacetKind::Area, None);
    let pairs: Vec<(String, u32)> = areas.iter().map(|f| (f.value().to_string(), f.count())).collect();
    assert_eq!(pairs, vec![("sec".into(), 2u32), ("art".into(), 1u32)]);
    let kws = compute_facets(&rfcs, FacetKind::Keyword, None);
    let pairs: Vec<(String, u32)> = kws.iter().map(|f| (f.value().to_string(), f.count())).collect();
    assert_eq!(
        pairs,
        vec![("migration".into(), 1u32), ("realtime".into(), 1u32), ("widgets".into(), 1u32)]
    );
}

#[test]
fn malformed_index_is_refused() {
    assert!(matches!(parse_index("<rfc-index>"), Err(rfc_index::IndexError::Xml(_))));
    let empty = parse_index("<rfc-index/>").expect("empty index parses");
    assert!(empty.rfcs.is_empty());
    assert!(empty.subs.is_empty());
}

#[test]
fn verdicts_and_metadata_decide_a_listing() {
    let (_, rfcs) = fixture();
    let mut q = RfcQuery::default();
    q.area = Some("SEC".into());
    let got: Vec<u32> = select_by_verdicts(&q, rfcs.clone(), &vec![false, true, true, true])
        .iter()
        .map(|r| r.number())
        .collect();
    assert_eq!(got, vec![8446]);
    let mut q = RfcQuery::default();
    q.limit = Some(1);
    let got: Vec<u32> = select_by_verdicts(&q, rfcs, &vec![false, false, true, true])
        .iter()
        .map(|r| r.number())
        .collect();
    assert_eq!(got, vec![9000]);
}

#[test]
fn index_from_hand_built_nodes() {
    let node = |element: bool, name: &str, text: Option<&str>, children: Vec<usize>| XmlNode {
        element,
        name: name.to_string(),
        text: text.map(|t| t.to_string()),
        children,
    };
    let nodes = vec![
        node(false, "", None, vec![1]),
        node(true, "rfc-index", None, vec![2, 6]),
        node(true, "rfc-entry", None, vec![3, 4]),
        node(true, "doc-id", Some("RFC42"), vec![5]),
        node(true, "title", Some("Answers"), vec![]),
        node(false, "", Some("RFC42"), vec![]),
        node(true, "fyi-entry", None, vec![7]),
        node(true, "doc-id", Some("FYI0004"), vec![]),
    ];
    let ix = index_from_nodes(&nodes);
    assert_eq!(ix.rfcs.len(), 1);
    assert_eq!(ix.rfcs[0].number, 42);
    assert_eq!(ix.rfcs[0].title, "Answers");
    assert_eq!(ix.subs.len(), 1);
    assert_eq!(ix.subs[0].series, SeriesKind::Fyi);
    assert_eq!(ix.subs[0].number, 4);
    assert!(ix.subs[0].members.is_empty());
}

#[test]
fn has_xml_needs_the_format_spelled_xml() {
    let (_, mut rfcs) = fixture();
    let r = rfcs.iter().find(|r| r.number() == 9000).unwrap();
    assert!(r.has_xml());
    let r = &mut rfcs[0];
    assert!(!r.has_xml());
    r.formats = vec!["TEXT".into(), "xml".into()];
    assert!(!r.has_xml());
    r.formats.push("XML".into());
    assert!(r.has_xml());
}

#[test]
fn fetching_a_body_decides_on_xml_and_assembles() {
    let (_, rfcs) = fixture();
    let with_xml = rfcs.iter().find(|r| r.number() == 9000);
    let without = rfcs.iter().find(|r| r.number() == 9001);
    assert!(matches!(xml_wanted(9000, with_xml), Ok(true)));
    assert!(matches!(xml_wanted(9001, without), Ok(false)));
    match xml_wanted(1234, None) {
        Err(rfc_index::IndexError::NotFound(m)) => assert_eq!(m, "RFC 1234 not in index — run sync_index first"),
        other => panic!("expected not found, got {other:?}"),
    }
    let body = assemble_body(9000, Some(RFC_9000_TEXT.to_string()), Some("<rfc/>".to_string()), 7).unwrap();
    assert_eq!(body.number(), 9000);
    assert_eq!(body.text(), normalize_text(RFC_9000_TEXT));
    assert_eq!(body.xml(), Some("<rfc/>"));
    assert_eq!(body.fetched_at(), 7);
    match assemble_body(9001, None, None, 7) {
        Err(rfc_index::IndexError::NotFound(m)) => assert_eq!(m, "RFC 9001 text body (404)"),
        other => panic!("expected not found, got {other:?}"),
    }
}

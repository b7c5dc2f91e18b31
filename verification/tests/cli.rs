use rfc_index::calendar::{civil_from_days, epoch_from_clock, format_epoch_utc, now_epoch};
use rfc_index::cli::{
    body_view, info_target, parse_series_kind, should_fetch, BodyView, FetchTally, InfoTarget,
    ListFilters,
};
use rfc_index::errata::errata_with_status;
use rfc_index::render::{
    block, erratum_card, errata_report, facet_listing, list_line, padded, ref_line, relation,
    rfc_card, status_lines, sub_series_card, sync_report,
};
use rfc_index::{
    Author, Body, Counts, Date, ErrataSyncStats, Erratum, Facet, Rfc, SeriesKind, SubSeries,
    SubSeriesRef, SyncStats,
};

fn filters() -> ListFilters {
    ListFilters {
        title_regex: Some("TLS|QUIC".into()),
        since: Some(2018),
        until: None,
        status: Some("standard".into()),
        xml_only: true,
        wg: Some("tls".into()),
        area: None,
        stream: None,
        keyword: None,
        author_regex: None,
        abstract_regex: None,
        series: None,
        not_obsoleted: true,
    }
}

fn rfc9000() -> Rfc {
    Rfc {
        number: 9000,
        title: "Real-time Widget Transport".into(),
        abstract_text: Some("Transport for real-time widgets.\n\nSupports connection migration.".into()),
        date: Some(Date { year: 2021, month: Some(5) }),
        page_count: Some(42),
        draft: Some("draft-ietf-widgets-transport-01".into()),
        current_status: Some("PROPOSED STANDARD".into()),
        publication_status: Some("PROPOSED STANDARD".into()),
        stream: Some("IETF".into()),
        area: Some("art".into()),
        wg: Some("widgets".into()),
        doi: Some("10.17487/RFC9000".into()),
        has_errata: true,
        formats: vec!["TEXT".into(), "XML".into()],
        authors: vec![
            Author { name: "A. Example".into(), role: None },
            Author { name: "E. Editor".into(), role: Some("Editor".into()) },
        ],
        keywords: vec!["realtime".into(), "widgets".into()],
        obsoletes: vec![],
        obsoleted_by: vec![],
        updates: vec![8446],
        updated_by: vec![],
        sub_series: vec![SubSeriesRef {
            doc_id: "BCP0014".into(),
            title: Some("Widget Best Current Practices".into()),
        }],
    }
}

fn erratum(status: &str) -> Erratum {
    Erratum {
        eid: 1000,
        rfc: 9000,
        status: status.into(),
        kind: "Technical".into(),
        section: Some("5.2".into()),
        orig_text: Some("moonshot frames".into()),
        correct_text: Some("moon-shot frames".into()),
        notes: Some("   ".into()),
        submitted: Some("2024-01-03".into()),
        updated: None,
        submitter: Some("A. Reader".into()),
        verifier: Some("V. Approver".into()),
    }
}

#[test]
fn series_kinds_parse_in_any_case() {
    assert_eq!(parse_series_kind("bcp"), Ok(SeriesKind::Bcp));
    assert_eq!(parse_series_kind(" Std "), Ok(SeriesKind::Std));
    assert_eq!(parse_series_kind("FYI"), Ok(SeriesKind::Fyi));
    assert_eq!(
        parse_series_kind(" rfc "),
        Err("unknown series kind \"RFC\"; expected bcp/std/fyi".to_string())
    );
    for k in [SeriesKind::Bcp, SeriesKind::Std, SeriesKind::Fyi] {
        assert_eq!(parse_series_kind(k.as_str()), Ok(k));
    }
}

#[test]
fn list_filters_become_a_query() {
    let q = filters().into_query(Some(5)).unwrap();
    assert_eq!(q.title_regex.as_deref(), Some("TLS|QUIC"));
    assert_eq!(q.min_year, Some(2018));
    assert_eq!(q.max_year, None);
    assert_eq!(q.status_contains.as_deref(), Some("standard"));
    assert!(q.xml_only);
    assert_eq!(q.wg.as_deref(), Some("tls"));
    assert!(q.not_obsoleted);
    assert_eq!(q.series, None);
    assert_eq!(q.limit, Some(5));

    let mut f = filters();
    f.series = Some("std".into());
    assert_eq!(f.into_query(None).unwrap().series, Some(SeriesKind::Std));
    let mut f = filters();
    f.series = Some("ietf".into());
    assert_eq!(
        f.into_query(None).err(),
        Some("unknown series kind \"IETF\"; expected bcp/std/fyi".to_string())
    );
}

#[test]
fn info_ids_name_rfcs_or_sub_series() {
    assert!(matches!(info_target("9000"), Ok(InfoTarget::Rfc(9000))));
    assert!(matches!(info_target(" rfc9000 "), Ok(InfoTarget::Rfc(9000))));
    assert!(matches!(info_target("RFC 8446"), Ok(InfoTarget::Rfc(8446))));
    match info_target(" bcp 14 ") {
        Ok(InfoTarget::SubSeries(s)) => assert_eq!(s, "bcp 14"),
        other => panic!("expected a sub-series, got {other:?}"),
    }
    assert!(matches!(info_target("std-3"), Ok(InfoTarget::SubSeries(_))));
    assert_eq!(
        info_target("quic").err(),
        Some("'quic' is not an RFC number or sub-series id".to_string())
    );
}

#[test]
fn civil_dates_of_day_counts() {
    assert_eq!(civil_from_days(0), (1970, 1, 1));
    assert_eq!(civil_from_days(-1), (1969, 12, 31));
    assert_eq!(civil_from_days(19722), (2023, 12, 31));
    assert_eq!(civil_from_days(19723), (2024, 1, 1));
    assert_eq!(civil_from_days(19782), (2024, 2, 29));
    assert_eq!(civil_from_days(11016), (2000, 2, 29));
    assert_eq!(civil_from_days(-719468), (0, 3, 1));
    assert_eq!(civil_from_days(-719162), (1, 1, 1));
}

#[test]
fn epoch_timestamps_render_in_utc() {
    assert_eq!(format_epoch_utc(0), "1970-01-01 00:00 UTC");
    assert_eq!(format_epoch_utc(1704067200), "2024-01-01 00:00 UTC");
    assert_eq!(format_epoch_utc(1709210096), "2024-02-29 12:34 UTC");
    assert_eq!(format_epoch_utc(-1), "1969-12-31 23:59 UTC");
    assert_eq!(format_epoch_utc(-62135596800), "0001-01-01 00:00 UTC");
    assert_eq!(format_epoch_utc(-62167219200 - 86400 * 365), "-001-01-01 00:00 UTC");
}

#[test]
fn clock_readings_become_epoch_seconds() {
    assert_eq!(epoch_from_clock(Some(1704067200)), 1704067200);
    assert_eq!(epoch_from_clock(None), 0);
    assert!(now_epoch() > 1_600_000_000);
}

#[test]
fn rfc_card_lists_metadata_lines() {
    let lines = rfc_card(&rfc9000());
    assert_eq!(
        lines,
        vec![
            "RFC 9000 — Real-time Widget Transport",
            "Date:    2021-05  (42 pages)",
            "Status:  PROPOSED STANDARD",
            "Stream:  IETF  area=art  wg=widgets",
            "Draft:   draft-ietf-widgets-transport-01",
            "DOI:     10.17487/RFC9000",
            "Formats: TEXT,XML (XML available)",
            "Authors: A. Example, E. Editor (Editor)",
            "Updates: RFC8446",
            "Part of: BCP0014 — Widget Best Current Practices",
            "Errata:  yes  (https://www.rfc-editor.org/errata/rfc9000)",
            "",
            "Abstract:",
            "  Transport for real-time widgets.",
            "  ",
            "  Supports connection migration.",
        ]
    );
}

#[test]
fn rfc_card_of_sparse_record() {
    let mut r = rfc9000();
    r.date = Some(Date { year: 1987, month: None });
    r.page_count = None;
    r.publication_status = Some("DRAFT STANDARD".into());
    r.stream = None;
    r.draft = None;
    r.doi = None;
    r.formats = vec![];
    r.authors = vec![];
    r.updates = vec![];
    r.obsoleted_by = vec![1, 22];
    r.sub_series = vec![];
    r.has_errata = false;
    r.abstract_text = None;
    assert_eq!(
        rfc_card(&r),
        vec![
            "RFC 9000 — Real-time Widget Transport",
            "Date:    1987",
            "Status:  PROPOSED STANDARD",
            "PubStatus: DRAFT STANDARD",
            "Formats: ",
            "Obsoleted by: RFC1, RFC22",
        ]
    );
    r.date = None;
    assert_eq!(rfc_card(&r)[1], "Date:    unknown");
    assert!(relation("Updates", &vec![]).is_empty());
}

#[test]
fn erratum_card_cuts_long_blocks() {
    let e = erratum("Verified");
    assert_eq!(
        erratum_card(&e, false),
        vec![
            "EID 1000  RFC9000  [Verified / Technical]  §5.2",
            "  submitted: A. Reader (2024-01-03)",
            "  verifier:  V. Approver",
            "  original:",
            "    moonshot frames",
            "  corrected:",
            "    moon-shot frames",
        ]
    );
    let long = "x".repeat(150) + "\n" + &"y".repeat(100);
    let cut = block(&long, false);
    assert_eq!(cut.len(), 3);
    assert_eq!(cut[0], format!("    {}", "x".repeat(150)));
    assert_eq!(cut[1], format!("    {}…", "y".repeat(49)));
    assert_eq!(cut[2], "    [truncated; --full to show]");
    let full = block(&long, true);
    assert_eq!(full, vec![format!("    {}", "x".repeat(150)), format!("    {}", "y".repeat(100))]);
}

#[test]
fn errata_filter_by_status_substring() {
    let all = vec![erratum("Verified"), erratum("Held for Document Update"), erratum("Reported")];
    let held = errata_with_status(all.clone(), Some("HELD"));
    assert_eq!(held.len(), 1);
    assert_eq!(held[0].status(), "Held for Document Update");
    assert_eq!(errata_with_status(all.clone(), Some("e")).len(), 3);
    assert_eq!(errata_with_status(all.clone(), None).len(), 3);
    assert!(errata_with_status(all, Some("rejected")).is_empty());
}

#[test]
fn listing_lines() {
    let r = rfc9000();
    assert_eq!(list_line(&r), "RFC9000  x [2021 PROPOSED STANDARD] Real-time Widget Transport");
    let mut old = r.clone();
    old.number = 1;
    old.date = None;
    old.formats = vec!["TEXT".into(), "xml".into()];
    old.current_status = None;
    assert_eq!(list_line(&old), "RFC1     - [---- ] Real-time Widget Transport");
    assert_eq!(ref_line(8446, &Some("TLS 1.3".into())), "RFC8446  TLS 1.3");
    assert_eq!(ref_line(123456, &None), "RFC123456 (not in index)");
    assert_eq!(padded("ab", 4), "ab  ");
    assert_eq!(padded("abcdef", 4), "abcdef");
}

#[test]
fn sub_series_cards() {
    let sub = SubSeries {
        doc_id: "BCP0014".into(),
        series: SeriesKind::Bcp,
        number: 14,
        title: Some("Widget Best Current Practices".into()),
        members: vec![9000, 9001],
    };
    assert_eq!(
        sub_series_card(&sub, &vec![Some("Real-time Widget Transport".into()), None]),
        vec![
            "BCP 14 — Widget Best Current Practices",
            "Members:",
            "  RFC9000   Real-time Widget Transport",
            "  RFC9001   (not in index)",
        ]
    );
    let empty = SubSeries { doc_id: "FYI0004".into(), series: SeriesKind::Fyi, number: 4, title: None, members: vec![] };
    assert_eq!(sub_series_card(&empty, &vec![]), vec!["FYI 4", "(no member RFCs)"]);
}

#[test]
fn facet_listing_pads_and_limits() {
    let fs = vec![
        Facet { value: "tls".into(), count: 2 },
        Facet { value: "widgets".into(), count: 1 },
        Facet { value: "quic".into(), count: 1 },
    ];
    let (lines, note) = facet_listing(&fs, 0);
    assert_eq!(lines, vec!["tls      2", "widgets  1", "quic     1"]);
    assert_eq!(note, None);
    let (lines, note) = facet_listing(&fs, 2);
    assert_eq!(lines, vec!["tls      2", "widgets  1"]);
    assert_eq!(note, Some("(1 more — pass --limit 0 to show all)".to_string()));
}

#[test]
fn status_and_sync_reports() {
    let c = Counts { rfcs: 4, bcps: 1, stds: 1, fyis: 0, bodies_cached: 2 };
    assert_eq!(
        status_lines(&c, Some(1704067200)),
        vec![
            "RFCs:          4",
            "BCP/STD/FYI:   1 / 1 / 0",
            "Bodies cached: 2",
            "Last sync:     2024-01-01 00:00 UTC",
        ]
    );
    assert_eq!(status_lines(&c, None)[3], "Last sync:     never");
    let s = SyncStats { rfcs: 4, bcps: 1, stds: 1, fyis: 0, bytes: 1234, not_modified: false };
    assert_eq!(sync_report(&s), "Ingested 4 RFCs, 1 BCPs, 1 STDs, 0 FYIs (1234 bytes downloaded)");
    assert_eq!(sync_report(&SyncStats::unchanged()), "Index unchanged (validators match)");
    let e = ErrataSyncStats { errata: 2, bytes: 10, not_modified: false };
    assert_eq!(errata_report(&e), "Ingested 2 errata (10 bytes downloaded)");
    assert_eq!(errata_report(&ErrataSyncStats::unchanged()), "Errata unchanged (validators match)");
}

#[test]
fn fetch_tally_counts_and_stops() {
    assert!(should_fetch(true, true));
    assert!(should_fetch(false, false));
    assert!(!should_fetch(false, true));
    let mut t = FetchTally::new();
    t.skip();
    t.fetched_one();
    t.fetched_one();
    assert!(t.failed_one(9001, "HTTP 404".into(), false));
    assert!(!t.failed_one(9002, "timeout".into(), true));
    assert_eq!(t.summary(), "Fetched: 2  Skipped: 1  Failed: 2");
    assert_eq!(t.failure_lines(), vec!["  RFC9001: HTTP 404", "  RFC9002: timeout"]);
}

#[test]
fn body_views_choose_what_to_print() {
    let body = Body {
        number: 9000,
        text: "1.  Intro\n\nhello\n\n2.  Next\n\nbye\n".into(),
        xml: None,
        fetched_at: 0,
    };
    match body_view(&body, None, true, false) {
        Ok(BodyView::Sections(v)) => {
            let got: Vec<(&str, &str)> = v.iter().map(|s| (s.number, s.title)).collect();
            assert_eq!(got, vec![("1", "Intro"), ("2", "Next")]);
        }
        _ => panic!("expected sections"),
    }
    assert_eq!(body_view(&body, None, false, true).err(), Some("RFC 9000 has no XML source".to_string()));
    match body_view(&body, Some("2"), false, false) {
        Ok(BodyView::Text(t)) => assert_eq!(t, "2.  Next\n\nbye\n"),
        _ => panic!("expected a section"),
    }
    assert_eq!(
        body_view(&body, Some("3"), false, false).err(),
        Some("section 3 not found in RFC 9000 (try `rfc get 9000 --sections`)".to_string())
    );
    match body_view(&body, None, false, false) {
        Ok(BodyView::Text(t)) => assert_eq!(t, body.text()),
        _ => panic!("expected the text"),
    }
}

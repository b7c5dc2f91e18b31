use rfc_index::index::month_to_num;
use rfc_index::query::{formats_from_csv, formats_to_csv, series_from_code};
use rfc_index::{normalize_base_url, parse_sub_series_id, FacetKind, IndexError, SeriesKind};

#[test]
fn sub_series_ids_are_canonicalised() {
    assert_eq!(parse_sub_series_id("BCP14").as_deref(), Some("BCP0014"));
    assert_eq!(parse_sub_series_id(" bcp 14 ").as_deref(), Some("BCP0014"));
    assert_eq!(parse_sub_series_id("std-3").as_deref(), Some("STD0003"));
    assert_eq!(parse_sub_series_id("fyi_4").as_deref(), Some("FYI0004"));
    assert_eq!(parse_sub_series_id("BCP0014").as_deref(), Some("BCP0014"));
    assert_eq!(parse_sub_series_id("BCP12345").as_deref(), Some("BCP12345"));
    assert_eq!(parse_sub_series_id("RFC14"), None);
    assert_eq!(parse_sub_series_id("BCP"), None);
    assert_eq!(parse_sub_series_id("BCPx"), None);
}

#[test]
fn base_urls_are_trimmed() {
    assert_eq!(normalize_base_url(" https://www.rfc-editor.org/ ").unwrap(), "https://www.rfc-editor.org");
    assert_eq!(normalize_base_url("http://h//").unwrap(), "http://h");
    match normalize_base_url(" / ") {
        Err(IndexError::Malformed(m)) => assert_eq!(m, "base URL must not be empty"),
        other => panic!("expected malformed, got {other:?}"),
    }
}

#[test]
fn month_names_map_to_numbers() {
    assert_eq!(month_to_num("January"), Some(1));
    assert_eq!(month_to_num(" may "), Some(5));
    assert_eq!(month_to_num("DECEMBER"), Some(12));
    assert_eq!(month_to_num("Smarch"), None);
}

#[test]
fn facet_slugs_round_trip() {
    for k in [FacetKind::WorkingGroup, FacetKind::Area, FacetKind::Stream, FacetKind::Keyword, FacetKind::Status] {
        assert_eq!(FacetKind::parse(k.as_slug()), Some(k));
    }
    assert_eq!(FacetKind::parse(" Working-Group "), Some(FacetKind::WorkingGroup));
    assert_eq!(FacetKind::parse("kw"), Some(FacetKind::Keyword));
    assert_eq!(FacetKind::parse("author"), None);
}

#[test]
fn stored_formats_and_kinds_read_back() {
    let fs = vec!["TEXT".to_string(), "XML".to_string()];
    let csv = formats_to_csv(&fs);
    assert_eq!(csv, "TEXT,XML");
    assert_eq!(formats_from_csv(&csv), fs);
    assert!(formats_from_csv("").is_empty());
    assert_eq!(series_from_code("STD").unwrap(), SeriesKind::Std);
    match series_from_code("XYZ") {
        Err(IndexError::Malformed(m)) => assert_eq!(m, "invalid sub-series kind in DB: XYZ"),
        other => panic!("expected malformed, got {other:?}"),
    }
}

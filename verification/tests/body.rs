use rfc_index::body::{find_section, normalize_text, scan_sections};
use rfc_index::Body;

#[test]
fn finds_top_level_and_nested_sections() {
    let text = "\
1.  Introduction

   intro text

2.  Background

   bg text

5.2.  Frame Types

   frames

5.2.1.  ACK Frame

   ack

6.  References
";
    let sections: Vec<(String, String)> = scan_sections(text)
        .into_iter()
        .map(|s| (s.number.to_string(), s.title.to_string()))
        .collect();
    assert_eq!(
        sections,
        vec![
            ("1".into(), "Introduction".into()),
            ("2".into(), "Background".into()),
            ("5.2".into(), "Frame Types".into()),
            ("5.2.1".into(), "ACK Frame".into()),
            ("6".into(), "References".into()),
        ]
    );
}

#[test]
fn section_lookup_includes_descendants() {
    let text = "\
5.  Foo

   foo

5.2.  Bar

   bar

5.2.1.  Baz

   baz

6.  Qux

   qux
";
    let s = find_section(text, "5.2").unwrap();
    assert_eq!(s.number, "5.2");
    assert!(s.text.contains("5.2.1.  Baz"));
    assert!(!s.text.contains("6.  Qux"));
}

#[test]
fn ignores_indented_lookalikes() {
    let text = "\
1.  Real

   1.  This is content not a header

2.  Other
";
    let starts = scan_sections(text);
    let nums: Vec<&str> = starts.iter().map(|s| s.number).collect();
    assert_eq!(nums, vec!["1", "2"]);
}

#[test]
fn accepts_single_space_after_number_rfc1034_style() {
    let text = "\
3.5. Preferred name syntax

   text

3.6. Resource Records

   more text

3.6.1. Textual expression of RRs

   even more
";
    let got: Vec<(String, String)> = scan_sections(text)
        .into_iter()
        .map(|s| (s.number.to_string(), s.title.to_string()))
        .collect();
    assert_eq!(
        got,
        vec![
            ("3.5".into(), "Preferred name syntax".into()),
            ("3.6".into(), "Resource Records".into()),
            ("3.6.1".into(), "Textual expression of RRs".into()),
        ]
    );
}

#[test]
fn accepts_indented_subsections_rfc1123_style() {
    let text = "\
2.  GENERAL ISSUES

   This section contains general requirements.

   2.1  Host Names and Numbers

      The syntax of a legal Internet host name...

   2.2  Using Domain Name Service

      Host domain names MUST be translated...
";
    let got: Vec<(String, String)> = scan_sections(text)
        .into_iter()
        .map(|s| (s.number.to_string(), s.title.to_string()))
        .collect();
    assert_eq!(
        got,
        vec![
            ("2".into(), "GENERAL ISSUES".into()),
            ("2.1".into(), "Host Names and Numbers".into()),
            ("2.2".into(), "Using Domain Name Service".into()),
        ]
    );
}

#[test]
fn indented_top_level_numbers_are_not_headers() {
    let text = "\
1.  Real Section

   1. This is a list item

2.  Other Section
";
    let nums: Vec<String> = scan_sections(text)
        .into_iter()
        .map(|s| s.number.to_string())
        .collect();
    assert_eq!(nums, vec!["1".to_string(), "2".to_string()]);
}

#[test]
fn find_section_works_for_legacy_styles() {
    let rfc1034 = "\
3.4. Example name space

   example content

3.5. Preferred name syntax

   syntax content

3.6. Resource Records

   rr content
";
    let s = find_section(rfc1034, "3.5").expect("3.5 should be findable");
    assert_eq!(s.number, "3.5");
    assert_eq!(s.title, "Preferred name syntax");
    assert!(s.text.contains("syntax content"));
    assert!(!s.text.contains("rr content"));

    let rfc1123 = "\
2.  GENERAL ISSUES

   This section contains general requirements.

   2.1  Host Names and Numbers

      host name content

   2.2  Using Domain Name Service

      dns content
";
    let s = find_section(rfc1123, "2.1").expect("2.1 should be findable");
    assert_eq!(s.number, "2.1");
    assert_eq!(s.title, "Host Names and Numbers");
    assert!(s.text.contains("host name content"));
    assert!(!s.text.contains("dns content"));
}

#[test]
fn skips_toc_dotleader_entries() {
    let text = "\
1.  INTRODUCTION ..................................................... 1

2.  OVERVIEW ......................................................... 5

1.  Introduction

   real intro

2.  Overview

   real overview
";
    let titles: Vec<String> = scan_sections(text)
        .into_iter()
        .map(|s| s.title.to_string())
        .collect();
    assert_eq!(
        titles,
        vec!["Introduction".to_string(), "Overview".to_string()]
    );
}

#[test]
fn normalize_drops_carriage_returns_and_form_feeds() {
    let raw = "1.  Intro\r\n\r\ntext\r\n\u{000C}2.  Next\r\n";
    let once = normalize_text(raw);
    assert_eq!(once, "1.  Intro\n\ntext\n2.  Next\n");
    assert!(!once.contains('\r'));
    assert!(!once.contains('\u{000C}'));
    assert_eq!(normalize_text(&once), once);
}

#[test]
fn missing_section_is_none() {
    assert!(find_section("1.  Only\n\n   text\n", "2").is_none());
    assert!(scan_sections("").is_empty());
}

#[test]
fn section_text_spans_header_to_next_peer() {
    let text = "1.  A\n\n   a\n\n1.1.  B\n\n   b\n\n2.  C\n";
    let s = find_section(text, "1").unwrap();
    assert_eq!(s.text, "1.  A\n\n   a\n\n1.1.  B\n\n   b\n\n");
    let last = find_section(text, "2").unwrap();
    assert_eq!(last.text, "2.  C\n");
}

#[test]
fn body_sections_and_lookup() {
    let body = Body {
        number: 9000,
        text: "1.  Introduction\n\nintro\n\n5.2.  Widget Frames\n\nframes\n\n5.2.1.  Ack Widget\n\nack\n\n6.  Security Considerations\n\nsec\n".to_string(),
        xml: None,
        fetched_at: 0,
    };
    let sections: Vec<(String, String)> = body
        .sections()
        .into_iter()
        .map(|s| (s.number.to_string(), s.title.to_string()))
        .collect();
    assert_eq!(sections.len(), 4);
    assert_eq!(sections[1], ("5.2".to_string(), "Widget Frames".to_string()));
    let s = body.section("5.2").unwrap();
    assert!(s.text.contains("5.2.1.  Ack Widget"));
    assert!(!s.text.contains("6.  Security Considerations"));
    assert_eq!(body.xml(), None);
    assert_eq!(body.number(), 9000);
}

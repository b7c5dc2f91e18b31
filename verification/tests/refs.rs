use rfc_index::refs::{extract, numbers_from_captures};

#[test]
fn extracts_bracketed_and_bare_forms() {
    let text = "\
See [RFC8446] and [RFC 8447]. As described in RFC 5246 and RFCs 9000.
Also mentioned: [RFC8446, Section 4.1] and rfc 12345 (lowercase ignored).
";
    let got = extract(text, 9999);
    assert_eq!(got, vec![5246, 8446, 8447, 9000]);
}

#[test]
fn skips_self_reference() {
    let text = "This is RFC 9000. See also RFC 8446.";
    let got = extract(text, 9000);
    assert_eq!(got, vec![8446]);
}

#[test]
fn dedupes_repeats() {
    let text = "[RFC8446] and again [RFC8446] then RFC 8446";
    let got = extract(text, 1);
    assert_eq!(got, vec![8446]);
}

#[test]
fn references_of_a_body_are_sorted_and_distinct() {
    let text = "1.  Introduction\n\nThis is RFC 9000. It builds on RFC 8446 and RFC 9001.\n\nAcknowledgements reuse RFC 8446 conventions.\n";
    assert_eq!(extract(text, 9000), vec![8446, 9001]);
    assert_eq!(extract("no references here", 1), Vec::<u32>::new());
    assert_eq!(extract("RFC123456 is too long", 1), Vec::<u32>::new());
}

#[test]
fn captured_numbers_are_sorted_distinct_and_exclude_self() {
    let caps = vec![
        Some("8446".to_string()),
        None,
        Some("5246".to_string()),
        Some("8446".to_string()),
        Some("9000".to_string()),
        Some("x1".to_string()),
    ];
    assert_eq!(numbers_from_captures(&caps, 9000), vec![5246, 8446]);
    assert_eq!(numbers_from_captures(&vec![], 1), Vec::<u32>::new());
}

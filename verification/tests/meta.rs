use rfc_index::query::{epoch_meta_value, parse_epoch_meta};
use rfc_index::IndexError;

#[test]
fn invalid_errata_timestamp_is_reported() {
    match parse_epoch_meta("errata_synced_at", Some("bad".to_string())) {
        Err(IndexError::Malformed(msg)) => assert!(msg.contains("errata_synced_at")),
        other => panic!("expected malformed error, got {other:?}"),
    }
}

#[test]
fn invalid_sync_timestamp_is_reported() {
    match parse_epoch_meta("index_synced_at", Some("nope".to_string())) {
        Err(IndexError::Malformed(msg)) => assert!(msg.contains("index_synced_at")),
        other => panic!("expected malformed error, got {other:?}"),
    }
}

#[test]
fn malformed_timestamp_message_names_value_and_reason() {
    match parse_epoch_meta("index_synced_at", Some("nope".to_string())) {
        Err(IndexError::Malformed(msg)) => assert_eq!(
            msg,
            "meta[index_synced_at] is not valid epoch seconds (\"nope\"): invalid digit found in string"
        ),
        other => panic!("expected malformed error, got {other:?}"),
    }
    match parse_epoch_meta("k", Some(String::new())) {
        Err(IndexError::Malformed(msg)) => {
            assert_eq!(msg, "meta[k] is not valid epoch seconds (\"\"): cannot parse integer from empty string")
        }
        other => panic!("expected malformed error, got {other:?}"),
    }
    match parse_epoch_meta("k", Some("99999999999999999999".to_string())) {
        Err(IndexError::Malformed(msg)) => assert!(msg.ends_with("number too large to fit in target type")),
        other => panic!("expected malformed error, got {other:?}"),
    }
}

#[test]
fn absent_and_valid_timestamps_read_back() {
    assert!(matches!(parse_epoch_meta("k", None), Ok(None)));
    assert!(matches!(parse_epoch_meta("k", Some("1704067200".to_string())), Ok(Some(1704067200))));
    assert!(matches!(parse_epoch_meta("k", Some("-5".to_string())), Ok(Some(-5))));
}

#[test]
fn written_timestamps_read_back() {
    for n in [0i64, 1, -1, 1704067200, i64::MAX, i64::MIN] {
        let text = epoch_meta_value(n);
        assert_eq!(text, n.to_string());
        assert!(matches!(parse_epoch_meta("k", Some(text)), Ok(Some(m)) if m == n));
    }
}

#[test]
fn timestamp_error_is_the_first_problem_from_the_left() {
    let cases = [
        ("99999999999999999999x", "number too large to fit in target type"),
        ("-99999999999999999999x", "number too small to fit in target type"),
        ("9223372036854775808", "number too large to fit in target type"),
        ("-9223372036854775809", "number too small to fit in target type"),
        ("12x99999999999999999999", "invalid digit found in string"),
        ("-", "invalid digit found in string"),
        ("+", "invalid digit found in string"),
        ("+-5", "invalid digit found in string"),
    ];
    for (value, reason) in cases {
        let std_reason = value.parse::<i64>().unwrap_err().to_string();
        assert_eq!(std_reason, reason);
        match parse_epoch_meta("k", Some(value.to_string())) {
            Err(IndexError::Malformed(msg)) => {
                assert_eq!(msg, format!("meta[k] is not valid epoch seconds ({value:?}): {reason}"))
            }
            other => panic!("expected malformed error, got {other:?}"),
        }
    }
    assert!(matches!(
        parse_epoch_meta("k", Some("-9223372036854775808".to_string())),
        Ok(Some(i64::MIN))
    ));
}

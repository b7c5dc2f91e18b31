use rfc_index::sync::{after_download, after_probe, first_action, validators_match, HeadProbe, SyncAction};

#[test]
fn prefers_etag_when_previously_stored() {
    assert!(!validators_match(
        &Some("etag-1".into()),
        &None,
        &Some("lm-1".into()),
        &Some("lm-1".into()),
    ));
}

#[test]
fn falls_back_to_last_modified_only_without_prior_etag() {
    assert!(validators_match(
        &None,
        &None,
        &Some("lm-1".into()),
        &Some("lm-1".into()),
    ));
}

#[test]
fn matching_etags_agree_and_differing_ones_do_not() {
    assert!(validators_match(&Some("e".into()), &Some("e".into()), &None, &None));
    assert!(!validators_match(&Some("e".into()), &Some("f".into()), &Some("l".into()), &Some("l".into())));
    assert!(!validators_match(&None, &None, &None, &None));
    assert!(!validators_match(&None, &Some("e".into()), &Some("a".into()), &Some("b".into())));
}

#[test]
fn first_sync_downloads_outright() {
    match first_action(&None, &None) {
        SyncAction::Fetch { if_none_match, if_modified_since } => {
            assert_eq!(if_none_match, None);
            assert_eq!(if_modified_since, None);
        }
        _ => panic!("expected a download"),
    }
    assert!(matches!(first_action(&Some("e".into()), &None), SyncAction::Probe));
    assert!(matches!(first_action(&None, &Some("l".into())), SyncAction::Probe));
}

#[test]
fn probe_with_stored_validators_is_unchanged() {
    let etag = Some("\"index-v1\"".to_string());
    let lm = Some("Mon, 01 Jan 2024 00:00:00 GMT".to_string());
    let probe = Some(HeadProbe { etag: etag.clone(), last_modified: lm.clone() });
    assert!(matches!(after_probe(&etag, &lm, &probe), SyncAction::Unchanged));
}

#[test]
fn failed_or_different_probe_downloads_conditionally() {
    let etag = Some("\"v1\"".to_string());
    let lm = Some("then".to_string());
    let changed = Some(HeadProbe { etag: Some("\"v2\"".to_string()), last_modified: lm.clone() });
    for probe in [None, changed] {
        match after_probe(&etag, &lm, &probe) {
            SyncAction::Fetch { if_none_match, if_modified_since } => {
                assert_eq!(if_none_match, etag);
                assert_eq!(if_modified_since, lm);
            }
            _ => panic!("expected a download"),
        }
    }
    assert!(after_download(304));
    assert!(!after_download(200));
}

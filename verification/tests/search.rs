use rfc_index::search::{quote_each_token, retry_query, search_answer};

#[test]
fn quote_each_handles_hyphens_and_colons() {
    assert_eq!(quote_each_token("Real-time"), r#""Real-time""#);
    assert_eq!(
        quote_each_token("Secure Real-time"),
        r#""Secure" "Real-time""#
    );
    assert_eq!(quote_each_token("title:QUIC"), r#""title:QUIC""#);
}

#[test]
fn quote_each_strips_existing_quotes() {
    assert_eq!(quote_each_token(r#""foo""#), r#""foo""#);
}

#[test]
fn quoting_twice_changes_nothing() {
    let once = quote_each_token("  connection   migration ");
    assert_eq!(once, r#""connection" "migration""#);
    assert_eq!(quote_each_token(&once), once);
    assert_eq!(quote_each_token(""), "");
}

#[test]
fn retry_is_offered_only_when_quoting_changes_the_query() {
    assert_eq!(retry_query("Real-time"), Some(r#""Real-time""#.to_string()));
    assert_eq!(retry_query(r#""Real-time""#), None);
}

#[test]
fn quoting_removes_embedded_quotes() {
    assert_eq!(quote_each_token(r#"a"b c"#), r#""ab" "c""#);
    assert_eq!(quote_each_token(r#"say "hello world""#), r#""say" "hello" "world""#);
    assert_eq!(quote_each_token(r#"""#), r#""""#);
}

#[test]
fn search_answer_prefers_success() {
    let ok: Result<u32, String> = Ok(1);
    assert_eq!(search_answer(ok, Some(Ok(2))), Ok(1));
    let err: Result<u32, String> = Err("first".into());
    assert_eq!(search_answer(err.clone(), Some(Ok(2))), Ok(2));
    assert_eq!(search_answer(err.clone(), Some(Err("second".into()))), Err("first".to_string()));
    assert_eq!(search_answer(err, None), Err("first".to_string()));
}

use tradier_events::session::strip_quotes;
use tradier_events::{bearer_header, SessionDataL1, SessionDataL2};

fn stream(url: &str, sessionid: &str) -> SessionDataL2 {
    SessionDataL2 { url: url.to_string(), sessionid: sessionid.to_string() }
}

fn answer(sessionid: &str) -> SessionDataL1 {
    let mut data = SessionDataL1::new();
    data.insert("stream".to_string(), stream("wss://ws.example/v1/markets/events", sessionid));
    data
}

#[test]
fn session_id_of_plain_answer() {
    let data = answer("c8638963-a6d4-4fb9-9bc6-e25fbd8c60c3");
    assert_eq!(data.session_id(), "c8638963-a6d4-4fb9-9bc6-e25fbd8c60c3");
}

#[test]
fn sessionid_json_is_quoted() {
    let data = answer("abc");
    assert_eq!(data.sessionid_json(), "\"abc\"");
}

#[test]
fn missing_stream_renders_null_and_gives_ul() {
    let data = SessionDataL1::new();
    assert_eq!(data.sessionid_json(), "null");
    assert_eq!(data.session_id(), "ul");
}

#[test]
fn other_stream_name_is_not_used() {
    let mut data = SessionDataL1::new();
    data.insert("account".to_string(), stream("u", "abc"));
    assert_eq!(data.session_id(), "ul");
}

#[test]
fn escaped_session_id_keeps_escapes() {
    let data = answer("a\"b");
    assert_eq!(data.session_id(), "a\\\"b");
}

#[test]
fn empty_session_id_gives_empty() {
    let data = answer("");
    assert_eq!(data.session_id(), "");
}

#[test]
fn non_ascii_session_id_keeps_closing_quote() {
    // "é1" rendered is "\"é1\"": 4 characters, 5 bytes; characters 1..4 are kept.
    let data = answer("\u{e9}1");
    assert_eq!(data.session_id(), "\u{e9}1\"");
}

#[test]
fn strip_quotes_counts_bytes_for_the_end() {
    assert_eq!(strip_quotes("\"xyz\""), "xyz");
    assert_eq!(strip_quotes("x"), "");
    assert_eq!(strip_quotes("ab"), "");
    assert_eq!(strip_quotes("\u{263a}\u{263a}"), "\u{263a}");
}

#[test]
fn insert_replaces_stream_of_same_name() {
    let mut data = answer("first");
    data.insert("stream".to_string(), stream("v", "second"));
    assert_eq!(data.names(), vec!["stream".to_string()]);
    let s = data.get("stream").unwrap();
    assert_eq!(s.sessionid, "second");
    assert_eq!(s.url, "v");
    assert_eq!(data.session_id(), "second");
}

#[test]
fn get_after_insert_and_other_names_unchanged() {
    let mut data = SessionDataL1::new();
    assert!(data.get("stream").is_none());
    data.insert("a".to_string(), stream("ua", "sa"));
    data.insert("b".to_string(), stream("ub", "sb"));
    assert_eq!(data.get("a").unwrap().sessionid, "sa");
    assert_eq!(data.get("b").unwrap().url, "ub");
    assert!(data.get("c").is_none());
    let mut names = data.names();
    names.sort();
    assert_eq!(names, vec!["a".to_string(), "b".to_string()]);
}

#[test]
fn stream_display_text() {
    let s = stream("wss://x", "id1");
    assert_eq!(s.display_text(), "(url: wss://x, sessionid: id1");
}

#[test]
fn bearer_header_prefixes_token() {
    assert_eq!(bearer_header("tok123"), "Bearer tok123");
    assert_eq!(bearer_header(""), "Bearer ");
}

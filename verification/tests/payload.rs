use serde_json::Value;
use tradier_events::create_payload;

fn expected_by_serde(symbols: &[&str], sessionid: &str, linebreak: bool) -> String {
    let mut object = serde_json::Map::new();
    let list: Vec<Value> = symbols.iter().map(|s| Value::String(s.to_string())).collect();
    object.insert("symbols".to_string(), Value::Array(list));
    object.insert("sessionid".to_string(), Value::String(sessionid.to_string()));
    object.insert("linebreak".to_string(), Value::Bool(linebreak));
    Value::Object(object).to_string()
}

fn owned(symbols: &[&str]) -> Vec<String> {
    symbols.iter().map(|s| s.to_string()).collect()
}

#[test]
fn payload_has_sorted_keys_and_compact_text() {
    let text = create_payload(owned(&["SPY", "AAPL"]), "abc-123".to_string(), true);
    assert_eq!(text, r#"{"linebreak":true,"sessionid":"abc-123","symbols":["SPY","AAPL"]}"#);
}

#[test]
fn payload_without_linebreak() {
    let text = create_payload(owned(&["TSLA"]), "s".to_string(), false);
    assert_eq!(text, r#"{"linebreak":false,"sessionid":"s","symbols":["TSLA"]}"#);
}

#[test]
fn payload_with_no_symbols() {
    let text = create_payload(Vec::new(), String::new(), true);
    assert_eq!(text, r#"{"linebreak":true,"sessionid":"","symbols":[]}"#);
}

#[test]
fn payload_escapes_like_serde_json() {
    let symbols = ["SPY\n", "a\"b", "back\\slash", "tab\there", "\u{1}ctl", "caf\u{e9}", "\u{7f}"];
    let sid = "q\"\u{8}\u{c}\r\u{1f}";
    let text = create_payload(owned(&symbols), sid.to_string(), true);
    assert_eq!(text, expected_by_serde(&symbols, sid, true));
    assert!(text.contains(r#""SPY\n""#));
    assert!(text.contains(r#""\u0001ctl""#));
    assert!(text.contains(r#""q\"\b\f\r\u001f""#));
}

#[test]
fn payload_matches_serde_json_value_rendering() {
    let symbols = ["SPY", "QQQ", "IWM", ""];
    for linebreak in [true, false] {
        let text = create_payload(owned(&symbols), "sid".to_string(), linebreak);
        assert_eq!(text, expected_by_serde(&symbols, "sid", linebreak));
    }
}

#[test]
fn payload_by_method_equals_free_function() {
    let payload = tradier_events::MarketPayload {
        symbols: owned(&["A", "B"]),
        sessionid: "x".to_string(),
        linebreak: true,
    };
    assert_eq!(payload.to_json(), create_payload(owned(&["A", "B"]), "x".to_string(), true));
}

#[test]
fn quoted_string_is_serde_string_literal() {
    for s in ["", "plain", "\"", "\\", "\u{0}", "\u{263a}", "line\nbreak"] {
        assert_eq!(tradier_events::json::quote_json_string(s), serde_json::to_string(s).unwrap());
    }
}

#[test]
fn parsing_the_payload_gives_back_its_parts() {
    let symbols = ["SPY", "", "SPY", "a\"b\n", "caf\u{e9}"];
    for (sid, linebreak) in [("c8638963", true), ("q\\\"\u{1}", false), ("", true)] {
        let text = create_payload(owned(&symbols), sid.to_string(), linebreak);
        let value: Value = serde_json::from_str(&text).unwrap();
        let parsed: Vec<String> = value["symbols"]
            .as_array()
            .unwrap()
            .iter()
            .map(|v| v.as_str().unwrap().to_string())
            .collect();
        assert_eq!(parsed, owned(&symbols));
        assert_eq!(value["sessionid"].as_str().unwrap(), sid);
        assert_eq!(value["linebreak"].as_bool().unwrap(), linebreak);
    }
}

#[test]
fn different_parts_give_different_payloads() {
    let a = create_payload(owned(&["A", "B"]), "s".to_string(), true);
    let b = create_payload(owned(&["A,B"]), "s".to_string(), true);
    let c = create_payload(owned(&["A", "B"]), "s\"".to_string(), true);
    let d = create_payload(owned(&["A", "B"]), "s".to_string(), false);
    assert_ne!(a, b);
    assert_ne!(a, c);
    assert_ne!(a, d);
}

use tau_ext_searxng_search::json::write_json;
use tau_ext_searxng_search::{extract_results, JsonNumber, JsonValue};

fn text_json(v: &serde_json::Value) -> JsonValue {
    match v {
        serde_json::Value::Null => JsonValue::Null,
        serde_json::Value::Bool(b) => JsonValue::Bool(*b),
        serde_json::Value::Number(n) => {
            let f = n.as_f64().unwrap_or(0.0);
            JsonValue::Number(JsonNumber {
                text: n.to_string(),
                unsigned: n.as_u64(),
                float_bits: f.to_bits(),
                float_text: serde_json::to_string(&f).unwrap(),
            })
        }
        serde_json::Value::String(s) => JsonValue::String(s.clone()),
        serde_json::Value::Array(a) => JsonValue::Array(a.iter().map(text_json).collect()),
        serde_json::Value::Object(m) => {
            JsonValue::Object(m.iter().map(|(k, x)| (k.clone(), text_json(x))).collect())
        }
    }
}

fn written(text: &str) -> (String, String) {
    let v: serde_json::Value = serde_json::from_str(text).unwrap();
    let mut out = String::from("prefix:");
    write_json(&text_json(&v), &mut out);
    (out, format!("prefix:{}", serde_json::to_string(&v).unwrap()))
}

#[test]
fn json_text_matches_serde_json() {
    for text in [
        "null",
        "true",
        "[false, -3, 18446744073709551615, 2.5e-7, 1e300]",
        r#""quote \" backslash \\ slash / tab \t newline \n bell \u0007 del \u007f é 😀""#,
        r#"{"b": [1, {"c": null}], "a": "x", "": {}}"#,
        "[]",
    ] {
        let (ours, theirs) = written(text);
        assert_eq!(ours, theirs);
    }
}

#[test]
fn control_characters_are_escaped_like_serde_json() {
    let s: String = (0u8..0x20).map(char::from).collect();
    let v = serde_json::Value::String(s.clone());
    let mut out = String::new();
    write_json(&JsonValue::String(s), &mut out);
    assert_eq!(out, serde_json::to_string(&v).unwrap());
    assert!(out.contains("\\u001f"));
    assert!(out.contains("\\b"));
}

#[test]
fn members_and_elements_are_found() {
    let v: serde_json::Value = serde_json::from_str(r#"{"results": [1, "two", [3]], "n": 4, "ok": true}"#).unwrap();
    let j = text_json(&v);
    assert_eq!(j.get("n").and_then(|n| n.as_u64()), Some(4));
    assert_eq!(j.get("ok").and_then(|b| b.as_bool()), Some(true));
    assert!(j.get("missing").is_none());
    let results = extract_results(&j);
    assert_eq!(results.len(), 3);
    assert_eq!(results[1].as_str(), Some("two"));
    let copy = j.duplicate();
    let mut a = String::new();
    let mut b = String::new();
    write_json(&j, &mut a);
    write_json(&copy, &mut b);
    assert_eq!(a, b);
}

#[test]
fn results_are_empty_without_an_array() {
    let v: serde_json::Value = serde_json::from_str(r#"{"results": {"a": 1}}"#).unwrap();
    assert!(extract_results(&text_json(&v)).is_empty());
    let v: serde_json::Value = serde_json::from_str(r#"[{"results": [1]}]"#).unwrap();
    assert!(extract_results(&text_json(&v)).is_empty());
}

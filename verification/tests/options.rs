use tau_ext_searxng_search::{JsonNumber, JsonValue, SearchOptions};

fn options_json(text: &str) -> JsonValue {
    let parsed: serde_json::Value = serde_json::from_str(text).expect("test JSON parses");
    convert_for_options(&parsed)
}

fn convert_for_options(v: &serde_json::Value) -> JsonValue {
    match v {
        serde_json::Value::Null => JsonValue::Null,
        serde_json::Value::Bool(b) => JsonValue::Bool(*b),
        serde_json::Value::Number(n) => {
            let f = n.as_f64().unwrap_or(0.0);
            JsonValue::Number(JsonNumber {
                text: n.to_string(),
                unsigned: n.as_u64(),
                float_bits: f.to_bits(),
                float_text: serde_json::to_string(&f).unwrap(),
            })
        }
        serde_json::Value::String(s) => JsonValue::String(s.clone()),
        serde_json::Value::Array(a) => JsonValue::Array(a.iter().map(convert_for_options).collect()),
        serde_json::Value::Object(m) => {
            JsonValue::Object(m.iter().map(|(k, x)| (k.clone(), convert_for_options(x))).collect())
        }
    }
}

#[test]
fn test_search_options_from_value_basic() {
    let value = options_json(
        r#"{"query": "test query", "categories": ["local"], "num_results": 5, "prefer_local": true}"#,
    );

    let options = SearchOptions::from_value(&value).unwrap();
    assert_eq!(options.categories, Some(vec!["local".to_string()]));
    assert_eq!(options.num_results, Some(5));
    assert!(options.prefer_local);
}

#[test]
fn test_search_options_default() {
    let options = SearchOptions::default();
    assert!(options.categories.is_none());
    assert!(options.engines.is_none());
    assert!(!options.prefer_local);
}

#[test]
fn test_search_options_prefers_local_false_by_default() {
    let value = options_json(r#"{"query": "test"}"#);

    let options = SearchOptions::from_value(&value).unwrap();
    assert!(!options.prefer_local);
}

#[test]
fn test_search_options_safe_search() {
    let value = options_json(r#"{"query": "test", "safe_search": 1}"#);

    let options = SearchOptions::from_value(&value).unwrap();
    assert_eq!(options.safe_search, Some(1));
}

#[test]
fn safe_search_out_of_range_becomes_zero() {
    let value = options_json(r#"{"query": "test", "safe_search": 7}"#);
    let options = SearchOptions::from_value(&value).unwrap();
    assert_eq!(options.safe_search, Some(0));
}

#[test]
fn safe_search_that_is_not_an_integer_is_unset() {
    let value = options_json(r#"{"query": "test", "safe_search": "strict"}"#);
    let options = SearchOptions::from_value(&value).unwrap();
    assert_eq!(options.safe_search, None);
    let negative = options_json(r#"{"query": "test", "safe_search": -1}"#);
    assert_eq!(SearchOptions::from_value(&negative).unwrap().safe_search, None);
}

#[test]
fn num_results_keeps_the_low_32_bits() {
    let value = options_json(r#"{"query": "test", "num_results": 4294967301}"#);
    let options = SearchOptions::from_value(&value).unwrap();
    assert_eq!(options.num_results, Some(5));
}

#[test]
fn list_arguments_keep_only_strings() {
    let value = options_json(
        r#"{"query": "q", "engines": ["a", 3, "b", null], "categories": "general"}"#,
    );
    let options = SearchOptions::from_value(&value).unwrap();
    assert_eq!(options.engines, Some(vec!["a".to_string(), "b".to_string()]));
    assert_eq!(options.categories, None);
}

#[test]
fn text_arguments_are_read() {
    let value = options_json(
        r#"{"query": "q", "language": "en-US", "time_range": "week", "prefer_local": false}"#,
    );
    let options = SearchOptions::from_value(&value).unwrap();
    assert_eq!(options.language.as_deref(), Some("en-US"));
    assert_eq!(options.time_range.as_deref(), Some("week"));
    assert!(!options.prefer_local);
    assert_eq!(options.num_results, None);
}

#[test]
fn arguments_that_are_not_an_object_give_no_options() {
    let value = options_json(r#"["query"]"#);
    let options = SearchOptions::from_value(&value).unwrap();
    assert!(options.categories.is_none());
    assert!(options.language.is_none());
    assert!(!options.prefer_local);
}

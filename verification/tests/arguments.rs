use tau_ext_searxng_search::json::write_json;
use tau_ext_searxng_search::{arguments_to_json, CborArgument, CborInteger, JsonNumber, SearchOptions};

fn integer_arg(value: i128) -> CborArgument {
    let f = value as f64;
    CborArgument::Integer(CborInteger {
        value,
        float_bits: f.to_bits(),
        float_text: serde_json::to_string(&f).unwrap(),
    })
}

fn float(f: f64) -> CborArgument {
    CborArgument::Float(serde_json::Number::from_f64(f).map(|n| JsonNumber {
        text: n.to_string(),
        unsigned: n.as_u64(),
        float_bits: f.to_bits(),
        float_text: serde_json::to_string(&f).unwrap(),
    }))
}

fn text(s: &str) -> CborArgument {
    CborArgument::Text(s.to_string())
}

fn json_of(arg: &CborArgument) -> Result<String, String> {
    arguments_to_json(arg).map(|j| {
        let mut out = String::new();
        write_json(&j, &mut out);
        out
    })
}

#[test]
fn arguments_become_json() {
    let args = CborArgument::Entries(vec![
        (text("query"), text("tau agent")),
        (text("num_results"), integer_arg(5)),
        (text("categories"), CborArgument::Array(vec![text("local"), text("general")])),
        (text("prefer_local"), CborArgument::Bool(true)),
        (text("boost"), float(1.5)),
        (text("none"), CborArgument::Null),
        (text("tagged"), CborArgument::Tag(32, Box::new(text("http://x")))),
    ]);
    assert_eq!(
        json_of(&args).unwrap(),
        r#"{"boost":1.5,"categories":["local","general"],"none":null,"num_results":5,"prefer_local":true,"query":"tau agent","tagged":"http://x"}"#
    );
    let options = SearchOptions::from_value(&arguments_to_json(&args).unwrap()).unwrap();
    assert_eq!(options.num_results, Some(5));
    assert!(options.prefer_local);
}

#[test]
fn later_keys_replace_earlier_ones() {
    let args = CborArgument::Entries(vec![(text("b"), integer_arg(1)), (text("a"), integer_arg(2)), (text("b"), integer_arg(3))]);
    assert_eq!(json_of(&args).unwrap(), r#"{"a":2,"b":3}"#);
}

#[test]
fn integer_range() {
    assert_eq!(json_of(&integer_arg(-9223372036854775808)).unwrap(), "-9223372036854775808");
    assert_eq!(json_of(&integer_arg(18446744073709551615)).unwrap(), "18446744073709551615");
    assert_eq!(json_of(&integer_arg(-1)).unwrap(), "-1");
    assert_eq!(
        json_of(&integer_arg(18446744073709551616)).unwrap_err(),
        "integer argument is outside JSON number range"
    );
    assert_eq!(
        json_of(&integer_arg(-9223372036854775809)).unwrap_err(),
        "integer argument is outside JSON number range"
    );
    let big = arguments_to_json(&integer_arg(18446744073709551615)).unwrap();
    assert_eq!(big.as_u64(), Some(u64::MAX));
    assert_eq!(arguments_to_json(&integer_arg(-3)).unwrap().as_u64(), None);
}

#[test]
fn arguments_without_json_form() {
    assert_eq!(json_of(&float(f64::NAN)).unwrap_err(), "float argument must be finite");
    assert_eq!(json_of(&float(f64::INFINITY)).unwrap_err(), "float argument must be finite");
    assert_eq!(
        json_of(&CborArgument::Bytes(vec![1, 2])).unwrap_err(),
        "byte string arguments are not supported"
    );
    assert_eq!(json_of(&CborArgument::Other).unwrap_err(), "unsupported CBOR argument value");
    let bad_key = CborArgument::Entries(vec![(text("ok"), integer_arg(1)), (integer_arg(2), text("x"))]);
    assert_eq!(json_of(&bad_key).unwrap_err(), "argument object keys must be strings");
    let first_error = CborArgument::Array(vec![
        text("a"),
        CborArgument::Bytes(vec![]),
        CborArgument::Other,
    ]);
    assert_eq!(json_of(&first_error).unwrap_err(), "byte string arguments are not supported");
    let key_before_value = CborArgument::Entries(vec![(integer_arg(1), CborArgument::Other)]);
    assert_eq!(json_of(&key_before_value).unwrap_err(), "argument object keys must be strings");
}

#[test]
fn first_failing_entry_decides_the_error() {
    let value_first = CborArgument::Entries(vec![
        (text("a"), CborArgument::Other),
        (integer_arg(1), text("x")),
    ]);
    assert_eq!(json_of(&value_first).unwrap_err(), "unsupported CBOR argument value");
    let key_first = CborArgument::Entries(vec![
        (text("a"), text("ok")),
        (integer_arg(1), text("x")),
        (text("b"), CborArgument::Other),
    ]);
    assert_eq!(json_of(&key_first).unwrap_err(), "argument object keys must be strings");
}

use tau_ext_searxng_search::{build_query_url, try_build_query_url, validate_url};

#[test]
fn query_url_with_language_and_level() {
    let url = build_query_url(
        "http://localhost:8080",
        "a b",
        &["general".to_string()],
        &[],
        Some("en"),
        None,
        Some(1),
    );
    assert_eq!(url, "http://localhost:8080/search/?q=a+b&format=json&language=en&safesearch=1&categories=general");
}

#[test]
fn query_url_with_time_range_and_engines() {
    let url = build_query_url(
        "https://searx.example/base/",
        "*-._~!",
        &[],
        &["x".to_string(), "y z".to_string()],
        None,
        Some("day"),
        None,
    );
    assert_eq!(
        url,
        "https://searx.example/base/search/?q=*-._%7E%21&format=json&time_range=day&engines=x%2Cy+z"
    );
}

#[test]
fn query_url_needs_a_base_that_joins() {
    assert_eq!(try_build_query_url("no scheme here", "q", &[], &[], None, None, None), None);
    assert_eq!(
        try_build_query_url("http://h:9000", "q", &[], &[], None, None, Some(0)),
        Some("http://h:9000/search/?q=q&format=json&safesearch=0".to_string())
    );
}

#[test]
fn urls_are_validated() {
    assert_eq!(validate_url("https://example.com/searx").unwrap(), "https://example.com/searx");
    assert_eq!(validate_url("HTTP://Example.COM").unwrap(), "http://example.com/");
    assert_eq!(validate_url("mailto:someone@example.com").unwrap_err(), "base_url must use http or https scheme");
    assert_eq!(validate_url("http://[::1").unwrap_err(), "invalid base_url: invalid IPv6 address");
}

#[test]
fn query_pairs_read_back_through_the_url_parser() {
    let text = build_query_url(
        "https://searx.example/base/",
        "café & co = 100%+",
        &["general".to_string(), "local".to_string()],
        &["a b".to_string()],
        Some("de"),
        Some("week"),
        Some(2),
    );
    let parsed = url::Url::parse(&text).unwrap();
    assert_eq!(parsed.path(), "/base/search/");
    let pairs: Vec<(String, String)> = parsed
        .query_pairs()
        .map(|(k, v)| (k.into_owned(), v.into_owned()))
        .collect();
    let expected: Vec<(String, String)> = vec![
        ("q".to_string(), "café & co = 100%+".to_string()),
        ("format".to_string(), "json".to_string()),
        ("language".to_string(), "de".to_string()),
        ("time_range".to_string(), "week".to_string()),
        ("safesearch".to_string(), "2".to_string()),
        ("categories".to_string(), "general,local".to_string()),
        ("engines".to_string(), "a b".to_string()),
    ];
    assert_eq!(pairs, expected);
}

use tau_ext_searxng_search::{
    default_local_category_prefixes, default_timeout, query_argument, status_error, Config, JsonNumber,
    JsonValue, SearXNGClient, SearXNGExtension, SearchOptions, SearchStep, TOOL_OUTPUT_MAX_BYTES,
};

fn client_json(v: &serde_json::Value) -> JsonValue {
    match v {
        serde_json::Value::Null => JsonValue::Null,
        serde_json::Value::Bool(b) => JsonValue::Bool(*b),
        serde_json::Value::Number(n) => {
            let f = n.as_f64().unwrap_or(0.0);
            JsonValue::Number(JsonNumber {
                text: n.to_string(),
                unsigned: n.as_u64(),
                float_bits: f.to_bits(),
                float_text: serde_json::to_string(&f).unwrap(),
            })
        }
        serde_json::Value::String(s) => JsonValue::String(s.clone()),
        serde_json::Value::Array(a) => JsonValue::Array(a.iter().map(client_json).collect()),
        serde_json::Value::Object(m) => {
            JsonValue::Object(m.iter().map(|(k, x)| (k.clone(), client_json(x))).collect())
        }
    }
}

fn parsed_reply(text: &str) -> Result<JsonValue, String> {
    let v: serde_json::Value = serde_json::from_str(text).expect("test reply parses");
    Ok(client_json(&v))
}

fn local_client() -> SearXNGClient {
    SearXNGClient::from_config(&Config {
        base_url: "http://localhost:8080".to_string(),
        timeout_seconds: 15,
        default_categories: vec![],
        fallback_urls: vec![],
        local_category_prefixes: vec!["local-".to_string()],
    })
    .expect("valid config")
}

fn assert_serde_shape(output: &str) {
    let v: serde_json::Value = serde_json::from_str(output).expect("output is JSON");
    assert_eq!(serde_json::to_string(&v).unwrap(), output);
}

#[test]
fn config_base_url_is_normalized() {
    let client = local_client();
    assert_eq!(client.base_url, "http://localhost:8080/");
    assert_eq!(client.timeout_seconds, 15);
}

#[test]
fn config_with_other_scheme_is_refused() {
    let err = SearXNGClient::from_config(&Config {
        base_url: "ftp://example.com".to_string(),
        timeout_seconds: 3,
        default_categories: vec![],
        fallback_urls: vec![],
        local_category_prefixes: vec![],
    })
    .unwrap_err();
    assert_eq!(err, "base_url must use http or https scheme");
}

#[test]
fn config_without_base_url_is_refused() {
    let err = SearXNGClient::from_config(&Config {
        base_url: String::new(),
        timeout_seconds: 3,
        default_categories: vec![],
        fallback_urls: vec![],
        local_category_prefixes: vec![],
    })
    .unwrap_err();
    assert_eq!(err, "invalid base_url: relative URL without a base");
}

#[test]
fn defaults_of_a_fresh_extension() {
    assert_eq!(default_timeout(), 15);
    assert_eq!(default_local_category_prefixes(), vec!["local-".to_string()]);
    let client = SearXNGClient::with_defaults().unwrap();
    assert_eq!(client.base_url, "http://localhost:8080/");
    assert!(client.default_categories.is_empty());
    assert_eq!(SearXNGExtension.name(), "std-searxng-search");
}

#[test]
fn search_url_uses_general_and_local_without_configured_defaults() {
    let client = local_client();
    let url = client.search_url("tau agent", &SearchOptions::default()).unwrap();
    assert_eq!(url, "http://localhost:8080/search?q=tau+agent&format=json&categories=general%2Clocal");
}

#[test]
fn search_url_uses_configured_default_categories() {
    let mut client = local_client();
    client.default_categories = vec!["news".to_string()];
    let url = client.search_url("foo", &SearchOptions::default()).unwrap();
    assert_eq!(url, "http://localhost:8080/search?q=foo&format=json&categories=news");
    let mut options = SearchOptions::default();
    options.categories = Some(vec![]);
    let url = client.search_url("foo", &options).unwrap();
    assert_eq!(url, "http://localhost:8080/search?q=foo&format=json&categories=news");
}

#[test]
fn search_url_searches_only_requested_categories() {
    let client = local_client();
    let mut options = SearchOptions::default();
    options.categories = Some(vec!["local".to_string()]);
    let url = client.search_url("foo", &options).unwrap();
    assert_eq!(url, "http://localhost:8080/search?q=foo&format=json&categories=local");
}

#[test]
fn search_url_with_every_parameter() {
    let client = local_client();
    let options = SearchOptions {
        categories: Some(vec!["general".to_string(), "it".to_string()]),
        engines: Some(vec!["duckduckgo".to_string(), "local-docs".to_string()]),
        language: Some("en-US".to_string()),
        time_range: Some("week".to_string()),
        num_results: Some(3),
        safe_search: Some(2),
        prefer_local: true,
    };
    let url = client.search_url("café & co", &options).unwrap();
    assert_eq!(
        url,
        "http://localhost:8080/search?q=caf%C3%A9+%26+co&format=json&categories=general%2Cit\
         &engines=duckduckgo%2Clocal-docs&language=en-US&time_range=week&safesearch=2"
    );
}

#[test]
fn search_url_joins_relative_to_the_base_path() {
    let mut client = local_client();
    client.base_url = "http://host/searx/".to_string();
    assert_eq!(
        client.search_url("x", &SearchOptions::default()).unwrap(),
        "http://host/searx/search?q=x&format=json&categories=general%2Clocal"
    );
    client.base_url = "not a url".to_string();
    assert_eq!(client.search_url("x", &SearchOptions::default()), None);
}

#[test]
fn status_errors() {
    assert_eq!(status_error(200), None);
    assert_eq!(
        status_error(403).unwrap(),
        "SearXNG returned HTTP 403: JSON format may not be enabled. Configure search.formats in settings.yml."
    );
    assert_eq!(status_error(429).unwrap(), "SearXNG returned HTTP 429: instance rate-limited");
    assert_eq!(status_error(502).unwrap(), "SearXNG returned HTTP 502");
    assert_eq!(status_error(0).unwrap(), "SearXNG returned HTTP 0");
}

#[test]
fn reply_is_normalized() {
    let client = local_client();
    let reply = parsed_reply(
        r#"{"query": "x", "results": [
            {"title": "T1", "url": "http://a", "content": "c1", "engines": ["google", "bing"],
             "score": 1.5, "language": "en", "publishedDate": "2024-01-01"},
            {"title": "T2", "url": "http://b", "engines": ["local-docs"], "score": 0.5, "tags": ["x"]}
        ]}"#,
    );
    let out = client.parse_search_response(&reply, &SearchOptions::default()).unwrap();
    assert_eq!(
        out,
        r#"{"count":2,"had_errors":false,"query":"x","results":[{"content":"c1","language":"en","published_date":"2024-01-01","score":1.5,"source_engine":"google","title":"T1","url":"http://a"},{"content":"","language":"","published_date":null,"score":0.5,"source_engine":"local-docs","tags":["x"],"title":"T2","url":"http://b"}]}"#
    );
    assert_serde_shape(&out);
}

#[test]
fn reply_query_is_echoed() {
    let client = local_client();
    let reply = parsed_reply(r#"{"query": "tau \"agent\"\n", "results": [{"title": "t"}]}"#);
    let out = client.parse_search_response(&reply, &SearchOptions::default()).unwrap();
    assert!(out.contains(r#""query":"tau \"agent\"\n","results":[{"#));
    let nested = parsed_reply(r#"{"query": {"query": "inner"}, "results": [{"title": "t"}]}"#);
    let out = client.parse_search_response(&nested, &SearchOptions::default()).unwrap();
    assert!(out.contains(r#""query":"inner""#));
}

#[test]
fn empty_results_carry_a_diagnostic() {
    let client = local_client();
    let reply = parsed_reply(r#"{"query": "foo", "results": []}"#);
    let out = client.parse_search_response(&reply, &SearchOptions::default()).unwrap();
    assert_eq!(
        out,
        r#"{"count":0,"diagnostics":"no results: review the categories or refine the query","had_errors":false,"query":"foo","results":[]}"#
    );
    assert_serde_shape(&out);
}

#[test]
fn reply_without_results_array() {
    let client = local_client();
    let reply = parsed_reply(r#"{"results": "none"}"#);
    let out = client.parse_search_response(&reply, &SearchOptions::default()).unwrap();
    assert_eq!(
        out,
        r#"{"count":0,"diagnostics":"no results: review the categories or refine the query","had_errors":false,"query":"","results":[]}"#
    );
}

#[test]
fn missing_fields_get_their_defaults() {
    let client = local_client();
    let reply = parsed_reply(r#"{"results": [{"engines": [7], "score": "high", "publishedDate": 3}]}"#);
    let out = client.parse_search_response(&reply, &SearchOptions::default()).unwrap();
    assert_eq!(
        out,
        r#"{"count":1,"had_errors":false,"query":"","results":[{"content":"","language":"","published_date":null,"score":0.0,"source_engine":"unknown","title":"","url":""}]}"#
    );
    assert_eq!(serde_json::to_string(&0.0f64).unwrap(), "0.0");
}

#[test]
fn integer_scores_are_written_as_floats() {
    let client = local_client();
    let reply = parsed_reply(r#"{"results": [{"title": "a", "score": 3}]}"#);
    let out = client.parse_search_response(&reply, &SearchOptions::default()).unwrap();
    assert!(out.contains(r#""score":3.0"#));
}

#[test]
fn parse_failure_is_a_tool_error() {
    let client = local_client();
    let reply: Result<JsonValue, String> = Err("expected value at line 1 column 1".to_string());
    let err = client.parse_search_response(&reply, &SearchOptions::default()).unwrap_err();
    assert_eq!(err, "failed to parse response: expected value at line 1 column 1");
}

fn titles(output: &str) -> Vec<String> {
    let v: serde_json::Value = serde_json::from_str(output).unwrap();
    v["results"].as_array().unwrap().iter().map(|r| r["title"].as_str().unwrap().to_string()).collect()
}

const MIXED_REPLY: &str = r#"{"results": [
    {"title": "A", "engines": ["google"], "score": 3.0},
    {"title": "B", "engines": ["local-wiki"], "score": 1.0},
    {"title": "C", "engines": ["bing"], "score": 5.0},
    {"title": "D", "engines": ["bing", "local-docs"], "score": 2.0},
    {"title": "E", "engines": ["local-notes"], "score": 1.0}
]}"#;

#[test]
fn prefer_local_puts_local_results_first() {
    let client = local_client();
    let mut options = SearchOptions::default();
    options.prefer_local = true;
    let out = client.parse_search_response(&parsed_reply(MIXED_REPLY), &options).unwrap();
    assert_eq!(titles(&out), vec!["D", "B", "E", "C", "A"]);
}

#[test]
fn without_prefer_local_the_order_is_kept() {
    let client = local_client();
    let out = client.parse_search_response(&parsed_reply(MIXED_REPLY), &SearchOptions::default()).unwrap();
    assert_eq!(titles(&out), vec!["A", "B", "C", "D", "E"]);
}

#[test]
fn num_results_limits_the_reported_results() {
    let client = local_client();
    let mut options = SearchOptions::default();
    options.num_results = Some(2);
    options.prefer_local = true;
    let out = client.parse_search_response(&parsed_reply(MIXED_REPLY), &options).unwrap();
    assert_eq!(titles(&out), vec!["B", "A"]);
    assert!(out.starts_with(r#"{"count":2,"#));
}

#[test]
fn prefer_local_does_not_pull_in_results_beyond_the_limit() {
    let client = local_client();
    let mut results: Vec<String> = (0..10).map(|i| format!(r#"{{"title": "w{i}", "engines": ["bing"]}}"#)).collect();
    results.push(r#"{"title": "near", "engines": ["local-docs"]}"#.to_string());
    let reply = parsed_reply(&format!(r#"{{"results": [{}]}}"#, results.join(",")));
    let plain = client.parse_search_response(&reply, &SearchOptions::default()).unwrap();
    let mut options = SearchOptions::default();
    options.prefer_local = true;
    let preferred = client.parse_search_response(&reply, &options).unwrap();
    let expected: Vec<String> = (0..10).map(|i| format!("w{i}")).collect();
    assert_eq!(titles(&plain), expected);
    assert_eq!(titles(&preferred), expected);
}

#[test]
fn default_limit_is_ten_and_cap_is_one_hundred() {
    let client = local_client();
    let many: Vec<String> = (0..120).map(|i| format!(r#"{{"title": "t{i}"}}"#)).collect();
    let reply = parsed_reply(&format!(r#"{{"results": [{}]}}"#, many.join(",")));
    let out = client.parse_search_response(&reply, &SearchOptions::default()).unwrap();
    assert_eq!(titles(&out).len(), 10);
    let mut options = SearchOptions::default();
    options.num_results = Some(1000);
    let out = client.parse_search_response(&reply, &options).unwrap();
    assert_eq!(titles(&out).len(), 100);
    assert!(out.starts_with(r#"{"count":100,"#));
}

#[test]
fn tags_are_merged() {
    let client = local_client();
    let reply = parsed_reply(
        r#"{"results": [
            {"title": "both", "karakeep_tags": ["k1", "k2"], "tags": ["t"]},
            {"title": "none", "karakeep_tags": null, "tags": []},
            {"title": "one", "karakeep_tags": "solo"},
            {"title": "mixed", "karakeep_tags": {"name": "k"}, "tags": ["t", 1]}
        ]}"#,
    );
    let out = client.parse_search_response(&reply, &SearchOptions::default()).unwrap();
    let v: serde_json::Value = serde_json::from_str(&out).unwrap();
    let results = v["results"].as_array().unwrap();
    assert_eq!(serde_json::to_string(&results[0]["tags"]).unwrap(), r#"["k1","k2","t"]"#);
    assert!(results[1].get("tags").is_none());
    assert_eq!(serde_json::to_string(&results[2]["tags"]).unwrap(), r#""solo""#);
    assert_eq!(serde_json::to_string(&results[3]["tags"]).unwrap(), r#"[{"name":"k"},"t",1]"#);
    assert!(results.iter().all(|r| r.get("karakeep_tags").is_none()));
    assert_serde_shape(&out);
}

#[test]
fn oversized_output_is_cut_within_the_limit() {
    let client = local_client();
    let big = "é".repeat(300_000);
    let reply = parsed_reply(&format!(r#"{{"results": [{{"title": "big", "content": "{big}"}}]}}"#));
    let out = client.parse_search_response(&reply, &SearchOptions::default()).unwrap();
    assert!(out.len() <= TOOL_OUTPUT_MAX_BYTES);
    assert!(out.ends_with("… (truncated)"));
    assert!(out.starts_with(r#"{"count":1,"had_errors":false,"query":"","results":[{"content":"éé"#));
    assert!(out.len() >= TOOL_OUTPUT_MAX_BYTES - 16);
}

#[test]
fn output_that_fits_is_not_cut() {
    let client = local_client();
    let text = "a".repeat(1000);
    let reply = parsed_reply(&format!(r#"{{"results": [{{"content": "{text}"}}]}}"#));
    let out = client.parse_search_response(&reply, &SearchOptions::default()).unwrap();
    assert!(!out.ends_with("… (truncated)"));
    assert_serde_shape(&out);
}

#[test]
fn query_argument_is_required() {
    let args = parsed_reply(r#"{"query": "tau agent"}"#).unwrap();
    assert_eq!(query_argument(&args).unwrap(), "tau agent");
    let missing = parsed_reply(r#"{"categories": ["local"]}"#).unwrap();
    assert_eq!(query_argument(&missing).unwrap_err(), "missing query parameter");
    let wrong = parsed_reply(r#"{"query": 5}"#).unwrap();
    assert_eq!(query_argument(&wrong).unwrap_err(), "missing query parameter");
}

fn client_with_fallbacks(fallbacks: Vec<String>) -> Result<SearXNGClient, String> {
    SearXNGClient::from_config(&Config {
        base_url: "http://primary:8080".to_string(),
        timeout_seconds: 15,
        default_categories: vec!["general".to_string()],
        fallback_urls: fallbacks,
        local_category_prefixes: vec![],
    })
}

#[test]
fn server_errors_fail_over_to_the_fallbacks() {
    let client = client_with_fallbacks(vec!["http://secondary:8080".to_string()]).unwrap();
    assert_eq!(client.fallback_urls, vec!["http://secondary:8080/".to_string()]);
    assert_eq!(client.next_instance(0, 503), Some(1));
    assert_eq!(client.next_instance(0, 500), Some(1));
    assert_eq!(client.next_instance(1, 503), None);
    assert_eq!(client.next_instance(0, 429), None);
    assert_eq!(client.next_instance(0, 200), None);
    assert_eq!(client.next_instance(0, 600), None);
    assert_eq!(
        client.search_url_at(1, "q", &SearchOptions::default()).unwrap(),
        "http://secondary:8080/search?q=q&format=json&categories=general"
    );
    assert_eq!(client.search_url_at(2, "q", &SearchOptions::default()), None);
    assert_eq!(
        client.search_url_at(0, "q", &SearchOptions::default()),
        client.search_url("q", &SearchOptions::default())
    );
}

#[test]
fn invalid_fallbacks_are_skipped() {
    let client = client_with_fallbacks(vec![
        "gopher://old".to_string(),
        "http://ok".to_string(),
        "not a url".to_string(),
    ])
    .unwrap();
    assert_eq!(client.fallback_urls, vec!["http://ok/".to_string()]);
    let single = local_client();
    assert_eq!(single.next_instance(0, 502), None);
    assert!(SearXNGClient::with_defaults().unwrap().fallback_urls.is_empty());
}

#[test]
fn steps_after_a_reply() {
    let client = client_with_fallbacks(vec!["http://secondary".to_string()]).unwrap();
    let options = SearchOptions::default();
    let ok = parsed_reply(r#"{"query": "q", "results": [{"title": "t"}]}"#);
    match client.after_reply(0, 503, &ok, &options) {
        SearchStep::TryInstance(i) => assert_eq!(i, 1),
        other => panic!("expected failover, got {other:?}"),
    }
    match client.after_reply(1, 503, &ok, &options) {
        SearchStep::Finished(outcome) => assert_eq!(outcome.unwrap_err(), "SearXNG returned HTTP 503"),
        other => panic!("expected the end, got {other:?}"),
    }
    match client.after_reply(0, 200, &ok, &options) {
        SearchStep::Finished(outcome) => {
            assert_eq!(outcome, client.parse_search_response(&ok, &options));
            assert!(outcome.unwrap().contains(r#""title":"t""#));
        }
        other => panic!("expected the end, got {other:?}"),
    }
    let bad: Result<JsonValue, String> = Err("EOF while parsing a value at line 1 column 0".to_string());
    match client.after_reply(0, 429, &bad, &options) {
        SearchStep::Finished(outcome) => {
            assert_eq!(outcome.unwrap_err(), "SearXNG returned HTTP 429: instance rate-limited")
        }
        other => panic!("expected the end, got {other:?}"),
    }
}

#[test]
fn category_marks_results_local() {
    let client = local_client();
    let mut options = SearchOptions::default();
    options.prefer_local = true;
    let reply = parsed_reply(
        r#"{"results": [
            {"title": "web", "engines": ["google"], "category": "general", "score": 9.0},
            {"title": "solr", "engines": ["solr"], "category": "local", "score": 1.0},
            {"title": "prefixed", "engines": ["x"], "category": "local-docs", "score": 0.5},
            {"title": "not-string", "engines": ["y"], "category": 3, "score": 8.0}
        ]}"#,
    );
    let out = client.parse_search_response(&reply, &options).unwrap();
    assert_eq!(titles(&out), vec!["solr", "prefixed", "web", "not-string"]);
}

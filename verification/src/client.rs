//! The SearXNG client: configuration, request URLs, and turning responses
//! into the tool's output.

use vstd::prelude::*;
use crate::endpoint::{law_query_text_reads_back, lemma_values_named_append, lemma_values_named_optional, lemma_values_named_single, optional_pair, parsed_query, values_named, push_optional_pair, push_pair, query_text, validate_url, validated_url};
use crate::hits::{HitModel, SearchHit, hit_models};
use crate::json::{Json, JsonValue, lemma_models, model, models};
use crate::normalize::{normalize_result, normalized};
use crate::options::{OptionsModel, SearchOptions};
use crate::output::{cap_output, capped, render_response, response_text};
use crate::outside::{joined_url, url_join};
use crate::query::{borrow_text, optional_level, optional_text, response_results};
use crate::ranking::{rank_results, ranked};
use crate::text::{decimal, decimal_text, join_texts, joined, texts};

verus! {

/// Log target for events emitted from this extension.
pub const LOG_TARGET: &'static str = "searxng_search";

/// Tool name advertised to models.
pub const MODEL_VISIBLE_TOOL_NAME: &'static str = "searxng_search";

/// Default SearXNG instance URL.
pub const DEFAULT_BASE_URL: &'static str = "http://localhost:8080";

/// Default request timeout, in seconds.
pub const DEFAULT_TIMEOUT_SECONDS: u64 = 15;

/// Results reported when a call does not say how many.
pub const DEFAULT_NUM_RESULTS: u32 = 10;

/// Most results reported for one call.
pub const MAX_NUM_RESULTS: u32 = 100;

/// The default request timeout, in seconds.
pub fn default_timeout() -> (r: u64)
    ensures
        r == 15,
{
    DEFAULT_TIMEOUT_SECONDS
}

/// The local-category prefixes used when the configuration names none.
pub fn default_local_category_prefixes() -> (r: Vec<String>)
    ensures
        texts(r@) == seq!["local-"@],
{
    let mut v: Vec<String> = Vec::new();
    v.push(String::from_str("local-"));
    assert(texts(v@) =~= seq!["local-"@]);
    v
}

/// A copy of a list of strings.
pub fn copy_texts(items: &Vec<String>) -> (r: Vec<String>)
    ensures
        texts(r@) == texts(items@),
{
    let mut out: Vec<String> = Vec::new();
    let n: usize = items.len();
    let mut i: usize = 0;
    while i < n
        invariant
            n == items@.len(),
            i <= n,
            texts(out@) == texts(items@).take(i as int),
            out@.len() == i,
        decreases n - i,
    {
        let ghost before = out@;
        let c = items[i].clone();
        assert(c@ == items@[i as int]@);
        out.push(c);
        assert(out@ =~= before.push(c));
        assert(texts(out@).len() == i + 1);
        assert forall|k: int| 0 <= k < i + 1 implies #[trigger] texts(out@)[k] == texts(items@).take(i + 1)[k] by {
            if k < i {
                assert(texts(before)[k] == texts(items@).take(i as int)[k]);
            }
        }
        assert(texts(out@) =~= texts(items@).take(i + 1));
        i = i + 1;
    }
    assert(texts(items@).take(n as int) =~= texts(items@));
    out
}

/// The extension's configuration.
#[derive(Debug, Clone)]
pub struct Config {
    pub base_url: String,
    pub timeout_seconds: u64,
    pub default_categories: Vec<String>,
    pub fallback_urls: Vec<String>,
    pub local_category_prefixes: Vec<String>,
}

/// A client of one SearXNG instance.
#[derive(Debug, Clone)]
pub struct SearXNGClient {
    /// The serialization of the instance's URL.
    pub base_url: String,
    /// The request timeout, in seconds.
    pub timeout_seconds: u64,
    /// Categories searched when a call names none.
    pub default_categories: Vec<String>,
    /// Engine-name prefixes that mark a result as local.
    pub local_category_prefixes: Vec<String>,
    /// The serializations of instances tried, in order, when an instance
    /// answers with a server error.
    pub fallback_urls: Vec<String>,
}

/// Mutable state shared by handlers.
pub struct SearXNGState {
    pub client: SearXNGClient,
}

/// Extension declaration.
pub struct SearXNGExtension;

impl SearXNGExtension {
    /// The extension's name.
    pub fn name(&self) -> (r: &'static str)
        ensures
            r@ == "std-searxng-search"@,
    {
        "std-searxng-search"
    }
}

/// The message for an HTTP status: nothing for 200, a diagnosis for 403 and
/// 429, and the bare status for any other.
pub open spec fn status_message(status: u16) -> Option<Seq<char>> {
    if status == 200 {
        None
    } else if status == 403 {
        Some("SearXNG returned HTTP 403: JSON format may not be enabled. Configure search.formats in settings.yml."@)
    } else if status == 429 {
        Some("SearXNG returned HTTP 429: instance rate-limited"@)
    } else {
        Some("SearXNG returned HTTP "@ + decimal(status as nat))
    }
}

/// The error that an HTTP status of SearXNG's reply means, if any.
pub fn status_error(status: u16) -> (r: Option<String>)
    ensures
        match r {
            Some(m) => status_message(status) == Some(m@),
            None => status_message(status) is None,
        },
{
    if status == 200 {
        None
    } else if status == 403 {
        Some(String::from_str("SearXNG returned HTTP 403: JSON format may not be enabled. Configure search.formats in settings.yml."))
    } else if status == 429 {
        Some(String::from_str("SearXNG returned HTTP 429: instance rate-limited"))
    } else {
        let mut m = String::from_str("SearXNG returned HTTP ");
        m.append(decimal_text(status as u64).as_str());
        Some(m)
    }
}

/// How many results a call reports at most: what it asks for (10 when it
/// does not say), but never more than 100.
pub open spec fn result_limit(num_results: Option<u32>) -> nat {
    let asked: nat = match num_results {
        Some(n) => n as nat,
        None => 10nat,
    };
    if asked <= 100 { asked } else { 100nat }
}

/// The query that SearXNG's reply echoes: its `query` string (or, where
/// `query` is an object, that object's `query` string), else the empty text.
pub open spec fn reply_query(parsed: Json) -> Seq<char> {
    match parsed.member("query"@) {
        Some(Json::Text(t)) => t,
        Some(q) => match q.member("query"@) {
            Some(v) => match v.text_value() {
                Some(t) => t,
                None => Seq::empty(),
            },
            None => Seq::empty(),
        },
        None => Seq::empty(),
    }
}

/// SearXNG's first results of a reply, as many as the call's limit allows,
/// normalized, in SearXNG's order.
pub open spec fn kept_hits(parsed: Json, prefixes: Seq<Seq<char>>, limit: nat) -> Seq<HitModel> {
    let hits = response_results(parsed).map_values(|r: Json| normalized(r, prefixes));
    if hits.len() <= limit { hits } else { hits.take(limit as int) }
}

/// The results a call reports: SearXNG's first ones, cut to the call's limit,
/// and then, when the call prefers local results, ranked local first.
pub open spec fn reported_hits(parsed: Json, prefixes: Seq<Seq<char>>, prefer_local: bool, limit: nat) -> Seq<HitModel> {
    let kept = kept_hits(parsed, prefixes, limit);
    if prefer_local { ranked(kept) } else { kept }
}

/// The outcome of a search for a reply: the results as JSON text within the
/// size limit, or, for a reply that is not JSON, an error with the parser's message.
pub open spec fn search_output(parsed: Result<Json, Seq<char>>, prefixes: Seq<Seq<char>>, options: OptionsModel) -> Result<Seq<char>, Seq<char>> {
    match parsed {
        Err(e) => Err("failed to parse response: "@ + e),
        Ok(v) => Ok(capped(response_text(
            reply_query(v),
            reported_hits(v, prefixes, options.prefer_local, result_limit(options.num_results)),
        ))),
    }
}

/// A parse outcome as a model.
pub open spec fn parsed_model(parsed: Result<JsonValue, String>) -> Result<Json, Seq<char>> {
    match parsed {
        Ok(v) => Ok(v@),
        Err(e) => Err(e@),
    }
}

fn reply_query_text(parsed: &JsonValue) -> (r: String)
    ensures
        r@ == reply_query(parsed@),
{
    match parsed.get("query") {
        Some(JsonValue::String(t)) => String::from_str(t.as_str()),
        Some(q) => match q.get("query") {
            Some(v) => match v.as_str() {
                Some(t) => String::from_str(t),
                None => String::new(),
            },
            None => String::new(),
        },
        None => String::new(),
    }
}

fn limit_of(num_results: Option<u32>) -> (r: usize)
    ensures
        r == result_limit(num_results),
{
    let asked: u32 = match num_results {
        Some(n) => n,
        None => DEFAULT_NUM_RESULTS,
    };
    if asked <= MAX_NUM_RESULTS { asked as usize } else { MAX_NUM_RESULTS as usize }
}

} // verus!

verus! {

/// The categories searched, joined by commas: those the call names, else the
/// configured defaults, else `general` and `local`.
pub open spec fn chosen_categories(defaults: Seq<Seq<char>>, requested: Option<Seq<Seq<char>>>) -> Seq<char> {
    if requested is Some && requested->0.len() > 0 {
        joined(requested->0, ","@)
    } else if defaults.len() > 0 {
        joined(defaults, ","@)
    } else {
        "general,local"@
    }
}

/// The engines parameter: the engines the call names, joined by commas, or
/// nothing when it names none.
pub open spec fn chosen_engines(requested: Option<Seq<Seq<char>>>) -> Option<Seq<char>> {
    if requested is Some && requested->0.len() > 0 {
        Some(joined(requested->0, ","@))
    } else {
        None
    }
}

/// The query pairs of a search request, in the order they are written.
pub open spec fn search_pairs(
    query: Seq<char>,
    categories: Seq<char>,
    engines: Option<Seq<char>>,
    language: Option<Seq<char>>,
    time_range: Option<Seq<char>>,
    safe_search: Option<u8>,
) -> Seq<(Seq<char>, Seq<char>)> {
    seq![("q"@, query), ("format"@, "json"@), ("categories"@, categories)]
        + optional_pair("engines"@, engines)
        + optional_pair("language"@, language)
        + optional_pair("time_range"@, time_range)
        + optional_pair("safesearch"@, optional_level(safe_search))
}

/// A search request URL: `<base>/search`, `?`, and the query pairs.
pub open spec fn search_request_url(
    base: Seq<char>,
    query: Seq<char>,
    categories: Seq<char>,
    engines: Option<Seq<char>>,
    language: Option<Seq<char>>,
    time_range: Option<Seq<char>>,
    safe_search: Option<u8>,
) -> Seq<char> {
    joined_url(base, "search"@)->0 + seq!['?'] + query_text(
        search_pairs(query, categories, engines, language, time_range, safe_search),
    )
}

/// The query string of a search request reads back as its pairs, in order:
/// `q`, `format=json` and the categories (written even when empty), then the
/// engines, language, time range and safe-search level where given.
pub proof fn law_search_request_reads_back(
    query: Seq<char>,
    categories: Seq<char>,
    engines: Option<Seq<char>>,
    language: Option<Seq<char>>,
    time_range: Option<Seq<char>>,
    safe_search: Option<u8>,
)
    ensures
        parsed_query(query_text(search_pairs(query, categories, engines, language, time_range, safe_search)))
            == search_pairs(query, categories, engines, language, time_range, safe_search),
        search_pairs(query, categories, engines, language, time_range, safe_search).take(3)
            == seq![("q"@, query), ("format"@, "json"@), ("categories"@, categories)],
{
    let pairs = search_pairs(query, categories, engines, language, time_range, safe_search);
    law_query_text_reads_back(pairs);
    assert(pairs.take(3) =~= seq![("q"@, query), ("format"@, "json"@), ("categories"@, categories)]);
}

/// The values a value that may be missing gives a parameter.
pub open spec fn given_values(value: Option<Seq<char>>) -> Seq<Seq<char>> {
    match value {
        Some(v) => seq![v],
        None => Seq::empty(),
    }
}

proof fn lemma_search_pair_values(
    query: Seq<char>,
    categories: Seq<char>,
    engines: Option<Seq<char>>,
    language: Option<Seq<char>>,
    time_range: Option<Seq<char>>,
    safe_search: Option<u8>,
    name: Seq<char>,
)
    ensures
        values_named(search_pairs(query, categories, engines, language, time_range, safe_search), name)
            == values_named(seq![("q"@, query)], name) + values_named(seq![("format"@, "json"@)], name)
                + values_named(seq![("categories"@, categories)], name)
                + values_named(optional_pair("engines"@, engines), name)
                + values_named(optional_pair("language"@, language), name)
                + values_named(optional_pair("time_range"@, time_range), name)
                + values_named(optional_pair("safesearch"@, optional_level(safe_search)), name),
{
    let a = seq![("q"@, query)];
    let b = seq![("format"@, "json"@)];
    let c = seq![("categories"@, categories)];
    let o1 = optional_pair("engines"@, engines);
    let o2 = optional_pair("language"@, language);
    let o3 = optional_pair("time_range"@, time_range);
    let o4 = optional_pair("safesearch"@, optional_level(safe_search));
    assert(seq![("q"@, query), ("format"@, "json"@), ("categories"@, categories)] =~= a + b + c);
    lemma_values_named_append(a, b, name);
    lemma_values_named_append(a + b, c, name);
    lemma_values_named_append(a + b + c, o1, name);
    lemma_values_named_append(a + b + c + o1, o2, name);
    lemma_values_named_append(a + b + c + o1 + o2, o3, name);
    lemma_values_named_append(a + b + c + o1 + o2 + o3, o4, name);
}

/// What a search request sends, read back from its query string: one `q`
/// (the query), one `format` (`json`), one `categories`; an `engines`,
/// `language` and `time_range` exactly when given; and a `safesearch` with
/// the level's decimal text exactly when a level is given, 0 included.
pub proof fn law_search_request_parameters(
    query: Seq<char>,
    categories: Seq<char>,
    engines: Option<Seq<char>>,
    language: Option<Seq<char>>,
    time_range: Option<Seq<char>>,
    safe_search: Option<u8>,
)
    ensures
        ({
            let p = parsed_query(query_text(search_pairs(query, categories, engines, language, time_range, safe_search)));
            &&& values_named(p, "q"@) == seq![query]
            &&& values_named(p, "format"@) == seq!["json"@]
            &&& values_named(p, "categories"@) == seq![categories]
            &&& values_named(p, "engines"@) == given_values(engines)
            &&& values_named(p, "language"@) == given_values(language)
            &&& values_named(p, "time_range"@) == given_values(time_range)
            &&& values_named(p, "safesearch"@) == match safe_search {
                Some(l) => seq![decimal(l as nat)],
                None => Seq::<Seq<char>>::empty(),
            }
        }),
{
    let pairs = search_pairs(query, categories, engines, language, time_range, safe_search);
    law_query_text_reads_back(pairs);
    reveal_strlit("q");
    reveal_strlit("format");
    reveal_strlit("json");
    reveal_strlit("categories");
    reveal_strlit("engines");
    reveal_strlit("language");
    reveal_strlit("time_range");
    reveal_strlit("safesearch");
    let names = seq!["q"@, "format"@, "categories"@, "engines"@, "language"@, "time_range"@, "safesearch"@];
    assert forall|i: int, j: int| 0 <= i < j < 7 implies #[trigger] names[i] != #[trigger] names[j] by {
        assert(names[i].len() != names[j].len() || names[i][0] != names[j][0]);
    }
    assert forall|i: int| 0 <= i < 7 implies ({
        let name = #[trigger] names[i];
        values_named(pairs, name) == (if name == "q"@ { seq![query] } else { Seq::empty() })
            + (if name == "format"@ { seq!["json"@] } else { Seq::empty() })
            + (if name == "categories"@ { seq![categories] } else { Seq::empty() })
            + (if name == "engines"@ { given_values(engines) } else { Seq::empty() })
            + (if name == "language"@ { given_values(language) } else { Seq::empty() })
            + (if name == "time_range"@ { given_values(time_range) } else { Seq::empty() })
            + (if name == "safesearch"@ { given_values(optional_level(safe_search)) } else { Seq::empty() })
    }) by {
        let name = names[i];
        lemma_search_pair_values(query, categories, engines, language, time_range, safe_search, name);
        lemma_values_named_single(("q"@, query), name);
        lemma_values_named_single(("format"@, "json"@), name);
        lemma_values_named_single(("categories"@, categories), name);
        lemma_values_named_optional("engines"@, engines, name);
        lemma_values_named_optional("language"@, language, name);
        lemma_values_named_optional("time_range"@, time_range, name);
        lemma_values_named_optional("safesearch"@, optional_level(safe_search), name);
    }
    let e = Seq::<Seq<char>>::empty();
    assert(names[0] == "q"@);
    assert(seq![query] + e + e + e + e + e + e =~= seq![query]);
    assert(names[1] == "format"@);
    assert(e + seq!["json"@] + e + e + e + e + e =~= seq!["json"@]);
    assert(names[2] == "categories"@);
    assert(e + e + seq![categories] + e + e + e + e =~= seq![categories]);
    assert(names[3] == "engines"@);
    assert(e + e + e + given_values(engines) + e + e + e =~= given_values(engines));
    assert(names[4] == "language"@);
    assert(e + e + e + e + given_values(language) + e + e =~= given_values(language));
    assert(names[5] == "time_range"@);
    assert(e + e + e + e + e + given_values(time_range) + e =~= given_values(time_range));
    assert(names[6] == "safesearch"@);
    assert(e + e + e + e + e + e + given_values(optional_level(safe_search)) =~= given_values(optional_level(safe_search)));
}

/// Builds `<base>/search?q=..&format=json&categories=..`, with engines,
/// language, time range and safe-search level where given. The base must
/// join with `search`; `SearXNGClient::search_url_at` checks that first.
fn build_search_url(
    base: &str,
    query: &str,
    categories: &str,
    engines: Option<&str>,
    language: Option<&str>,
    time_range: Option<&str>,
    safe_search: Option<u8>,
) -> (url: String)
    requires
        joined_url(base@, "search"@) is Some,
    ensures
        url@ == search_request_url(base@, query@, categories@, optional_text(engines),
            optional_text(language), optional_text(time_range), safe_search),
{
    let endpoint = match url_join(base, "search") {
        Some(e) => e,
        None => String::new(),
    };
    let mut q = String::new();
    let ghost pairs: Seq<(Seq<char>, Seq<char>)> = Seq::empty();
    push_pair(&mut q, "q", query, Ghost(pairs));
    proof { pairs = pairs.push(("q"@, query@)); }
    push_pair(&mut q, "format", "json", Ghost(pairs));
    proof { pairs = pairs.push(("format"@, "json"@)); }
    push_pair(&mut q, "categories", categories, Ghost(pairs));
    proof {
        pairs = pairs.push(("categories"@, categories@));
        assert(pairs =~= seq![("q"@, query@), ("format"@, "json"@), ("categories"@, categories@)]);
    }
    push_optional_pair(&mut q, "engines", engines, Ghost(pairs));
    proof { pairs = pairs + optional_pair("engines"@, optional_text(engines)); }
    push_optional_pair(&mut q, "language", language, Ghost(pairs));
    proof { pairs = pairs + optional_pair("language"@, optional_text(language)); }
    push_optional_pair(&mut q, "time_range", time_range, Ghost(pairs));
    proof { pairs = pairs + optional_pair("time_range"@, optional_text(time_range)); }
    let level = match safe_search {
        Some(l) => Some(decimal_text(l as u64)),
        None => None,
    };
    push_optional_pair(&mut q, "safesearch", borrow_text(&level), Ghost(pairs));
    let mut url = endpoint;
    url.push('?');
    url.append(q.as_str());
    url
}

/// The fallback URLs that validate as the base URL does, in order; those
/// that do not are skipped.
pub open spec fn validated_fallbacks(urls: Seq<Seq<char>>) -> Seq<Seq<char>>
    decreases urls.len(),
{
    if urls.len() == 0 {
        Seq::empty()
    } else {
        match validated_url(urls.last()) {
            Ok(u) => validated_fallbacks(urls.drop_last()).push(u),
            Err(_) => validated_fallbacks(urls.drop_last()),
        }
    }
}

fn validate_fallbacks(urls: &Vec<String>) -> (r: Vec<String>)
    ensures
        texts(r@) == validated_fallbacks(texts(urls@)),
{
    let mut out: Vec<String> = Vec::new();
    let n: usize = urls.len();
    let mut i: usize = 0;
    assert(texts(urls@).take(0) =~= Seq::<Seq<char>>::empty());
    assert(texts(out@) =~= Seq::<Seq<char>>::empty());
    while i < n
        invariant
            n == urls@.len(),
            i <= n,
            validated_fallbacks(texts(urls@).take(i as int)) == texts(out@),
        decreases n - i,
    {
        let ghost before = out@;
        proof {
            assert(texts(urls@).take(i + 1).drop_last() =~= texts(urls@).take(i as int));
            assert(texts(urls@).take(i + 1).last() == urls@[i as int]@);
        }
        match validate_url(urls[i].as_str()) {
            Ok(u) => {
                out.push(u);
                assert(texts(out@) =~= texts(before).push(out@.last()@));
            },
            Err(_) => {},
        }
        i = i + 1;
    }
    assert(texts(urls@).take(n as int) =~= texts(urls@));
    out
}

impl SearXNGClient {
    /// A client of the instance at `base_url`.
    pub fn new(base_url: String, timeout_seconds: u64, default_categories: Vec<String>, local_category_prefixes: Vec<String>) -> (c: SearXNGClient)
        ensures
            c.base_url == base_url,
            c.timeout_seconds == timeout_seconds,
            c.default_categories == default_categories,
            c.local_category_prefixes == local_category_prefixes,
            c.fallback_urls@.len() == 0,
    {
        SearXNGClient { base_url, timeout_seconds, default_categories, local_category_prefixes, fallback_urls: Vec::new() }
    }

    /// The client that a configuration describes, or the message that
    /// refuses its base URL. Fallback URLs that do not validate are skipped.
    pub fn from_config(config: &Config) -> (r: Result<SearXNGClient, String>)
        ensures
            match r {
                Ok(c) => validated_url(config.base_url@) == Ok::<Seq<char>, Seq<char>>(c.base_url@)
                    && texts(c.fallback_urls@) == validated_fallbacks(texts(config.fallback_urls@))
                    && c.timeout_seconds == config.timeout_seconds
                    && texts(c.default_categories@) == texts(config.default_categories@)
                    && texts(c.local_category_prefixes@) == texts(config.local_category_prefixes@),
                Err(e) => validated_url(config.base_url@) == Err::<Seq<char>, Seq<char>>(e@),
            },
    {
        let base_url = match validate_url(config.base_url.as_str()) {
            Ok(u) => u,
            Err(e) => return Err(e),
        };
        let fallback_urls = validate_fallbacks(&config.fallback_urls);
        let mut client = SearXNGClient::new(
            base_url,
            config.timeout_seconds,
            copy_texts(&config.default_categories),
            copy_texts(&config.local_category_prefixes),
        );
        client.fallback_urls = fallback_urls;
        Ok(client)
    }

    /// The client that a fresh extension starts with: the default instance
    /// URL, the default timeout, no default categories and the default
    /// local-category prefix; or the message refusing the default URL.
    pub fn with_defaults() -> (r: Result<SearXNGClient, String>)
        ensures
            match r {
                Ok(c) => validated_url(DEFAULT_BASE_URL@) == Ok::<Seq<char>, Seq<char>>(c.base_url@)
                    && c.timeout_seconds == 15
                    && c.default_categories@.len() == 0
                    && texts(c.local_category_prefixes@) == seq!["local-"@]
                    && c.fallback_urls@.len() == 0,
                Err(e) => validated_url(DEFAULT_BASE_URL@) == Err::<Seq<char>, Seq<char>>(e@),
            },
    {
        match validate_url(DEFAULT_BASE_URL) {
            Ok(base_url) => Ok(SearXNGClient::new(
                base_url,
                default_timeout(),
                Vec::new(),
                default_local_category_prefixes(),
            )),
            Err(e) => Err(e),
        }
    }

    /// The instances of the client, in the order they are tried.
    pub open spec fn instances(self) -> Seq<Seq<char>> {
        seq![self.base_url@] + texts(self.fallback_urls@)
    }

    /// The URL of the search that a call asks for, sent to the instance at
    /// `instance` (0 the base URL, then the fallbacks); nothing where there is
    /// no such instance or its URL does not join with `search`.
    pub fn search_url_at(&self, instance: usize, query: &str, options: &SearchOptions) -> (url: Option<String>)
        ensures
            match url {
                Some(u) => instance < self.instances().len()
                    && joined_url(self.instances()[instance as int], "search"@) is Some
                    && u@ == search_request_url(
                        self.instances()[instance as int],
                        query@,
                        chosen_categories(texts(self.default_categories@), options@.categories),
                        chosen_engines(options@.engines),
                        options@.language,
                        options@.time_range,
                        options@.safe_search,
                    ),
                None => instance >= self.instances().len()
                    || joined_url(self.instances()[instance as int], "search"@) is None,
            },
    {
        if instance > self.fallback_urls.len() {
            return None;
        }
        let base: &str = if instance == 0 {
            self.base_url.as_str()
        } else {
            self.fallback_urls[instance - 1].as_str()
        };
        proof {
            if instance > 0 {
                assert(self.instances()[instance as int] == self.fallback_urls@[instance - 1]@);
            }
        }
        if url_join(base, "search").is_none() {
            return None;
        }
        let categories: String = match &options.categories {
            Some(c) if c.len() > 0 => join_texts(c.as_slice(), ","),
            _ => {
                if self.default_categories.len() > 0 {
                    join_texts(self.default_categories.as_slice(), ",")
                } else {
                    String::from_str("general,local")
                }
            },
        };
        let engines: Option<String> = match &options.engines {
            Some(e) if e.len() > 0 => Some(join_texts(e.as_slice(), ",")),
            _ => None,
        };
        let language = borrow_text(&options.language);
        let time_range = borrow_text(&options.time_range);
        Some(build_search_url(
            base,
            query,
            categories.as_str(),
            borrow_text(&engines),
            language,
            time_range,
            options.safe_search,
        ))
    }

    /// The URL of the search that a call asks for, at the base URL; nothing
    /// where the base URL does not join with `search`.
    pub fn search_url(&self, query: &str, options: &SearchOptions) -> (url: Option<String>)
        ensures
            match url {
                Some(u) => joined_url(self.base_url@, "search"@) is Some && u@ == search_request_url(
                    self.base_url@,
                    query@,
                    chosen_categories(texts(self.default_categories@), options@.categories),
                    chosen_engines(options@.engines),
                    options@.language,
                    options@.time_range,
                    options@.safe_search,
                ),
                None => joined_url(self.base_url@, "search"@) is None,
            },
    {
        self.search_url_at(0, query, options)
    }

    /// The instance to try after `tried` answered with `status`: the next one
    /// for a server error (5xx) while one is left, else none.
    pub fn next_instance(&self, tried: usize, status: u16) -> (next: Option<usize>)
        ensures
            next == if 500 <= status <= 599 && tried + 1 < self.instances().len() {
                Some((tried + 1) as usize)
            } else {
                None::<usize>
            },
    {
        if 500 <= status && status <= 599 && tried < self.fallback_urls.len() {
            Some(tried + 1)
        } else {
            None
        }
    }
}

} // verus!

verus! {

impl SearXNGClient {
    /// The normalized results of a reply, in SearXNG's order.
    fn normalized_results(&self, parsed: &JsonValue) -> (hits: Vec<SearchHit>)
        ensures
            hit_models(hits@) == response_results(parsed@).map_values(
                |r: Json| normalized(r, texts(self.local_category_prefixes@)),
            ),
    {
        let ghost prefixes = texts(self.local_category_prefixes@);
        let ghost wanted = response_results(parsed@).map_values(|r: Json| normalized(r, prefixes));
        let mut hits: Vec<SearchHit> = Vec::new();
        match parsed.get("results") {
            Some(v) => match v {
                JsonValue::Array(results) => {
                    let ghost ms = models(results@);
                    proof {
                        lemma_models(results@);
                        assert(ms == response_results(parsed@));
                    }
                    let n: usize = results.len();
                    let mut i: usize = 0;
                    while i < n
                        invariant
                            n == results@.len(),
                            ms == models(results@),
                            ms.len() == n,
                            forall|k: int| 0 <= k < n ==> #[trigger] ms[k] == model(results@[k]),
                            wanted == ms.map_values(|r: Json| normalized(r, prefixes)),
                            prefixes == texts(self.local_category_prefixes@),
                            i <= n,
                            hits@.len() == i,
                            hit_models(hits@) == wanted.take(i as int),
                        decreases n - i,
                    {
                        let ghost before = hits@;
                        let h = normalize_result(&results[i], &self.local_category_prefixes);
                        hits.push(h);
                        proof {
                            assert(hits@ =~= before.push(h));
                            assert forall|k: int| 0 <= k < i + 1 implies #[trigger] hit_models(hits@)[k] == wanted.take(i + 1)[k] by {
                                if k < i {
                                    assert(hit_models(before)[k] == wanted.take(i as int)[k]);
                                }
                            }
                            assert(hit_models(hits@) =~= wanted.take(i + 1));
                        }
                        i = i + 1;
                    }
                    proof {
                        assert(wanted.take(n as int) =~= wanted);
                    }
                },
                _ => {
                    proof {
                        assert(hit_models(hits@) =~= wanted);
                    }
                },
            },
            None => {
                proof {
                    assert(hit_models(hits@) =~= wanted);
                }
            },
        }
        hits
    }

    /// Turns SearXNG's parsed reply into the tool's output: the results
    /// normalized, local ones first when the call prefers them, at most as many
    /// as the call allows, written as JSON within the output size limit. A
    /// reply that did not parse is an error carrying the parser's message.
    pub fn parse_search_response(&self, parsed: &Result<JsonValue, String>, options: &SearchOptions) -> (output: Result<String, String>)
        ensures
            match output {
                Ok(t) => search_output(parsed_model(*parsed), texts(self.local_category_prefixes@), options@)
                    == Ok::<Seq<char>, Seq<char>>(t@),
                Err(e) => search_output(parsed_model(*parsed), texts(self.local_category_prefixes@), options@)
                    == Err::<Seq<char>, Seq<char>>(e@),
            },
    {
        match parsed {
            Err(e) => {
                let mut message = String::from_str("failed to parse response: ");
                message.append(e.as_str());
                Err(message)
            },
            Ok(v) => {
                let mut hits = self.normalized_results(v);
                let ghost before_cut = hits@;
                let limit: usize = limit_of(options.num_results);
                if hits.len() > limit {
                    hits.truncate(limit);
                    proof {
                        assert(hit_models(hits@) =~= hit_models(before_cut).take(limit as int));
                    }
                }
                let ordered = if options.prefer_local {
                    rank_results(hits)
                } else {
                    hits
                };
                let query = reply_query_text(v);
                let text = render_response(query.as_str(), &ordered);
                Ok(cap_output(text))
            },
        }
    }
}

/// The `query` argument of a tool call, or the message for its absence.
pub open spec fn query_of_arguments(args: Json) -> Result<Seq<char>, Seq<char>> {
    match args.member("query"@) {
        Some(v) => match v.text_value() {
            Some(q) => Ok(q),
            None => Err("missing query parameter"@),
        },
        None => Err("missing query parameter"@),
    }
}

/// Reads the query of a tool call from its arguments.
pub fn query_argument(args: &JsonValue) -> (r: Result<String, String>)
    ensures
        match r {
            Ok(q) => query_of_arguments(args@) == Ok::<Seq<char>, Seq<char>>(q@),
            Err(e) => query_of_arguments(args@) == Err::<Seq<char>, Seq<char>>(e@),
        },
{
    match args.get("query") {
        Some(v) => match v.as_str() {
            Some(q) => Ok(String::from_str(q)),
            None => Err(String::from_str("missing query parameter")),
        },
        None => Err(String::from_str("missing query parameter")),
    }
}

} // verus!

verus! {

/// With `prefer_local`, a call reports the same results as without it, only
/// in another order: preferring local results never filters any out.
pub proof fn law_prefer_local_only_reorders(parsed: Json, prefixes: Seq<Seq<char>>, limit: nat)
    ensures
        reported_hits(parsed, prefixes, true, limit).to_multiset()
            == reported_hits(parsed, prefixes, false, limit).to_multiset(),
        reported_hits(parsed, prefixes, true, limit).len()
            == reported_hits(parsed, prefixes, false, limit).len(),
{
    crate::ranking::law_ranking_keeps_results(kept_hits(parsed, prefixes, limit));
}

/// With `prefer_local`, no reported local result comes after one that is not
/// local, and within each group scores do not rise.
pub proof fn law_prefer_local_puts_local_first(parsed: Json, prefixes: Seq<Seq<char>>, limit: nat)
    ensures
        forall|i: int, j: int| 0 <= i < j < reported_hits(parsed, prefixes, true, limit).len()
            && (#[trigger] reported_hits(parsed, prefixes, true, limit)[j]).is_local
            ==> (#[trigger] reported_hits(parsed, prefixes, true, limit)[i]).is_local,
        forall|i: int, j: int| 0 <= i < j < reported_hits(parsed, prefixes, true, limit).len()
            && (#[trigger] reported_hits(parsed, prefixes, true, limit)[i]).is_local
                == (#[trigger] reported_hits(parsed, prefixes, true, limit)[j]).is_local
            ==> reported_hits(parsed, prefixes, true, limit)[i].score_rank
                >= reported_hits(parsed, prefixes, true, limit)[j].score_rank,
{
    crate::ranking::law_ranking_puts_local_first(kept_hits(parsed, prefixes, limit));
}

/// Without `prefer_local`, the reported results are SearXNG's first ones,
/// in SearXNG's order.
pub proof fn law_default_order_kept(parsed: Json, prefixes: Seq<Seq<char>>, limit: nat)
    ensures
        forall|k: int| 0 <= k < reported_hits(parsed, prefixes, false, limit).len()
            ==> #[trigger] reported_hits(parsed, prefixes, false, limit)[k]
                == normalized(response_results(parsed)[k], prefixes),
{
}

/// A call reports as many results as it asks for (10 when it does not say),
/// but never more than 100 nor more than SearXNG returned: exactly the
/// least of the three.
pub proof fn law_result_count(parsed: Json, prefixes: Seq<Seq<char>>, prefer_local: bool, num_results: Option<u32>)
    ensures
        ({
            let n = reported_hits(parsed, prefixes, prefer_local, result_limit(num_results)).len() as int;
            let returned = response_results(parsed).len() as int;
            let asked: int = match num_results {
                Some(a) => a as int,
                None => 10,
            };
            &&& n <= returned && n <= asked && n <= 100
            &&& n == returned || n == asked || n == 100
        }),
        reported_hits(parsed, prefixes, prefer_local, result_limit(num_results)).len() <= result_limit(num_results),
        result_limit(num_results) <= 100,
        reported_hits(parsed, prefixes, prefer_local, result_limit(num_results)).len() <= response_results(parsed).len(),
        num_results is Some ==> reported_hits(parsed, prefixes, prefer_local, result_limit(num_results)).len() <= num_results->0,
{
    crate::ranking::law_ranking_keeps_results(kept_hits(parsed, prefixes, result_limit(num_results)));
}

} // verus!

verus! {

/// What a search does after an instance has answered.
#[derive(Debug)]
pub enum SearchStep {
    /// Send the search to the instance at this index.
    TryInstance(usize),
    /// The search is over, with this outcome.
    Finished(Result<String, String>),
}

/// The model of a `SearchStep`.
pub enum StepModel {
    TryInstance(usize),
    Finished(Result<Seq<char>, Seq<char>>),
}

impl View for SearchStep {
    type V = StepModel;

    open spec fn view(&self) -> StepModel {
        match self {
            SearchStep::TryInstance(i) => StepModel::TryInstance(*i),
            SearchStep::Finished(Ok(t)) => StepModel::Finished(Ok(t@)),
            SearchStep::Finished(Err(e)) => StepModel::Finished(Err(e@)),
        }
    }
}

/// The step after the instance at `tried` (of `instance_count`) answered
/// `status` with a body that parsed as `parsed`: the next instance for a
/// server error while one is left; else the status's error; else the
/// reply's output.
pub open spec fn next_step(
    instance_count: nat,
    prefixes: Seq<Seq<char>>,
    tried: usize,
    status: u16,
    parsed: Result<Json, Seq<char>>,
    options: OptionsModel,
) -> StepModel {
    if 500 <= status <= 599 && tried + 1 < instance_count {
        StepModel::TryInstance((tried + 1) as usize)
    } else {
        match status_message(status) {
            Some(m) => StepModel::Finished(Err(m)),
            None => StepModel::Finished(search_output(parsed, prefixes, options)),
        }
    }
}

impl SearXNGClient {
    /// Decides what a search does once the instance at `tried` has answered
    /// with `status` and a body that parsed as `parsed`.
    pub fn after_reply(
        &self,
        tried: usize,
        status: u16,
        parsed: &Result<JsonValue, String>,
        options: &SearchOptions,
    ) -> (step: SearchStep)
        ensures
            step@ == next_step(
                self.instances().len(),
                texts(self.local_category_prefixes@),
                tried,
                status,
                parsed_model(*parsed),
                options@,
            ),
    {
        match self.next_instance(tried, status) {
            Some(next) => SearchStep::TryInstance(next),
            None => match status_error(status) {
                Some(message) => SearchStep::Finished(Err(message)),
                None => SearchStep::Finished(self.parse_search_response(parsed, options)),
            },
        }
    }
}

/// An answer with HTTP 200 ends the search with the output of its reply.
pub proof fn law_ok_reply_is_parsed(
    instance_count: nat,
    prefixes: Seq<Seq<char>>,
    tried: usize,
    parsed: Result<Json, Seq<char>>,
    options: OptionsModel,
)
    ensures
        next_step(instance_count, prefixes, tried, 200, parsed, options)
            == StepModel::Finished(search_output(parsed, prefixes, options)),
{
}

} // verus!

//! Query construction and result extraction for SearXNG requests.

use vstd::prelude::*;
use crate::endpoint::{law_query_text_reads_back, lemma_values_named_append, lemma_values_named_optional, lemma_values_named_single, optional_pair, parsed_query, values_named, push_optional_pair, push_pair, query_text};
use crate::json::{Json, JsonValue, lemma_models, model, models};
use crate::outside::{joined_url, url_join};
use crate::text::{decimal, decimal_text, join_texts, joined, texts};

verus! {

/// A list parameter: the items joined by commas, or nothing when there are none.
pub open spec fn list_value(items: Seq<String>) -> Option<Seq<char>> {
    if items.len() > 0 {
        Some(joined(texts(items), ","@))
    } else {
        None
    }
}

/// The text of an optional string.
pub open spec fn optional_text(value: Option<&str>) -> Option<Seq<char>> {
    match value {
        Some(v) => Some(v@),
        None => None,
    }
}

/// The decimal text of an optional safe-search level.
pub open spec fn optional_level(value: Option<u8>) -> Option<Seq<char>> {
    match value {
        Some(v) => Some(decimal(v as nat)),
        None => None,
    }
}

/// The query pairs of `build_query_url`, in the order they are written.
pub open spec fn query_url_pairs(
    query: Seq<char>,
    categories: Seq<String>,
    engines: Seq<String>,
    language: Option<Seq<char>>,
    time_range: Option<Seq<char>>,
    safe_search: Option<u8>,
) -> Seq<(Seq<char>, Seq<char>)> {
    seq![("q"@, query), ("format"@, "json"@)]
        + optional_pair("language"@, language)
        + optional_pair("time_range"@, time_range)
        + optional_pair("safesearch"@, optional_level(safe_search))
        + optional_pair("categories"@, list_value(categories))
        + optional_pair("engines"@, list_value(engines))
}

fn list_parameter(items: &[String]) -> (r: Option<String>)
    ensures
        match r {
            Some(s) => list_value(items@) == Some(s@),
            None => list_value(items@) is None,
        },
{
    if items.len() > 0 {
        Some(join_texts(items, ","))
    } else {
        None
    }
}

fn level_parameter(safe_search: Option<u8>) -> (r: Option<String>)
    ensures
        match r {
            Some(s) => optional_level(safe_search) == Some(s@),
            None => optional_level(safe_search) is None,
        },
{
    match safe_search {
        Some(level) => Some(decimal_text(level as u64)),
        None => None,
    }
}

/// The text of an optional owned string, borrowed.
pub fn borrow_text(value: &Option<String>) -> (r: Option<&str>)
    ensures
        optional_text(r) == match value { Some(v) => Some(v@), None => None::<Seq<char>> },
{
    match value {
        Some(v) => Some(v.as_str()),
        None => None,
    }
}

/// Builds the search URL `<base>/search/?q=..&format=json..` for a query.
/// The base must join with `search/`; `try_build_query_url` checks that first.
pub fn build_query_url(
    base_url: &str,
    query: &str,
    categories: &[String],
    engines: &[String],
    language: Option<&str>,
    time_range: Option<&str>,
    safe_search: Option<u8>,
) -> (url: String)
    requires
        joined_url(base_url@, "search/"@) is Some,
    ensures
        url@ == joined_url(base_url@, "search/"@)->0 + seq!['?'] + query_text(
            query_url_pairs(query@, categories@, engines@, optional_text(language), optional_text(time_range), safe_search),
        ),
{
    let endpoint = match url_join(base_url, "search/") {
        Some(e) => e,
        None => String::new(),
    };
    let mut q = String::new();
    let ghost pairs: Seq<(Seq<char>, Seq<char>)> = Seq::empty();
    push_pair(&mut q, "q", query, Ghost(pairs));
    proof { pairs = pairs.push(("q"@, query@)); }
    push_pair(&mut q, "format", "json", Ghost(pairs));
    proof {
        pairs = pairs.push(("format"@, "json"@));
        assert(pairs =~= seq![("q"@, query@), ("format"@, "json"@)]);
    }
    push_optional_pair(&mut q, "language", language, Ghost(pairs));
    proof { pairs = pairs + optional_pair("language"@, optional_text(language)); }
    push_optional_pair(&mut q, "time_range", time_range, Ghost(pairs));
    proof { pairs = pairs + optional_pair("time_range"@, optional_text(time_range)); }
    let level = level_parameter(safe_search);
    push_optional_pair(&mut q, "safesearch", borrow_text(&level), Ghost(pairs));
    proof { pairs = pairs + optional_pair("safesearch"@, optional_level(safe_search)); }
    let category_list = list_parameter(categories);
    push_optional_pair(&mut q, "categories", borrow_text(&category_list), Ghost(pairs));
    proof { pairs = pairs + optional_pair("categories"@, list_value(categories@)); }
    let engine_list = list_parameter(engines);
    push_optional_pair(&mut q, "engines", borrow_text(&engine_list), Ghost(pairs));
    proof { pairs = pairs + optional_pair("engines"@, list_value(engines@)); }
    let mut url = endpoint;
    url.push('?');
    url.append(q.as_str());
    url
}

/// `build_query_url` where the base URL joins with `search/`, and nothing
/// where it does not.
pub fn try_build_query_url(
    base_url: &str,
    query: &str,
    categories: &[String],
    engines: &[String],
    language: Option<&str>,
    time_range: Option<&str>,
    safe_search: Option<u8>,
) -> (url: Option<String>)
    ensures
        match url {
            Some(u) => joined_url(base_url@, "search/"@) is Some && u@ == joined_url(base_url@, "search/"@)->0
                + seq!['?'] + query_text(
                query_url_pairs(query@, categories@, engines@, optional_text(language), optional_text(time_range), safe_search),
            ),
            None => joined_url(base_url@, "search/"@) is None,
        },
{
    match url_join(base_url, "search/") {
        Some(_) => Some(build_query_url(base_url, query, categories, engines, language, time_range, safe_search)),
        None => None,
    }
}

} // verus!

verus! {

/// The elements of the `results` array of a response, or none when it has no such array.
pub open spec fn response_results(parsed: Json) -> Seq<Json> {
    match parsed.member("results"@) {
        Some(v) => match v.elements() {
            Some(a) => a,
            None => Seq::empty(),
        },
        None => Seq::empty(),
    }
}

/// The `results` array of a parsed response, copied; empty when it is missing
/// or not an array.
pub fn extract_results(parsed: &JsonValue) -> (results: Vec<JsonValue>)
    ensures
        models(results@) == response_results(parsed@),
{
    let mut out: Vec<JsonValue> = Vec::new();
    match parsed.get("results") {
        Some(v) => match v.as_array() {
            Some(a) => {
                let n: usize = a.len();
                let mut i: usize = 0;
                proof { lemma_models(a@); }
                while i < n
                    invariant
                        n == a@.len(),
                        i <= n,
                        models(out@) == models(a@).take(i as int),
                        models(a@).len() == n,
                        forall|k: int| 0 <= k < n ==> #[trigger] models(a@)[k] == model(a@[k]),
                    decreases n - i,
                {
                    let ghost before = out@;
                    out.push(a[i].duplicate());
                    proof {
                        assert(out@.drop_last() =~= before);
                        assert(models(a@).take(i + 1) =~= models(a@).take(i as int).push(model(a@[i as int])));
                    }
                    i = i + 1;
                }
                proof {
                    assert(models(a@).take(n as int) =~= models(a@));
                }
            },
            None => {},
        },
        None => {},
    }
    out
}

} // verus!

verus! {

/// The query string that `build_query_url` writes after `?` reads back as
/// its pairs, in order: `q`, `format=json`, the language, time range and
/// safe-search level where given, then the categories and engines, each
/// joined by commas, where there are any.
pub proof fn law_query_url_reads_back(
    query: Seq<char>,
    categories: Seq<String>,
    engines: Seq<String>,
    language: Option<Seq<char>>,
    time_range: Option<Seq<char>>,
    safe_search: Option<u8>,
)
    ensures
        parsed_query(query_text(query_url_pairs(query, categories, engines, language, time_range, safe_search)))
            == query_url_pairs(query, categories, engines, language, time_range, safe_search),
        query_url_pairs(query, categories, engines, language, time_range, safe_search).take(2)
            == seq![("q"@, query), ("format"@, "json"@)],
{
    let pairs = query_url_pairs(query, categories, engines, language, time_range, safe_search);
    law_query_text_reads_back(pairs);
    assert(pairs.take(2) =~= seq![("q"@, query), ("format"@, "json"@)]);
}

proof fn lemma_query_url_pair_values(
    query: Seq<char>,
    categories: Seq<String>,
    engines: Seq<String>,
    language: Option<Seq<char>>,
    time_range: Option<Seq<char>>,
    safe_search: Option<u8>,
    name: Seq<char>,
)
    ensures
        values_named(query_url_pairs(query, categories, engines, language, time_range, safe_search), name)
            == values_named(seq![("q"@, query)], name) + values_named(seq![("format"@, "json"@)], name)
                + values_named(optional_pair("language"@, language), name)
                + values_named(optional_pair("time_range"@, time_range), name)
                + values_named(optional_pair("safesearch"@, optional_level(safe_search)), name)
                + values_named(optional_pair("categories"@, list_value(categories)), name)
                + values_named(optional_pair("engines"@, list_value(engines)), name),
{
    let a = seq![("q"@, query)];
    let b = seq![("format"@, "json"@)];
    let o1 = optional_pair("language"@, language);
    let o2 = optional_pair("time_range"@, time_range);
    let o3 = optional_pair("safesearch"@, optional_level(safe_search));
    let o4 = optional_pair("categories"@, list_value(categories));
    let o5 = optional_pair("engines"@, list_value(engines));
    assert(seq![("q"@, query), ("format"@, "json"@)] =~= a + b);
    lemma_values_named_append(a, b, name);
    lemma_values_named_append(a + b, o1, name);
    lemma_values_named_append(a + b + o1, o2, name);
    lemma_values_named_append(a + b + o1 + o2, o3, name);
    lemma_values_named_append(a + b + o1 + o2 + o3, o4, name);
    lemma_values_named_append(a + b + o1 + o2 + o3 + o4, o5, name);
}

/// The values a value that may be missing gives a parameter.
pub open spec fn present_values(value: Option<Seq<char>>) -> Seq<Seq<char>> {
    match value {
        Some(v) => seq![v],
        None => Seq::empty(),
    }
}

/// What `build_query_url` sends, read back from its query string: one `q`
/// (the query), one `format` (`json`); a `language` and `time_range` exactly
/// when given; a `safesearch` with the level's decimal text exactly when a
/// level is given, 0 included; and `categories` and `engines`, joined by
/// commas, exactly when there are any.
pub proof fn law_query_url_parameters(
    query: Seq<char>,
    categories: Seq<String>,
    engines: Seq<String>,
    language: Option<Seq<char>>,
    time_range: Option<Seq<char>>,
    safe_search: Option<u8>,
)
    ensures
        ({
            let p = parsed_query(query_text(query_url_pairs(query, categories, engines, language, time_range, safe_search)));
            &&& values_named(p, "q"@) == seq![query]
            &&& values_named(p, "format"@) == seq!["json"@]
            &&& values_named(p, "language"@) == present_values(language)
            &&& values_named(p, "time_range"@) == present_values(time_range)
            &&& values_named(p, "safesearch"@) == match safe_search {
                Some(l) => seq![decimal(l as nat)],
                None => Seq::<Seq<char>>::empty(),
            }
            &&& values_named(p, "categories"@) == if categories.len() > 0 {
                seq![joined(texts(categories), ","@)]
            } else {
                Seq::<Seq<char>>::empty()
            }
            &&& values_named(p, "engines"@) == if engines.len() > 0 {
                seq![joined(texts(engines), ","@)]
            } else {
                Seq::<Seq<char>>::empty()
            }
        }),
{
    let pairs = query_url_pairs(query, categories, engines, language, time_range, safe_search);
    law_query_text_reads_back(pairs);
    reveal_strlit("q");
    reveal_strlit("format");
    reveal_strlit("json");
    reveal_strlit("categories");
    reveal_strlit("engines");
    reveal_strlit("language");
    reveal_strlit("time_range");
    reveal_strlit("safesearch");
    let names = seq!["q"@, "format"@, "language"@, "time_range"@, "safesearch"@, "categories"@, "engines"@];
    assert forall|i: int, j: int| 0 <= i < j < 7 implies #[trigger] names[i] != #[trigger] names[j] by {
        assert(names[i].len() != names[j].len() || names[i][0] != names[j][0]);
    }
    assert forall|i: int| 0 <= i < 7 implies ({
        let name = #[trigger] names[i];
        values_named(pairs, name) == (if name == "q"@ { seq![query] } else { Seq::empty() })
            + (if name == "format"@ { seq!["json"@] } else { Seq::empty() })
            + (if name == "language"@ { present_values(language) } else { Seq::empty() })
            + (if name == "time_range"@ { present_values(time_range) } else { Seq::empty() })
            + (if name == "safesearch"@ { present_values(optional_level(safe_search)) } else { Seq::empty() })
            + (if name == "categories"@ { present_values(list_value(categories)) } else { Seq::empty() })
            + (if name == "engines"@ { present_values(list_value(engines)) } else { Seq::empty() })
    }) by {
        let name = names[i];
        lemma_query_url_pair_values(query, categories, engines, language, time_range, safe_search, name);
        lemma_values_named_single(("q"@, query), name);
        lemma_values_named_single(("format"@, "json"@), name);
        lemma_values_named_optional("language"@, language, name);
        lemma_values_named_optional("time_range"@, time_range, name);
        lemma_values_named_optional("safesearch"@, optional_level(safe_search), name);
        lemma_values_named_optional("categories"@, list_value(categories), name);
        lemma_values_named_optional("engines"@, list_value(engines), name);
    }
    let e = Seq::<Seq<char>>::empty();
    assert(names[0] == "q"@);
    assert(seq![query] + e + e + e + e + e + e =~= seq![query]);
    assert(names[1] == "format"@);
    assert(e + seq!["json"@] + e + e + e + e + e =~= seq!["json"@]);
    assert(names[2] == "language"@);
    assert(e + e + present_values(language) + e + e + e + e =~= present_values(language));
    assert(names[3] == "time_range"@);
    assert(e + e + e + present_values(time_range) + e + e + e =~= present_values(time_range));
    assert(names[4] == "safesearch"@);
    assert(e + e + e + e + present_values(optional_level(safe_search)) + e + e =~= present_values(optional_level(safe_search)));
    assert(names[5] == "categories"@);
    assert(e + e + e + e + e + present_values(list_value(categories)) + e =~= present_values(list_value(categories)));
    assert(names[6] == "engines"@);
    assert(e + e + e + e + e + e + present_values(list_value(engines)) =~= present_values(list_value(engines)));
}

} // verus!

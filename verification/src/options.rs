//! Search options of one tool call, read from its JSON arguments.

use vstd::prelude::*;
use crate::json::{Json, JsonValue, lemma_models, model, models};
use crate::text::texts;

verus! {

/// The optional parameters of one search.
#[derive(Debug, Clone)]
pub struct SearchOptions {
    pub categories: Option<Vec<String>>,
    pub engines: Option<Vec<String>>,
    pub language: Option<String>,
    pub time_range: Option<String>,
    pub num_results: Option<u32>,
    pub safe_search: Option<u8>,
    pub prefer_local: bool,
}

/// The model of `SearchOptions`: its texts as sequences.
pub struct OptionsModel {
    pub categories: Option<Seq<Seq<char>>>,
    pub engines: Option<Seq<Seq<char>>>,
    pub language: Option<Seq<char>>,
    pub time_range: Option<Seq<char>>,
    pub num_results: Option<u32>,
    pub safe_search: Option<u8>,
    pub prefer_local: bool,
}

/// The texts of an optional list of strings.
pub open spec fn optional_texts(v: Option<Vec<String>>) -> Option<Seq<Seq<char>>> {
    match v {
        Some(items) => Some(texts(items@)),
        None => None,
    }
}

/// The text of an optional string.
pub open spec fn optional_string(v: Option<String>) -> Option<Seq<char>> {
    match v {
        Some(s) => Some(s@),
        None => None,
    }
}

impl View for SearchOptions {
    type V = OptionsModel;

    open spec fn view(&self) -> OptionsModel {
        OptionsModel {
            categories: optional_texts(self.categories),
            engines: optional_texts(self.engines),
            language: optional_string(self.language),
            time_range: optional_string(self.time_range),
            num_results: self.num_results,
            safe_search: self.safe_search,
            prefer_local: self.prefer_local,
        }
    }
}

/// The options of a call that names none.
pub open spec fn no_options() -> OptionsModel {
    OptionsModel {
        categories: None,
        engines: None,
        language: None,
        time_range: None,
        num_results: None,
        safe_search: None,
        prefer_local: false,
    }
}

impl Default for SearchOptions {
    fn default() -> (r: SearchOptions)
        ensures
            r@ == no_options(),
    {
        SearchOptions {
            categories: None,
            engines: None,
            language: None,
            time_range: None,
            num_results: None,
            safe_search: None,
            prefer_local: false,
        }
    }
}

/// The string elements of a sequence, in order; other elements are skipped.
pub open spec fn string_elements(s: Seq<Json>) -> Seq<Seq<char>>
    decreases s.len(),
{
    if s.len() == 0 {
        Seq::empty()
    } else {
        match s.last().text_value() {
            Some(t) => string_elements(s.drop_last()).push(t),
            None => string_elements(s.drop_last()),
        }
    }
}

/// A list argument: the strings of an array member; nothing when the member
/// is missing or not an array.
pub open spec fn list_argument(value: Json, key: Seq<char>) -> Option<Seq<Seq<char>>> {
    match value.member(key) {
        Some(Json::Array(a)) => Some(string_elements(a)),
        _ => None,
    }
}

/// A string argument.
pub open spec fn text_argument(value: Json, key: Seq<char>) -> Option<Seq<char>> {
    match value.member(key) {
        Some(v) => v.text_value(),
        None => None,
    }
}

/// An integer argument, taken as `u64` and cut to its low 32 bits.
pub open spec fn u32_argument(value: Json, key: Seq<char>) -> Option<u32> {
    match value.member(key) {
        Some(v) => match v.unsigned_value() {
            Some(n) => Some(n as u32),
            None => None,
        },
        None => None,
    }
}

/// The safe-search level: 0, 1 and 2 as given, any other integer as 0.
pub open spec fn safe_search_argument(value: Json) -> Option<u8> {
    match value.member("safe_search"@) {
        Some(v) => match v.unsigned_value() {
            Some(n) => Some(if n <= 2 { n as u8 } else { 0u8 }),
            None => None,
        },
        None => None,
    }
}

/// A boolean argument.
pub open spec fn bool_argument(value: Json, key: Seq<char>) -> Option<bool> {
    match value.member(key) {
        Some(v) => v.bool_value(),
        None => None,
    }
}

/// The options that the arguments of a call give.
pub open spec fn options_from(value: Json) -> OptionsModel {
    OptionsModel {
        categories: list_argument(value, "categories"@),
        engines: list_argument(value, "engines"@),
        language: text_argument(value, "language"@),
        time_range: text_argument(value, "time_range"@),
        num_results: u32_argument(value, "num_results"@),
        safe_search: safe_search_argument(value),
        prefer_local: match bool_argument(value, "prefer_local"@) {
            Some(b) => b,
            None => false,
        },
    }
}

impl SearchOptions {
    /// Reads the options from the JSON arguments of a tool call. Reading
    /// never fails: a missing or ill-typed argument is left unset.
    pub fn from_value(value: &JsonValue) -> (r: Result<SearchOptions, String>)
        ensures
            r matches Ok(o) && o@ == options_from(value@),
    {
        let categories = extract_string_list(value, "categories");
        let engines = extract_string_list(value, "engines");
        let language = extract_string(value, "language");
        let time_range = extract_string(value, "time_range");
        let num_results = extract_u32(value, "num_results");
        let safe_search = extract_safe_search(value);
        let prefer_local = match extract_bool(value, "prefer_local") {
            Some(b) => b,
            None => false,
        };
        Ok(SearchOptions { categories, engines, language, time_range, num_results, safe_search, prefer_local })
    }
}

fn extract_string(value: &JsonValue, key: &str) -> (r: Option<String>)
    ensures
        optional_string(r) == text_argument(value@, key@),
{
    match value.get(key) {
        Some(v) => match v.as_str() {
            Some(s) => Some(String::from_str(s)),
            None => None,
        },
        None => None,
    }
}

fn extract_string_list(value: &JsonValue, key: &str) -> (r: Option<Vec<String>>)
    ensures
        optional_texts(r) == list_argument(value@, key@),
{
    match value.get(key) {
        Some(v) => match v {
            JsonValue::Array(arr) => {
                let mut result: Vec<String> = Vec::new();
                let ghost ms = models(arr@);
                proof { lemma_models(arr@); }
                let n: usize = arr.len();
                let mut i: usize = 0;
                while i < n
                    invariant
                        n == arr@.len(),
                        ms == models(arr@),
                        ms.len() == n,
                        forall|k: int| 0 <= k < n ==> #[trigger] ms[k] == model(arr@[k]),
                        i <= n,
                        texts(result@) == string_elements(ms.take(i as int)),
                    decreases n - i,
                {
                    let ghost before = result@;
                    proof {
                        assert(ms.take(i + 1).drop_last() =~= ms.take(i as int));
                        assert(ms.take(i + 1).last() == model(arr@[i as int]));
                    }
                    match arr[i].as_str() {
                        Some(s) => {
                            result.push(String::from_str(s));
                            assert(texts(result@) =~= texts(before).push(s@));
                        },
                        None => {},
                    }
                    i = i + 1;
                }
                proof {
                    assert(ms.take(n as int) =~= ms);
                }
                Some(result)
            },
            _ => None,
        },
        None => None,
    }
}

fn extract_u32(value: &JsonValue, key: &str) -> (r: Option<u32>)
    ensures
        r == u32_argument(value@, key@),
{
    match value.get(key) {
        Some(v) => match v.as_u64() {
            Some(n) => Some(n as u32),
            None => None,
        },
        None => None,
    }
}

fn extract_safe_search(value: &JsonValue) -> (r: Option<u8>)
    ensures
        r == safe_search_argument(value@),
{
    match value.get("safe_search") {
        Some(v) => match v.as_u64() {
            Some(n) => Some(if n <= 2 { n as u8 } else { 0u8 }),
            None => None,
        },
        None => None,
    }
}

fn extract_bool(value: &JsonValue, key: &str) -> (r: Option<bool>)
    ensures
        r == bool_argument(value@, key@),
{
    match value.get(key) {
        Some(v) => v.as_bool(),
        None => None,
    }
}

} // verus!

verus! {

/// A safe-search level of 0, 1 or 2 is taken as given.
pub proof fn law_safe_search_level_kept(value: Json, n: u64)
    requires
        value.member("safe_search"@) matches Some(v) && v.unsigned_value() == Some(n),
        n <= 2,
    ensures
        options_from(value).safe_search == Some(n as u8),
{
}

/// Any larger safe-search integer turns filtering off (level 0).
pub proof fn law_safe_search_above_two_is_off(value: Json, n: u64)
    requires
        value.member("safe_search"@) matches Some(v) && v.unsigned_value() == Some(n),
        n > 2,
    ensures
        options_from(value).safe_search == Some(0u8),
{
}

/// Without a non-negative integer `safe_search`, no level is set.
pub proof fn law_safe_search_unset(value: Json)
    requires
        !(value.member("safe_search"@) matches Some(v) && v.unsigned_value() is Some),
    ensures
        options_from(value).safe_search is None,
{
}

} // verus!

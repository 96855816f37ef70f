//! One search result, normalized from SearXNG's response.

use vstd::prelude::*;

verus! {

/// A result as the tool reports it, with the facts its ordering reads.
#[derive(Debug)]
pub struct SearchHit {
    pub title: String,
    pub url: String,
    pub content: String,
    pub source_engine: String,
    /// The score as an order-keeping integer (see `score_rank`).
    pub score_rank: u64,
    /// The score as `serde_json` writes it.
    pub score_text: String,
    pub language: String,
    pub published_date: Option<String>,
    /// The JSON text of the merged tags, when there are any.
    pub tags: Option<String>,
    /// Whether an engine of the result carries a local-category prefix.
    pub is_local: bool,
}

} // verus!

verus! {

/// The model of a `SearchHit`: its texts as sequences.
pub struct HitModel {
    pub title: Seq<char>,
    pub url: Seq<char>,
    pub content: Seq<char>,
    pub source_engine: Seq<char>,
    pub score_rank: u64,
    pub score_text: Seq<char>,
    pub language: Seq<char>,
    pub published_date: Option<Seq<char>>,
    pub tags: Option<Seq<char>>,
    pub is_local: bool,
}

/// The text of an optional string.
pub open spec fn text_of(v: Option<String>) -> Option<Seq<char>> {
    match v {
        Some(s) => Some(s@),
        None => None,
    }
}

impl View for SearchHit {
    type V = HitModel;

    open spec fn view(&self) -> HitModel {
        HitModel {
            title: self.title@,
            url: self.url@,
            content: self.content@,
            source_engine: self.source_engine@,
            score_rank: self.score_rank,
            score_text: self.score_text@,
            language: self.language@,
            published_date: text_of(self.published_date),
            tags: text_of(self.tags),
            is_local: self.is_local,
        }
    }
}

/// The models of a sequence of results.
pub open spec fn hit_models(s: Seq<SearchHit>) -> Seq<HitModel> {
    s.map_values(|h: SearchHit| h@)
}

} // verus!

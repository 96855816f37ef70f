//! SearXNG search extension: the verified core.
//!
//! The library turns the arguments of a `searxng_search` tool call into a
//! SearXNG request URL, and SearXNG's JSON reply into the tool's normalized
//! output. Sending the request, reading the reply and talking to the host
//! stay outside, in the application around it.

mod outside;
pub mod text;
pub mod json;
pub mod endpoint;
pub mod query;
pub mod options;
pub mod hits;
pub mod ranking;
pub mod normalize;
pub mod output;
pub mod client;
pub mod arguments;

pub use client::{
    default_local_category_prefixes, default_timeout, query_argument, status_error, Config,
    SearXNGClient, SearXNGExtension, SearXNGState, SearchStep, DEFAULT_BASE_URL, LOG_TARGET,
    MODEL_VISIBLE_TOOL_NAME,
};
pub use arguments::{arguments_to_json, CborArgument, CborInteger};
pub use endpoint::validate_url;
pub use json::{JsonNumber, JsonValue};
pub use options::SearchOptions;
pub use output::TOOL_OUTPUT_MAX_BYTES;
pub use query::{build_query_url, extract_results, try_build_query_url};

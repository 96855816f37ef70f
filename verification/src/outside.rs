//! Contracts for the functions of std and of outside crates that the library calls.

use vstd::prelude::*;

verus! {

/// `String::push` appends one character to the end of the string, as std documents.
pub assume_specification[ std::string::String::push ](s: &mut std::string::String, ch: char)
    ensures
        final(s)@ == old(s)@.push(ch),
;

} // verus!

verus! {

/// `serde_json::to_string` of a string: the string in double quotes, with `"`
/// and `\` escaped by a backslash, the controls that have a short form written
/// as `\b`, `\t`, `\n`, `\f`, `\r`, and every other control below U+0020 as
/// `\u00` and two lower-case hex digits; all other characters as they are.
/// Writing a `str` into a `Vec` cannot fail, so the error arm is never taken.
#[verifier::external_body]
pub(crate) fn json_quote(s: &str) -> (r: String)
    ensures
        r@ == crate::json::quoted(s@),
{
    match serde_json::to_string(s) {
        Ok(text) => text,
        Err(_) => String::new(),
    }
}

} // verus!

verus! {

/// Name for what `url::Url::parse` makes of a text: the serialization and the
/// scheme of the URL, or the text of the `ParseError` it reports.
pub uninterp spec fn parsed_url(input: Seq<char>) -> Result<(Seq<char>, Seq<char>), Seq<char>>;

/// `url::Url::parse`, with the URL taken apart into its serialization
/// (`as_str`) and its scheme (`scheme`), and the error into its message.
#[verifier::external_body]
pub(crate) fn url_parse(input: &str) -> (r: Result<(String, String), String>)
    ensures
        match r {
            Ok((serialization, scheme)) => parsed_url(input@) == Ok::<(Seq<char>, Seq<char>), Seq<char>>((serialization@, scheme@)),
            Err(e) => parsed_url(input@) == Err::<(Seq<char>, Seq<char>), Seq<char>>(e@),
        },
{
    match url::Url::parse(input) {
        Ok(u) => Ok((u.as_str().to_string(), u.scheme().to_string())),
        Err(e) => Err(e.to_string()),
    }
}

/// Name for `url::Url::join`: the serialization of `input` resolved against
/// the URL that `base` parses to, or nothing where `base` does not parse or
/// the join fails.
pub uninterp spec fn joined_url(base: Seq<char>, input: Seq<char>) -> Option<Seq<char>>;

/// `url::Url::join` on the URL that `base` parses to (`Url::parse` only turns
/// the text back into the URL it serializes), giving the result's serialization.
#[verifier::external_body]
pub(crate) fn url_join(base: &str, input: &str) -> (r: Option<String>)
    ensures
        match r {
            Some(s) => joined_url(base@, input@) == Some(s@),
            None => joined_url(base@, input@) is None,
        },
{
    match url::Url::parse(base) {
        Ok(b) => match b.join(input) {
            Ok(u) => Some(u.to_string()),
            Err(_) => None,
        },
        Err(_) => None,
    }
}

/// `form_urlencoded::Serializer::append_pair` on a query string (a serializer
/// over the whole string): a `&` first unless the string is empty, then the
/// name and the value, each form-urlencoded from its UTF-8 bytes, joined by `=`.
#[verifier::external_body]
pub(crate) fn append_query_pair(query: &mut String, name: &str, value: &str)
    ensures
        final(query)@ == old(query)@ + (if old(query)@.len() > 0 { seq!['&'] } else { Seq::<char>::empty() })
            + crate::endpoint::query_pair((name@, value@)),
{
    url::form_urlencoded::Serializer::for_suffix(query, 0).append_pair(name, value);
}

} // verus!

//! The tool's output: the normalized results as compact JSON text, kept
//! within the output size limit.

use vstd::prelude::*;
use vstd::utf8::{decode_utf8, encode_utf8, is_continuation_byte};
use crate::hits::{HitModel, SearchHit, hit_models};
use crate::json::quoted;
use crate::outside::json_quote;
use crate::text::{decimal, decimal_text, joined, lemma_joined_push};

verus! {

/// Maximum UTF-8 byte length for tool output.
pub const TOOL_OUTPUT_MAX_BYTES: usize = 524288;

/// The JSON text of a publication date: the string, or `null`.
pub open spec fn date_text(date: Option<Seq<char>>) -> Seq<char> {
    match date {
        Some(d) => quoted(d),
        None => "null"@,
    }
}

/// The tags member of a result object, when it has tags.
pub open spec fn tags_member(tags: Option<Seq<char>>) -> Seq<char> {
    match tags {
        Some(t) => ",\"tags\":"@ + t,
        None => Seq::empty(),
    }
}

/// The JSON object of one result, members in `serde_json`'s order (sorted by key).
pub open spec fn hit_text(h: HitModel) -> Seq<char> {
    "{\"content\":"@ + quoted(h.content)
        + ",\"language\":"@ + quoted(h.language)
        + ",\"published_date\":"@ + date_text(h.published_date)
        + ",\"score\":"@ + h.score_text
        + ",\"source_engine\":"@ + quoted(h.source_engine)
        + tags_member(h.tags)
        + ",\"title\":"@ + quoted(h.title)
        + ",\"url\":"@ + quoted(h.url)
        + "}"@
}

/// The result objects, separated by commas.
pub open spec fn hits_text(hits: Seq<HitModel>) -> Seq<char> {
    joined(hits.map_values(|h: HitModel| hit_text(h)), ","@)
}

/// The diagnostics member of a response without results: a hint to review
/// the categories or the query; nothing when there are results.
pub open spec fn diagnostics_member(count: nat) -> Seq<char> {
    if count == 0 {
        ",\"diagnostics\":\"no results: review the categories or refine the query\""@
    } else {
        Seq::empty()
    }
}

/// The whole response: count, diagnostics when there are no results, error
/// flag, query and results.
pub open spec fn response_text(query: Seq<char>, hits: Seq<HitModel>) -> Seq<char> {
    "{\"count\":"@ + decimal(hits.len())
        + diagnostics_member(hits.len())
        + ",\"had_errors\":false,\"query\":"@ + quoted(query)
        + ",\"results\":["@ + hits_text(hits)
        + "]}"@
}

fn hit_object(h: &SearchHit) -> (s: String)
    ensures
        s@ == hit_text(h@),
{
    let mut s = String::from_str("{\"content\":");
    s.append(json_quote(h.content.as_str()).as_str());
    s.append(",\"language\":");
    s.append(json_quote(h.language.as_str()).as_str());
    s.append(",\"published_date\":");
    match &h.published_date {
        Some(d) => s.append(json_quote(d.as_str()).as_str()),
        None => s.append("null"),
    }
    s.append(",\"score\":");
    s.append(h.score_text.as_str());
    s.append(",\"source_engine\":");
    s.append(json_quote(h.source_engine.as_str()).as_str());
    let ghost before_tags = s@;
    match &h.tags {
        Some(t) => {
            s.append(",\"tags\":");
            s.append(t.as_str());
            assert(s@ =~= before_tags + tags_member(h@.tags));
        },
        None => {
            assert(s@ =~= before_tags + tags_member(h@.tags));
        },
    }
    s.append(",\"title\":");
    s.append(json_quote(h.title.as_str()).as_str());
    s.append(",\"url\":");
    s.append(json_quote(h.url.as_str()).as_str());
    s.append("}");
    s
}

/// Writes the response object for a query and its results.
pub fn render_response(query: &str, hits: &Vec<SearchHit>) -> (text: String)
    ensures
        text@ == response_text(query@, hit_models(hits@)),
{
    let ghost ms = hit_models(hits@);
    let mut out = String::new();
    out.append("{\"count\":");
    out.append(decimal_text(hits.len() as u64).as_str());
    let ghost before_diagnostics = out@;
    if hits.len() == 0 {
        out.append(",\"diagnostics\":\"no results: review the categories or refine the query\"");
    }
    assert(out@ =~= before_diagnostics + diagnostics_member(hits@.len()));
    out.append(",\"had_errors\":false,\"query\":");
    out.append(json_quote(query).as_str());
    out.append(",\"results\":[");
    let ghost base = out@;
    let n: usize = hits.len();
    let mut i: usize = 0;
    while i < n
        invariant
            n == hits@.len(),
            ms == hit_models(hits@),
            i <= n,
            out@ == base + joined(ms.take(i as int).map_values(|h: HitModel| hit_text(h)), ","@),
        decreases n - i,
    {
        let ghost before = ms.take(i as int).map_values(|h: HitModel| hit_text(h));
        if i > 0 {
            out.append(",");
        }
        let object = hit_object(&hits[i]);
        out.append(object.as_str());
        proof {
            let after = ms.take(i + 1).map_values(|h: HitModel| hit_text(h));
            assert(after =~= before.push(hit_text(hits@[i as int]@)));
            lemma_joined_push(before, ","@, hit_text(hits@[i as int]@));
        }
        i = i + 1;
    }
    out.append("]}");
    proof {
        assert(ms.take(n as int) =~= ms);
    }
    assert(out@ =~= response_text(query@, ms));
    out
}

} // verus!

verus! {

/// What is appended to an output that had to be cut.
pub open spec fn truncation_mark() -> Seq<char> {
    "… (truncated)"@
}

/// The last character boundary at or before byte `i`.
pub open spec fn cut_point(bytes: Seq<u8>, i: int) -> int
    decreases i,
{
    if i <= 0 {
        0
    } else if i >= bytes.len() {
        bytes.len() as int
    } else if is_continuation_byte(bytes[i]) {
        cut_point(bytes, i - 1)
    } else {
        i
    }
}

/// The bytes left for the cut text, once the mark is accounted for.
pub open spec fn room_for_text() -> int {
    let mark = encode_utf8(truncation_mark()).len();
    if mark <= TOOL_OUTPUT_MAX_BYTES { TOOL_OUTPUT_MAX_BYTES - mark } else { 0 }
}

/// An output within the size limit: the text itself when its UTF-8 encoding
/// fits, else its longest prefix of whole characters that leaves room for the
/// mark, followed by the mark.
pub open spec fn capped(text: Seq<char>) -> Seq<char> {
    let bytes = encode_utf8(text);
    if bytes.len() <= TOOL_OUTPUT_MAX_BYTES {
        text
    } else {
        decode_utf8(bytes.take(cut_point(bytes, room_for_text()))) + truncation_mark()
    }
}

proof fn lemma_cut_point(bytes: Seq<u8>, i: int)
    requires
        vstd::utf8::valid_utf8(bytes),
        0 <= i <= bytes.len(),
    ensures
        0 <= cut_point(bytes, i) <= i,
        vstd::utf8::is_char_boundary(bytes, cut_point(bytes, i)),
    decreases i,
{
    broadcast use vstd::utf8::is_char_boundary_start_end_of_seq;
    if i <= 0 {
    } else if i >= bytes.len() {
    } else if is_continuation_byte(bytes[i]) {
        lemma_cut_point(bytes, i - 1);
    } else {
        vstd::utf8::is_char_boundary_iff_not_is_continuation_byte(bytes, i);
    }
}

/// Keeps an output within `TOOL_OUTPUT_MAX_BYTES` bytes of UTF-8.
pub fn cap_output(text: String) -> (r: String)
    ensures
        r@ == capped(text@),
{
    let ghost bytes_spec = encode_utf8(text@);
    let bytes = text.as_str().as_bytes();
    let size: usize = bytes.len();
    if size <= TOOL_OUTPUT_MAX_BYTES {
        return text;
    }
    let mark = "… (truncated)";
    let mark_size: usize = mark.as_bytes().len();
    let room: usize = if mark_size <= TOOL_OUTPUT_MAX_BYTES { TOOL_OUTPUT_MAX_BYTES - mark_size } else { 0 };
    proof {
        broadcast use vstd::utf8::encode_utf8_valid_utf8;
        assert(bytes@ == bytes_spec);
        assert(room == room_for_text());
    }
    let mut i: usize = room;
    while i > 0 && bytes[i] >= 0x80 && bytes[i] <= 0xbf
        invariant
            i <= room,
            room < bytes@.len(),
            bytes@ == bytes_spec,
            cut_point(bytes_spec, room as int) == cut_point(bytes_spec, i as int),
        decreases i,
    {
        i = i - 1;
    }
    proof {
        lemma_cut_point(bytes_spec, room as int);
    }
    let (head, _) = text.as_str().split_at(i);
    proof {
        vstd::utf8::encode_utf8_decode_utf8(head@);
        assert(head@ == decode_utf8(bytes_spec.take(i as int)));
    }
    let mut out = String::from_str(head);
    out.append(mark);
    out
}

} // verus!

verus! {

proof fn lemma_encode_concat(a: Seq<char>, b: Seq<char>)
    ensures
        encode_utf8(a + b) == encode_utf8(a) + encode_utf8(b),
    decreases a.len(),
{
    if a.len() == 0 {
        assert(a + b =~= b);
    } else {
        lemma_encode_concat(a.drop_first(), b);
        assert((a + b).drop_first() =~= a.drop_first() + b);
        assert((a + b)[0] == a[0]);
    }
}

proof fn lemma_mark_size()
    ensures
        encode_utf8(truncation_mark()).len() == 15,
{
    reveal_strlit("… (truncated)");
    let m = truncation_mark();
    assert(m.len() == 13);
    reveal_with_fuel(encode_utf8, 14);
    assert(m[0] == '…');
}

/// The output never exceeds `TOOL_OUTPUT_MAX_BYTES` bytes of UTF-8; an output
/// that fits is left as it is, and a cut one is a prefix of the full text
/// followed by the mark.
pub proof fn law_output_size_limit(text: Seq<char>)
    ensures
        encode_utf8(capped(text)).len() <= TOOL_OUTPUT_MAX_BYTES,
        encode_utf8(text).len() <= TOOL_OUTPUT_MAX_BYTES ==> capped(text) == text,
        encode_utf8(text).len() > TOOL_OUTPUT_MAX_BYTES ==> exists|k: int|
            0 <= k <= text.len() && capped(text) == text.take(k) + truncation_mark(),
{
    let bytes = encode_utf8(text);
    if bytes.len() > TOOL_OUTPUT_MAX_BYTES {
        broadcast use vstd::utf8::encode_utf8_valid_utf8;
        lemma_mark_size();
        let cut = cut_point(bytes, room_for_text());
        lemma_cut_point(bytes, room_for_text());
        vstd::utf8::valid_utf8_split(bytes, cut);
        vstd::utf8::decode_utf8_split(bytes, cut);
        let head = decode_utf8(bytes.take(cut));
        assert(bytes.take(cut) =~= bytes.subrange(0, cut));
        vstd::utf8::decode_utf8_encode_utf8(bytes.take(cut));
        lemma_encode_concat(head, truncation_mark());
        vstd::utf8::encode_utf8_decode_utf8(text);
        let tail = decode_utf8(bytes.subrange(cut, bytes.len() as int));
        assert(text == head + tail);
        assert(text.take(head.len() as int) =~= head);
    }
}

} // verus!

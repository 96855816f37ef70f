//! Reading one SearXNG result into the form the tool reports.

use vstd::prelude::*;
use crate::hits::{HitModel, SearchHit};
use crate::json::{elements_text, json_text, lemma_models, model, models, write_json, Json, JsonValue};
use crate::text::{same_text, starts_with, text_starts_with, texts};
use vstd::arithmetic::div_mod::{lemma_div_is_ordered, lemma_div_pos_is_pos, lemma_fundamental_div_mod, lemma_mod_bound};
use vstd::arithmetic::mul::{lemma_mul_inequality, lemma_mul_strict_inequality};
use vstd::arithmetic::power2::{lemma_pow2_pos, lemma_pow2_strictly_increases, lemma_pow2_unfold, pow2};

verus! {

/// An order-keeping integer for the bits of an `f64` score: negative scores
/// below zero, zero (of either sign) at 2^63, positive scores above it, so
/// that for finite scores a higher score has a higher rank.
pub open spec fn score_rank(bits: u64) -> u64 {
    if bits == 0x8000_0000_0000_0000 {
        0x8000_0000_0000_0000
    } else if bits > 0x8000_0000_0000_0000 {
        (0xFFFF_FFFF_FFFF_FFFF - bits) as u64
    } else {
        (bits + 0x8000_0000_0000_0000) as u64
    }
}

/// Computes `score_rank`.
pub fn rank_of_score(bits: u64) -> (r: u64)
    ensures
        r == score_rank(bits),
{
    if bits == 0x8000_0000_0000_0000 {
        0x8000_0000_0000_0000
    } else if bits > 0x8000_0000_0000_0000 {
        0xFFFF_FFFF_FFFF_FFFF - bits
    } else {
        bits + 0x8000_0000_0000_0000
    }
}

/// A string member of a result, or the empty text when it is missing or not a string.
pub open spec fn member_text(result: Json, key: Seq<char>) -> Seq<char> {
    match result.member(key) {
        Some(v) => match v.text_value() {
            Some(t) => t,
            None => Seq::empty(),
        },
        None => Seq::empty(),
    }
}

/// The engines of a result: its `engines` array, or none.
pub open spec fn engines_of(result: Json) -> Seq<Json> {
    match result.member("engines"@) {
        Some(Json::Array(a)) => a,
        _ => Seq::empty(),
    }
}

/// The engine a result is credited to: the first of its engines when that is
/// a string, else `unknown`.
pub open spec fn source_engine_of(result: Json) -> Seq<char> {
    let engines = engines_of(result);
    if engines.len() > 0 {
        match engines[0].text_value() {
            Some(t) => t,
            None => "unknown"@,
        }
    } else {
        "unknown"@
    }
}

/// The score of a result, as its rank and its text; a missing or non-number
/// score counts as `0.0`.
pub open spec fn score_of(result: Json) -> (u64, Seq<char>) {
    match result.member("score"@) {
        Some(Json::Number(n)) => (score_rank(n.float_bits), n.float_text),
        _ => (score_rank(0), "0.0"@),
    }
}

/// The publication date of a result, when it is a string.
pub open spec fn date_of(result: Json) -> Option<Seq<char>> {
    match result.member("publishedDate"@) {
        Some(v) => v.text_value(),
        None => None,
    }
}

/// A tag member counts when it is there and is neither `null` nor an empty array.
pub open spec fn tag_present(v: Option<Json>) -> bool {
    match v {
        Some(Json::Null) => false,
        Some(Json::Array(a)) => a.len() > 0,
        Some(_) => true,
        None => false,
    }
}

/// The tags a member adds to a merged list: an array's elements, or the value itself.
pub open spec fn tag_elements(v: Json) -> Seq<Json> {
    match v {
        Json::Array(a) => a,
        _ => seq![v],
    }
}

/// The JSON text of a result's tags: `karakeep_tags` and `tags` merged into
/// one array when both count, the one that counts as it is, or nothing.
pub open spec fn merged_tags(result: Json) -> Option<Seq<char>> {
    let k = result.member("karakeep_tags"@);
    let t = result.member("tags"@);
    if tag_present(k) && tag_present(t) {
        Some(seq!['['] + elements_text(tag_elements(k->0) + tag_elements(t->0)) + seq![']'])
    } else if tag_present(k) {
        Some(json_text(k->0))
    } else if tag_present(t) {
        Some(json_text(t->0))
    } else {
        None
    }
}

/// The name of an engine: its text, or the empty text when it is not a string.
pub open spec fn engine_name(engine: Json) -> Seq<char> {
    match engine.text_value() {
        Some(t) => t,
        None => Seq::empty(),
    }
}

/// Whether an engine's name starts with one of the local-category prefixes.
pub open spec fn engine_is_local(engine: Json, prefixes: Seq<Seq<char>>) -> bool {
    exists|j: int| 0 <= j < prefixes.len() && starts_with(engine_name(engine), #[trigger] prefixes[j])
}

/// Whether one of a result's engines is local.
pub open spec fn engines_are_local(result: Json, prefixes: Seq<Seq<char>>) -> bool {
    exists|i: int| 0 <= i < engines_of(result).len() && engine_is_local(#[trigger] engines_of(result)[i], prefixes)
}

/// Whether a result's category is local: its `category` string is `local`
/// itself or starts with one of the local-category prefixes.
pub open spec fn category_is_local(result: Json, prefixes: Seq<Seq<char>>) -> bool {
    match result.member("category"@) {
        Some(Json::Text(c)) => c == "local"@
            || exists|j: int| 0 <= j < prefixes.len() && starts_with(c, #[trigger] prefixes[j]),
        _ => false,
    }
}

/// Whether a result is local: by one of its engines or by its category.
pub open spec fn result_is_local(result: Json, prefixes: Seq<Seq<char>>) -> bool {
    engines_are_local(result, prefixes) || category_is_local(result, prefixes)
}

/// A result as the tool reports it.
pub open spec fn normalized(result: Json, prefixes: Seq<Seq<char>>) -> HitModel {
    HitModel {
        title: member_text(result, "title"@),
        url: member_text(result, "url"@),
        content: member_text(result, "content"@),
        source_engine: source_engine_of(result),
        score_rank: score_of(result).0,
        score_text: score_of(result).1,
        language: member_text(result, "language"@),
        published_date: date_of(result),
        tags: merged_tags(result),
        is_local: result_is_local(result, prefixes),
    }
}

fn text_member(result: &JsonValue, key: &str) -> (r: String)
    ensures
        r@ == member_text(result@, key@),
{
    match result.get(key) {
        Some(v) => match v.as_str() {
            Some(s) => String::from_str(s),
            None => String::new(),
        },
        None => String::new(),
    }
}

/// Whether a text starts with one of the prefixes.
fn has_any_prefix(name: &str, prefixes: &Vec<String>) -> (r: bool)
    ensures
        r == exists|j: int| 0 <= j < prefixes@.len() && starts_with(name@, #[trigger] texts(prefixes@)[j]),
{
    let ghost ps = texts(prefixes@);
    let m: usize = prefixes.len();
    let mut j: usize = 0;
    while j < m
        invariant
            m == prefixes@.len(),
            ps == texts(prefixes@),
            ps.len() == m,
            j <= m,
            forall|k: int| 0 <= k < j ==> !starts_with(name@, #[trigger] ps[k]),
        decreases m - j,
    {
        if text_starts_with(name, prefixes[j].as_str()) {
            assert(ps[j as int] == prefixes@[j as int]@);
            return true;
        }
        j = j + 1;
    }
    false
}

/// Whether a result is local: one of its engines, or its category, is named
/// with a local-category prefix, or its category is `local`.
pub fn is_local_result(result: &JsonValue, prefixes: &Vec<String>) -> (r: bool)
    ensures
        r == result_is_local(result@, texts(prefixes@)),
{
    if engine_is_local_result(result, prefixes) {
        return true;
    }
    match result.get("category") {
        Some(JsonValue::String(c)) => {
            if same_text(c.as_str(), "local") {
                true
            } else {
                has_any_prefix(c.as_str(), prefixes)
            }
        },
        _ => false,
    }
}

fn engine_is_local_result(result: &JsonValue, prefixes: &Vec<String>) -> (r: bool)
    ensures
        r == engines_are_local(result@, texts(prefixes@)),
{
    let ghost ps = texts(prefixes@);
    match result.get("engines") {
        Some(v) => match v {
            JsonValue::Array(engines) => {
                let ghost es = models(engines@);
                proof {
                    lemma_models(engines@);
                    assert(es == engines_of(result@));
                }
                let n: usize = engines.len();
                let m: usize = prefixes.len();
                let mut i: usize = 0;
                while i < n
                    invariant
                        n == engines@.len(),
                        m == prefixes@.len(),
                        ps == texts(prefixes@),
                        es == engines_of(result@),
                        es == models(engines@),
                        es.len() == n,
                        forall|k: int| 0 <= k < n ==> #[trigger] es[k] == model(engines@[k]),
                        i <= n,
                        forall|k: int| 0 <= k < i ==> !engine_is_local(#[trigger] es[k], ps),
                    decreases n - i,
                {
                    let name: &str = match engines[i].as_str() {
                        Some(s) => s,
                        None => "",
                    };
                    proof {
                        reveal_strlit("");
                        assert(name@ == engine_name(es[i as int]));
                    }
                    let mut j: usize = 0;
                    while j < m
                        invariant
                            m == prefixes@.len(),
                            ps == texts(prefixes@),
                            ps.len() == m,
                            i < n,
                            es.len() == n,
                            es == engines_of(result@),
                            name@ == engine_name(es[i as int]),
                            j <= m,
                            forall|k: int| 0 <= k < j ==> !starts_with(name@, #[trigger] ps[k]),
                        decreases m - j,
                    {
                        if text_starts_with(name, prefixes[j].as_str()) {
                            proof {
                                assert(ps[j as int] == prefixes@[j as int]@);
                                assert(engine_is_local(es[i as int], ps));
                            }
                            return true;
                        }
                        j = j + 1;
                    }
                    proof {
                        assert(!engine_is_local(es[i as int], ps));
                    }
                    i = i + 1;
                }
                false
            },
            _ => false,
        },
        None => false,
    }
}

} // verus!

verus! {

fn source_engine(result: &JsonValue) -> (r: String)
    ensures
        r@ == source_engine_of(result@),
{
    match result.get("engines") {
        Some(v) => match v {
            JsonValue::Array(engines) => {
                proof { lemma_models(engines@); }
                if engines.len() > 0 {
                    match engines[0].as_str() {
                        Some(s) => String::from_str(s),
                        None => String::from_str("unknown"),
                    }
                } else {
                    String::from_str("unknown")
                }
            },
            _ => String::from_str("unknown"),
        },
        None => String::from_str("unknown"),
    }
}

fn score(result: &JsonValue) -> (r: (u64, String))
    ensures
        (r.0, r.1@) == score_of(result@),
{
    match result.get("score") {
        Some(v) => match v {
            JsonValue::Number(n) => (rank_of_score(n.float_bits), n.float_text.clone()),
            _ => (rank_of_score(0), String::from_str("0.0")),
        },
        None => (rank_of_score(0), String::from_str("0.0")),
    }
}

fn published_date(result: &JsonValue) -> (r: Option<String>)
    ensures
        crate::hits::text_of(r) == date_of(result@),
{
    match result.get("publishedDate") {
        Some(v) => match v.as_str() {
            Some(s) => Some(String::from_str(s)),
            None => None,
        },
        None => None,
    }
}

fn counts_as_tag(v: Option<&JsonValue>) -> (r: bool)
    ensures
        r == tag_present(match v { Some(x) => Some(x@), None => None }),
{
    match v {
        Some(x) => match x {
            JsonValue::Null => false,
            JsonValue::Array(a) => {
                proof { lemma_models(a@); }
                a.len() > 0
            },
            _ => true,
        },
        None => false,
    }
}

proof fn lemma_elements_text_push(s: Seq<Json>, x: Json)
    ensures
        elements_text(s.push(x)) == if s.len() == 0 { json_text(x) } else { elements_text(s) + seq![','] + json_text(x) },
{
    let p = s.push(x);
    if s.len() == 0 {
        assert(p =~= seq![x]);
    } else {
        assert(p.drop_last() =~= s);
    }
}

/// Appends the tag elements of `v` to a list being written.
fn append_tag_elements(out: &mut String, v: &JsonValue, first: bool, Ghost(base): Ghost<Seq<char>>, Ghost(done): Ghost<Seq<Json>>)
    requires
        old(out)@ == base + elements_text(done),
        first == (done.len() == 0),
    ensures
        final(out)@ == base + elements_text(done + tag_elements(v@)),
{
    match v {
        JsonValue::Array(a) => {
            let ghost ms = models(a@);
            proof { lemma_models(a@); }
            let n: usize = a.len();
            let mut i: usize = 0;
            proof {
                assert(done + ms.take(0) =~= done);
            }
            while i < n
                invariant
                    n == a@.len(),
                    ms == models(a@),
                    ms.len() == n,
                    forall|k: int| 0 <= k < n ==> #[trigger] ms[k] == model(a@[k]),
                    first == (done.len() == 0),
                    i <= n,
                    out@ == base + elements_text(done + ms.take(i as int)),
                decreases n - i,
            {
                let ghost d = done + ms.take(i as int);
                if !first || i > 0 {
                    out.push(',');
                }
                write_json(&a[i], out);
                proof {
                    lemma_elements_text_push(d, ms[i as int]);
                    assert(d.push(ms[i as int]) =~= done + ms.take(i + 1));
                }
                i = i + 1;
            }
            proof {
                assert(ms.take(n as int) =~= ms);
            }
        },
        _ => {
            if !first {
                out.push(',');
            }
            write_json(v, out);
            proof {
                lemma_elements_text_push(done, v@);
                assert(done.push(v@) =~= done + seq![v@]);
            }
        },
    }
}

fn tags(result: &JsonValue) -> (r: Option<String>)
    ensures
        crate::hits::text_of(r) == merged_tags(result@),
{
    let k = result.get("karakeep_tags");
    let t = result.get("tags");
    let k_counts = counts_as_tag(k);
    let t_counts = counts_as_tag(t);
    if k_counts && t_counts {
        match (k, t) {
            (Some(kv), Some(tv)) => {
                let mut out = String::new();
                out.push('[');
                let ghost base = out@;
                proof {
                    assert(out@ == base + elements_text(Seq::<Json>::empty()));
                }
                append_tag_elements(&mut out, kv, true, Ghost(base), Ghost(Seq::<Json>::empty()));
                proof {
                    assert(Seq::<Json>::empty() + tag_elements(kv@) =~= tag_elements(kv@));
                    assert(tag_elements(kv@).len() > 0);
                }
                append_tag_elements(&mut out, tv, false, Ghost(base), Ghost(tag_elements(kv@)));
                out.push(']');
                Some(out)
            },
            _ => None,
        }
    } else if k_counts {
        match k {
            Some(kv) => {
                let mut out = String::new();
                write_json(kv, &mut out);
                Some(out)
            },
            None => None,
        }
    } else if t_counts {
        match t {
            Some(tv) => {
                let mut out = String::new();
                write_json(tv, &mut out);
                Some(out)
            },
            None => None,
        }
    } else {
        None
    }
}

/// Reads one result of SearXNG's response into the form the tool reports.
pub fn normalize_result(result: &JsonValue, local_prefixes: &Vec<String>) -> (hit: SearchHit)
    ensures
        hit@ == normalized(result@, texts(local_prefixes@)),
{
    let scored: (u64, String) = score(result);
    SearchHit {
        title: text_member(result, "title"),
        url: text_member(result, "url"),
        content: text_member(result, "content"),
        source_engine: source_engine(result),
        score_rank: scored.0,
        score_text: scored.1,
        language: text_member(result, "language"),
        published_date: published_date(result),
        tags: tags(result),
        is_local: is_local_result(result, local_prefixes),
    }
}

} // verus!

verus! {

/// The magnitude of an IEEE 754 double whose bits without the sign are `m`,
/// in units of the smallest subnormal (2^-1074): the significand (with its
/// leading 1 for a normal number) shifted by the exponent.
pub open spec fn float_magnitude(m: int) -> int {
    let e = m / 0x10_0000_0000_0000;
    let f = m % 0x10_0000_0000_0000;
    if e == 0 {
        f
    } else {
        (0x10_0000_0000_0000 + f) * pow2((e - 1) as nat)
    }
}

/// Whether the bits of a double are those of a finite number (not an
/// infinity, not NaN).
pub open spec fn is_finite_float(bits: u64) -> bool {
    (bits as int % 0x8000_0000_0000_0000) / 0x10_0000_0000_0000 < 2047
}

/// The value of a finite double, in units of 2^-1074.
pub open spec fn float_value(bits: u64) -> int {
    if bits >= 0x8000_0000_0000_0000 {
        -float_magnitude(bits as int % 0x8000_0000_0000_0000)
    } else {
        float_magnitude(bits as int)
    }
}

proof fn lemma_magnitude_grows(x: int, y: int)
    requires
        0 <= x <= y,
        y / 0x10_0000_0000_0000 < 2047,
    ensures
        float_magnitude(x) <= float_magnitude(y),
        x < y ==> float_magnitude(x) < float_magnitude(y),
        float_magnitude(x) >= 0,
{
    let d: int = 0x10_0000_0000_0000;
    let ex = x / d;
    let fx = x % d;
    let ey = y / d;
    let fy = y % d;
    lemma_fundamental_div_mod(x, d);
    lemma_fundamental_div_mod(y, d);
    lemma_div_is_ordered(x, y, d);
    assert(0 <= fx < d && 0 <= fy < d) by {
        lemma_mod_bound(x, d);
        lemma_mod_bound(y, d);
    }
    assert(ex >= 0) by {
        lemma_div_pos_is_pos(x, d);
    }
    if ex >= 1 {
        lemma_pow2_pos((ex - 1) as nat);
        assert((d + fx) * pow2((ex - 1) as nat) >= 0) by (nonlinear_arith)
            requires d + fx >= 0, pow2((ex - 1) as nat) > 0;
    }
    if ex == ey {
        assert(fx <= fy && (x < y ==> fx < fy)) by (nonlinear_arith)
            requires x == d * ex + fx, y == d * ey + fy, ex == ey, x <= y;
        if ex >= 1 {
            lemma_mul_inequality(d + fx, d + fy, pow2((ex - 1) as nat) as int);
            if x < y {
                lemma_mul_strict_inequality(d + fx, d + fy, pow2((ex - 1) as nat) as int);
            }
        }
    } else {
        assert(ey >= 1);
        lemma_pow2_pos((ey - 1) as nat);
        let py = pow2((ey - 1) as nat) as int;
        assert(d * py <= (d + fy) * py) by (nonlinear_arith)
            requires fy >= 0, py > 0;
        if ex == 0 {
            assert(d <= d * py) by (nonlinear_arith)
                requires py >= 1, d > 0;
        } else {
            let px = pow2((ex - 1) as nat) as int;
            lemma_pow2_unfold(ex as nat);
            assert(pow2(ex as nat) == 2 * px);
            if ex < ey - 1 {
                lemma_pow2_strictly_increases(ex as nat, (ey - 1) as nat);
            }
            assert(2 * px <= py);
            assert((d + fx) * px < d * py) by (nonlinear_arith)
                requires fx < d, px > 0, 2 * px <= py, d > 0;
        }
    }
}

/// For finite scores, a higher score has a strictly higher rank: ranking by
/// `score_rank` orders results by score, highest first.
pub proof fn law_score_rank_follows_score(a: u64, b: u64)
    requires
        is_finite_float(a),
        is_finite_float(b),
        float_value(a) > float_value(b),
    ensures
        score_rank(a) > score_rank(b),
{
    let h: int = 0x8000_0000_0000_0000;
    let ma: int = a as int % h;
    let mb: int = b as int % h;
    if a >= h {
        assert(ma == a - h);
    } else {
        assert(ma == a);
    }
    if b >= h {
        assert(mb == b - h);
    } else {
        assert(mb == b);
    }
    if ma <= mb {
        lemma_magnitude_grows(ma, mb);
    } else {
        lemma_magnitude_grows(mb, ma);
    }
}

/// Two finite scores of the same value have the same rank, so ranking
/// keeps their order (`0.0` and `-0.0` among them).
pub proof fn law_equal_scores_rank_alike(a: u64, b: u64)
    requires
        is_finite_float(a),
        is_finite_float(b),
        float_value(a) == float_value(b),
    ensures
        score_rank(a) == score_rank(b),
{
    let h: int = 0x8000_0000_0000_0000;
    let ma: int = a as int % h;
    let mb: int = b as int % h;
    if a >= h {
        assert(ma == a - h);
    } else {
        assert(ma == a);
    }
    if b >= h {
        assert(mb == b - h);
    } else {
        assert(mb == b);
    }
    lemma_magnitude_grows(0, ma);
    lemma_magnitude_grows(0, mb);
    if ma <= mb {
        lemma_magnitude_grows(ma, mb);
    } else {
        lemma_magnitude_grows(mb, ma);
    }
}

/// Ranks never run against scores: a finite score ranked at least as high as
/// another is at least as high, so results ranked by `score_rank` never show
/// a score rising.
pub proof fn law_rank_order_is_score_order(a: u64, b: u64)
    requires
        is_finite_float(a),
        is_finite_float(b),
        score_rank(a) >= score_rank(b),
    ensures
        float_value(a) >= float_value(b),
{
    if float_value(b) > float_value(a) {
        law_score_rank_follows_score(b, a);
    }
}

/// Whether a tag member counts: it is there, and is neither `null` nor an
/// empty array.
pub open spec fn tag_member_counts(v: Option<Json>) -> bool {
    &&& v is Some
    &&& v->0 != Json::Null
    &&& !(v->0 matches Json::Array(a) && a.len() == 0)
}

/// The reported tags of a result: when only one of `karakeep_tags` and
/// `tags` counts, that member's value as it is, whatever the other holds;
/// when both count, one array of the first's elements (or the value itself)
/// followed by the second's; when neither counts, none.
pub proof fn law_tags_merge(result: Json, prefixes: Seq<Seq<char>>)
    ensures
        ({
            let k = result.member("karakeep_tags"@);
            let t = result.member("tags"@);
            let tags = normalized(result, prefixes).tags;
            &&& tag_member_counts(k) && !tag_member_counts(t) ==> tags == Some(json_text(k->0))
            &&& !tag_member_counts(k) && tag_member_counts(t) ==> tags == Some(json_text(t->0))
            &&& !tag_member_counts(k) && !tag_member_counts(t) ==> tags is None
            &&& tag_member_counts(k) && tag_member_counts(t) ==> tags == Some(json_text(Json::Array(
                (match k->0 { Json::Array(a) => a, v => seq![v] }) + (match t->0 { Json::Array(a) => a, v => seq![v] }),
            )))
        }),
{
}

} // verus!

//! URLs: validating the configured base URL and building query strings.

use vstd::prelude::*;
use crate::outside::{append_query_pair, parsed_url, url_parse};
use crate::text::{joined, lemma_joined_push, same_text};

verus! {

/// Bytes that `application/x-www-form-urlencoded` serialization keeps as they are.
pub open spec fn form_unchanged(b: u8) -> bool {
    b == 0x2a || b == 0x2d || b == 0x2e || b == 0x5f
        || (0x30 <= b <= 0x39) || (0x41 <= b <= 0x5a) || (0x61 <= b <= 0x7a)
}

/// An upper-case hex digit.
pub open spec fn upper_hex(d: nat) -> char {
    if d < 10 {
        crate::text::digit_char(d)
    } else if d == 10 { 'A' }
    else if d == 11 { 'B' }
    else if d == 12 { 'C' }
    else if d == 13 { 'D' }
    else if d == 14 { 'E' }
    else { 'F' }
}

/// How one byte is written by form-urlencoded serialization: kept, `+` for a
/// space, or `%` and two upper-case hex digits.
pub open spec fn form_byte(b: u8) -> Seq<char> {
    if form_unchanged(b) {
        seq![b as char]
    } else if b == 0x20 {
        seq!['+']
    } else {
        seq!['%', upper_hex((b / 16) as nat), upper_hex((b % 16) as nat)]
    }
}

/// Form-urlencoded serialization of a byte sequence.
pub open spec fn form_bytes(bytes: Seq<u8>) -> Seq<char>
    decreases bytes.len(),
{
    if bytes.len() == 0 {
        Seq::empty()
    } else {
        form_bytes(bytes.drop_last()) + form_byte(bytes.last())
    }
}

/// Form-urlencoded serialization of a text, taken as its UTF-8 bytes.
pub open spec fn form_encoded(s: Seq<char>) -> Seq<char> {
    form_bytes(vstd::utf8::encode_utf8(s))
}

/// One `name=value` pair of a query string.
pub open spec fn query_pair(pair: (Seq<char>, Seq<char>)) -> Seq<char> {
    form_encoded(pair.0) + seq!['='] + form_encoded(pair.1)
}

/// A query string: the pairs, in order, separated by `&`.
pub open spec fn query_text(pairs: Seq<(Seq<char>, Seq<char>)>) -> Seq<char> {
    joined(pairs.map_values(|p: (Seq<char>, Seq<char>)| query_pair(p)), seq!['&'])
}

/// What `validate_url` gives for a text: the parsed URL's serialization when
/// it parses with the `http` or `https` scheme, or the error message.
pub open spec fn validated_url(input: Seq<char>) -> Result<Seq<char>, Seq<char>> {
    match parsed_url(input) {
        Err(e) => Err("invalid base_url: "@ + e),
        Ok((serialization, scheme)) => {
            if scheme == "http"@ || scheme == "https"@ {
                Ok(serialization)
            } else {
                Err("base_url must use http or https scheme"@)
            }
        },
    }
}

/// Parses the configured base URL and accepts only `http` and `https` URLs.
pub fn validate_url(url_str: &str) -> (r: Result<String, String>)
    ensures
        match r {
            Ok(s) => validated_url(url_str@) == Ok::<Seq<char>, Seq<char>>(s@),
            Err(e) => validated_url(url_str@) == Err::<Seq<char>, Seq<char>>(e@),
        },
{
    match url_parse(url_str) {
        Ok((serialization, scheme)) => {
            if !same_text(scheme.as_str(), "http") && !same_text(scheme.as_str(), "https") {
                return Err(String::from_str("base_url must use http or https scheme"));
            }
            Ok(serialization)
        },
        Err(e) => {
            let mut message = String::from_str("invalid base_url: ");
            message.append(e.as_str());
            Err(message)
        },
    }
}

} // verus!

verus! {

/// A pair for a value that may be missing: one pair, or none.
pub open spec fn optional_pair(name: Seq<char>, value: Option<Seq<char>>) -> Seq<(Seq<char>, Seq<char>)> {
    match value {
        Some(v) => seq![(name, v)],
        None => Seq::empty(),
    }
}

proof fn lemma_query_text_empty(pairs: Seq<(Seq<char>, Seq<char>)>)
    ensures
        (query_text(pairs).len() == 0) == (pairs.len() == 0),
{
    let items = pairs.map_values(|p: (Seq<char>, Seq<char>)| query_pair(p));
    if pairs.len() == 0 {
        assert(items.len() == 0);
    } else if pairs.len() == 1 {
        assert(items[0] == query_pair(pairs[0]));
        assert(query_pair(pairs[0]).len() > 0);
    } else {
        assert(items.last() == query_pair(pairs.last()));
        assert(query_pair(pairs.last()).len() > 0);
    }
}

/// Appends one pair to a query string built from `pairs`.
pub fn push_pair(query: &mut String, name: &str, value: &str, Ghost(pairs): Ghost<Seq<(Seq<char>, Seq<char>)>>)
    requires
        old(query)@ == query_text(pairs),
    ensures
        final(query)@ == query_text(pairs.push((name@, value@))),
{
    proof {
        lemma_query_text_empty(pairs);
    }
    append_query_pair(query, name, value);
    proof {
        let f = |p: (Seq<char>, Seq<char>)| query_pair(p);
        let items = pairs.map_values(f);
        assert(pairs.push((name@, value@)).map_values(f) =~= items.push(query_pair((name@, value@))));
        lemma_joined_push(items, seq!['&'], query_pair((name@, value@)));
    }
}

/// Appends a pair for a value that may be missing.
pub fn push_optional_pair(query: &mut String, name: &str, value: Option<&str>, Ghost(pairs): Ghost<Seq<(Seq<char>, Seq<char>)>>)
    requires
        old(query)@ == query_text(pairs),
    ensures
        final(query)@ == query_text(pairs + optional_pair(name@, match value { Some(v) => Some(v@), None => None })),
{
    match value {
        Some(v) => {
            push_pair(query, name, v, Ghost(pairs));
            assert(pairs.push((name@, v@)) =~= pairs + seq![(name@, v@)]);
        },
        None => {
            assert(pairs + Seq::<(Seq<char>, Seq<char>)>::empty() =~= pairs);
        },
    }
}

} // verus!

verus! {

/// The value of a hex digit (either case); 0 for any other character.
pub open spec fn hex_value(c: char) -> nat {
    if '0' <= c <= '9' {
        (c as u32 - '0' as u32) as nat
    } else if 'A' <= c <= 'F' {
        (c as u32 - 'A' as u32 + 10) as nat
    } else if 'a' <= c <= 'f' {
        (c as u32 - 'a' as u32 + 10) as nat
    } else {
        0
    }
}

/// Form-urlencoded parsing of one name or value into bytes: `+` is a space,
/// `%` and two hex digits a byte, any other character its own code.
pub open spec fn form_decoded(s: Seq<char>) -> Seq<u8>
    decreases s.len(),
{
    if s.len() == 0 {
        Seq::empty()
    } else if s[0] == '%' && s.len() >= 3 {
        seq![(hex_value(s[1]) * 16 + hex_value(s[2])) as u8] + form_decoded(s.subrange(3, s.len() as int))
    } else if s[0] == '+' {
        seq![0x20u8] + form_decoded(s.drop_first())
    } else {
        seq![s[0] as u8] + form_decoded(s.drop_first())
    }
}

proof fn lemma_form_bytes_front(bytes: Seq<u8>)
    requires
        bytes.len() > 0,
    ensures
        form_bytes(bytes) == form_byte(bytes[0]) + form_bytes(bytes.drop_first()),
    decreases bytes.len(),
{
    if bytes.len() == 1 {
        assert(bytes.drop_last() =~= Seq::<u8>::empty());
        assert(bytes.drop_first() =~= Seq::<u8>::empty());
        assert(form_bytes(bytes.drop_first()) == Seq::<char>::empty());
        assert(form_bytes(bytes) =~= form_byte(bytes[0]));
    } else {
        lemma_form_bytes_front(bytes.drop_last());
        assert(bytes.drop_last().drop_first() =~= bytes.drop_first().drop_last());
        assert(bytes.drop_first().last() == bytes.last());
        assert(form_bytes(bytes) =~= form_byte(bytes[0]) + form_bytes(bytes.drop_first()));
    }
}

proof fn lemma_upper_hex_value(d: nat)
    requires
        d < 16,
    ensures
        hex_value(upper_hex(d)) == d,
        upper_hex(d) != '&' && upper_hex(d) != '=',
{
}

proof fn lemma_form_byte_decoded(b: u8, rest: Seq<char>)
    ensures
        form_decoded(form_byte(b) + rest) == seq![b] + form_decoded(rest),
        forall|i: int| 0 <= i < form_byte(b).len() ==> #[trigger] form_byte(b)[i] != '&' && form_byte(b)[i] != '=',
{
    let s = form_byte(b) + rest;
    if form_unchanged(b) {
        assert(s[0] == b as char);
        assert(s.drop_first() =~= rest);
        assert((b as char) as u8 == b);
    } else if b == 0x20 {
        assert(s.drop_first() =~= rest);
    } else {
        lemma_upper_hex_value((b / 16) as nat);
        lemma_upper_hex_value((b % 16) as nat);
        assert(s.subrange(3, s.len() as int) =~= rest);
        assert(((b / 16) as nat * 16 + (b % 16) as nat) as u8 == b);
    }
}

/// Form-urlencoded serialization is undone by form-urlencoded parsing, and it
/// never writes the `&` and `=` that separate a query string's pairs.
pub proof fn law_form_encoding_round_trip(bytes: Seq<u8>)
    ensures
        form_decoded(form_bytes(bytes)) == bytes,
        forall|i: int| 0 <= i < form_bytes(bytes).len() ==> #[trigger] form_bytes(bytes)[i] != '&' && form_bytes(bytes)[i] != '=',
    decreases bytes.len(),
{
    if bytes.len() > 0 {
        lemma_form_bytes_front(bytes);
        law_form_encoding_round_trip(bytes.drop_first());
        lemma_form_byte_decoded(bytes[0], form_bytes(bytes.drop_first()));
        assert(seq![bytes[0]] + bytes.drop_first() =~= bytes);
        let f = form_byte(bytes[0]);
        let r = form_bytes(bytes.drop_first());
        assert forall|i: int| 0 <= i < (f + r).len() implies #[trigger] (f + r)[i] != '&' && (f + r)[i] != '=' by {
            if i >= f.len() {
                assert((f + r)[i] == r[i - f.len()]);
            }
        }
    } else {
        assert(form_bytes(bytes) =~= Seq::<char>::empty());
    }
}

/// A form-urlencoded text parses back into the text it came from.
pub proof fn law_form_text_round_trip(s: Seq<char>)
    ensures
        vstd::utf8::decode_utf8(form_decoded(form_encoded(s))) == s,
{
    law_form_encoding_round_trip(vstd::utf8::encode_utf8(s));
    vstd::utf8::encode_utf8_decode_utf8(s);
}

} // verus!

verus! {

/// The pieces of a text between the occurrences of `sep` (one piece for a
/// text without `sep`).
pub open spec fn split_text(s: Seq<char>, sep: char) -> Seq<Seq<char>>
    decreases s.len(),
{
    if s.len() == 0 {
        seq![Seq::<char>::empty()]
    } else if s.last() == sep {
        split_text(s.drop_last(), sep).push(Seq::empty())
    } else {
        let p = split_text(s.drop_last(), sep);
        p.update(p.len() - 1, p.last().push(s.last()))
    }
}

/// A `name=value` piece cut at its first `=`; a piece without `=` is all name.
pub open spec fn piece_pair(p: Seq<char>) -> (Seq<char>, Seq<char>)
    decreases p.len(),
{
    if p.len() == 0 {
        (Seq::empty(), Seq::empty())
    } else if p[0] == '=' {
        (Seq::empty(), p.drop_first())
    } else {
        let r = piece_pair(p.drop_first());
        (seq![p[0]] + r.0, r.1)
    }
}

/// A query string read back: cut at each `&`, each piece cut at its first
/// `=`, and both sides form-decoded into text. An empty query has no pairs.
pub open spec fn parsed_query(text: Seq<char>) -> Seq<(Seq<char>, Seq<char>)> {
    if text.len() == 0 {
        Seq::empty()
    } else {
        split_text(text, '&').map_values(|p: Seq<char>| {
            let (n, v) = piece_pair(p);
            (vstd::utf8::decode_utf8(form_decoded(n)), vstd::utf8::decode_utf8(form_decoded(v)))
        })
    }
}

proof fn lemma_split_without_sep(b: Seq<char>, sep: char)
    requires
        forall|i: int| 0 <= i < b.len() ==> b[i] != sep,
    ensures
        split_text(b, sep) == seq![b],
    decreases b.len(),
{
    if b.len() > 0 {
        lemma_split_without_sep(b.drop_last(), sep);
        assert(b.drop_last().push(b.last()) =~= b);
        assert(b[b.len() - 1] != sep);
        assert(seq![b.drop_last()].update(0, b.drop_last().push(b.last())) =~= seq![b]);
    } else {
        assert(b =~= Seq::<char>::empty());
    }
}

proof fn lemma_split_after_sep(a: Seq<char>, b: Seq<char>, sep: char)
    requires
        forall|i: int| 0 <= i < b.len() ==> b[i] != sep,
    ensures
        split_text(a + seq![sep] + b, sep) == split_text(a, sep).push(b),
    decreases b.len(),
{
    let s = a + seq![sep] + b;
    if b.len() == 0 {
        assert(s.drop_last() =~= a);
        assert(b =~= Seq::<char>::empty());
    } else {
        lemma_split_after_sep(a, b.drop_last(), sep);
        assert(s.drop_last() =~= a + seq![sep] + b.drop_last());
        let p = split_text(a, sep).push(b.drop_last());
        assert(b.drop_last().push(b.last()) =~= b);
        assert(p.update(p.len() - 1, p.last().push(b.last())) =~= split_text(a, sep).push(b));
    }
}

proof fn lemma_split_joined(items: Seq<Seq<char>>, sep: char)
    requires
        items.len() > 0,
        forall|k: int, i: int| 0 <= k < items.len() && 0 <= i < items[k].len() ==> #[trigger] items[k][i] != sep,
    ensures
        split_text(joined(items, seq![sep]), sep) == items,
    decreases items.len(),
{
    if items.len() == 1 {
        lemma_split_without_sep(items[0], sep);
        assert(seq![items[0]] =~= items);
    } else {
        let rest = items.drop_last();
        assert forall|k: int, i: int| 0 <= k < rest.len() && 0 <= i < rest[k].len() implies #[trigger] rest[k][i] != sep by {
            assert(rest[k] == items[k]);
        }
        lemma_split_joined(rest, sep);
        let last = items.last();
        assert forall|i: int| 0 <= i < last.len() implies last[i] != sep by {
            assert(items[items.len() - 1][i] != sep);
        }
        lemma_split_after_sep(joined(rest, seq![sep]), last, sep);
        assert(rest.push(last) =~= items);
    }
}

proof fn lemma_piece_pair(a: Seq<char>, b: Seq<char>)
    requires
        forall|i: int| 0 <= i < a.len() ==> a[i] != '=',
    ensures
        piece_pair(a + seq!['='] + b) == (a, b),
    decreases a.len(),
{
    let s = a + seq!['='] + b;
    if a.len() == 0 {
        assert(s.drop_first() =~= b);
    } else {
        lemma_piece_pair(a.drop_first(), b);
        assert(s.drop_first() =~= a.drop_first() + seq!['='] + b);
        assert(seq![a[0]] + a.drop_first() =~= a);
    }
}

/// A query string reads back as the pairs it was written from, in order:
/// no name or value writes the `&` or `=` that delimit the pairs, and each
/// form-decodes back to its text.
pub proof fn law_query_text_reads_back(pairs: Seq<(Seq<char>, Seq<char>)>)
    ensures
        parsed_query(query_text(pairs)) == pairs,
{
    lemma_query_text_empty(pairs);
    if pairs.len() > 0 {
        let f = |p: (Seq<char>, Seq<char>)| query_pair(p);
        let items = pairs.map_values(f);
        assert forall|k: int, i: int| 0 <= k < items.len() && 0 <= i < items[k].len() implies #[trigger] items[k][i] != '&' by {
            let p = pairs[k];
            law_form_encoding_round_trip(vstd::utf8::encode_utf8(p.0));
            law_form_encoding_round_trip(vstd::utf8::encode_utf8(p.1));
            let n = form_encoded(p.0);
            let v = form_encoded(p.1);
            assert(items[k] == n + seq!['='] + v);
            if i < n.len() {
                assert(items[k][i] == n[i]);
            } else if i > n.len() {
                assert(items[k][i] == v[i - n.len() - 1]);
            }
        }
        lemma_split_joined(items, '&');
        let g = |p: Seq<char>| {
            let (n, v) = piece_pair(p);
            (vstd::utf8::decode_utf8(form_decoded(n)), vstd::utf8::decode_utf8(form_decoded(v)))
        };
        assert forall|k: int| 0 <= k < pairs.len() implies #[trigger] items.map_values(g)[k] == pairs[k] by {
            let p = pairs[k];
            law_form_encoding_round_trip(vstd::utf8::encode_utf8(p.0));
            law_form_text_round_trip(p.0);
            law_form_text_round_trip(p.1);
            let n = form_encoded(p.0);
            assert forall|i: int| 0 <= i < n.len() implies n[i] != '=' by {}
            lemma_piece_pair(n, form_encoded(p.1));
        }
        assert(items.map_values(g) =~= pairs);
    }
}

} // verus!

verus! {

/// The values of the pairs with name `name`, in order.
pub open spec fn values_named(pairs: Seq<(Seq<char>, Seq<char>)>, name: Seq<char>) -> Seq<Seq<char>>
    decreases pairs.len(),
{
    if pairs.len() == 0 {
        Seq::empty()
    } else if pairs.last().0 == name {
        values_named(pairs.drop_last(), name).push(pairs.last().1)
    } else {
        values_named(pairs.drop_last(), name)
    }
}

/// Values of pairs written one after another are those of each, in turn.
pub proof fn lemma_values_named_append(a: Seq<(Seq<char>, Seq<char>)>, b: Seq<(Seq<char>, Seq<char>)>, name: Seq<char>)
    ensures
        values_named(a + b, name) == values_named(a, name) + values_named(b, name),
    decreases b.len(),
{
    if b.len() == 0 {
        assert(a + b =~= a);
        assert(values_named(a, name) + values_named(b, name) =~= values_named(a, name));
    } else {
        lemma_values_named_append(a, b.drop_last(), name);
        assert((a + b).drop_last() =~= a + b.drop_last());
        assert((a + b).last() == b.last());
        if b.last().0 == name {
            assert(values_named(a, name) + values_named(b.drop_last(), name).push(b.last().1)
                =~= (values_named(a, name) + values_named(b.drop_last(), name)).push(b.last().1));
        }
    }
}

/// The values of one pair.
pub proof fn lemma_values_named_single(pair: (Seq<char>, Seq<char>), name: Seq<char>)
    ensures
        values_named(seq![pair], name) == if pair.0 == name { seq![pair.1] } else { Seq::<Seq<char>>::empty() },
{
    let e = Seq::<(Seq<char>, Seq<char>)>::empty();
    assert(seq![pair].drop_last() =~= e);
    assert(seq![pair].last() == pair);
    assert(values_named(e, name) == Seq::<Seq<char>>::empty());
    assert(Seq::<Seq<char>>::empty().push(pair.1) =~= seq![pair.1]);
}

/// The values of a pair for a value that may be missing.
pub proof fn lemma_values_named_optional(n: Seq<char>, value: Option<Seq<char>>, name: Seq<char>)
    ensures
        values_named(optional_pair(n, value), name) == if n == name && value is Some {
            seq![value->0]
        } else {
            Seq::<Seq<char>>::empty()
        },
{
    match value {
        Some(v) => lemma_values_named_single((n, v), name),
        None => {},
    }
}

} // verus!

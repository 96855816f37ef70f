//! The arguments of a tool call: from the CBOR value the host sends to the
//! JSON value the options are read from.

use vstd::prelude::*;
use crate::json::{Json, JsonNumber, JsonValue, NumberModel, lemma_member_models, lemma_models, member_models, member_value, models};
use crate::text::{decimal, decimal_text, same_text};

verus! {

/// An integer argument: its value, and the bits and `serde_json` text of the
/// value taken as an `f64`.
#[derive(Debug)]
pub struct CborInteger {
    pub value: i128,
    pub float_bits: u64,
    pub float_text: String,
}

/// A CBOR argument value, as the facts the conversion reads.
#[derive(Debug)]
pub enum CborArgument {
    Null,
    Bool(bool),
    Integer(CborInteger),
    /// A float: the JSON number `serde_json` makes of it, or nothing when it is not finite.
    Float(Option<JsonNumber>),
    Text(String),
    Bytes(Vec<u8>),
    Array(Vec<CborArgument>),
    Entries(Vec<(CborArgument, CborArgument)>),
    Tag(u64, Box<CborArgument>),
    /// Any other kind of CBOR value.
    Other,
}

/// The model of a CBOR argument.
pub enum CborModel {
    Null,
    Bool(bool),
    Integer(i128, u64, Seq<char>),
    Float(Option<NumberModel>),
    Text(Seq<char>),
    Bytes(Seq<u8>),
    Array(Seq<CborModel>),
    Entries(Seq<(CborModel, CborModel)>),
    Tag(u64, Box<CborModel>),
    Other,
}

/// The models of a sequence of arguments.
pub open spec fn argument_models(s: Seq<CborArgument>) -> Seq<CborModel>
    decreases s, 1nat,
{
    if s.len() == 0 {
        Seq::empty()
    } else {
        argument_models(s.drop_last()).push(argument_model(s.last()))
    }
}

/// The models of a sequence of entries.
pub open spec fn entry_models(s: Seq<(CborArgument, CborArgument)>) -> Seq<(CborModel, CborModel)>
    decreases s, 1nat,
{
    if s.len() == 0 {
        Seq::empty()
    } else {
        entry_models(s.drop_last()).push((argument_model(s.last().0), argument_model(s.last().1)))
    }
}

/// The model of an argument.
pub open spec fn argument_model(v: CborArgument) -> CborModel
    decreases v, 0nat,
{
    match v {
        CborArgument::Null => CborModel::Null,
        CborArgument::Bool(b) => CborModel::Bool(b),
        CborArgument::Integer(n) => CborModel::Integer(n.value, n.float_bits, n.float_text@),
        CborArgument::Float(f) => CborModel::Float(match f { Some(n) => Some(n@), None => None }),
        CborArgument::Text(s) => CborModel::Text(s@),
        CborArgument::Bytes(b) => CborModel::Bytes(b@),
        CborArgument::Array(a) => CborModel::Array(argument_models(a@)),
        CborArgument::Entries(e) => CborModel::Entries(entry_models(e@)),
        CborArgument::Tag(t, inner) => CborModel::Tag(t, Box::new(argument_model(*inner))),
        CborArgument::Other => CborModel::Other,
    }
}

impl View for CborArgument {
    type V = CborModel;

    open spec fn view(&self) -> CborModel {
        argument_model(*self)
    }
}

proof fn lemma_argument_models(s: Seq<CborArgument>)
    ensures
        argument_models(s).len() == s.len(),
        forall|i: int| 0 <= i < s.len() ==> #[trigger] argument_models(s)[i] == argument_model(s[i]),
    decreases s.len(),
{
    if s.len() > 0 {
        lemma_argument_models(s.drop_last());
    }
}

proof fn lemma_entry_models(s: Seq<(CborArgument, CborArgument)>)
    ensures
        entry_models(s).len() == s.len(),
        forall|i: int| 0 <= i < s.len() ==> #[trigger] entry_models(s)[i] == (argument_model(s[i].0), argument_model(s[i].1)),
    decreases s.len(),
{
    if s.len() > 0 {
        lemma_entry_models(s.drop_last());
    }
}

/// Whether `a` sorts before `b`, character by character (as `String`s order).
pub open spec fn text_before(a: Seq<char>, b: Seq<char>) -> bool
    decreases a.len(),
{
    if b.len() == 0 {
        false
    } else if a.len() == 0 {
        true
    } else if a[0] != b[0] {
        (a[0] as u32) < (b[0] as u32)
    } else {
        text_before(a.drop_first(), b.drop_first())
    }
}

/// The members after `insert` of a JSON map: the member named `k` replaced,
/// or a new member at its place in key order.
pub open spec fn insert_member(m: Seq<(Seq<char>, Json)>, k: Seq<char>, j: Json) -> Seq<(Seq<char>, Json)>
    decreases m.len(),
{
    if m.len() == 0 {
        seq![(k, j)]
    } else if m[0].0 == k {
        seq![(k, j)] + m.drop_first()
    } else if text_before(k, m[0].0) {
        seq![(k, j)] + m
    } else {
        seq![m[0]] + insert_member(m.drop_first(), k, j)
    }
}

/// The decimal text of an integer, with a `-` for a negative one.
pub open spec fn signed_decimal(v: int) -> Seq<char> {
    if v < 0 {
        seq!['-'] + decimal((-v) as nat)
    } else {
        decimal(v as nat)
    }
}

/// The JSON number of an integer argument, where it fits an `i64` or a `u64`.
pub open spec fn integer_number(value: i128, float_bits: u64, float_text: Seq<char>) -> Option<NumberModel> {
    if -0x8000_0000_0000_0000 <= value <= 0xFFFF_FFFF_FFFF_FFFF {
        Some(NumberModel {
            text: signed_decimal(value as int),
            unsigned: if value >= 0 { Some(value as u64) } else { None },
            float_bits,
            float_text,
        })
    } else {
        None
    }
}

/// The JSON value of an argument, or the message for the first part of it
/// that has no JSON form.
pub open spec fn argument_json(v: CborModel) -> Result<Json, Seq<char>>
    decreases v, 0nat,
{
    match v {
        CborModel::Null => Ok(Json::Null),
        CborModel::Bool(b) => Ok(Json::Bool(b)),
        CborModel::Integer(value, bits, text) => match integer_number(value, bits, text) {
            Some(n) => Ok(Json::Number(n)),
            None => Err("integer argument is outside JSON number range"@),
        },
        CborModel::Float(f) => match f {
            Some(n) => Ok(Json::Number(n)),
            None => Err("float argument must be finite"@),
        },
        CborModel::Text(s) => Ok(Json::Text(s)),
        CborModel::Bytes(_) => Err("byte string arguments are not supported"@),
        CborModel::Array(items) => match elements_json(items) {
            Ok(js) => Ok(Json::Array(js)),
            Err(e) => Err(e),
        },
        CborModel::Entries(entries) => match entries_json(entries) {
            Ok(m) => Ok(Json::Object(m)),
            Err(e) => Err(e),
        },
        CborModel::Tag(_, inner) => argument_json(*inner),
        CborModel::Other => Err("unsupported CBOR argument value"@),
    }
}

/// The JSON values of the elements, or the message of the first that fails.
pub open spec fn elements_json(s: Seq<CborModel>) -> Result<Seq<Json>, Seq<char>>
    decreases s, 1nat,
{
    if s.len() == 0 {
        Ok(Seq::empty())
    } else {
        match elements_json(s.drop_last()) {
            Err(e) => Err(e),
            Ok(done) => match argument_json(s.last()) {
                Ok(j) => Ok(done.push(j)),
                Err(e) => Err(e),
            },
        }
    }
}

/// The JSON members of the entries, inserted in order into a map, or the
/// message of the first entry whose key is not text or whose value fails.
pub open spec fn entries_json(s: Seq<(CborModel, CborModel)>) -> Result<Seq<(Seq<char>, Json)>, Seq<char>>
    decreases s, 1nat,
{
    if s.len() == 0 {
        Ok(Seq::empty())
    } else {
        match entries_json(s.drop_last()) {
            Err(e) => Err(e),
            Ok(done) => match s.last().0 {
                CborModel::Text(k) => match argument_json(s.last().1) {
                    Ok(j) => Ok(insert_member(done, k, j)),
                    Err(e) => Err(e),
                },
                _ => Err("argument object keys must be strings"@),
            },
        }
    }
}

} // verus!

verus! {

/// Whether `a` sorts before `b`.
fn text_comes_before(a: &str, b: &str) -> (r: bool)
    ensures
        r == text_before(a@, b@),
{
    let n: usize = a.unicode_len();
    let m: usize = b.unicode_len();
    let mut i: usize = 0;
    proof {
        assert(a@.skip(0) =~= a@);
        assert(b@.skip(0) =~= b@);
    }
    while i < n && i < m
        invariant
            n == a@.len(),
            m == b@.len(),
            i <= n,
            i <= m,
            text_before(a@, b@) == text_before(a@.skip(i as int), b@.skip(i as int)),
        decreases n - i,
    {
        let x = a.get_char(i);
        let y = b.get_char(i);
        proof {
            assert(a@.skip(i as int)[0] == x);
            assert(b@.skip(i as int)[0] == y);
        }
        if x != y {
            return (x as u32) < (y as u32);
        }
        proof {
            assert(a@.skip(i as int).drop_first() =~= a@.skip(i + 1));
            assert(b@.skip(i as int).drop_first() =~= b@.skip(i + 1));
        }
        i = i + 1;
    }
    i < m
}

fn signed_decimal_text(v: i128) -> (s: String)
    requires
        -0x8000_0000_0000_0000 <= v <= 0xFFFF_FFFF_FFFF_FFFF,
    ensures
        s@ == signed_decimal(v as int),
{
    if v < 0 {
        let magnitude: u64 = (0 - v) as u64;
        let mut s = String::new();
        s.push('-');
        s.append(decimal_text(magnitude).as_str());
        assert(s@ =~= seq!['-'] + decimal(magnitude as nat));
        s
    } else {
        decimal_text(v as u64)
    }
}

proof fn lemma_insert_member_at(m: Seq<(Seq<char>, Json)>, k: Seq<char>, j: Json, p: int)
    requires
        0 <= p <= m.len(),
        forall|i: int| 0 <= i < p ==> (#[trigger] m[i]).0 != k && !text_before(k, m[i].0),
        p == m.len() || m[p].0 == k || text_before(k, m[p].0),
    ensures
        insert_member(m, k, j) == if p < m.len() && m[p].0 == k {
            m.update(p, (k, j))
        } else {
            m.insert(p, (k, j))
        },
    decreases p,
{
    if p == 0 {
        if m.len() == 0 {
            assert(m.insert(0, (k, j)) =~= seq![(k, j)]);
        } else if m[0].0 == k {
            assert(m.update(0, (k, j)) =~= seq![(k, j)] + m.drop_first());
        } else {
            assert(m.insert(0, (k, j)) =~= seq![(k, j)] + m);
        }
    } else {
        let rest = m.drop_first();
        assert forall|i: int| 0 <= i < p - 1 implies (#[trigger] rest[i]).0 != k && !text_before(k, rest[i].0) by {
            assert(rest[i] == m[i + 1]);
        }
        lemma_insert_member_at(rest, k, j, p - 1);
        if p < m.len() && m[p].0 == k {
            assert(seq![m[0]] + rest.update(p - 1, (k, j)) =~= m.update(p, (k, j)));
        } else {
            assert(seq![m[0]] + rest.insert(p - 1, (k, j)) =~= m.insert(p, (k, j)));
        }
    }
}

/// Inserts a member as `serde_json::Map::insert` does.
fn insert_entry(members: &mut Vec<(String, JsonValue)>, key: String, value: JsonValue)
    ensures
        member_models(final(members)@) == insert_member(member_models(old(members)@), key@, value@),
{
    let ghost m = member_models(members@);
    proof { lemma_member_models(members@); }
    let n: usize = members.len();
    let mut p: usize = 0;
    while p < n
        invariant
            n == members@.len(),
            m == member_models(members@),
            m.len() == n,
            forall|i: int| 0 <= i < n ==> #[trigger] m[i] == (members@[i].0@, members@[i].1@),
            p <= n,
            forall|i: int| 0 <= i < p ==> (#[trigger] m[i]).0 != key@ && !text_before(key@, m[i].0),
        ensures
            p == n || m[p as int].0 == key@ || text_before(key@, m[p as int].0),
        decreases n - p,
    {
        if same_text(members[p].0.as_str(), key.as_str()) || text_comes_before(key.as_str(), members[p].0.as_str()) {
            break;
        }
        p = p + 1;
    }
    proof {
        lemma_insert_member_at(m, key@, value@, p as int);
    }
    let ghost kv = key@;
    let ghost vv = value@;
    let ghost old_members = members@;
    if p < n && same_text(members[p].0.as_str(), key.as_str()) {
        members.set(p, (key, value));
        proof {
            lemma_member_models(members@);
            assert(member_models(members@) =~= m.update(p as int, (kv, vv)));
        }
    } else {
        members.insert(p, (key, value));
        proof {
            lemma_member_models(members@);
            assert(member_models(members@) =~= m.insert(p as int, (kv, vv)));
        }
    }
}

} // verus!

verus! {

proof fn lemma_elements_error(s: Seq<CborModel>, i: int)
    requires
        0 <= i < s.len(),
        elements_json(s.take(i + 1)) is Err,
    ensures
        elements_json(s) == elements_json(s.take(i + 1)),
    decreases s.len() - i,
{
    if i + 1 < s.len() {
        assert(s.take(i + 2).drop_last() =~= s.take(i + 1));
        assert(elements_json(s.take(i + 2)) == elements_json(s.take(i + 1)));
        lemma_elements_error(s, i + 1);
    } else {
        assert(s.take(i + 1) =~= s);
    }
}

proof fn lemma_entries_error(s: Seq<(CborModel, CborModel)>, i: int)
    requires
        0 <= i < s.len(),
        entries_json(s.take(i + 1)) is Err,
    ensures
        entries_json(s) == entries_json(s.take(i + 1)),
    decreases s.len() - i,
{
    if i + 1 < s.len() {
        assert(s.take(i + 2).drop_last() =~= s.take(i + 1));
        assert(entries_json(s.take(i + 2)) == entries_json(s.take(i + 1)));
        lemma_entries_error(s, i + 1);
    } else {
        assert(s.take(i + 1) =~= s);
    }
}

/// The JSON value of a tool call's CBOR arguments, or the message for the
/// first part of them that has no JSON form.
pub fn arguments_to_json(value: &CborArgument) -> (r: Result<JsonValue, String>)
    ensures
        match r {
            Ok(j) => argument_json(value@) == Ok::<Json, Seq<char>>(j@),
            Err(e) => argument_json(value@) == Err::<Json, Seq<char>>(e@),
        },
    decreases value,
{
    match value {
        CborArgument::Null => Ok(JsonValue::Null),
        CborArgument::Bool(b) => Ok(JsonValue::Bool(*b)),
        CborArgument::Integer(n) => {
            if -0x8000_0000_0000_0000 <= n.value && n.value <= 0xFFFF_FFFF_FFFF_FFFF {
                let unsigned: Option<u64> = if n.value >= 0 { Some(n.value as u64) } else { None };
                Ok(JsonValue::Number(JsonNumber {
                    text: signed_decimal_text(n.value),
                    unsigned,
                    float_bits: n.float_bits,
                    float_text: n.float_text.clone(),
                }))
            } else {
                Err(String::from_str("integer argument is outside JSON number range"))
            }
        },
        CborArgument::Float(f) => match f {
            Some(number) => Ok(JsonValue::Number(number.duplicate())),
            None => Err(String::from_str("float argument must be finite")),
        },
        CborArgument::Text(s) => Ok(JsonValue::String(s.clone())),
        CborArgument::Bytes(_) => Err(String::from_str("byte string arguments are not supported")),
        CborArgument::Array(items) => {
            let ghost ms = argument_models(items@);
            proof { lemma_argument_models(items@); }
            let mut out: Vec<JsonValue> = Vec::new();
            let n: usize = items.len();
            let mut i: usize = 0;
            proof {
                assert(ms.take(0) =~= Seq::<CborModel>::empty());
                assert(models(out@) =~= Seq::<Json>::empty());
            }
            while i < n
                invariant
                    n == items@.len(),
                    ms == argument_models(items@),
                    ms.len() == n,
                    forall|k: int| 0 <= k < n ==> #[trigger] ms[k] == argument_model(items@[k]),
                    i <= n,
                    elements_json(ms.take(i as int)) == Ok::<Seq<Json>, Seq<char>>(models(out@)),
                    *value == CborArgument::Array(*items),
                decreases n - i,
            {
                proof {
                    assert(decreases_to!(*value => value->Array_0));
                    assert(decreases_to!(*items => items@));
                    assert(decreases_to!(items@ => items@[i as int]));
                    assert(ms.take(i + 1).drop_last() =~= ms.take(i as int));
                    assert(ms.take(i + 1).last() == ms[i as int]);
                }
                match arguments_to_json(&items[i]) {
                    Ok(j) => {
                        let ghost before = out@;
                        out.push(j);
                        proof {
                            lemma_models(out@);
                            lemma_models(before);
                            assert(models(out@) =~= models(before).push(out@.last()@));
                        }
                    },
                    Err(e) => {
                        proof { lemma_elements_error(ms, i as int); }
                        return Err(e);
                    },
                }
                i = i + 1;
            }
            proof {
                assert(ms.take(n as int) =~= ms);
            }
            Ok(JsonValue::Array(out))
        },
        CborArgument::Entries(entries) => {
            let ghost ms = entry_models(entries@);
            proof { lemma_entry_models(entries@); }
            let mut out: Vec<(String, JsonValue)> = Vec::new();
            let n: usize = entries.len();
            let mut i: usize = 0;
            proof {
                assert(ms.take(0) =~= Seq::<(CborModel, CborModel)>::empty());
                assert(member_models(out@) =~= Seq::<(Seq<char>, Json)>::empty());
            }
            while i < n
                invariant
                    n == entries@.len(),
                    ms == entry_models(entries@),
                    ms.len() == n,
                    forall|k: int| 0 <= k < n ==> #[trigger] ms[k] == (argument_model(entries@[k].0), argument_model(entries@[k].1)),
                    i <= n,
                    entries_json(ms.take(i as int)) == Ok::<Seq<(Seq<char>, Json)>, Seq<char>>(member_models(out@)),
                    *value == CborArgument::Entries(*entries),
                decreases n - i,
            {
                proof {
                    assert(decreases_to!(*value => value->Entries_0));
                    assert(decreases_to!(*entries => entries@));
                    assert(decreases_to!(entries@ => entries@[i as int]));
                    assert(decreases_to!(entries@[i as int] => entries@[i as int].1));
                    assert(ms.take(i + 1).drop_last() =~= ms.take(i as int));
                    assert(ms.take(i + 1).last() == ms[i as int]);
                }
                match &entries[i].0 {
                    CborArgument::Text(key) => {
                        match arguments_to_json(&entries[i].1) {
                            Ok(j) => {
                                insert_entry(&mut out, key.clone(), j);
                            },
                            Err(e) => {
                                proof { lemma_entries_error(ms, i as int); }
                                return Err(e);
                            },
                        }
                    },
                    _ => {
                        proof { lemma_entries_error(ms, i as int); }
                        return Err(String::from_str("argument object keys must be strings"));
                    },
                }
                i = i + 1;
            }
            proof {
                assert(ms.take(n as int) =~= ms);
            }
            Ok(JsonValue::Object(out))
        },
        CborArgument::Tag(_, inner) => {
            proof {
                assert(decreases_to!(*value => value->Tag_1));
            }
            arguments_to_json(&**inner)
        },
        CborArgument::Other => Err(String::from_str("unsupported CBOR argument value")),
    }
}

} // verus!

verus! {

/// Why an entry has no JSON member: a key that is not text, or its value's
/// message; nothing for an entry that converts.
pub open spec fn entry_error(e: (CborModel, CborModel)) -> Option<Seq<char>> {
    match e.0 {
        CborModel::Text(_) => match argument_json(e.1) {
            Ok(_) => None,
            Err(m) => Some(m),
        },
        _ => Some("argument object keys must be strings"@),
    }
}

/// The converted value of the last entry whose key is the text `k`.
pub open spec fn last_value_of(s: Seq<(CborModel, CborModel)>, k: Seq<char>) -> Option<Json>
    decreases s.len(),
{
    if s.len() == 0 {
        None
    } else if s.last().0 == CborModel::Text(k) {
        match argument_json(s.last().1) {
            Ok(j) => Some(j),
            Err(_) => None,
        }
    } else {
        last_value_of(s.drop_last(), k)
    }
}

proof fn lemma_insert_member_value(m: Seq<(Seq<char>, Json)>, k: Seq<char>, j: Json, key: Seq<char>)
    ensures
        member_value(insert_member(m, k, j), key) == if key == k { Some(j) } else { member_value(m, key) },
    decreases m.len(),
{
    let r = insert_member(m, k, j);
    if m.len() == 0 {
        assert(r.drop_first() =~= Seq::<(Seq<char>, Json)>::empty());
    } else if m[0].0 == k {
        assert(r.drop_first() =~= m.drop_first());
    } else if text_before(k, m[0].0) {
        assert(r.drop_first() =~= m);
    } else {
        lemma_insert_member_value(m.drop_first(), k, j, key);
        assert(r == seq![m[0]] + insert_member(m.drop_first(), k, j));
        assert(r[0] == m[0]);
        assert(r.drop_first() =~= insert_member(m.drop_first(), k, j));
        if m[0].0 != key {
            assert(member_value(r, key) == member_value(r.drop_first(), key));
            assert(member_value(m, key) == member_value(m.drop_first(), key));
        }
    }
}

/// An array argument whose elements all convert becomes the array of their
/// JSON values, in order.
pub proof fn law_array_converts_elementwise(s: Seq<CborModel>)
    requires
        forall|i: int| 0 <= i < s.len() ==> (#[trigger] argument_json(s[i])) is Ok,
    ensures
        match argument_json(CborModel::Array(s)) {
            Ok(Json::Array(js)) => js.len() == s.len()
                && forall|i: int| 0 <= i < s.len() ==> Ok::<Json, Seq<char>>(#[trigger] js[i]) == argument_json(s[i]),
            _ => false,
        },
{
    lemma_elements_ok(s);
}

proof fn lemma_elements_ok(s: Seq<CborModel>)
    requires
        forall|i: int| 0 <= i < s.len() ==> (#[trigger] argument_json(s[i])) is Ok,
    ensures
        match elements_json(s) {
            Ok(js) => js.len() == s.len()
                && forall|i: int| 0 <= i < s.len() ==> Ok::<Json, Seq<char>>(#[trigger] js[i]) == argument_json(s[i]),
            Err(_) => false,
        },
    decreases s.len(),
{
    if s.len() > 0 {
        let rest = s.drop_last();
        assert forall|i: int| 0 <= i < rest.len() implies (#[trigger] argument_json(rest[i])) is Ok by {
            assert(rest[i] == s[i]);
        }
        lemma_elements_ok(rest);
        assert(argument_json(s[s.len() - 1]) is Ok);
    }
}

/// An array argument with an element that does not convert fails with the
/// message of the first such element.
pub proof fn law_array_fails_at_first_element(s: Seq<CborModel>, f: int)
    requires
        0 <= f < s.len(),
        argument_json(s[f]) is Err,
        forall|i: int| 0 <= i < f ==> (#[trigger] argument_json(s[i])) is Ok,
    ensures
        match argument_json(s[f]) {
            Err(e) => argument_json(CborModel::Array(s)) == Err::<Json, Seq<char>>(e),
            Ok(_) => false,
        },
{
    lemma_elements_fail(s, f);
}

proof fn lemma_elements_fail(s: Seq<CborModel>, f: int)
    requires
        0 <= f < s.len(),
        argument_json(s[f]) is Err,
        forall|i: int| 0 <= i < f ==> (#[trigger] argument_json(s[i])) is Ok,
    ensures
        match argument_json(s[f]) {
            Err(e) => elements_json(s) == Err::<Seq<Json>, Seq<char>>(e),
            Ok(_) => false,
        },
    decreases s.len(),
{
    let rest = s.drop_last();
    if f == s.len() - 1 {
        assert forall|i: int| 0 <= i < rest.len() implies (#[trigger] argument_json(rest[i])) is Ok by {
            assert(rest[i] == s[i]);
        }
        lemma_elements_ok(rest);
    } else {
        assert(rest[f] == s[f]);
        assert forall|i: int| 0 <= i < f implies (#[trigger] argument_json(rest[i])) is Ok by {
            assert(rest[i] == s[i]);
        }
        lemma_elements_fail(rest, f);
    }
}

/// A map argument whose entries all convert becomes an object in which each
/// key's member is the value of the last entry with that key: a later
/// duplicate key wins.
pub proof fn law_map_converts_last_key_wins(s: Seq<(CborModel, CborModel)>)
    requires
        forall|i: int| 0 <= i < s.len() ==> (#[trigger] entry_error(s[i])) is None,
    ensures
        match argument_json(CborModel::Entries(s)) {
            Ok(Json::Object(m)) => forall|k: Seq<char>| #[trigger] member_value(m, k) == last_value_of(s, k),
            _ => false,
        },
{
    lemma_entries_ok(s);
}

proof fn lemma_entries_ok(s: Seq<(CborModel, CborModel)>)
    requires
        forall|i: int| 0 <= i < s.len() ==> (#[trigger] entry_error(s[i])) is None,
    ensures
        match entries_json(s) {
            Ok(m) => forall|k: Seq<char>| #[trigger] member_value(m, k) == last_value_of(s, k),
            Err(_) => false,
        },
    decreases s.len(),
{
    if s.len() == 0 {
        assert forall|k: Seq<char>| #[trigger] member_value(Seq::<(Seq<char>, Json)>::empty(), k) == last_value_of(s, k) by {}
    } else {
        let rest = s.drop_last();
        assert forall|i: int| 0 <= i < rest.len() implies (#[trigger] entry_error(rest[i])) is None by {
            assert(rest[i] == s[i]);
        }
        lemma_entries_ok(rest);
        assert(entry_error(s[s.len() - 1]) is None);
        let done = entries_json(rest)->Ok_0;
        match s.last().0 {
            CborModel::Text(k0) => {
                let j = argument_json(s.last().1)->Ok_0;
                assert forall|k: Seq<char>| #[trigger] member_value(insert_member(done, k0, j), k) == last_value_of(s, k) by {
                    lemma_insert_member_value(done, k0, j, k);
                    assert(member_value(done, k) == last_value_of(rest, k));
                }
            },
            _ => {},
        }
    }
}

/// A map argument with an entry that does not convert (a key that is not
/// text, or a value without JSON form) fails with the first such entry's message.
pub proof fn law_map_fails_at_first_entry(s: Seq<(CborModel, CborModel)>, f: int)
    requires
        0 <= f < s.len(),
        entry_error(s[f]) is Some,
        forall|i: int| 0 <= i < f ==> (#[trigger] entry_error(s[i])) is None,
    ensures
        argument_json(CborModel::Entries(s)) == Err::<Json, Seq<char>>(entry_error(s[f])->0),
{
    lemma_entries_fail(s, f);
}

proof fn lemma_entries_fail(s: Seq<(CborModel, CborModel)>, f: int)
    requires
        0 <= f < s.len(),
        entry_error(s[f]) is Some,
        forall|i: int| 0 <= i < f ==> (#[trigger] entry_error(s[i])) is None,
    ensures
        entries_json(s) == Err::<Seq<(Seq<char>, Json)>, Seq<char>>(entry_error(s[f])->0),
    decreases s.len(),
{
    let rest = s.drop_last();
    if f == s.len() - 1 {
        assert forall|i: int| 0 <= i < rest.len() implies (#[trigger] entry_error(rest[i])) is None by {
            assert(rest[i] == s[i]);
        }
        lemma_entries_ok(rest);
    } else {
        assert(rest[f] == s[f]);
        assert forall|i: int| 0 <= i < f implies (#[trigger] entry_error(rest[i])) is None by {
            assert(rest[i] == s[i]);
        }
        lemma_entries_fail(rest, f);
    }
}

} // verus!

//! The JSON values that the library reads and writes.
//!
//! A `JsonValue` holds what `serde_json` parsed, as plain values: objects keep
//! their members in the order of `serde_json::Map` (keys sorted, each key once),
//! and a number keeps the facts about it that the logic reads. Its model is
//! `Json`, where every vector is a sequence.

use vstd::prelude::*;
use crate::outside::json_quote;
use crate::text::same_text;

verus! {

/// A JSON number, as the facts that the library reads of it.
#[derive(Debug)]
pub struct JsonNumber {
    /// How `serde_json` writes the number.
    pub text: String,
    /// The number as a `u64`, where it is a non-negative integer (`as_u64`).
    pub unsigned: Option<u64>,
    /// The bits of the number taken as an `f64` (`as_f64`, then `to_bits`).
    pub float_bits: u64,
    /// How `serde_json` writes the number taken as an `f64`.
    pub float_text: String,
}

/// A JSON value.
#[derive(Debug)]
pub enum JsonValue {
    Null,
    Bool(bool),
    Number(JsonNumber),
    String(String),
    Array(Vec<JsonValue>),
    Object(Vec<(String, JsonValue)>),
}

/// What a JSON number is to the library: the facts of `JsonNumber` as sequences.
pub struct NumberModel {
    pub text: Seq<char>,
    pub unsigned: Option<u64>,
    pub float_bits: u64,
    pub float_text: Seq<char>,
}

/// The mathematical model of a JSON value.
pub enum Json {
    Null,
    Bool(bool),
    Number(NumberModel),
    Text(Seq<char>),
    Array(Seq<Json>),
    Object(Seq<(Seq<char>, Json)>),
}

impl View for JsonNumber {
    type V = NumberModel;

    open spec fn view(&self) -> NumberModel {
        NumberModel {
            text: self.text@,
            unsigned: self.unsigned,
            float_bits: self.float_bits,
            float_text: self.float_text@,
        }
    }
}

/// The models of a sequence of values.
pub open spec fn models(s: Seq<JsonValue>) -> Seq<Json>
    decreases s, 1nat,
{
    if s.len() == 0 {
        Seq::empty()
    } else {
        models(s.drop_last()).push(model(s.last()))
    }
}

/// The models of a sequence of members.
pub open spec fn member_models(s: Seq<(String, JsonValue)>) -> Seq<(Seq<char>, Json)>
    decreases s, 1nat,
{
    if s.len() == 0 {
        Seq::empty()
    } else {
        member_models(s.drop_last()).push((s.last().0@, model(s.last().1)))
    }
}

/// The model of a value.
pub open spec fn model(v: JsonValue) -> Json
    decreases v, 0nat,
{
    match v {
        JsonValue::Null => Json::Null,
        JsonValue::Bool(b) => Json::Bool(b),
        JsonValue::Number(n) => Json::Number(n@),
        JsonValue::String(s) => Json::Text(s@),
        JsonValue::Array(a) => Json::Array(models(a@)),
        JsonValue::Object(e) => Json::Object(member_models(e@)),
    }
}

impl View for JsonValue {
    type V = Json;

    open spec fn view(&self) -> Json {
        model(*self)
    }
}

/// `models` keeps the length and maps each element.
pub proof fn lemma_models(s: Seq<JsonValue>)
    ensures
        models(s).len() == s.len(),
        forall|i: int| 0 <= i < s.len() ==> #[trigger] models(s)[i] == model(s[i]),
    decreases s.len(),
{
    if s.len() > 0 {
        lemma_models(s.drop_last());
    }
}

/// `member_models` keeps the length and maps each member.
pub proof fn lemma_member_models(s: Seq<(String, JsonValue)>)
    ensures
        member_models(s).len() == s.len(),
        forall|i: int| 0 <= i < s.len() ==> #[trigger] member_models(s)[i] == (s[i].0@, model(s[i].1)),
    decreases s.len(),
{
    if s.len() > 0 {
        lemma_member_models(s.drop_last());
    }
}

/// The value of the first member named `key`.
pub open spec fn member_value(entries: Seq<(Seq<char>, Json)>, key: Seq<char>) -> Option<Json>
    decreases entries.len(),
{
    if entries.len() == 0 {
        None
    } else if entries[0].0 == key {
        Some(entries[0].1)
    } else {
        member_value(entries.drop_first(), key)
    }
}

impl Json {
    /// The member named `key` of an object; nothing for any other value.
    pub open spec fn member(self, key: Seq<char>) -> Option<Json> {
        match self {
            Json::Object(entries) => member_value(entries, key),
            _ => None,
        }
    }

    /// The characters of a string value.
    pub open spec fn text_value(self) -> Option<Seq<char>> {
        match self {
            Json::Text(s) => Some(s),
            _ => None,
        }
    }

    /// The elements of an array value.
    pub open spec fn elements(self) -> Option<Seq<Json>> {
        match self {
            Json::Array(a) => Some(a),
            _ => None,
        }
    }

    /// A non-negative integer that fits in `u64`.
    pub open spec fn unsigned_value(self) -> Option<u64> {
        match self {
            Json::Number(n) => n.unsigned,
            _ => None,
        }
    }

    /// A boolean value.
    pub open spec fn bool_value(self) -> Option<bool> {
        match self {
            Json::Bool(b) => Some(b),
            _ => None,
        }
    }
}

impl JsonValue {
    /// The member named `key`, as `serde_json::Value::get` finds it.
    pub fn get(&self, key: &str) -> (r: Option<&JsonValue>)
        ensures
            match r {
                Some(v) => self@.member(key@) == Some(v@),
                None => self@.member(key@) is None,
            },
    {
        match self {
            JsonValue::Object(entries) => {
                let ghost ms = member_models(entries@);
                proof {
                    lemma_member_models(entries@);
                    assert(ms.skip(0) =~= ms);
                }
                let n: usize = entries.len();
                let mut i: usize = 0;
                while i < n
                    invariant
                        n == entries@.len(),
                        ms == member_models(entries@),
                        ms.len() == n,
                        forall|k: int| 0 <= k < n ==> #[trigger] ms[k] == (entries@[k].0@, model(entries@[k].1)),
                        i <= n,
                        self@.member(key@) == member_value(ms.skip(i as int), key@),
                    decreases n - i,
                {
                    proof {
                        assert(ms.skip(i as int).drop_first() =~= ms.skip(i + 1));
                        assert(ms.skip(i as int)[0] == ms[i as int]);
                    }
                    if same_text(entries[i].0.as_str(), key) {
                        return Some(&entries[i].1);
                    }
                    i = i + 1;
                }
                None
            },
            _ => None,
        }
    }

    /// The text of a string value (`as_str`).
    pub fn as_str(&self) -> (r: Option<&str>)
        ensures
            match r {
                Some(s) => self@.text_value() == Some(s@),
                None => self@.text_value() is None,
            },
    {
        match self {
            JsonValue::String(s) => Some(s.as_str()),
            _ => None,
        }
    }

    /// The elements of an array value (`as_array`).
    pub fn as_array(&self) -> (r: Option<&Vec<JsonValue>>)
        ensures
            match r {
                Some(a) => self@.elements() == Some(models(a@)),
                None => self@.elements() is None,
            },
    {
        match self {
            JsonValue::Array(a) => Some(a),
            _ => None,
        }
    }

    /// The value as a `u64` (`as_u64`).
    pub fn as_u64(&self) -> (r: Option<u64>)
        ensures
            r == self@.unsigned_value(),
    {
        match self {
            JsonValue::Number(n) => n.unsigned,
            _ => None,
        }
    }

    /// The value as a `bool` (`as_bool`).
    pub fn as_bool(&self) -> (r: Option<bool>)
        ensures
            r == self@.bool_value(),
    {
        match self {
            JsonValue::Bool(b) => Some(*b),
            _ => None,
        }
    }

    /// Whether the value is `null`.
    pub fn is_null(&self) -> (r: bool)
        ensures
            r == (self@ is Null),
    {
        match self {
            JsonValue::Null => true,
            _ => false,
        }
    }
}

/// A lower-case hex digit.
pub open spec fn lower_hex(d: nat) -> char {
    if d < 10 {
        crate::text::digit_char(d)
    } else if d == 10 { 'a' }
    else if d == 11 { 'b' }
    else if d == 12 { 'c' }
    else if d == 13 { 'd' }
    else if d == 14 { 'e' }
    else { 'f' }
}

/// How one character stands inside a JSON string written by `serde_json`.
pub open spec fn escaped_char(c: char) -> Seq<char> {
    if c == '"' {
        seq!['\\', '"']
    } else if c == '\\' {
        seq!['\\', '\\']
    } else if c == '\x08' {
        seq!['\\', 'b']
    } else if c == '\t' {
        seq!['\\', 't']
    } else if c == '\n' {
        seq!['\\', 'n']
    } else if c == '\x0c' {
        seq!['\\', 'f']
    } else if c == '\r' {
        seq!['\\', 'r']
    } else if (c as u32) < 0x20 {
        seq!['\\', 'u', '0', '0', lower_hex((c as u32 / 16) as nat), lower_hex((c as u32 % 16) as nat)]
    } else {
        seq![c]
    }
}

/// The characters of a string, each escaped as inside a JSON string.
pub open spec fn escaped(s: Seq<char>) -> Seq<char>
    decreases s.len(),
{
    if s.len() == 0 {
        Seq::empty()
    } else {
        escaped(s.drop_last()) + escaped_char(s.last())
    }
}

/// A JSON string literal of `s`.
pub open spec fn quoted(s: Seq<char>) -> Seq<char> {
    seq!['"'] + escaped(s) + seq!['"']
}

/// The compact JSON text of a value, as `serde_json::to_string` writes it.
pub open spec fn json_text(v: Json) -> Seq<char>
    decreases v, 0nat,
{
    match v {
        Json::Null => seq!['n', 'u', 'l', 'l'],
        Json::Bool(b) => if b { seq!['t', 'r', 'u', 'e'] } else { seq!['f', 'a', 'l', 's', 'e'] },
        Json::Number(n) => n.text,
        Json::Text(s) => quoted(s),
        Json::Array(a) => seq!['['] + elements_text(a) + seq![']'],
        Json::Object(e) => seq!['{'] + members_text(e) + seq!['}'],
    }
}

/// The elements' texts, separated by commas.
pub open spec fn elements_text(s: Seq<Json>) -> Seq<char>
    decreases s, 1nat,
{
    if s.len() == 0 {
        Seq::empty()
    } else if s.len() == 1 {
        json_text(s[0])
    } else {
        elements_text(s.drop_last()) + seq![','] + json_text(s.last())
    }
}

/// The members' texts (`"key":value`), separated by commas.
pub open spec fn members_text(s: Seq<(Seq<char>, Json)>) -> Seq<char>
    decreases s, 1nat,
{
    if s.len() == 0 {
        Seq::empty()
    } else if s.len() == 1 {
        quoted(s[0].0) + seq![':'] + json_text(s[0].1)
    } else {
        members_text(s.drop_last()) + seq![','] + quoted(s.last().0) + seq![':'] + json_text(s.last().1)
    }
}

/// Appends the compact JSON text of `v` to `out`.
pub fn write_json(v: &JsonValue, out: &mut String)
    ensures
        final(out)@ == old(out)@ + json_text(v@),
    decreases v,
{
    match v {
        JsonValue::Null => {
            out.append("null");
            proof { reveal_strlit("null"); }
        },
        JsonValue::Bool(b) => {
            if *b {
                out.append("true");
                proof { reveal_strlit("true"); }
            } else {
                out.append("false");
                proof { reveal_strlit("false"); }
            }
        },
        JsonValue::Number(n) => {
            out.append(n.text.as_str());
        },
        JsonValue::String(s) => {
            let q = json_quote(s.as_str());
            out.append(q.as_str());
        },
        JsonValue::Array(a) => {
            let ghost start = out@;
            let ghost ms = models(a@);
            proof { lemma_models(a@); }
            out.push('[');
            let n: usize = a.len();
            let mut i: usize = 0;
            while i < n
                invariant
                    n == a@.len(),
                    ms == models(a@),
                    ms.len() == n,
                    forall|k: int| 0 <= k < n ==> #[trigger] ms[k] == model(a@[k]),
                    i <= n,
                    out@ == start + seq!['['] + elements_text(ms.take(i as int)),
                    *v == JsonValue::Array(*a),
                decreases n - i,
            {
                proof {
                    assert(decreases_to!(*v => v->Array_0));
                    assert(decreases_to!(*a => a@));
                    assert(decreases_to!(a@ => a@[i as int]));
                }
                if i > 0 {
                    out.push(',');
                }
                write_json(&a[i], out);
                proof {
                    let t = ms.take(i + 1);
                    assert(t.drop_last() =~= ms.take(i as int));
                    assert(t.last() == ms[i as int]);
                }
                i = i + 1;
            }
            out.push(']');
            proof {
                assert(ms.take(n as int) =~= ms);
            }
        },
        JsonValue::Object(e) => {
            let ghost start = out@;
            let ghost ms = member_models(e@);
            proof { lemma_member_models(e@); }
            out.push('{');
            let n: usize = e.len();
            let mut i: usize = 0;
            while i < n
                invariant
                    n == e@.len(),
                    ms == member_models(e@),
                    ms.len() == n,
                    forall|k: int| 0 <= k < n ==> #[trigger] ms[k] == (e@[k].0@, model(e@[k].1)),
                    i <= n,
                    out@ == start + seq!['{'] + members_text(ms.take(i as int)),
                    *v == JsonValue::Object(*e),
                decreases n - i,
            {
                proof {
                    assert(decreases_to!(*v => v->Object_0));
                    assert(decreases_to!(*e => e@));
                    assert(decreases_to!(e@ => e@[i as int]));
                    assert(decreases_to!(e@[i as int] => e@[i as int].1));
                }
                if i > 0 {
                    out.push(',');
                }
                let q = json_quote(e[i].0.as_str());
                out.append(q.as_str());
                out.push(':');
                write_json(&e[i].1, out);
                proof {
                    let t = ms.take(i + 1);
                    assert(t.drop_last() =~= ms.take(i as int));
                    assert(t.last() == ms[i as int]);
                }
                i = i + 1;
            }
            out.push('}');
            proof {
                assert(ms.take(n as int) =~= ms);
            }
        },
    }
}

impl JsonNumber {
    /// A copy of the number.
    pub fn duplicate(&self) -> (r: JsonNumber)
        ensures
            r@ == self@,
    {
        JsonNumber {
            text: self.text.clone(),
            unsigned: self.unsigned,
            float_bits: self.float_bits,
            float_text: self.float_text.clone(),
        }
    }
}

impl JsonValue {
    /// A deep copy of the value.
    pub fn duplicate(&self) -> (r: JsonValue)
        ensures
            r@ == self@,
        decreases self,
    {
        match self {
            JsonValue::Null => JsonValue::Null,
            JsonValue::Bool(b) => JsonValue::Bool(*b),
            JsonValue::Number(n) => JsonValue::Number(n.duplicate()),
            JsonValue::String(s) => JsonValue::String(s.clone()),
            JsonValue::Array(a) => {
                let mut copy: Vec<JsonValue> = Vec::new();
                let n: usize = a.len();
                let mut i: usize = 0;
                proof { lemma_models(a@); }
                while i < n
                    invariant
                        n == a@.len(),
                        i <= n,
                        models(copy@) == models(a@).take(i as int),
                        models(a@).len() == n,
                        forall|k: int| 0 <= k < n ==> #[trigger] models(a@)[k] == model(a@[k]),
                        *self == JsonValue::Array(*a),
                    decreases n - i,
                {
                    proof {
                        assert(decreases_to!(*self => self->Array_0));
                        assert(decreases_to!(*a => a@));
                        assert(decreases_to!(a@ => a@[i as int]));
                    }
                    let ghost before = copy@;
                    copy.push(a[i].duplicate());
                    proof {
                        assert(copy@.drop_last() =~= before);
                        assert(models(a@).take(i + 1) =~= models(a@).take(i as int).push(model(a@[i as int])));
                    }
                    i = i + 1;
                }
                proof {
                    assert(models(a@).take(n as int) =~= models(a@));
                }
                JsonValue::Array(copy)
            },
            JsonValue::Object(e) => {
                let mut copy: Vec<(String, JsonValue)> = Vec::new();
                let n: usize = e.len();
                let mut i: usize = 0;
                proof { lemma_member_models(e@); }
                while i < n
                    invariant
                        n == e@.len(),
                        i <= n,
                        member_models(copy@) == member_models(e@).take(i as int),
                        member_models(e@).len() == n,
                        forall|k: int| 0 <= k < n ==> #[trigger] member_models(e@)[k] == (e@[k].0@, model(e@[k].1)),
                        *self == JsonValue::Object(*e),
                    decreases n - i,
                {
                    proof {
                        assert(decreases_to!(*self => self->Object_0));
                        assert(decreases_to!(*e => e@));
                        assert(decreases_to!(e@ => e@[i as int]));
                        assert(decreases_to!(e@[i as int] => e@[i as int].1));
                    }
                    let ghost before = copy@;
                    let key = e[i].0.clone();
                    let value = e[i].1.duplicate();
                    copy.push((key, value));
                    proof {
                        assert(copy@.drop_last() =~= before);
                        assert(member_models(e@).take(i + 1) =~= member_models(e@).take(i as int).push(
                            (e@[i as int].0@, model(e@[i as int].1)),
                        ));
                    }
                    i = i + 1;
                }
                proof {
                    assert(member_models(e@).take(n as int) =~= member_models(e@));
                }
                JsonValue::Object(copy)
            },
        }
    }
}

} // verus!

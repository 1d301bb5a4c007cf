//! A model of JSON values.
//!
//! The proxy inspects and fingerprints arbitrary JSON-RPC parameters, so it
//! needs its own JSON datatype: numbers are kept as their decimal text, which
//! the proxy never does arithmetic on, and object members keep their order.
//! `canonical_text` is the canonical, deterministic serialization used for
//! cache fingerprints; `parse_json` brings text in through `serde_json`.

use vstd::prelude::*;

verus! {

/// A JSON value. Numbers are carried as their literal decimal text.
#[derive(Debug, PartialEq)]
pub enum JsonValue {
    Null,
    Bool(bool),
    Number(String),
    Text(String),
    Array(Vec<JsonValue>),
    Object(Vec<(String, JsonValue)>),
}

/// The mathematical shape of a JSON value: strings as character sequences,
/// arrays and objects as sequences.
pub enum JsonView {
    Null,
    Bool(bool),
    Number(Seq<char>),
    Text(Seq<char>),
    Array(Seq<JsonView>),
    Object(Seq<(Seq<char>, JsonView)>),
}

impl JsonValue {
    pub open spec fn jview(self) -> JsonView
        decreases self, 1int,
    {
        match self {
            JsonValue::Null => JsonView::Null,
            JsonValue::Bool(b) => JsonView::Bool(b),
            JsonValue::Number(s) => JsonView::Number(s@),
            JsonValue::Text(s) => JsonView::Text(s@),
            JsonValue::Array(items) => JsonView::Array(jview_seq(items@)),
            JsonValue::Object(members) => JsonView::Object(jview_members(members@)),
        }
    }
}

pub open spec fn jview_seq(items: Seq<JsonValue>) -> Seq<JsonView>
    decreases items, 0int,
{
    if items.len() == 0 {
        Seq::empty()
    } else {
        jview_seq(items.drop_last()).push(items.last().jview())
    }
}

pub open spec fn jview_members(members: Seq<(String, JsonValue)>) -> Seq<(Seq<char>, JsonView)>
    decreases members, 0int,
{
    if members.len() == 0 {
        Seq::empty()
    } else {
        jview_members(members.drop_last()).push(
            (members.last().0@, members.last().1.jview()),
        )
    }
}

impl View for JsonValue {
    type V = JsonView;

    open spec fn view(&self) -> JsonView {
        (*self).jview()
    }
}

/// The element views of a sequence of values, one for one.
pub proof fn lemma_jview_seq(items: Seq<JsonValue>)
    ensures
        jview_seq(items).len() == items.len(),
        forall|i: int| 0 <= i < items.len() ==> #[trigger] jview_seq(items)[i] == items[i]@,
    decreases items.len(),
{
    if items.len() > 0 {
        lemma_jview_seq(items.drop_last());
        assert forall|i: int| 0 <= i < items.len() implies #[trigger] jview_seq(items)[i]
            == items[i]@ by {
            if i < items.len() - 1 {
                assert(items.drop_last()[i] == items[i]);
            }
        }
    }
}

/// The member views of a sequence of object members, one for one.
pub proof fn lemma_jview_members(members: Seq<(String, JsonValue)>)
    ensures
        jview_members(members).len() == members.len(),
        forall|i: int|
            0 <= i < members.len() ==> #[trigger] jview_members(members)[i] == (
            members[i].0@,
            members[i].1@,
            ),
    decreases members.len(),
{
    if members.len() > 0 {
        lemma_jview_members(members.drop_last());
        assert forall|i: int|
            0 <= i < members.len() implies #[trigger] jview_members(members)[i] == (
            members[i].0@,
            members[i].1@,
        ) by {
            if i < members.len() - 1 {
                assert(members.drop_last()[i] == members[i]);
            }
        }
    }
}

/// The lower-case hex digit for a value below sixteen.
pub open spec fn hex_digit(d: int) -> char {
    if d == 0 {
        '0'
    } else if d == 1 {
        '1'
    } else if d == 2 {
        '2'
    } else if d == 3 {
        '3'
    } else if d == 4 {
        '4'
    } else if d == 5 {
        '5'
    } else if d == 6 {
        '6'
    } else if d == 7 {
        '7'
    } else if d == 8 {
        '8'
    } else if d == 9 {
        '9'
    } else if d == 10 {
        'a'
    } else if d == 11 {
        'b'
    } else if d == 12 {
        'c'
    } else if d == 13 {
        'd'
    } else if d == 14 {
        'e'
    } else {
        'f'
    }
}

/// How one character of a JSON string is written inside quotes.
pub open spec fn escape_char(c: char) -> Seq<char> {
    if c == '"' {
        seq!['\\', '"']
    } else if c == '\\' {
        seq!['\\', '\\']
    } else if c == '\n' {
        seq!['\\', 'n']
    } else if c == '\r' {
        seq!['\\', 'r']
    } else if c == '\t' {
        seq!['\\', 't']
    } else if (c as u32) < 32 {
        seq!['\\', 'u', '0', '0', hex_digit((c as u32 / 16) as int), hex_digit(
            (c as u32 % 16) as int,
        )]
    } else {
        seq![c]
    }
}

/// The body of a JSON string: every character escaped as needed.
pub open spec fn escape_string(s: Seq<char>) -> Seq<char>
    decreases s.len(),
{
    if s.len() == 0 {
        Seq::empty()
    } else {
        escape_string(s.drop_last()) + escape_char(s.last())
    }
}

/// The canonical text of a JSON value.
pub open spec fn canonical_text(v: JsonView) -> Seq<char>
    decreases v, 1int,
{
    match v {
        JsonView::Null => seq!['n', 'u', 'l', 'l'],
        JsonView::Bool(b) => if b {
            seq!['t', 'r', 'u', 'e']
        } else {
            seq!['f', 'a', 'l', 's', 'e']
        },
        JsonView::Number(s) => s,
        JsonView::Text(s) => seq!['"'] + escape_string(s) + seq!['"'],
        JsonView::Array(items) => seq!['['] + array_text(items) + seq![']'],
        JsonView::Object(members) => seq!['{'] + object_text(members) + seq!['}'],
    }
}

/// The comma-separated canonical text of array elements.
pub open spec fn array_text(items: Seq<JsonView>) -> Seq<char>
    decreases items, 0int,
{
    if items.len() == 0 {
        Seq::empty()
    } else if items.len() == 1 {
        canonical_text(items.last())
    } else {
        array_text(items.drop_last()) + seq![','] + canonical_text(items.last())
    }
}

/// The canonical text of one object member: quoted key, colon, value.
pub open spec fn member_text(m: (Seq<char>, JsonView)) -> Seq<char>
    decreases m, 0int,
{
    seq!['"'] + escape_string(m.0) + seq!['"', ':'] + canonical_text(m.1)
}

/// The comma-separated canonical text of object members.
pub open spec fn object_text(members: Seq<(Seq<char>, JsonView)>) -> Seq<char>
    decreases members, 0int,
{
    if members.len() == 0 {
        Seq::empty()
    } else if members.len() == 1 {
        member_text(members.last())
    } else {
        object_text(members.drop_last()) + seq![','] + member_text(members.last())
    }
}

/// Whether two string slices hold the same characters.
pub fn str_eqs(a: &str, b: &str) -> (r: bool)
    ensures
        r == (a@ == b@),
{
    let owned_a: String = a.to_owned();
    let owned_b: String = b.to_owned();
    owned_a == owned_b
}

/// Appends the lower-case hex digit of a value below sixteen.
fn append_hex_digit(out: &mut String, d: u32)
    requires
        d < 16,
    ensures
        final(out)@ == old(out)@ + seq![hex_digit(d as int)],
{
    let digits = "0123456789abcdef";
    proof {
        reveal_strlit("0123456789abcdef");
    }
    let piece = digits.substring_char(d as usize, d as usize + 1);
    proof {
        assert(piece@ =~= seq![hex_digit(d as int)]);
    }
    out.append(piece);
}

/// Appends the escaped body of a JSON string.
fn append_escaped(out: &mut String, s: &str)
    ensures
        final(out)@ == old(out)@ + escape_string(s@),
{
    let n = s.unicode_len();
    let mut i: usize = 0;
    while i < n
        invariant
            n == s@.len(),
            i <= n,
            out@ == old(out)@ + escape_string(s@.take(i as int)),
        decreases n - i,
    {
        let c = s.get_char(i);
        if c == '"' {
            out.append("\\\"");
            proof {
                reveal_strlit("\\\"");
                assert(("\\\"")@ =~= escape_char(s@[i as int]));
            }
        } else if c == '\\' {
            out.append("\\\\");
            proof {
                reveal_strlit("\\\\");
                assert(("\\\\")@ =~= escape_char(s@[i as int]));
            }
        } else if c == '\n' {
            out.append("\\n");
            proof {
                reveal_strlit("\\n");
                assert(("\\n")@ =~= escape_char(s@[i as int]));
            }
        } else if c == '\r' {
            out.append("\\r");
            proof {
                reveal_strlit("\\r");
                assert(("\\r")@ =~= escape_char(s@[i as int]));
            }
        } else if c == '\t' {
            out.append("\\t");
            proof {
                reveal_strlit("\\t");
                assert(("\\t")@ =~= escape_char(s@[i as int]));
            }
        } else if (c as u32) < 32 {
            let code = c as u32;
            out.append("\\u00");
            append_hex_digit(out, code / 16);
            append_hex_digit(out, code % 16);
            proof {
                reveal_strlit("\\u00");
                assert(("\\u00")@ + seq![hex_digit(code as int / 16)] + seq![hex_digit(
                    code as int % 16,
                )] =~= escape_char(s@[i as int]));
            }
        } else {
            let piece = s.substring_char(i, i + 1);
            out.append(piece);
            proof {
                assert(piece@ =~= seq![s@[i as int]]);
                assert(piece@ =~= escape_char(s@[i as int]));
            }
        }
        proof {
            let t = s@.take(i as int + 1);
            assert(t.drop_last() =~= s@.take(i as int));
            assert(t.last() == s@[i as int]);
            assert(escape_string(t) == escape_string(s@.take(i as int)) + escape_char(
                s@[i as int],
            ));
            assert(out@ =~= old(out)@ + escape_string(t));
        }
        i += 1;
    }
    proof {
        assert(s@.take(n as int) =~= s@);
    }
}

impl JsonValue {
    /// Appends the canonical text of this value.
    #[verifier::loop_isolation(false)]
    pub fn write_text(&self, out: &mut String)
        ensures
            final(out)@ == old(out)@ + canonical_text(self@),
        decreases *self,
    {
        match self {
            JsonValue::Null => {
                out.append("null");
                proof {
                    reveal_strlit("null");
                    assert(("null")@ =~= canonical_text(self@));
                }
            },
            JsonValue::Bool(b) => {
                if *b {
                    out.append("true");
                    proof {
                        reveal_strlit("true");
                        assert(("true")@ =~= canonical_text(self@));
                    }
                } else {
                    out.append("false");
                    proof {
                        reveal_strlit("false");
                        assert(("false")@ =~= canonical_text(self@));
                    }
                }
            },
            JsonValue::Number(s) => {
                out.append(s.as_str());
            },
            JsonValue::Text(s) => {
                out.append("\"");
                append_escaped(out, s.as_str());
                out.append("\"");
                proof {
                    reveal_strlit("\"");
                    assert(out@ =~= old(out)@ + canonical_text(self@));
                }
            },
            JsonValue::Array(items) => {
                let ghost vs: Seq<JsonView> = jview_seq(items@);
                proof {
                    lemma_jview_seq(items@);
                    reveal_strlit("[");
                }
                out.append("[");
                let n = items.len();
                let mut i: usize = 0;
                while i < n
                    invariant
                        n == items@.len(),
                        i <= n,
                        vs == jview_seq(items@),
                        vs.len() == n,
                        forall|j: int| 0 <= j < n ==> vs[j] == items@[j]@,
                        out@ == old(out)@ + seq!['['] + array_text(vs.take(i as int)),
                    decreases n - i,
                {
                    if i > 0 {
                        out.append(",");
                        proof {
                            reveal_strlit(",");
                        }
                    }
                    proof {
                        assert(decreases_to!(*self => self->Array_0));
                        assert(decreases_to!(self->Array_0 => self->Array_0@));
                        assert(decreases_to!(self->Array_0@ => self->Array_0@[i as int]));
                    }
                    let item = &items[i];
                    item.write_text(out);
                    proof {
                        let t = vs.take(i as int + 1);
                        assert(t.drop_last() =~= vs.take(i as int));
                        assert(t.last() == vs[i as int]);
                        if i == 0 {
                            assert(array_text(t) == canonical_text(vs[0]));
                        } else {
                            assert(array_text(t) == array_text(vs.take(i as int)) + seq![',']
                                + canonical_text(vs[i as int]));
                        }
                        assert(out@ =~= old(out)@ + seq!['['] + array_text(t));
                    }
                    i += 1;
                }
                out.append("]");
                proof {
                    reveal_strlit("]");
                    assert(vs.take(n as int) =~= vs);
                    assert(out@ =~= old(out)@ + canonical_text(self@));
                }
            },
            JsonValue::Object(members) => {
                let ghost ms: Seq<(Seq<char>, JsonView)> = jview_members(members@);
                proof {
                    lemma_jview_members(members@);
                    reveal_strlit("{");
                }
                out.append("{");
                let n = members.len();
                let mut i: usize = 0;
                while i < n
                    invariant
                        n == members@.len(),
                        i <= n,
                        ms == jview_members(members@),
                        ms.len() == n,
                        forall|j: int|
                            0 <= j < n ==> ms[j] == (members@[j].0@, members@[j].1@),
                        out@ == old(out)@ + seq!['{'] + object_text(ms.take(i as int)),
                    decreases n - i,
                {
                    if i > 0 {
                        out.append(",");
                        proof {
                            reveal_strlit(",");
                        }
                    }
                    let member = &members[i];
                    out.append("\"");
                    append_escaped(out, member.0.as_str());
                    out.append("\":");
                    proof {
                        assert(decreases_to!(*self => self->Object_0));
                        assert(decreases_to!(self->Object_0 => self->Object_0@));
                        assert(decreases_to!(self->Object_0@ => self->Object_0@[i as int]));
                        assert(decreases_to!(self->Object_0@[i as int] => self->Object_0@[i as int].1));
                    }
                    let value = &member.1;
                    value.write_text(out);
                    proof {
                        reveal_strlit("\"");
                        reveal_strlit("\":");
                        let t = ms.take(i as int + 1);
                        assert(t.drop_last() =~= ms.take(i as int));
                        assert(t.last() == ms[i as int]);
                        assert(seq!['"'] + escape_string(ms[i as int].0) + seq!['"', ':']
                            + canonical_text(ms[i as int].1) =~= member_text(ms[i as int]));
                        if i == 0 {
                            assert(object_text(t) == member_text(ms[0]));
                        } else {
                            assert(object_text(t) == object_text(ms.take(i as int)) + seq![',']
                                + member_text(ms[i as int]));
                        }
                        assert(out@ =~= old(out)@ + seq!['{'] + object_text(t));
                    }
                    i += 1;
                }
                out.append("}");
                proof {
                    reveal_strlit("}");
                    assert(ms.take(n as int) =~= ms);
                    assert(out@ =~= old(out)@ + canonical_text(self@));
                }
            },
        }
    }

    /// The canonical text of this value as a fresh string.
    pub fn to_text(&self) -> (r: String)
        ensures
            r@ == canonical_text(self@),
    {
        let mut out = String::new();
        self.write_text(&mut out);
        out
    }

    /// A structurally equal copy of this value.
    #[verifier::loop_isolation(false)]
    pub fn deep_clone(&self) -> (r: JsonValue)
        ensures
            r@ == self@,
        decreases *self,
    {
        match self {
            JsonValue::Null => JsonValue::Null,
            JsonValue::Bool(b) => JsonValue::Bool(*b),
            JsonValue::Number(s) => JsonValue::Number(s.clone()),
            JsonValue::Text(s) => JsonValue::Text(s.clone()),
            JsonValue::Array(items) => {
                let n = items.len();
                let mut copies: Vec<JsonValue> = Vec::new();
                let mut i: usize = 0;
                while i < n
                    invariant
                        n == items@.len(),
                        i <= n,
                        copies@.len() == i,
                        forall|j: int| 0 <= j < i ==> #[trigger] copies@[j]@ == items@[j]@,
                    decreases n - i,
                {
                    proof {
                        assert(decreases_to!(*self => self->Array_0));
                        assert(decreases_to!(self->Array_0 => self->Array_0@));
                        assert(decreases_to!(self->Array_0@ => self->Array_0@[i as int]));
                    }
                    let copy = (&items[i]).deep_clone();
                    copies.push(copy);
                    i += 1;
                }
                proof {
                    lemma_jview_seq(copies@);
                    lemma_jview_seq(items@);
                    assert(jview_seq(copies@) =~= jview_seq(items@));
                }
                JsonValue::Array(copies)
            },
            JsonValue::Object(members) => {
                let n = members.len();
                let mut copies: Vec<(String, JsonValue)> = Vec::new();
                let mut i: usize = 0;
                while i < n
                    invariant
                        n == members@.len(),
                        i <= n,
                        copies@.len() == i,
                        forall|j: int|
                            0 <= j < i ==> #[trigger] copies@[j].0@ == members@[j].0@
                                && copies@[j].1@ == members@[j].1@,
                    decreases n - i,
                {
                    let member = &members[i];
                    proof {
                        assert(decreases_to!(*self => self->Object_0));
                        assert(decreases_to!(self->Object_0 => self->Object_0@));
                        assert(decreases_to!(self->Object_0@ => self->Object_0@[i as int]));
                        assert(decreases_to!(self->Object_0@[i as int] => self->Object_0@[i as int].1));
                    }
                    let key = member.0.clone();
                    let value = (&member.1).deep_clone();
                    copies.push((key, value));
                    i += 1;
                }
                proof {
                    lemma_jview_members(copies@);
                    lemma_jview_members(members@);
                    assert(jview_members(copies@) =~= jview_members(members@));
                }
                JsonValue::Object(copies)
            },
        }
    }
}

/// Relies on serde_json::Value as the parsed form of JSON text; the library
/// carries such values only through the converter below.
#[verifier::external_type_specification]
#[verifier::external_body]
pub struct ExSerdeValue(serde_json::Value);

/// The JSON document a text denotes, if the text is well-formed JSON, in the
/// library's model. Named rather than written out: stating the JSON grammar
/// here would restate serde_json as a specification that nothing checks.
pub uninterp spec fn json_of(s: Seq<char>) -> Option<JsonView>;

/// Relies on serde_json::Value being a six-variant JSON tree and on
/// serde_json::Number::to_string writing the number's decimal text; each arm
/// moves the corresponding data across. This is the conversion half of
/// `parse_json`, and is called nowhere else.
#[verifier::external_body]
fn value_to_json(v: &serde_json::Value) -> JsonValue {
    match v {
        serde_json::Value::Null => JsonValue::Null,
        serde_json::Value::Bool(b) => JsonValue::Bool(*b),
        serde_json::Value::Number(n) => JsonValue::Number(n.to_string()),
        serde_json::Value::String(s) => JsonValue::Text(s.clone()),
        serde_json::Value::Array(a) => JsonValue::Array(a.iter().map(value_to_json).collect()),
        serde_json::Value::Object(m) => JsonValue::Object(
            m.iter().map(|(k, val)| (k.clone(), value_to_json(val))).collect(),
        ),
    }
}

/// Parses JSON text into the library's model. Relies on
/// serde_json::from_str::<serde_json::Value>: one and the same text always
/// reads as one and the same document — named `json_of` — or is rejected.
#[verifier::external_body]
pub fn parse_json(s: &str) -> (r: Option<JsonValue>)
    ensures
        match r {
            Some(v) => json_of(s@) == Some(v@),
            None => json_of(s@) is None,
        },
{
    match serde_json::from_str::<serde_json::Value>(s) {
        Ok(v) => Some(value_to_json(&v)),
        Err(_) => None,
    }
}

/// The value of the last member with the given key, as serde_json keeps the
/// last duplicate of a key.
pub open spec fn lookup(members: Seq<(Seq<char>, JsonView)>, key: Seq<char>) -> Option<JsonView>
    decreases members.len(),
{
    if members.len() == 0 {
        None
    } else if members.last().0 == key {
        Some(members.last().1)
    } else {
        lookup(members.drop_last(), key)
    }
}

/// Finds the value of the last member with the given key.
#[verifier::loop_isolation(false)]
pub fn lookup_member<'a>(members: &'a Vec<(String, JsonValue)>, key: &str) -> (r: Option<
    &'a JsonValue,
>)
    ensures
        match r {
            Some(v) => lookup(jview_members(members@), key@) == Some(v@),
            None => lookup(jview_members(members@), key@) is None,
        },
{
    let ghost ms = jview_members(members@);
    proof {
        lemma_jview_members(members@);
        assert(ms.take(members@.len() as int) =~= ms);
    }
    let mut i: usize = members.len();
    while i > 0
        invariant
            i <= members@.len(),
            lookup(ms, key@) == lookup(ms.take(i as int), key@),
        decreases i,
    {
        let j = i - 1;
        proof {
            let t = ms.take(j as int + 1);
            assert(t.drop_last() =~= ms.take(j as int));
            assert(t.last() == ms[j as int]);
        }
        if str_eqs(members[j].0.as_str(), key) {
            return Some(&members[j].1);
        }
        i = j;
    }
    proof {
        assert(ms.take(0) =~= Seq::<(Seq<char>, JsonView)>::empty());
    }
    None
}

/// A key found at position `i`, with no later occurrence, is what lookup
/// returns.
pub proof fn lemma_lookup_found(ms: Seq<(Seq<char>, JsonView)>, key: Seq<char>, i: int)
    requires
        0 <= i < ms.len(),
        ms[i].0 == key,
        forall|j: int| i < j < ms.len() ==> (#[trigger] ms[j]).0 != key,
    ensures
        lookup(ms, key) == Some(ms[i].1),
    decreases ms.len(),
{
    if i == ms.len() - 1 {
    } else {
        lemma_lookup_found(ms.drop_last(), key, i);
        assert(ms.drop_last()[i] == ms[i]);
    }
}

/// A key that occurs nowhere is not found.
pub proof fn lemma_lookup_absent(ms: Seq<(Seq<char>, JsonView)>, key: Seq<char>)
    requires
        forall|j: int| 0 <= j < ms.len() ==> (#[trigger] ms[j]).0 != key,
    ensures
        lookup(ms, key) is None,
    decreases ms.len(),
{
    if ms.len() > 0 {
        lemma_lookup_absent(ms.drop_last(), key);
    }
}

} // verus!

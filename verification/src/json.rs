//! JSON document model.
//!
//! Transcript records and feature lists arrive as JSON text. The text is
//! parsed by serde_json behind a trusted boundary and immediately converted
//! into the crate's own [`JsonValue`], whose mathematical shape [`JsonView`]
//! everything downstream is specified against. Serialization back to text
//! (used for event payloads) is the crate's own verified code.

use vstd::prelude::*;

use crate::text::digit_char;

verus! {

broadcast use vstd::std_specs::vec::group_vec_axioms, vstd::seq::group_seq_axioms;

/// Mathematical shape of a JSON document.
///
/// A number keeps the integer it denotes when it denotes one representable
/// as `i64`, together with its source rendering; object members are kept in
/// order, keys first.
pub enum JsonView {
    Null,
    Bool(bool),
    Num { int_val: Option<i64>, text: Seq<char> },
    Str(Seq<char>),
    Arr(Seq<JsonView>),
    Obj(Seq<(Seq<char>, JsonView)>),
}

/// One key/value pair of a JSON object.
#[derive(Debug)]
pub struct JsonMember {
    pub key: String,
    pub value: JsonValue,
}

/// A parsed JSON document.
#[derive(Debug)]
pub enum JsonValue {
    Null,
    Bool(bool),
    Num { int_val: Option<i64>, text: String },
    Str(String),
    Arr(Vec<JsonValue>),
    Obj(Vec<JsonMember>),
}

/// The document a [`JsonValue`] stands for.
pub open spec fn view_of(v: JsonValue) -> JsonView
    decreases v,
{
    match v {
        JsonValue::Null => JsonView::Null,
        JsonValue::Bool(b) => JsonView::Bool(b),
        JsonValue::Num { int_val, text } => JsonView::Num { int_val, text: text@ },
        JsonValue::Str(s) => JsonView::Str(s@),
        JsonValue::Arr(items) => JsonView::Arr(arr_view(items@)),
        JsonValue::Obj(members) => JsonView::Obj(obj_view(members@)),
    }
}

/// The views of a sequence of values.
pub open spec fn arr_view(items: Seq<JsonValue>) -> Seq<JsonView>
    decreases items,
{
    if items.len() == 0 {
        Seq::empty()
    } else {
        arr_view(items.drop_last()).push(view_of(items.last()))
    }
}

/// The views of a sequence of members.
pub open spec fn obj_view(members: Seq<JsonMember>) -> Seq<(Seq<char>, JsonView)>
    decreases members,
{
    if members.len() == 0 {
        Seq::empty()
    } else {
        obj_view(members.drop_last()).push(
            (members.last().key@, view_of(members.last().value)),
        )
    }
}

impl View for JsonValue {
    type V = JsonView;

    open spec fn view(&self) -> JsonView {
        view_of(*self)
    }
}

/// `arr_view` element by element.
pub broadcast proof fn lemma_arr_view(items: Seq<JsonValue>)
    ensures
        #[trigger] arr_view(items).len() == items.len(),
        forall|i: int| 0 <= i < items.len() ==> #[trigger] arr_view(items)[i] == items[i]@,
    decreases items.len(),
{
    if items.len() > 0 {
        lemma_arr_view(items.drop_last());
    }
}

/// `obj_view` element by element.
pub broadcast proof fn lemma_obj_view(members: Seq<JsonMember>)
    ensures
        #[trigger] obj_view(members).len() == members.len(),
        forall|i: int|
            0 <= i < members.len() ==> #[trigger] obj_view(members)[i] == (
            members[i].key@,
            members[i].value@,
            ),
    decreases members.len(),
{
    if members.len() > 0 {
        lemma_obj_view(members.drop_last());
    }
}

/// First member of `members` whose key is `key`, if any.
pub open spec fn member_lookup(members: Seq<(Seq<char>, JsonView)>, key: Seq<char>) -> Option<
    JsonView,
>
    decreases members.len(),
{
    if members.len() == 0 {
        None
    } else if members[0].0 == key {
        Some(members[0].1)
    } else {
        member_lookup(members.drop_first(), key)
    }
}

/// Object field access: `None` on non-objects and missing keys.
pub open spec fn get_of(v: JsonView, key: Seq<char>) -> Option<JsonView> {
    match v {
        JsonView::Obj(members) => member_lookup(members, key),
        _ => None,
    }
}

/// The character content of a string value.
pub open spec fn str_of(v: JsonView) -> Option<Seq<char>> {
    match v {
        JsonView::Str(s) => Some(s),
        _ => None,
    }
}

/// The value of a boolean.
pub open spec fn bool_of(v: JsonView) -> Option<bool> {
    match v {
        JsonView::Bool(b) => Some(b),
        _ => None,
    }
}

/// The integer denoted by a number, when `i64`-representable.
pub open spec fn int_of(v: JsonView) -> Option<i64> {
    match v {
        JsonView::Num { int_val, text } => int_val,
        _ => None,
    }
}

/// The elements of an array value.
pub open spec fn arr_of(v: JsonView) -> Option<Seq<JsonView>> {
    match v {
        JsonView::Arr(items) => Some(items),
        _ => None,
    }
}

/// Field access followed by string extraction.
pub open spec fn field_str(v: JsonView, key: Seq<char>) -> Option<Seq<char>> {
    match get_of(v, key) {
        Some(f) => str_of(f),
        None => None,
    }
}

/// Field access followed by boolean extraction, with a default.
pub open spec fn field_bool_or(v: JsonView, key: Seq<char>, dflt: bool) -> bool {
    match get_of(v, key) {
        Some(f) => match bool_of(f) {
            Some(b) => b,
            None => dflt,
        },
        None => dflt,
    }
}

proof fn lemma_member_lookup_skip(
    members: Seq<(Seq<char>, JsonView)>,
    key: Seq<char>,
    i: int,
)
    requires
        0 <= i <= members.len(),
        forall|j: int| 0 <= j < i ==> members[j].0 != key,
    ensures
        member_lookup(members, key) == member_lookup(members.skip(i), key),
    decreases i,
{
    if i > 0 {
        lemma_member_lookup_skip(members.drop_first(), key, i - 1);
        assert(members.drop_first().skip(i - 1) =~= members.skip(i));
    } else {
        assert(members.skip(0) =~= members);
    }
}

impl JsonValue {
    /// Look a key up in an object; `None` on any other shape of value.
    #[verifier::loop_isolation(false)]
    pub fn get<'a>(&'a self, key: &str) -> (r: Option<&'a JsonValue>)
        ensures
            match r {
                Some(f) => get_of(self@, key@) == Some(f@),
                None => get_of(self@, key@) is None,
            },
    {
        match self {
            JsonValue::Obj(members) => {
                let ghost ms = obj_view(members@);
                proof {
                    lemma_obj_view(members@);
                }
                let mut i: usize = 0;
                while i < members.len()
                    invariant
                        self@ == JsonView::Obj(ms),
                        ms == obj_view(members@),
                        i <= members@.len(),
                        forall|j: int| 0 <= j < i ==> ms[j].0 != key@,
                    decreases members@.len() - i,
                {
                    if crate::text::str_eq(members[i].key.as_str(), key) {
                        proof {
                            lemma_member_lookup_skip(ms, key@, i as int);
                            assert(ms.skip(i as int)[0] == ms[i as int]);
                            assert(ms.skip(i as int).len() > 0);
                        }
                        return Some(&members[i].value);
                    }
                    i += 1;
                }
                proof {
                    lemma_member_lookup_skip(ms, key@, ms.len() as int);
                    assert(ms.skip(ms.len() as int).len() == 0);
                }
                None
            },
            _ => None,
        }
    }

    /// The string content, when this is a string.
    pub fn as_str<'a>(&'a self) -> (r: Option<&'a str>)
        ensures
            match r {
                Some(s) => str_of(self@) == Some(s@),
                None => str_of(self@) is None,
            },
    {
        match self {
            JsonValue::Str(s) => Some(s.as_str()),
            _ => None,
        }
    }

    /// The boolean, when this is a boolean.
    pub fn as_bool(&self) -> (r: Option<bool>)
        ensures
            r == bool_of(self@),
    {
        match self {
            JsonValue::Bool(b) => Some(*b),
            _ => None,
        }
    }

    /// The integer value, when this is a number representable as `i64`.
    pub fn as_i64(&self) -> (r: Option<i64>)
        ensures
            r == int_of(self@),
    {
        match self {
            JsonValue::Num { int_val, text } => *int_val,
            _ => None,
        }
    }

    /// The elements, when this is an array.
    pub fn as_arr<'a>(&'a self) -> (r: Option<&'a Vec<JsonValue>>)
        ensures
            match r {
                Some(items) => arr_of(self@) == Some(arr_view(items@)),
                None => arr_of(self@) is None,
            },
    {
        match self {
            JsonValue::Arr(items) => Some(items),
            _ => None,
        }
    }
}

/// One hexadecimal digit, lower case.
pub open spec fn hex_digit(d: nat) -> char {
    if d < 10 {
        digit_char(d)
    } else if d == 10 {
        'a'
    } else if d == 11 {
        'b'
    } else if d == 12 {
        'c'
    } else if d == 13 {
        'd'
    } else if d == 14 {
        'e'
    } else {
        'f'
    }
}

/// The escape of one character inside a JSON string literal.
pub open spec fn esc_char(c: char) -> Seq<char> {
    if c == '"' {
        seq!['\\', '"']
    } else if c == '\\' {
        seq!['\\', '\\']
    } else if c == '\u{8}' {
        seq!['\\', 'b']
    } else if c == '\t' {
        seq!['\\', 't']
    } else if c == '\n' {
        seq!['\\', 'n']
    } else if c == '\u{c}' {
        seq!['\\', 'f']
    } else if c == '\r' {
        seq!['\\', 'r']
    } else if (c as u32) < 0x20 {
        seq!['\\', 'u', '0', '0', hex_digit(((c as u32) / 16) as nat), hex_digit(
            ((c as u32) % 16) as nat,
        )]
    } else {
        seq![c]
    }
}

/// A string's characters, each escaped.
pub open spec fn escaped(s: Seq<char>) -> Seq<char>
    decreases s.len(),
{
    if s.len() == 0 {
        Seq::empty()
    } else {
        escaped(s.drop_last()) + esc_char(s.last())
    }
}

/// A JSON string literal: quotes around the escaped content.
pub open spec fn quoted(s: Seq<char>) -> Seq<char> {
    seq!['"'] + escaped(s) + seq!['"']
}

/// Compact serialization of a JSON value, as the members stand.
pub open spec fn ser(v: JsonView) -> Seq<char>
    decreases v,
{
    match v {
        JsonView::Null => seq!['n', 'u', 'l', 'l'],
        JsonView::Bool(b) => if b {
            seq!['t', 'r', 'u', 'e']
        } else {
            seq!['f', 'a', 'l', 's', 'e']
        },
        JsonView::Num { int_val, text } => text,
        JsonView::Str(s) => quoted(s),
        JsonView::Arr(items) => seq!['['] + ser_items(items) + seq![']'],
        JsonView::Obj(members) => seq!['{'] + ser_members(members) + seq!['}'],
    }
}

/// Array elements serialized and joined with commas.
pub open spec fn ser_items(items: Seq<JsonView>) -> Seq<char>
    decreases items,
{
    if items.len() == 0 {
        Seq::empty()
    } else if items.len() == 1 {
        ser(items[0])
    } else {
        ser_items(items.drop_last()) + seq![','] + ser(items.last())
    }
}

/// Object members serialized as `"key":value`, joined with commas.
pub open spec fn ser_members(members: Seq<(Seq<char>, JsonView)>) -> Seq<char>
    decreases members,
{
    if members.len() == 0 {
        Seq::empty()
    } else if members.len() == 1 {
        quoted(members[0].0) + seq![':'] + ser(members[0].1)
    } else {
        ser_members(members.drop_last()) + seq![','] + quoted(members.last().0) + seq![':']
            + ser(members.last().1)
    }
}

fn hex_str(d: u32) -> (r: &'static str)
    requires
        d < 16,
    ensures
        r@ =~= seq![hex_digit(d as nat)],
{
    proof {
        reveal_strlit("a");
        reveal_strlit("b");
        reveal_strlit("c");
        reveal_strlit("d");
        reveal_strlit("e");
        reveal_strlit("f");
    }
    if d < 10 {
        crate::text::digit_str(d as u64)
    } else if d == 10 {
        "a"
    } else if d == 11 {
        "b"
    } else if d == 12 {
        "c"
    } else if d == 13 {
        "d"
    } else if d == 14 {
        "e"
    } else {
        "f"
    }
}

/// Append the escaped form of `s` to `out`.
fn escape_append(out: &mut String, s: &str)
    ensures
        final(out)@ == old(out)@ + escaped(s@),
{
    let n: usize = s.unicode_len();
    let mut i: usize = 0;
    proof {
        assert(old(out)@ + escaped(s@.take(0)) =~= old(out)@);
    }
    while i < n
        invariant
            n == s@.len(),
            i <= n,
            out@ == old(out)@ + escaped(s@.take(i as int)),
        decreases n - i,
    {
        let c: char = s.get_char(i);
        let code: u32 = c as u32;
        if c == '"' {
            proof {
                reveal_strlit("\\\"");
            }
            out.append("\\\"");
        } else if c == '\\' {
            proof {
                reveal_strlit("\\\\");
            }
            out.append("\\\\");
        } else if c == '\u{8}' {
            proof {
                reveal_strlit("\\b");
            }
            out.append("\\b");
        } else if c == '\t' {
            proof {
                reveal_strlit("\\t");
            }
            out.append("\\t");
        } else if c == '\n' {
            proof {
                reveal_strlit("\\n");
            }
            out.append("\\n");
        } else if c == '\u{c}' {
            proof {
                reveal_strlit("\\f");
            }
            out.append("\\f");
        } else if c == '\r' {
            proof {
                reveal_strlit("\\r");
            }
            out.append("\\r");
        } else if code < 0x20 {
            proof {
                reveal_strlit("\\u00");
            }
            out.append("\\u00");
            out.append(hex_str(code / 16));
            out.append(hex_str(code % 16));
        } else {
            let piece: &str = s.substring_char(i, i + 1);
            out.append(piece);
            proof {
                assert(piece@ =~= seq![s@[i as int]]);
            }
        }
        proof {
            assert(s@.take(i + 1).drop_last() =~= s@.take(i as int));
            assert(s@.take(i + 1).last() == s@[i as int]);
            assert(out@ =~= old(out)@ + escaped(s@.take(i + 1)));
        }
        i += 1;
    }
    proof {
        assert(s@.take(n as int) =~= s@);
    }
}

/// Append `"s"` (quoted, escaped) to `out`.
fn quote_append(out: &mut String, s: &str)
    ensures
        final(out)@ == old(out)@ + quoted(s@),
{
    proof {
        reveal_strlit("\"");
    }
    out.append("\"");
    escape_append(out, s);
    out.append("\"");
    proof {
        assert(out@ =~= old(out)@ + quoted(s@));
    }
}

impl JsonValue {
    /// Compact JSON text of this value.
    #[verifier::loop_isolation(false)]
    pub fn to_json_string(&self) -> (r: String)
        ensures
            r@ == ser(self@),
        decreases self,
    {
        match self {
            JsonValue::Null => {
                proof {
                    reveal_strlit("null");
                }
                let r: String = String::from_str("null");
                proof {
                    assert(r@ =~= ser(self@));
                }
                r
            },
            JsonValue::Bool(b) => {
                proof {
                    reveal_strlit("true");
                    reveal_strlit("false");
                }
                let r: String = if *b {
                    String::from_str("true")
                } else {
                    String::from_str("false")
                };
                proof {
                    assert(r@ =~= ser(self@));
                }
                r
            },
            JsonValue::Num { int_val, text } => text.clone(),
            JsonValue::Str(s) => {
                let mut out: String = String::new();
                quote_append(&mut out, s.as_str());
                proof {
                    assert(out@ =~= ser(self@));
                }
                out
            },
            JsonValue::Arr(items) => {
                proof {
                    reveal_strlit("[");
                    reveal_strlit("]");
                    reveal_strlit(",");
                }
                let ghost vs = arr_view(items@);
                proof {
                    lemma_arr_view(items@);
                }
                let mut out: String = String::new();
                out.append("[");
                let mut i: usize = 0;
                proof {
                    assert(out@ =~= seq!['['] + ser_items(vs.take(0)));
                }
                while i < items.len()
                    invariant
                        out@ == seq!['['] + ser_items(vs.take(i as int)),
                        i <= items@.len(),
                    decreases items@.len() - i,
                {
                    if i > 0 {
                        out.append(",");
                    }
                    proof {
                        assert(decreases_to!(*self => items@[i as int]));
                    }
                    let piece: String = items[i].to_json_string();
                    out.append(piece.as_str());
                    proof {
                        assert(vs.take(i + 1).drop_last() =~= vs.take(i as int));
                        assert(vs.take(i + 1).last() == vs[i as int]);
                        assert(out@ =~= seq!['['] + ser_items(vs.take(i + 1)));
                    }
                    i += 1;
                }
                out.append("]");
                proof {
                    assert(vs.take(items@.len() as int) =~= vs);
                    assert(out@ =~= ser(self@));
                }
                out
            },
            JsonValue::Obj(members) => {
                proof {
                    reveal_strlit("{");
                    reveal_strlit("}");
                    reveal_strlit(",");
                    reveal_strlit(":");
                }
                let ghost ms = obj_view(members@);
                proof {
                    lemma_obj_view(members@);
                }
                let mut out: String = String::new();
                out.append("{");
                let mut i: usize = 0;
                proof {
                    assert(out@ =~= seq!['{'] + ser_members(ms.take(0)));
                }
                while i < members.len()
                    invariant
                        out@ == seq!['{'] + ser_members(ms.take(i as int)),
                        i <= members@.len(),
                    decreases members@.len() - i,
                {
                    if i > 0 {
                        out.append(",");
                    }
                    quote_append(&mut out, members[i].key.as_str());
                    out.append(":");
                    proof {
                        assert(decreases_to!(*self => members@[i as int]));
                        assert(decreases_to!(members@[i as int] => members@[i as int].value));
                    }
                    let piece: String = members[i].value.to_json_string();
                    out.append(piece.as_str());
                    proof {
                        assert(ms.take(i + 1).drop_last() =~= ms.take(i as int));
                        assert(ms.take(i + 1).last() == ms[i as int]);
                        assert(out@ =~= seq!['{'] + ser_members(ms.take(i + 1)));
                    }
                    i += 1;
                }
                out.append("}");
                proof {
                    assert(ms.take(members@.len() as int) =~= ms);
                    assert(out@ =~= ser(self@));
                }
                out
            },
        }
    }
}

/// What parsing a text as one JSON document yields: `None` exactly on
/// malformed input.
pub uninterp spec fn parsed_json(s: Seq<char>) -> Option<JsonView>;

/// The document carried by a `serde_json` value.
pub uninterp spec fn value_model(v: serde_json::Value) -> JsonView;

#[verifier::external_type_specification]
#[verifier::external_body]
pub struct ExSerdeValue(serde_json::Value);

/// Relies on `serde_json::from_str::<serde_json::Value>`: a text parses to a
/// document exactly when it is well-formed JSON, and the result is a function
/// of the text alone.
#[verifier::external_body]
fn parse_outside(s: &str) -> (r: Option<serde_json::Value>)
    ensures
        match r {
            Some(v) => parsed_json(s@) == Some(value_model(v)),
            None => parsed_json(s@) is None,
        },
{
    serde_json::from_str::<serde_json::Value>(s).ok()
}

/// Relies on the public shape of `serde_json::Value`: each variant carried
/// over one-for-one; object members in map iteration order (sorted by key);
/// a number keeps its `as_i64` value and its display text.
#[verifier::external_body]
fn value_to_model(v: &serde_json::Value) -> (r: JsonValue)
    ensures
        r@ == value_model(*v),
{
    match v {
        serde_json::Value::Null => JsonValue::Null,
        serde_json::Value::Bool(b) => JsonValue::Bool(*b),
        serde_json::Value::Number(n) => JsonValue::Num { int_val: n.as_i64(), text: n.to_string() },
        serde_json::Value::String(s) => JsonValue::Str(s.clone()),
        serde_json::Value::Array(a) => JsonValue::Arr(a.iter().map(value_to_model).collect()),
        serde_json::Value::Object(m) => JsonValue::Obj(
            m.iter().map(
                |(k, x)| JsonMember { key: k.clone(), value: value_to_model(x) },
            ).collect(),
        ),
    }
}

/// Parse one JSON document; `None` exactly on malformed input.
pub fn parse_json(s: &str) -> (r: Option<JsonValue>)
    ensures
        match r {
            Some(v) => parsed_json(s@) == Some(v@),
            None => parsed_json(s@) is None,
        },
{
    match parse_outside(s) {
        Some(v) => Some(value_to_model(&v)),
        None => None,
    }
}

} // verus!

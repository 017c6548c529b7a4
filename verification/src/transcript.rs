//! Transcript record classification.
//!
//! A transcript is an append-only JSON-lines file, one record per agent
//! turn. Given the file's content, the parser takes the last non-blank
//! line, parses it as one record, and classifies it into a tool name and a
//! compact JSON payload with capped previews. A record it cannot read or
//! does not recognize yields nothing; the parser never fails.

use vstd::prelude::*;

use crate::json::{arr_of, arr_view, field_bool_or, field_str, get_of, int_of, obj_view,
    ser, str_of, JsonMember, JsonValue, JsonView};
use crate::json::{lemma_arr_view, lemma_obj_view, parse_json, parsed_json};
use crate::text::{blank_seq, clipped, last_nonblank_at, line_at, strip_cr, truncate_chars};
use crate::model::opt_str;

verus! {

/// Character cap of user, response and thinking previews.
pub const USER_TEXT_CAP: usize = 500;

/// Character cap of tool-result and generic tool-input previews.
pub const TOOL_RESULT_CAP: usize = 300;

/// Character cap of edit and write string previews.
pub const EDIT_STRING_CAP: usize = 200;

/// What one transcript record classifies into.
pub struct EntryClass {
    pub tool: Option<Seq<char>>,
    pub payload: Option<Seq<char>>,
}

/// The empty classification: no event.
pub open spec fn no_entry() -> EntryClass {
    EntryClass { tool: None, payload: None }
}

/// Two object fields deep.
pub open spec fn field2(v: JsonView, k1: Seq<char>, k2: Seq<char>) -> Option<JsonView> {
    match get_of(v, k1) {
        Some(m) => get_of(m, k2),
        None => None,
    }
}

/// The record's `message.content` array, if it has one.
pub open spec fn content_items(entry: JsonView) -> Option<Seq<JsonView>> {
    match field2(entry, "message"@, "content"@) {
        Some(c) => arr_of(c),
        None => None,
    }
}

/// The item's `type` field is the string `t`.
pub open spec fn type_is(it: JsonView, t: Seq<char>) -> bool {
    field_str(it, "type"@) == Some(t)
}

/// The string, or a default.
pub open spec fn str_or(o: Option<Seq<char>>, d: Seq<char>) -> Seq<char> {
    match o {
        Some(s) => s,
        None => d,
    }
}

/// The item's `text` field, or empty.
pub open spec fn text_of(it: JsonView) -> Seq<char> {
    str_or(field_str(it, "text"@), Seq::empty())
}

/// A JSON string value.
pub open spec fn sv(s: Seq<char>) -> JsonView {
    JsonView::Str(s)
}

/// The `text` fields of the items that have one, in order.
pub open spec fn text_members(items: Seq<JsonView>) -> Seq<Seq<char>>
    decreases items.len(),
{
    if items.len() == 0 {
        Seq::empty()
    } else {
        text_members(items.drop_last()) + match field_str(items.last(), "text"@) {
            Some(t) => seq![t],
            None => Seq::<Seq<char>>::empty(),
        }
    }
}

/// Parts joined with newlines.
pub open spec fn join_nl(parts: Seq<Seq<char>>) -> Seq<char>
    decreases parts.len(),
{
    if parts.len() == 0 {
        Seq::empty()
    } else if parts.len() == 1 {
        parts[0]
    } else {
        join_nl(parts.drop_last()) + seq!['\n'] + parts.last()
    }
}

/// The capped preview of a tool-result content value: the string itself, or
/// the text blocks of an array joined with newlines, or empty.
pub open spec fn content_preview(v: Option<JsonView>, cap: nat) -> Seq<char> {
    match v {
        Some(c) => match str_of(c) {
            Some(s) => clipped(s, cap),
            None => match arr_of(c) {
                Some(items) => clipped(join_nl(text_members(items)), cap),
                None => Seq::empty(),
            },
        },
        None => Seq::empty(),
    }
}

/// The payload of a classified user text message.
pub open spec fn user_text_payload(text: Seq<char>) -> Seq<char> {
    ser(
        JsonView::Obj(
            seq![
                ("messageType"@, sv("user"@)),
                ("preview"@, sv(clipped(text, USER_TEXT_CAP as nat))),
            ],
        ),
    )
}

/// The payload of a tool result.
pub open spec fn tool_result_payload(
    tool_use_id: Seq<char>,
    is_error: bool,
    preview: Seq<char>,
) -> Seq<char> {
    ser(
        JsonView::Obj(
            seq![
                ("isError"@, JsonView::Bool(is_error)),
                ("messageType"@, sv("tool_result"@)),
                ("preview"@, sv(preview)),
                ("toolUseId"@, sv(tool_use_id)),
            ],
        ),
    )
}

/// The payload of an uploaded image.
pub open spec fn image_payload() -> Seq<char> {
    ser(
        JsonView::Obj(
            seq![("messageType"@, sv("image"@)), ("preview"@, sv("Image uploaded"@))],
        ),
    )
}

/// The payload of an assistant text or thinking block.
pub open spec fn message_preview_payload(kind: Seq<char>, text: Seq<char>) -> Seq<char> {
    ser(
        JsonView::Obj(
            seq![
                ("messageType"@, sv(kind)),
                ("preview"@, sv(clipped(text, USER_TEXT_CAP as nat))),
            ],
        ),
    )
}

/// A one-member object piece for a string that may be absent.
pub open spec fn opt_member_str(k: Seq<char>, o: Option<Seq<char>>) -> Seq<(Seq<char>, JsonView)> {
    match o {
        Some(s) => seq![(k, sv(s))],
        None => Seq::empty(),
    }
}

/// A one-member object piece for an integer that may be absent.
pub open spec fn opt_member_i64(k: Seq<char>, o: Option<i64>) -> Seq<(Seq<char>, JsonView)> {
    match o {
        Some(n) => seq![
            (k, JsonView::Num { int_val: Some(n), text: crate::text::dec_str_int(n as int) }),
        ],
        None => Seq::empty(),
    }
}

/// A string field clipped, kept absent when absent.
pub open spec fn clip_opt(o: Option<Seq<char>>, cap: nat) -> Option<Seq<char>> {
    match o {
        Some(s) => Some(clipped(s, cap)),
        None => None,
    }
}

/// The item's integer field, when it is an `i64`-representable number.
pub open spec fn field_int(v: JsonView, key: Seq<char>) -> Option<i64> {
    match get_of(v, key) {
        Some(f) => int_of(f),
        None => None,
    }
}

/// The object members of a tool-use payload, keys in sorted order, as a
/// tool-specific extraction over the tool's input.
pub open spec fn tool_use_members(tool: Seq<char>, input: JsonView) -> Seq<(Seq<char>, JsonView)> {
    let mt = ("messageType"@, sv("tool_use"@));
    let tl = ("tool"@, sv(tool));
    if tool == "Bash"@ {
        opt_member_str("command"@, clip_opt(field_str(input, "command"@), USER_TEXT_CAP as nat))
            + opt_member_str("description"@, field_str(input, "description"@)) + seq![mt, tl]
    } else if tool == "Edit"@ {
        opt_member_str("filePath"@, field_str(input, "file_path"@)) + seq![mt]
            + opt_member_str(
            "newString"@,
            clip_opt(field_str(input, "new_string"@), EDIT_STRING_CAP as nat),
        ) + opt_member_str(
            "oldString"@,
            clip_opt(field_str(input, "old_string"@), EDIT_STRING_CAP as nat),
        ) + seq![tl]
    } else if tool == "Write"@ {
        opt_member_str(
            "contentPreview"@,
            clip_opt(field_str(input, "content"@), EDIT_STRING_CAP as nat),
        ) + opt_member_str("filePath"@, field_str(input, "file_path"@)) + seq![mt, tl]
    } else if tool == "Read"@ {
        opt_member_str("filePath"@, field_str(input, "file_path"@)) + opt_member_i64(
            "limit"@,
            field_int(input, "limit"@),
        ) + seq![mt] + opt_member_i64("offset"@, field_int(input, "offset"@)) + seq![tl]
    } else if tool == "Grep"@ || tool == "Glob"@ {
        seq![mt] + opt_member_str("path"@, field_str(input, "path"@)) + opt_member_str(
            "pattern"@,
            field_str(input, "pattern"@),
        ) + seq![tl]
    } else if tool == "Task"@ {
        seq![mt] + opt_member_str("subagentType"@, field_str(input, "subagent_type"@))
            + opt_member_str("taskDescription"@, field_str(input, "description"@)) + seq![tl]
    } else {
        let istr = ser(input);
        (if istr.len() > 2 {
            seq![("inputPreview"@, sv(clipped(istr, TOOL_RESULT_CAP as nat)))]
        } else {
            Seq::<(Seq<char>, JsonView)>::empty()
        }) + seq![mt, tl]
    }
}

/// Classification of one tool-use item.
pub open spec fn tool_use_class(it: JsonView) -> EntryClass {
    let tool = str_or(field_str(it, "name"@), "unknown"@);
    let input = match get_of(it, "input"@) {
        Some(x) => x,
        None => JsonView::Null,
    };
    EntryClass {
        tool: Some(tool),
        payload: Some(ser(JsonView::Obj(tool_use_members(tool, input)))),
    }
}

/// Per-item classification inside a user record.
pub open spec fn user_item(it: JsonView) -> Option<EntryClass> {
    if type_is(it, "text"@) && clipped(text_of(it), USER_TEXT_CAP as nat).len() > 0 {
        Some(
            EntryClass {
                tool: Some("UserMessage"@),
                payload: Some(user_text_payload(text_of(it))),
            },
        )
    } else if type_is(it, "tool_result"@) {
        Some(
            EntryClass {
                tool: Some("ToolResult"@),
                payload: Some(
                    tool_result_payload(
                        str_or(field_str(it, "tool_use_id"@), "unknown"@),
                        field_bool_or(it, "is_error"@, false),
                        content_preview(get_of(it, "content"@), TOOL_RESULT_CAP as nat),
                    ),
                ),
            },
        )
    } else if type_is(it, "image"@) {
        Some(EntryClass { tool: Some("Image"@), payload: Some(image_payload()) })
    } else {
        None
    }
}

/// Per-item classification inside an assistant record.
pub open spec fn assistant_item(it: JsonView) -> Option<EntryClass> {
    if type_is(it, "tool_use"@) {
        Some(tool_use_class(it))
    } else if type_is(it, "text"@) {
        Some(
            EntryClass {
                tool: Some("Response"@),
                payload: Some(message_preview_payload("assistant"@, text_of(it))),
            },
        )
    } else if type_is(it, "thinking"@) {
        Some(
            EntryClass {
                tool: Some("Thinking"@),
                payload: Some(
                    message_preview_payload(
                        "thinking"@,
                        str_or(field_str(it, "thinking"@), Seq::empty()),
                    ),
                ),
            },
        )
    } else {
        None
    }
}

/// First user item that classifies, front to back.
pub open spec fn user_scan(items: Seq<JsonView>) -> Option<EntryClass>
    decreases items.len(),
{
    if items.len() == 0 {
        None
    } else {
        match user_item(items[0]) {
            Some(c) => Some(c),
            None => user_scan(items.drop_first()),
        }
    }
}

/// First assistant item that classifies, front to back.
pub open spec fn assistant_scan(items: Seq<JsonView>) -> Option<EntryClass>
    decreases items.len(),
{
    if items.len() == 0 {
        None
    } else {
        match assistant_item(items[0]) {
            Some(c) => Some(c),
            None => assistant_scan(items.drop_first()),
        }
    }
}

/// Scanning is insensitive to a prefix of items that do not classify.
pub proof fn lemma_user_scan_skip(items: Seq<JsonView>, i: int)
    requires
        0 <= i <= items.len(),
        forall|j: int| 0 <= j < i ==> user_item(#[trigger] items[j]) is None,
    ensures
        user_scan(items) == user_scan(items.skip(i)),
    decreases i,
{
    if i > 0 {
        lemma_user_scan_skip(items.drop_first(), i - 1);
        assert(items.drop_first().skip(i - 1) =~= items.skip(i));
    } else {
        assert(items.skip(0) =~= items);
    }
}

/// Scanning is insensitive to a prefix of items that do not classify.
pub proof fn lemma_assistant_scan_skip(items: Seq<JsonView>, i: int)
    requires
        0 <= i <= items.len(),
        forall|j: int| 0 <= j < i ==> assistant_item(#[trigger] items[j]) is None,
    ensures
        assistant_scan(items) == assistant_scan(items.skip(i)),
    decreases i,
{
    if i > 0 {
        lemma_assistant_scan_skip(items.drop_first(), i - 1);
        assert(items.drop_first().skip(i - 1) =~= items.skip(i));
    } else {
        assert(items.skip(0) =~= items);
    }
}

/// Classification of a user record with no classified item.
pub open spec fn user_fallthrough() -> EntryClass {
    EntryClass {
        tool: Some("UserMessage"@),
        payload: Some(user_text_payload(Seq::empty())),
    }
}

/// Classification of an assistant record with no classified item.
pub open spec fn assistant_fallthrough() -> EntryClass {
    EntryClass { tool: Some("Assistant"@), payload: None }
}

/// The preview of a standalone result record: its `content` as string or
/// text-block array, else its `output` string, else empty.
pub open spec fn result_preview(entry: JsonView) -> Seq<char> {
    let c = get_of(entry, "content"@);
    if (c matches Some(x) && str_of(x) is Some) || (c matches Some(x) && arr_of(x) is Some) {
        content_preview(c, TOOL_RESULT_CAP as nat)
    } else {
        match field_str(entry, "output"@) {
            Some(o) => clipped(o, TOOL_RESULT_CAP as nat),
            None => Seq::empty(),
        }
    }
}

/// Classification of a standalone result record.
pub open spec fn result_class(entry: JsonView) -> EntryClass {
    EntryClass {
        tool: Some("ToolResult"@),
        payload: Some(
            tool_result_payload(
                str_or(field_str(entry, "tool_use_id"@), "unknown"@),
                field_bool_or(entry, "is_error"@, false),
                result_preview(entry),
            ),
        ),
    }
}

/// Classification of one record, by its `type` discriminator. Unrecognized
/// types yield nothing.
pub open spec fn classify(entry: JsonView) -> EntryClass {
    let t = field_str(entry, "type"@);
    if t == Some("user"@) {
        match content_items(entry) {
            Some(items) => match user_scan(items) {
                Some(c) => c,
                None => user_fallthrough(),
            },
            None => user_fallthrough(),
        }
    } else if t == Some("assistant"@) {
        match content_items(entry) {
            Some(items) => match assistant_scan(items) {
                Some(c) => c,
                None => assistant_fallthrough(),
            },
            None => assistant_fallthrough(),
        }
    } else if t == Some("result"@) {
        result_class(entry)
    } else {
        no_entry()
    }
}

/// String field of an object.
fn field_string<'a>(v: &'a JsonValue, key: &str) -> (r: Option<&'a str>)
    ensures
        match r {
            Some(s) => field_str(v@, key@) == Some(s@),
            None => field_str(v@, key@) is None,
        },
{
    match v.get(key) {
        Some(f) => f.as_str(),
        None => None,
    }
}

/// String field with a default.
fn field_string_or<'a>(v: &'a JsonValue, key: &str, dflt: &'a str) -> (r: &'a str)
    ensures
        r@ == str_or(field_str(v@, key@), dflt@),
{
    match field_string(v, key) {
        Some(s) => s,
        None => dflt,
    }
}

/// The item's `type` field equals `t`.
fn type_matches(v: &JsonValue, t: &str) -> (r: bool)
    ensures
        r == type_is(v@, t@),
{
    match field_string(v, "type") {
        Some(s) => crate::text::str_eq(s, t),
        None => false,
    }
}

/// Boolean field with a default.
fn field_bool_dflt(v: &JsonValue, key: &str, dflt: bool) -> (r: bool)
    ensures
        r == field_bool_or(v@, key@, dflt),
{
    match v.get(key) {
        Some(f) => match f.as_bool() {
            Some(b) => b,
            None => dflt,
        },
        None => dflt,
    }
}

/// Integer field, when the field is an `i64`-representable number.
fn field_i64_val(v: &JsonValue, key: &str) -> (r: Option<i64>)
    ensures
        r == field_int(v@, key@),
{
    match v.get(key) {
        Some(f) => f.as_i64(),
        None => None,
    }
}

fn push_str_member(ms: &mut Vec<JsonMember>, key: &str, val: &str)
    ensures
        obj_view(final(ms)@) == obj_view(old(ms)@).push((key@, sv(val@))),
{
    ms.push(JsonMember { key: key.to_owned(), value: JsonValue::Str(val.to_owned()) });
    proof {
        lemma_obj_view(old(ms)@);
        lemma_obj_view(ms@);
        assert(obj_view(ms@) =~= obj_view(old(ms)@).push((key@, sv(val@))));
    }
}

fn push_bool_member(ms: &mut Vec<JsonMember>, key: &str, val: bool)
    ensures
        obj_view(final(ms)@) == obj_view(old(ms)@).push((key@, JsonView::Bool(val))),
{
    ms.push(JsonMember { key: key.to_owned(), value: JsonValue::Bool(val) });
    proof {
        lemma_obj_view(old(ms)@);
        lemma_obj_view(ms@);
        assert(obj_view(ms@) =~= obj_view(old(ms)@).push((key@, JsonView::Bool(val))));
    }
}

fn push_i64_member(ms: &mut Vec<JsonMember>, key: &str, val: i64)
    ensures
        obj_view(final(ms)@) == obj_view(old(ms)@).push(
            (
                key@,
                JsonView::Num {
                    int_val: Some(val),
                    text: crate::text::dec_str_int(val as int),
                },
            ),
        ),
{
    let text: String = crate::text::i64_to_dec(val);
    ms.push(JsonMember { key: key.to_owned(), value: JsonValue::Num { int_val: Some(val), text } });
    proof {
        lemma_obj_view(old(ms)@);
        lemma_obj_view(ms@);
        assert(obj_view(ms@) =~= obj_view(old(ms)@).push(
            (
                key@,
                JsonView::Num {
                    int_val: Some(val),
                    text: crate::text::dec_str_int(val as int),
                },
            ),
        ));
    }
}

/// Serialize a member list as one JSON object.
fn obj_payload(ms: Vec<JsonMember>) -> (r: String)
    ensures
        r@ == ser(JsonView::Obj(obj_view(ms@))),
{
    let v = JsonValue::Obj(ms);
    v.to_json_string()
}

/// The capped preview of a content value.
#[verifier::loop_isolation(false)]
fn preview_of(c: &JsonValue, cap: usize) -> (r: String)
    ensures
        r@ == content_preview(Some(c@), cap as nat),
{
    if let Some(s) = c.as_str() {
        return truncate_chars(s, cap);
    }
    match c.as_arr() {
        Some(items) => {
            let ghost vs = arr_view(items@);
            proof {
                lemma_arr_view(items@);
            }
            let mut acc: String = String::new();
            let mut first: bool = true;
            let mut i: usize = 0;
            while i < items.len()
                invariant
                    i <= items@.len(),
                    acc@ == join_nl(text_members(vs.take(i as int))),
                    first == (text_members(vs.take(i as int)).len() == 0),
                decreases items@.len() - i,
            {
                proof {
                    assert(vs.take(i + 1).drop_last() =~= vs.take(i as int));
                    assert(vs.take(i + 1).last() == vs[i as int]);
                }
                match field_string(&items[i], "text") {
                    Some(t) => {
                        if first {
                            acc.append(t);
                            first = false;
                        } else {
                            proof {
                                reveal_strlit("\n");
                            }
                            acc.append("\n");
                            acc.append(t);
                        }
                        proof {
                            let parts = text_members(vs.take(i as int));
                            assert(text_members(vs.take(i + 1)) =~= parts.push(t@));
                            assert(parts.push(t@).drop_last() =~= parts);
                            assert(acc@ =~= join_nl(text_members(vs.take(i + 1))));
                        }
                    },
                    None => {
                        proof {
                            assert(text_members(vs.take(i + 1)) =~= text_members(
                                vs.take(i as int),
                            ));
                        }
                    },
                }
                i += 1;
            }
            proof {
                assert(vs.take(items@.len() as int) =~= vs);
            }
            truncate_chars(acc.as_str(), cap)
        },
        None => {
            proof {
                assert(content_preview(Some(c@), cap as nat) =~= Seq::<char>::empty());
            }
            String::new()
        },
    }
}

/// Classify one item of a user record.
fn classify_user_item(it: &JsonValue) -> (r: Option<(String, String)>)
    ensures
        match r {
            Some(tp) => user_item(it@) == Some(
                EntryClass { tool: Some(tp.0@), payload: Some(tp.1@) },
            ),
            None => user_item(it@) is None,
        },
{
    proof {
        reveal_strlit("");
        assert(""@ =~= Seq::<char>::empty());
        reveal_strlit("text");
        reveal_strlit("tool_result");
        reveal_strlit("image");
        assert("text"@.len() == 4);
        assert("tool_result"@.len() == 11);
        assert("image"@.len() == 5);
    }
    if type_matches(it, "text") {
        let text: &str = field_string_or(it, "text", "");
        let preview: String = truncate_chars(text, USER_TEXT_CAP);
        if !preview.as_str().is_empty() {
            let mut ms: Vec<JsonMember> = Vec::new();
            proof {
                lemma_obj_view(ms@);
            }
            push_str_member(&mut ms, "messageType", "user");
            push_str_member(&mut ms, "preview", preview.as_str());
            let payload: String = obj_payload(ms);
            proof {
                assert(obj_view(ms@) =~= seq![
                    ("messageType"@, sv("user"@)),
                    ("preview"@, sv(clipped(text@, USER_TEXT_CAP as nat))),
                ]);
            }
            return Some((String::from_str("UserMessage"), payload));
        }
        proof {
            assert(clipped(text_of(it@), USER_TEXT_CAP as nat).len() == 0);
            assert(!type_is(it@, "tool_result"@));
            assert(!type_is(it@, "image"@));
        }
        return None;
    }
    if type_matches(it, "tool_result") {
        let tid: &str = field_string_or(it, "tool_use_id", "unknown");
        let is_err: bool = field_bool_dflt(it, "is_error", false);
        let preview: String = match it.get("content") {
            Some(c) => preview_of(c, TOOL_RESULT_CAP),
            None => String::new(),
        };
        let mut ms: Vec<JsonMember> = Vec::new();
        proof {
            lemma_obj_view(ms@);
        }
        push_bool_member(&mut ms, "isError", is_err);
        push_str_member(&mut ms, "messageType", "tool_result");
        push_str_member(&mut ms, "preview", preview.as_str());
        push_str_member(&mut ms, "toolUseId", tid);
        let payload: String = obj_payload(ms);
        proof {
            assert(obj_view(ms@) =~= seq![
                ("isError"@, JsonView::Bool(is_err)),
                ("messageType"@, sv("tool_result"@)),
                ("preview"@, sv(preview@)),
                ("toolUseId"@, sv(tid@)),
            ]);
        }
        return Some((String::from_str("ToolResult"), payload));
    }
    if type_matches(it, "image") {
        let mut ms: Vec<JsonMember> = Vec::new();
        proof {
            lemma_obj_view(ms@);
        }
        push_str_member(&mut ms, "messageType", "image");
        push_str_member(&mut ms, "preview", "Image uploaded");
        let payload: String = obj_payload(ms);
        proof {
            assert(obj_view(ms@) =~= seq![
                ("messageType"@, sv("image"@)),
                ("preview"@, sv("Image uploaded"@)),
            ]);
        }
        return Some((String::from_str("Image"), payload));
    }
    None
}

/// Classify one item of an assistant record.
fn classify_assistant_item(it: &JsonValue) -> (r: Option<(String, Option<String>)>)
    ensures
        match r {
            Some(tp) => assistant_item(it@) == Some(
                EntryClass { tool: Some(tp.0@), payload: opt_str(tp.1) },
            ),
            None => assistant_item(it@) is None,
        },
{
    proof {
        reveal_strlit("");
        assert(""@ =~= Seq::<char>::empty());
        reveal_strlit("tool_use");
        reveal_strlit("text");
        reveal_strlit("thinking");
    }
    if type_matches(it, "tool_use") {
        let tool: &str = field_string_or(it, "name", "unknown");
        let fallback: JsonValue = JsonValue::Null;
        let input: &JsonValue = match it.get("input") {
            Some(x) => x,
            None => &fallback,
        };
        let ghost input_spec = (match get_of(it@, "input"@) {
            Some(x) => x,
            None => JsonView::Null,
        });
        proof {
            assert(input@ == input_spec);
        }
        let mut ms: Vec<JsonMember> = Vec::new();
        proof {
            lemma_obj_view(ms@);
        }
        if crate::text::str_eq(tool, "Bash") {
            if let Some(cmd) = field_string(input, "command") {
                let cl: String = truncate_chars(cmd, USER_TEXT_CAP);
                push_str_member(&mut ms, "command", cl.as_str());
            }
            if let Some(desc) = field_string(input, "description") {
                push_str_member(&mut ms, "description", desc);
            }
            push_str_member(&mut ms, "messageType", "tool_use");
            push_str_member(&mut ms, "tool", tool);
            proof {
                assert(obj_view(ms@) =~= tool_use_members(tool@, input_spec));
            }
        } else if crate::text::str_eq(tool, "Edit") {
            if let Some(fp) = field_string(input, "file_path") {
                push_str_member(&mut ms, "filePath", fp);
            }
            push_str_member(&mut ms, "messageType", "tool_use");
            if let Some(ns) = field_string(input, "new_string") {
                let cl: String = truncate_chars(ns, EDIT_STRING_CAP);
                push_str_member(&mut ms, "newString", cl.as_str());
            }
            if let Some(os) = field_string(input, "old_string") {
                let cl: String = truncate_chars(os, EDIT_STRING_CAP);
                push_str_member(&mut ms, "oldString", cl.as_str());
            }
            push_str_member(&mut ms, "tool", tool);
            proof {
                assert(obj_view(ms@) =~= tool_use_members(tool@, input_spec));
            }
        } else if crate::text::str_eq(tool, "Write") {
            if let Some(content) = field_string(input, "content") {
                let cl: String = truncate_chars(content, EDIT_STRING_CAP);
                push_str_member(&mut ms, "contentPreview", cl.as_str());
            }
            if let Some(fp) = field_string(input, "file_path") {
                push_str_member(&mut ms, "filePath", fp);
            }
            push_str_member(&mut ms, "messageType", "tool_use");
            push_str_member(&mut ms, "tool", tool);
            proof {
                assert(obj_view(ms@) =~= tool_use_members(tool@, input_spec));
            }
        } else if crate::text::str_eq(tool, "Read") {
            if let Some(fp) = field_string(input, "file_path") {
                push_str_member(&mut ms, "filePath", fp);
            }
            if let Some(limit) = field_i64_val(input, "limit") {
                push_i64_member(&mut ms, "limit", limit);
            }
            push_str_member(&mut ms, "messageType", "tool_use");
            if let Some(offset) = field_i64_val(input, "offset") {
                push_i64_member(&mut ms, "offset", offset);
            }
            push_str_member(&mut ms, "tool", tool);
            proof {
                assert(obj_view(ms@) =~= tool_use_members(tool@, input_spec));
            }
        } else if crate::text::str_eq(tool, "Grep") || crate::text::str_eq(tool, "Glob") {
            push_str_member(&mut ms, "messageType", "tool_use");
            if let Some(path) = field_string(input, "path") {
                push_str_member(&mut ms, "path", path);
            }
            if let Some(pattern) = field_string(input, "pattern") {
                push_str_member(&mut ms, "pattern", pattern);
            }
            push_str_member(&mut ms, "tool", tool);
            proof {
                assert(obj_view(ms@) =~= tool_use_members(tool@, input_spec));
            }
        } else if crate::text::str_eq(tool, "Task") {
            push_str_member(&mut ms, "messageType", "tool_use");
            if let Some(agent) = field_string(input, "subagent_type") {
                push_str_member(&mut ms, "subagentType", agent);
            }
            if let Some(desc) = field_string(input, "description") {
                push_str_member(&mut ms, "taskDescription", desc);
            }
            push_str_member(&mut ms, "tool", tool);
            proof {
                assert(obj_view(ms@) =~= tool_use_members(tool@, input_spec));
            }
        } else {
            let istr: String = input.to_json_string();
            if istr.as_str().unicode_len() > 2 {
                let cl: String = truncate_chars(istr.as_str(), TOOL_RESULT_CAP);
                push_str_member(&mut ms, "inputPreview", cl.as_str());
            }
            push_str_member(&mut ms, "messageType", "tool_use");
            push_str_member(&mut ms, "tool", tool);
            proof {
                assert(obj_view(ms@) =~= tool_use_members(tool@, input_spec));
            }
        }
        let payload: String = obj_payload(ms);
        return Some((tool.to_owned(), Some(payload)));
    }
    if type_matches(it, "text") {
        let text: &str = field_string_or(it, "text", "");
        let preview: String = truncate_chars(text, USER_TEXT_CAP);
        let mut ms: Vec<JsonMember> = Vec::new();
        proof {
            lemma_obj_view(ms@);
        }
        push_str_member(&mut ms, "messageType", "assistant");
        push_str_member(&mut ms, "preview", preview.as_str());
        let payload: String = obj_payload(ms);
        proof {
            assert(obj_view(ms@) =~= seq![
                ("messageType"@, sv("assistant"@)),
                ("preview"@, sv(clipped(text@, USER_TEXT_CAP as nat))),
            ]);
        }
        return Some((String::from_str("Response"), Some(payload)));
    }
    if type_matches(it, "thinking") {
        let text: &str = field_string_or(it, "thinking", "");
        let preview: String = truncate_chars(text, USER_TEXT_CAP);
        let mut ms: Vec<JsonMember> = Vec::new();
        proof {
            lemma_obj_view(ms@);
        }
        push_str_member(&mut ms, "messageType", "thinking");
        push_str_member(&mut ms, "preview", preview.as_str());
        let payload: String = obj_payload(ms);
        proof {
            assert(obj_view(ms@) =~= seq![
                ("messageType"@, sv("thinking"@)),
                ("preview"@, sv(clipped(text@, USER_TEXT_CAP as nat))),
            ]);
        }
        return Some((String::from_str("Thinking"), Some(payload)));
    }
    None
}

/// Classify one parsed transcript record into an optional tool name and
/// an optional JSON payload.
#[verifier::loop_isolation(false)]
#[verifier::rlimit(100)]
pub fn classify_record(entry: &JsonValue) -> (r: (Option<String>, Option<String>))
    ensures
        opt_str(r.0) == classify(entry@).tool,
        opt_str(r.1) == classify(entry@).payload,
{
    proof {
        reveal_strlit("");
        assert(""@ =~= Seq::<char>::empty());
        reveal_strlit("user");
        reveal_strlit("assistant");
        reveal_strlit("result");
    }
    let t: Option<&str> = field_string(entry, "type");
    let is_user: bool = match t {
        Some(ts) => crate::text::str_eq(ts, "user"),
        None => false,
    };
    let is_assistant: bool = match t {
        Some(ts) => crate::text::str_eq(ts, "assistant"),
        None => false,
    };
    let is_result: bool = match t {
        Some(ts) => crate::text::str_eq(ts, "result"),
        None => false,
    };
    if is_user {
        let items_opt: Option<&Vec<JsonValue>> = match entry.get("message") {
            Some(m) => match m.get("content") {
                Some(c) => c.as_arr(),
                None => None,
            },
            None => None,
        };
        if let Some(items) = items_opt {
            let ghost vs = arr_view(items@);
            proof {
                lemma_arr_view(items@);
            }
            let mut i: usize = 0;
            while i < items.len()
                invariant
                    i <= items@.len(),
                    forall|j: int| 0 <= j < i ==> user_item(#[trigger] vs[j]) is None,
                decreases items@.len() - i,
            {
                match classify_user_item(&items[i]) {
                    Some(tp) => {
                        proof {
                            lemma_user_scan_skip(vs, i as int);
                            assert(vs.skip(i as int)[0] == vs[i as int]);
                        }
                        return (Some(tp.0), Some(tp.1));
                    },
                    None => {},
                }
                i += 1;
            }
            proof {
                lemma_user_scan_skip(vs, vs.len() as int);
                assert(vs.skip(vs.len() as int).len() == 0);
            }
        }
        let mut ms: Vec<JsonMember> = Vec::new();
        proof {
            lemma_obj_view(ms@);
        }
        push_str_member(&mut ms, "messageType", "user");
        push_str_member(&mut ms, "preview", "");
        let payload: String = obj_payload(ms);
        proof {
            assert(obj_view(ms@) =~= seq![
                ("messageType"@, sv("user"@)),
                ("preview"@, sv(clipped(Seq::<char>::empty(), USER_TEXT_CAP as nat))),
            ]);
        }
        return (Some(String::from_str("UserMessage")), Some(payload));
    }
    if is_assistant {
        let items_opt: Option<&Vec<JsonValue>> = match entry.get("message") {
            Some(m) => match m.get("content") {
                Some(c) => c.as_arr(),
                None => None,
            },
            None => None,
        };
        if let Some(items) = items_opt {
            let ghost vs = arr_view(items@);
            proof {
                lemma_arr_view(items@);
            }
            let mut i: usize = 0;
            while i < items.len()
                invariant
                    i <= items@.len(),
                    forall|j: int| 0 <= j < i ==> assistant_item(#[trigger] vs[j]) is None,
                decreases items@.len() - i,
            {
                match classify_assistant_item(&items[i]) {
                    Some(tp) => {
                        proof {
                            lemma_assistant_scan_skip(vs, i as int);
                            assert(vs.skip(i as int)[0] == vs[i as int]);
                        }
                        return (Some(tp.0), tp.1);
                    },
                    None => {},
                }
                i += 1;
            }
            proof {
                lemma_assistant_scan_skip(vs, vs.len() as int);
                assert(vs.skip(vs.len() as int).len() == 0);
            }
        }
        return (Some(String::from_str("Assistant")), None);
    }
    if is_result {
        let tid: &str = field_string_or(entry, "tool_use_id", "unknown");
        let is_err: bool = field_bool_dflt(entry, "is_error", false);
        let preview: String = {
            let content_opt: Option<&JsonValue> = entry.get("content");
            let use_content: bool = match content_opt {
                Some(c) => {
                    let is_str: bool = c.as_str().is_some();
                    let is_arr: bool = c.as_arr().is_some();
                    is_str || is_arr
                },
                None => false,
            };
            if use_content {
                match content_opt {
                    Some(c) => preview_of(c, TOOL_RESULT_CAP),
                    None => String::new(),
                }
            } else {
                match field_string(entry, "output") {
                    Some(o) => truncate_chars(o, TOOL_RESULT_CAP),
                    None => String::new(),
                }
            }
        };
        let mut ms: Vec<JsonMember> = Vec::new();
        proof {
            lemma_obj_view(ms@);
        }
        push_bool_member(&mut ms, "isError", is_err);
        push_str_member(&mut ms, "messageType", "tool_result");
        push_str_member(&mut ms, "preview", preview.as_str());
        push_str_member(&mut ms, "toolUseId", tid);
        let payload: String = obj_payload(ms);
        proof {
            assert(obj_view(ms@) =~= seq![
                ("isError"@, JsonView::Bool(is_err)),
                ("messageType"@, sv("tool_result"@)),
                ("preview"@, sv(preview@)),
                ("toolUseId"@, sv(tid@)),
            ]);
        }
        return (Some(String::from_str("ToolResult")), Some(payload));
    }
    (None, None)
}

/// What the last line of a transcript means: the classification of its
/// record, or nothing when it does not parse.
pub open spec fn line_class(l: Seq<char>) -> EntryClass {
    match parsed_json(strip_cr(l)) {
        Some(doc) => classify(doc),
        None => no_entry(),
    }
}

/// Parse and classify the most recent record of a transcript's content:
/// the last non-blank line. Unreadable or unrecognized records yield
/// `(None, None)`; the function never fails.
pub fn get_last_transcript_entry(content: &str) -> (r: (Option<String>, Option<String>))
    ensures
        (exists|a: int, b: int|
            #[trigger] last_nonblank_at(content@, a, b) && opt_str(r.0) == line_class(
                content@.subrange(a, b),
            ).tool && opt_str(r.1) == line_class(content@.subrange(a, b)).payload) || ((forall|
            a: int,
            b: int,
        |
            line_at(content@, a, b) ==> blank_seq(content@.subrange(a, b))) && r.0 is None
            && r.1 is None),
{
    match crate::text::last_nonblank_line(content) {
        None => (None, None),
        Some(line) => {
            let ghost (ga, gb) = choose|a: int, b: int|
                last_nonblank_at(content@, a, b) && line@ == strip_cr(
                    content@.subrange(a, b),
                );
            match parse_json(line.as_str()) {
                None => {
                    proof {
                        assert(last_nonblank_at(content@, ga, gb));
                    }
                    (None, None)
                },
                Some(doc) => {
                    let r = classify_record(&doc);
                    proof {
                        assert(last_nonblank_at(content@, ga, gb));
                    }
                    r
                },
            }
        },
    }
}

} // verus!

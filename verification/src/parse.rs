//! Parsing of registry and transcript lines.
//!
//! The JSON grammar itself is handled by `serde_json` behind small
//! trusted wrappers, one per field accessor; each wrapper's result is a
//! function of the bytes and the key alone and carries an uninterpreted
//! name.  The assembly of the typed entry or message from those fields
//! is verified code, and the line's meaning is a specification function
//! over the field names.

use vstd::prelude::*;

use crate::text::str_eq;
use crate::types::{
    ContentBlock, ContentValue, ContentValueV, ConversationMessage, ConversationMessageV,
    HistoryEntry, MessageContent, MessageContentV, TokenUsage,
};

verus! {

pub uninterp spec fn str_field_of(bytes: Seq<u8>, key: Seq<char>) -> Option<String>;

pub uninterp spec fn raw_field_of(bytes: Seq<u8>, key: Seq<char>) -> Option<Vec<u8>>;

pub uninterp spec fn raw_str_field_of(bytes: Seq<u8>, key: Seq<char>) -> Option<String>;

pub uninterp spec fn raw_list_field_of(bytes: Seq<u8>, key: Seq<char>) -> Option<Vec<Vec<u8>>>;

pub uninterp spec fn u64_field_of(bytes: Seq<u8>, key: Seq<char>) -> Option<u64>;

pub uninterp spec fn bool_field_of(bytes: Seq<u8>, key: Seq<char>) -> Option<bool>;

pub uninterp spec fn is_object_of(bytes: Seq<u8>) -> bool;

/// Relies on `serde_json::from_slice::<Value>`, `Value::get` and
/// `Value::as_str`: the named field of a JSON object, when the bytes
/// parse and the field holds a string.
#[verifier::external_body]
pub(crate) fn read_str_field(bytes: &[u8], key: &str) -> (r: Option<String>)
    ensures
        r == str_field_of(bytes@, key@),
{
    let v: serde_json::Value = serde_json::from_slice(bytes).ok()?;
    Some(v.get(key)?.as_str()?.to_string())
}

/// Relies on `serde_json::from_slice::<Value>`, `Value::get` and
/// `Value::to_string`: the named field of a JSON object re-serialized
/// as JSON text, whatever its kind.
#[verifier::external_body]
pub(crate) fn read_raw_field(bytes: &[u8], key: &str) -> (r: Option<Vec<u8>>)
    ensures
        r == raw_field_of(bytes@, key@),
{
    let v: serde_json::Value = serde_json::from_slice(bytes).ok()?;
    Some(v.get(key)?.to_string().into_bytes())
}

/// Relies on `serde_json::from_slice::<Value>`, `Value::get` and
/// `Value::to_string`: as [`read_raw_field`], but handing the JSON text
/// back as a string.
#[verifier::external_body]
pub(crate) fn read_raw_str_field(bytes: &[u8], key: &str) -> (r: Option<String>)
    ensures
        r == raw_str_field_of(bytes@, key@),
{
    let v: serde_json::Value = serde_json::from_slice(bytes).ok()?;
    Some(v.get(key)?.to_string())
}

/// Relies on `serde_json::from_slice::<Value>`, `Value::get`,
/// `Value::as_array` and `Value::to_string`: the elements of the named
/// array field, each re-serialized as JSON text.
#[verifier::external_body]
pub(crate) fn read_raw_list_field(bytes: &[u8], key: &str) -> (r: Option<Vec<Vec<u8>>>)
    ensures
        r == raw_list_field_of(bytes@, key@),
{
    let v: serde_json::Value = serde_json::from_slice(bytes).ok()?;
    Some(v.get(key)?.as_array()?.iter().map(|b| b.to_string().into_bytes()).collect())
}

/// Relies on `serde_json::from_slice::<Value>`, `Value::get` and
/// `Value::as_u64`: the named field, when it holds an unsigned integer.
#[verifier::external_body]
pub(crate) fn read_u64_field(bytes: &[u8], key: &str) -> (r: Option<u64>)
    ensures
        r == u64_field_of(bytes@, key@),
{
    let v: serde_json::Value = serde_json::from_slice(bytes).ok()?;
    v.get(key)?.as_u64()
}

/// Relies on `serde_json::from_slice::<Value>`, `Value::get` and
/// `Value::as_bool`: the named field, when it holds a boolean.
#[verifier::external_body]
pub(crate) fn read_bool_field(bytes: &[u8], key: &str) -> (r: Option<bool>)
    ensures
        r == bool_field_of(bytes@, key@),
{
    let v: serde_json::Value = serde_json::from_slice(bytes).ok()?;
    v.get(key)?.as_bool()
}

/// Relies on `serde_json::from_slice::<Value>` and `Value::is_object`:
/// whether the bytes parse as a JSON object.
#[verifier::external_body]
pub(crate) fn read_is_object(bytes: &[u8]) -> (r: bool)
    ensures
        r == is_object_of(bytes@),
{
    serde_json::from_slice::<serde_json::Value>(bytes).map(|v| v.is_object()).unwrap_or(false)
}

/// What a `usage` object's JSON text means: its token counters, each
/// absent when missing or not an unsigned integer; nothing when the
/// text is no object at all.
pub open spec fn usage_of(bytes: Seq<u8>) -> Option<TokenUsage> {
    if !is_object_of(bytes) {
        None
    } else {
        Some(
            TokenUsage {
                input_tokens: u64_field_of(bytes, "input_tokens"@),
                output_tokens: u64_field_of(bytes, "output_tokens"@),
                cache_creation_input_tokens: u64_field_of(
                    bytes,
                    "cache_creation_input_tokens"@,
                ),
                cache_read_input_tokens: u64_field_of(bytes, "cache_read_input_tokens"@),
            },
        )
    }
}

/// What one content block's JSON text means: by its `type` tag, with an
/// unknown tag failing the line.
pub open spec fn block_of(bytes: Seq<u8>) -> Option<ContentBlock> {
    match str_field_of(bytes, "type"@) {
        None => None,
        Some(k) => if k@ == "text"@ {
            Some(ContentBlock::Text { text: str_field_of(bytes, "text"@) })
        } else if k@ == "thinking"@ {
            Some(ContentBlock::Thinking { thinking: str_field_of(bytes, "thinking"@) })
        } else if k@ == "tool_use"@ {
            Some(
                ContentBlock::ToolUse {
                    id: str_field_of(bytes, "id"@),
                    name: str_field_of(bytes, "name"@),
                    input: raw_str_field_of(bytes, "input"@),
                },
            )
        } else if k@ == "tool_result"@ {
            Some(
                ContentBlock::ToolResult {
                    tool_use_id: str_field_of(bytes, "tool_use_id"@),
                    content: raw_str_field_of(bytes, "content"@),
                    is_error: bool_field_of(bytes, "is_error"@),
                },
            )
        } else {
            None
        },
    }
}

/// What a list of block texts means: every block must be understood.
pub open spec fn blocks_of(bjs: Seq<Seq<u8>>) -> Option<Seq<ContentBlock>>
    decreases bjs.len(),
{
    if bjs.len() == 0 {
        Some(Seq::empty())
    } else {
        match block_of(bjs[0]) {
            None => None,
            Some(b) => match blocks_of(bjs.drop_first()) {
                None => None,
                Some(rest) => Some(seq![b] + rest),
            },
        }
    }
}

/// The body of a `message` object: bare text, or a block list in which
/// every block is understood.
pub open spec fn content_value_of(bytes: Seq<u8>) -> Option<ContentValueV> {
    match str_field_of(bytes, "content"@) {
        Some(t) => Some(ContentValueV::Text(t)),
        None => match raw_list_field_of(bytes, "content"@) {
            None => None,
            Some(bj) => match blocks_of(bj.deep_view()) {
                None => None,
                Some(bs) => Some(ContentValueV::Blocks(bs)),
            },
        },
    }
}

/// What a `message` object's JSON text means: nothing without a string
/// `role`, an understood body, and — where `usage` is present — an
/// understood usage object.
pub open spec fn content_of(bytes: Seq<u8>) -> Option<MessageContentV> {
    match str_field_of(bytes, "role"@) {
        None => None,
        Some(role) => match content_value_of(bytes) {
            None => None,
            Some(cv) => match raw_field_of(bytes, "usage"@) {
                None => Some(
                    MessageContentV {
                        role,
                        content: cv,
                        model: str_field_of(bytes, "model"@),
                        usage: None,
                    },
                ),
                Some(uj) => match usage_of(uj@) {
                    None => None,
                    Some(u) => Some(
                        MessageContentV {
                            role,
                            content: cv,
                            model: str_field_of(bytes, "model"@),
                            usage: Some(u),
                        },
                    ),
                },
            },
        },
    }
}

/// What one transcript line means: nothing without a string `type`, or
/// when a present `message` object is not understood.
pub open spec fn message_of(line: Seq<u8>) -> Option<ConversationMessageV> {
    match str_field_of(line, "type"@) {
        None => None,
        Some(t) => {
            let msg = match raw_field_of(line, "message"@) {
                None => Some(None),
                Some(mj) => match content_of(mj@) {
                    None => None,
                    Some(mc) => Some(Some(mc)),
                },
            };
            match msg {
                None => None,
                Some(m) => Some(
                    ConversationMessageV {
                        msg_type: t,
                        uuid: str_field_of(line, "uuid"@),
                        parent_uuid: str_field_of(line, "parentUuid"@),
                        timestamp: str_field_of(line, "timestamp"@),
                        session_id: str_field_of(line, "sessionId"@),
                        message: m,
                        summary: str_field_of(line, "summary"@),
                    },
                ),
            }
        },
    }
}

/// What one registry line means: nothing without a string `display`, an
/// unsigned `timestamp` and a string `project`.
pub open spec fn history_entry_of(line: Seq<u8>) -> Option<HistoryEntry> {
    match (str_field_of(line, "display"@), u64_field_of(line, "timestamp"@), str_field_of(
        line,
        "project"@,
    )) {
        (Some(d), Some(ts), Some(p)) => Some(
            HistoryEntry {
                display: d,
                timestamp: ts,
                project: p,
                session_id: str_field_of(line, "sessionId"@),
            },
        ),
        _ => None,
    }
}

/// A parse result seen at the specification level.
pub open spec fn msg_opt_view(r: Option<ConversationMessage>) -> Option<ConversationMessageV> {
    match r {
        None => None,
        Some(m) => Some(m@),
    }
}

proof fn lemma_blocks_of_some(bjs: Seq<Seq<u8>>, bs: Seq<ContentBlock>)
    requires
        bs.len() == bjs.len(),
        forall|k: int| 0 <= k < bjs.len() ==> block_of(bjs[k]) == Some(bs[k]),
    ensures
        blocks_of(bjs) == Some(bs),
    decreases bjs.len(),
{
    if bjs.len() == 0 {
        assert(bs =~= Seq::<ContentBlock>::empty());
    } else {
        assert(forall|k: int|
            0 <= k < bjs.drop_first().len() ==> bjs.drop_first()[k] == bjs[k + 1]);
        lemma_blocks_of_some(bjs.drop_first(), bs.drop_first());
        assert(seq![bs[0]] + bs.drop_first() =~= bs);
    }
}

proof fn lemma_blocks_of_none(bjs: Seq<Seq<u8>>, i: int)
    requires
        0 <= i < bjs.len(),
        block_of(bjs[i]) is None,
    ensures
        blocks_of(bjs) is None,
    decreases bjs.len(),
{
    if i > 0 {
        if block_of(bjs[0]) is Some {
            assert(bjs.drop_first()[i - 1] == bjs[i]);
            lemma_blocks_of_none(bjs.drop_first(), i - 1);
        }
    }
}

/// Interprets a `usage` object's JSON text.
fn parse_usage(bytes: &[u8]) -> (r: Option<TokenUsage>)
    ensures
        r == usage_of(bytes@),
{
    if !read_is_object(bytes) {
        return None;
    }
    Some(
        TokenUsage {
            input_tokens: read_u64_field(bytes, "input_tokens"),
            output_tokens: read_u64_field(bytes, "output_tokens"),
            cache_creation_input_tokens: read_u64_field(bytes, "cache_creation_input_tokens"),
            cache_read_input_tokens: read_u64_field(bytes, "cache_read_input_tokens"),
        },
    )
}

/// Interprets one content block's JSON text.
fn parse_block(bytes: &[u8]) -> (r: Option<ContentBlock>)
    ensures
        r == block_of(bytes@),
{
    match read_str_field(bytes, "type") {
        None => None,
        Some(k) => {
            if str_eq(k.as_str(), "text") {
                Some(ContentBlock::Text { text: read_str_field(bytes, "text") })
            } else if str_eq(k.as_str(), "thinking") {
                Some(ContentBlock::Thinking { thinking: read_str_field(bytes, "thinking") })
            } else if str_eq(k.as_str(), "tool_use") {
                Some(
                    ContentBlock::ToolUse {
                        id: read_str_field(bytes, "id"),
                        name: read_str_field(bytes, "name"),
                        input: read_raw_str_field(bytes, "input"),
                    },
                )
            } else if str_eq(k.as_str(), "tool_result") {
                Some(
                    ContentBlock::ToolResult {
                        tool_use_id: read_str_field(bytes, "tool_use_id"),
                        content: read_raw_str_field(bytes, "content"),
                        is_error: read_bool_field(bytes, "is_error"),
                    },
                )
            } else {
                None
            }
        },
    }
}

/// Interprets a list of block texts; every block must be understood.
fn parse_blocks(bjs: Vec<Vec<u8>>) -> (r: Option<Vec<ContentBlock>>)
    ensures
        match r {
            None => blocks_of(bjs.deep_view()) is None,
            Some(bs) => blocks_of(bjs.deep_view()) == Some(bs@),
        },
{
    let mut out: Vec<ContentBlock> = Vec::new();
    let n = bjs.len();
    let mut i: usize = 0;
    while i < n
        invariant
            n == bjs@.len(),
            0 <= i <= n,
            out@.len() == i,
            forall|k: int| 0 <= k < i ==> block_of(bjs.deep_view()[k]) == Some(out@[k]),
        decreases n - i,
    {
        proof {
            assert(bjs.deep_view()[i as int] =~= bjs@[i as int]@);
        }
        match parse_block(bjs[i].as_slice()) {
            None => {
                proof {
                    lemma_blocks_of_none(bjs.deep_view(), i as int);
                }
                return None;
            },
            Some(b) => {
                out.push(b);
            },
        }
        i += 1;
    }
    proof {
        lemma_blocks_of_some(bjs.deep_view(), out@);
    }
    Some(out)
}

/// Interprets a `message` object's JSON text.
fn parse_content(bytes: &[u8]) -> (r: Option<MessageContent>)
    ensures
        match r {
            None => content_of(bytes@) is None,
            Some(m) => content_of(bytes@) == Some(m@),
        },
{
    let role = match read_str_field(bytes, "role") {
        None => {
            return None;
        },
        Some(role) => role,
    };
    let content: ContentValue = match read_str_field(bytes, "content") {
        Some(t) => ContentValue::Text(t),
        None => match read_raw_list_field(bytes, "content") {
            None => {
                return None;
            },
            Some(bj) => match parse_blocks(bj) {
                None => {
                    return None;
                },
                Some(bs) => ContentValue::Blocks(bs),
            },
        },
    };
    let usage: Option<TokenUsage> = match read_raw_field(bytes, "usage") {
        None => None,
        Some(uj) => match parse_usage(uj.as_slice()) {
            None => {
                return None;
            },
            Some(u) => Some(u),
        },
    };
    Some(MessageContent { role, content, model: read_str_field(bytes, "model"), usage })
}

/// Interprets one transcript line.
pub fn parse_message_line(line: &[u8]) -> (r: Option<ConversationMessage>)
    ensures
        msg_opt_view(r) == message_of(line@),
{
    let msg_type = match read_str_field(line, "type") {
        None => {
            return None;
        },
        Some(t) => t,
    };
    let message: Option<MessageContent> = match read_raw_field(line, "message") {
        None => None,
        Some(mj) => match parse_content(mj.as_slice()) {
            None => {
                return None;
            },
            Some(mc) => Some(mc),
        },
    };
    Some(
        ConversationMessage {
            msg_type,
            uuid: read_str_field(line, "uuid"),
            parent_uuid: read_str_field(line, "parentUuid"),
            timestamp: read_str_field(line, "timestamp"),
            session_id: read_str_field(line, "sessionId"),
            message,
            summary: read_str_field(line, "summary"),
        },
    )
}

/// Interprets one registry line.
pub fn parse_history_line(line: &[u8]) -> (r: Option<HistoryEntry>)
    ensures
        r == history_entry_of(line@),
{
    let display = match read_str_field(line, "display") {
        None => {
            return None;
        },
        Some(d) => d,
    };
    let timestamp = match read_u64_field(line, "timestamp") {
        None => {
            return None;
        },
        Some(ts) => ts,
    };
    let project = match read_str_field(line, "project") {
        None => {
            return None;
        },
        Some(p) => p,
    };
    Some(
        HistoryEntry {
            display,
            timestamp,
            project,
            session_id: read_str_field(line, "sessionId"),
        },
    )
}

} // verus!

//! Plain data model: registry entries, derived sessions, and the message
//! schema of transcript lines.
//!
//! Timestamps are millisecond epoch counts held as `u64`.  Arbitrary JSON
//! subtrees that the core never inspects (tool inputs and results) are
//! carried through as their JSON text.

use vstd::prelude::*;

verus! {

/// One line of the history registry.
#[derive(Debug)]
pub struct HistoryEntry {
    pub display: String,
    /// Milliseconds since the epoch.
    pub timestamp: u64,
    pub project: String,
    pub session_id: Option<String>,
}

/// One conversation thread, derived from a registry entry.
#[derive(Debug)]
pub struct Session {
    pub id: String,
    pub display: String,
    /// Milliseconds since the epoch.
    pub timestamp: u64,
    pub project: String,
    pub project_name: String,
}

/// Token accounting attached to an assistant message.
#[derive(Debug, PartialEq)]
pub struct TokenUsage {
    pub input_tokens: Option<u64>,
    pub output_tokens: Option<u64>,
    pub cache_creation_input_tokens: Option<u64>,
    pub cache_read_input_tokens: Option<u64>,
}

/// The `message` object of a transcript line.
#[derive(Debug, PartialEq)]
pub struct MessageContent {
    pub role: String,
    pub content: ContentValue,
    pub model: Option<String>,
    pub usage: Option<TokenUsage>,
}

/// A message body: either bare text or a sequence of content blocks.
#[derive(Debug, PartialEq)]
pub enum ContentValue {
    Text(String),
    Blocks(Vec<ContentBlock>),
}

/// One block of a block-structured message body.  Tool payloads are kept
/// as their JSON text.
#[derive(Debug, PartialEq)]
pub enum ContentBlock {
    Text { text: Option<String> },
    Thinking { thinking: Option<String> },
    ToolUse { id: Option<String>, name: Option<String>, input: Option<String> },
    ToolResult { tool_use_id: Option<String>, content: Option<String>, is_error: Option<bool> },
}

/// One line of a transcript file.
#[derive(Debug, PartialEq)]
pub struct ConversationMessage {
    pub msg_type: String,
    pub uuid: Option<String>,
    pub parent_uuid: Option<String>,
    pub timestamp: Option<String>,
    pub session_id: Option<String>,
    pub message: Option<MessageContent>,
    pub summary: Option<String>,
}

/// What one incremental read returns: the newly parsed messages and the
/// byte offset to resume from.
#[derive(Debug, PartialEq)]
pub struct StreamResult {
    pub messages: Vec<ConversationMessage>,
    pub next_offset: u64,
}

/// `ContentValue` with the block vector lifted to a sequence, for contracts.
pub enum ContentValueV {
    Text(String),
    Blocks(Seq<ContentBlock>),
}

/// `MessageContent` at the specification level.
pub struct MessageContentV {
    pub role: String,
    pub content: ContentValueV,
    pub model: Option<String>,
    pub usage: Option<TokenUsage>,
}

/// `ConversationMessage` at the specification level.
pub struct ConversationMessageV {
    pub msg_type: String,
    pub uuid: Option<String>,
    pub parent_uuid: Option<String>,
    pub timestamp: Option<String>,
    pub session_id: Option<String>,
    pub message: Option<MessageContentV>,
    pub summary: Option<String>,
}

impl View for ContentValue {
    type V = ContentValueV;

    open spec fn view(&self) -> ContentValueV {
        match self {
            ContentValue::Text(s) => ContentValueV::Text(*s),
            ContentValue::Blocks(b) => ContentValueV::Blocks(b@),
        }
    }
}

impl View for MessageContent {
    type V = MessageContentV;

    open spec fn view(&self) -> MessageContentV {
        MessageContentV {
            role: self.role,
            content: self.content@,
            model: self.model,
            usage: self.usage,
        }
    }
}

impl View for ConversationMessage {
    type V = ConversationMessageV;

    open spec fn view(&self) -> ConversationMessageV {
        ConversationMessageV {
            msg_type: self.msg_type,
            uuid: self.uuid,
            parent_uuid: self.parent_uuid,
            timestamp: self.timestamp,
            session_id: self.session_id,
            message: match self.message {
                Some(m) => Some(m@),
                None => None,
            },
            summary: self.summary,
        }
    }
}

/// A session with its text fields as character sequences, for contracts.
pub struct SessionView {
    pub id: Seq<char>,
    pub display: Seq<char>,
    pub timestamp: u64,
    pub project: Seq<char>,
    pub project_name: Seq<char>,
}

impl View for Session {
    type V = SessionView;

    open spec fn view(&self) -> SessionView {
        SessionView {
            id: self.id@,
            display: self.display@,
            timestamp: self.timestamp,
            project: self.project@,
            project_name: self.project_name@,
        }
    }
}

} // verus!

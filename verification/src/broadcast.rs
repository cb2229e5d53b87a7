//! Server-sent events: the event names the web client listens for, and the
//! values computed for their payloads.

use vstd::prelude::*;
use crate::text::{chars_of, string_from_chars};

verus! {

/// What happened to an entity.
#[derive(Debug, Clone, Copy, PartialEq, Eq, Structural)]
pub enum EntityAction {
    Created,
    Updated,
    Deleted,
}

impl EntityAction {
    /// The action as it is serialized: lowercase.
    pub fn as_str(self) -> (r: &'static str)
        ensures
            r@ == match self {
                EntityAction::Created => "created"@,
                EntityAction::Updated => "updated"@,
                EntityAction::Deleted => "deleted"@,
            },
    {
        match self {
            EntityAction::Created => "created",
            EntityAction::Updated => "updated",
            EntityAction::Deleted => "deleted",
        }
    }
}

/// The kinds of event broadcast to a user's open sessions.
#[derive(Debug, Clone, Copy, PartialEq, Eq, Structural)]
pub enum SseKind {
    /// A streamed token of the answer.
    Token,
    ToolCall,
    Reasoning,
    ToolResult,
    /// An entity changed during an inference turn.
    ChatEntityUpdated,
    Retry,
    InferenceStart,
    InferenceDone,
    InferenceCancelled,
    InferenceFailed,
    InferencePaused,
    InferenceResume,
    Title,
    ChatMessage,
    TaskUpdate,
    InferenceCount,
    Notification,
    EntityUpdated,
}

/// The SSE event name of each kind.
pub open spec fn sse_name(k: SseKind) -> Seq<char> {
    match k {
        SseKind::Token => "token"@,
        SseKind::ToolCall => "tool_call"@,
        SseKind::Reasoning => "reasoning"@,
        SseKind::ToolResult => "tool_result"@,
        SseKind::ChatEntityUpdated => "entity_updated"@,
        SseKind::Retry => "retry"@,
        SseKind::InferenceStart => "inference_start"@,
        SseKind::InferenceDone => "inference_done"@,
        SseKind::InferenceCancelled => "inference_cancelled"@,
        SseKind::InferenceFailed => "inference_error"@,
        SseKind::InferencePaused => "inference_paused"@,
        SseKind::InferenceResume => "inference_resume"@,
        SseKind::Title => "title"@,
        SseKind::ChatMessage => "chat_message"@,
        SseKind::TaskUpdate => "task_update"@,
        SseKind::InferenceCount => "inference_count"@,
        SseKind::Notification => "notification"@,
        SseKind::EntityUpdated => "entity_updated"@,
    }
}

pub fn sse_event_name(kind: SseKind) -> (r: &'static str)
    ensures
        r@ == sse_name(kind),
{
    match kind {
        SseKind::Token => "token",
        SseKind::ToolCall => "tool_call",
        SseKind::Reasoning => "reasoning",
        SseKind::ToolResult => "tool_result",
        SseKind::ChatEntityUpdated => "entity_updated",
        SseKind::Retry => "retry",
        SseKind::InferenceStart => "inference_start",
        SseKind::InferenceDone => "inference_done",
        SseKind::InferenceCancelled => "inference_cancelled",
        SseKind::InferenceFailed => "inference_error",
        SseKind::InferencePaused => "inference_paused",
        SseKind::InferenceResume => "inference_resume",
        SseKind::Title => "title",
        SseKind::ChatMessage => "chat_message",
        SseKind::TaskUpdate => "task_update",
        SseKind::InferenceCount => "inference_count",
        SseKind::Notification => "notification",
        SseKind::EntityUpdated => "entity_updated",
    }
}

/// The summary of a tool result sent to the client: its first 200
/// characters.
pub fn tool_result_summary(result: &str) -> (r: String)
    ensures
        r@ == (if result@.len() <= 200 { result@ } else { result@.subrange(0, 200) }),
{
    let v = chars_of(result);
    let n = if v.len() < 200 {
        v.len()
    } else {
        200
    };
    let r = string_from_chars(&v, 0, n);
    assert(result@.len() <= 200 ==> v@.subrange(0, n as int) =~= v@);
    r
}

/// The retry delay sent to the client, in whole seconds.
pub fn retry_after_secs(retry_after_ms: u64) -> (r: u64)
    ensures
        r == retry_after_ms / 1000,
{
    retry_after_ms / 1000
}

/// What an inference turn reports while it runs.
#[derive(Debug, Clone, Copy, PartialEq, Eq, Structural)]
pub enum InferenceTag {
    Text,
    ToolCall,
    Reasoning,
    ToolResult,
    EntityUpdated,
    Retry,
    Start,
    Done,
    Cancelled,
    Failed,
    Paused,
    Resume,
}

/// The kinds of broadcast event, as the dispatcher tells them apart.
#[derive(Debug, Clone, Copy, PartialEq, Eq, Structural)]
pub enum BroadcastTag {
    Inference(InferenceTag),
    Title,
    NewNotification,
    ChatMessage,
    TaskUpdate,
    InferenceCount,
    EntityUpdated,
}

/// The SSE kind each broadcast event is sent as.
pub open spec fn sse_kind_for(t: BroadcastTag) -> SseKind {
    match t {
        BroadcastTag::Inference(k) => match k {
            InferenceTag::Text => SseKind::Token,
            InferenceTag::ToolCall => SseKind::ToolCall,
            InferenceTag::Reasoning => SseKind::Reasoning,
            InferenceTag::ToolResult => SseKind::ToolResult,
            InferenceTag::EntityUpdated => SseKind::ChatEntityUpdated,
            InferenceTag::Retry => SseKind::Retry,
            InferenceTag::Start => SseKind::InferenceStart,
            InferenceTag::Done => SseKind::InferenceDone,
            InferenceTag::Cancelled => SseKind::InferenceCancelled,
            InferenceTag::Failed => SseKind::InferenceFailed,
            InferenceTag::Paused => SseKind::InferencePaused,
            InferenceTag::Resume => SseKind::InferenceResume,
        },
        BroadcastTag::Title => SseKind::Title,
        BroadcastTag::NewNotification => SseKind::Notification,
        BroadcastTag::ChatMessage => SseKind::ChatMessage,
        BroadcastTag::TaskUpdate => SseKind::TaskUpdate,
        BroadcastTag::InferenceCount => SseKind::InferenceCount,
        BroadcastTag::EntityUpdated => SseKind::EntityUpdated,
    }
}

/// The SSE kind of a broadcast event, see [`sse_kind_for`].
pub fn sse_kind_of(t: BroadcastTag) -> (r: SseKind)
    ensures
        r == sse_kind_for(t),
{
    match t {
        BroadcastTag::Inference(k) => match k {
            InferenceTag::Text => SseKind::Token,
            InferenceTag::ToolCall => SseKind::ToolCall,
            InferenceTag::Reasoning => SseKind::Reasoning,
            InferenceTag::ToolResult => SseKind::ToolResult,
            InferenceTag::EntityUpdated => SseKind::ChatEntityUpdated,
            InferenceTag::Retry => SseKind::Retry,
            InferenceTag::Start => SseKind::InferenceStart,
            InferenceTag::Done => SseKind::InferenceDone,
            InferenceTag::Cancelled => SseKind::InferenceCancelled,
            InferenceTag::Failed => SseKind::InferenceFailed,
            InferenceTag::Paused => SseKind::InferencePaused,
            InferenceTag::Resume => SseKind::InferenceResume,
        },
        BroadcastTag::Title => SseKind::Title,
        BroadcastTag::NewNotification => SseKind::Notification,
        BroadcastTag::ChatMessage => SseKind::ChatMessage,
        BroadcastTag::TaskUpdate => SseKind::TaskUpdate,
        BroadcastTag::InferenceCount => SseKind::InferenceCount,
        BroadcastTag::EntityUpdated => SseKind::EntityUpdated,
    }
}

/// Inference events, titles and chat messages carry the event's chat id.
pub open spec fn carries_chat_id(t: BroadcastTag) -> bool {
    t is Inference || t is Title || t is ChatMessage
}

/// The `chat_id` of an event's payload: the event's chat, empty when it has
/// none; `None` for the kinds whose payload has no such field.
pub fn payload_chat_id(t: BroadcastTag, chat_id: Option<&str>) -> (r: Option<String>)
    ensures
        carries_chat_id(t) ==> (r matches Some(c) && c@ == match chat_id {
            Some(id) => id@,
            None => Seq::<char>::empty(),
        }),
        !carries_chat_id(t) ==> r is None,
{
    let names = match t {
        BroadcastTag::Inference(_) | BroadcastTag::Title | BroadcastTag::ChatMessage => true,
        _ => false,
    };
    if !names {
        return None;
    }
    match chat_id {
        Some(id) => Some(String::from_str(id)),
        None => Some(String::new()),
    }
}

} // verus!

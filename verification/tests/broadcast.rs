use frona_server::broadcast::{
    retry_after_secs, sse_event_name, tool_result_summary, EntityAction, SseKind,
};

use frona_server::broadcast::{payload_chat_id, sse_kind_of, BroadcastTag, InferenceTag};

#[test]
fn entity_action_serializes_lowercase() {
    assert_eq!(EntityAction::Created.as_str(), "created");
    assert_eq!(EntityAction::Updated.as_str(), "updated");
    assert_eq!(EntityAction::Deleted.as_str(), "deleted");
}

#[test]
fn sse_event_names() {
    assert_eq!(sse_event_name(SseKind::Token), "token");
    assert_eq!(sse_event_name(SseKind::InferenceFailed), "inference_error");
    assert_eq!(sse_event_name(SseKind::ChatEntityUpdated), "entity_updated");
    assert_eq!(sse_event_name(SseKind::EntityUpdated), "entity_updated");
}

#[test]
fn tool_result_summary_caps_at_two_hundred_chars() {
    assert_eq!(tool_result_summary("short"), "short");
    let long = "é".repeat(250);
    assert_eq!(tool_result_summary(&long).chars().count(), 200);
}

#[test]
fn retry_after_is_whole_seconds() {
    assert_eq!(retry_after_secs(2_999), 2);
    assert_eq!(retry_after_secs(0), 0);
}

#[test]
fn broadcast_events_map_to_their_sse_names() {
    let name = |t| sse_event_name(sse_kind_of(t));
    assert_eq!(name(BroadcastTag::Inference(InferenceTag::Text)), "token");
    assert_eq!(name(BroadcastTag::Inference(InferenceTag::Failed)), "inference_error");
    assert_eq!(name(BroadcastTag::Inference(InferenceTag::EntityUpdated)), "entity_updated");
    assert_eq!(name(BroadcastTag::Inference(InferenceTag::Paused)), "inference_paused");
    assert_eq!(name(BroadcastTag::NewNotification), "notification");
    assert_eq!(name(BroadcastTag::TaskUpdate), "task_update");
    assert_eq!(name(BroadcastTag::EntityUpdated), "entity_updated");
    assert_eq!(payload_chat_id(BroadcastTag::Title, Some("c1")), Some("c1".to_string()));
    assert_eq!(payload_chat_id(BroadcastTag::Inference(InferenceTag::Start), None), Some(String::new()));
    assert_eq!(payload_chat_id(BroadcastTag::InferenceCount, Some("c1")), None);
}

use std::time::Duration;

use frona_server::delivery::{
    after_hitl_report, backoff_for, dispatch_after, first_dispatch_ask, plan_inbound_prompt, plan_send, record_carrier_status,
    record_segment_complete, record_segment_failure, record_segment_progress, retry_delay_ms,
    segment_view, step_outcome, synthesize_self_contact, CarrierStatus, DeliverHitlReport,
    Delivery, DeliveryState, PolicyAsk, SegmentOutcome, SendStep, DELIVERY_MAX_ATTEMPTS,
};
use frona_server::error::{ChannelError, ChannelErrorKind};
use frona_server::hitl::ToolStatus;
use frona_server::models::DispatchMode;

use frona_server::delivery::{outbound_decision, OutboundDecision};
use frona_server::broadcast::EntityAction;
use frona_server::delivery::{message_event_in_space, streaming_chat};
use frona_server::delivery::{hitl_offer_outcome, pending_hitl_batch};
use frona_server::hitl::{Hitl, HitlDelivery, HitlRequest, ToolCall};
use frona_server::delivery::reconcile_orphans;

fn fresh() -> Delivery {
    Delivery {
        state: DeliveryState::Pending,
        attempts: 0,
        tool_index: 0,
        last_error: None,
        failure_kind: None,
        last_attempt_at: None,
        next_attempt_at: None,
        sent_at: None,
        delivered_at: None,
    }
}

#[test]
fn backoff_is_cap_at_last() {
    assert_eq!(backoff_for(0), Duration::from_secs(0));
    assert_eq!(backoff_for(1), Duration::from_secs(5));
    assert_eq!(backoff_for(2), Duration::from_secs(25));
    assert_eq!(backoff_for(3), Duration::from_secs(120));
    assert_eq!(backoff_for(4), Duration::from_secs(600));
    assert_eq!(backoff_for(5), Duration::from_secs(600));
    assert_eq!(backoff_for(99), Duration::from_secs(600));
}

#[test]
fn channel_error_kind_terminality() {
    assert!(!ChannelErrorKind::Transient.is_terminal());
    assert!(ChannelErrorKind::Forbidden.is_terminal());
    assert!(ChannelErrorKind::NotFound.is_terminal());
    assert!(ChannelErrorKind::PayloadInvalid.is_terminal());
    assert!(ChannelErrorKind::PayloadTooLarge.is_terminal());
    assert!(ChannelErrorKind::Unauthorized.is_terminal());
    assert!(ChannelErrorKind::Other.is_terminal());
}

#[test]
fn backoff_never_shrinks() {
    for a in 0..20u32 {
        assert!(backoff_for(a) <= backoff_for(a + 1));
        assert!(backoff_for(a) <= Duration::from_secs(600));
    }
}

#[test]
fn channel_error_describe_and_hint() {
    let e = ChannelError::terminal("nope".into(), ChannelErrorKind::Forbidden);
    assert_eq!(e.describe(), "Forbidden: nope");
    let t = ChannelError::transient("slow".into()).with_retry_hint(Duration::from_secs(3));
    assert_eq!(t.kind, ChannelErrorKind::Transient);
    assert_eq!(t.retry_hint, Some(Duration::from_secs(3)));
}

#[test]
fn retry_delay_prefers_the_hint() {
    let hinted = ChannelError::transient("x".into()).with_retry_hint(Duration::from_millis(1500));
    assert_eq!(retry_delay_ms(&hinted, 3), 1500);
    assert_eq!(retry_delay_ms(&ChannelError::transient("x".into()), 2), 25_000);
}

#[test]
fn transient_failure_schedules_a_retry() {
    let mut d = fresh();
    record_segment_failure(&mut d, 1_000, &ChannelError::transient("boom".into()));
    assert_eq!(d.state, DeliveryState::Failed);
    assert_eq!(d.attempts, 1);
    assert_eq!(d.last_error.as_deref(), Some("boom"));
    assert_eq!(d.failure_kind, Some(ChannelErrorKind::Transient));
    assert_eq!(d.last_attempt_at, Some(1_000));
    assert_eq!(d.next_attempt_at, Some(6_000));
}

#[test]
fn terminal_failure_is_not_retried() {
    let mut d = fresh();
    let e = ChannelError::terminal("gone".into(), ChannelErrorKind::NotFound);
    record_segment_failure(&mut d, 1_000, &e);
    assert_eq!(d.next_attempt_at, None);
}

#[test]
fn failures_stop_at_the_attempt_cap() {
    let mut d = fresh();
    for i in 0..DELIVERY_MAX_ATTEMPTS {
        record_segment_failure(&mut d, 10, &ChannelError::transient("x".into()));
        if i + 1 < DELIVERY_MAX_ATTEMPTS {
            assert!(d.next_attempt_at.is_some());
        }
    }
    assert_eq!(d.attempts, DELIVERY_MAX_ATTEMPTS);
    assert_eq!(d.next_attempt_at, None);
}

#[test]
fn progress_and_completion() {
    let mut d = fresh();
    record_segment_progress(&mut d, 7);
    assert_eq!(d.tool_index, 1);
    assert_eq!(d.next_attempt_at, Some(7));
    record_segment_complete(&mut d, 9);
    assert_eq!(d.state, DeliveryState::Sent);
    assert_eq!(d.sent_at, Some(9));
    assert_eq!(d.next_attempt_at, None);
}

#[test]
fn carrier_status_updates_the_record() {
    let mut d = fresh();
    record_segment_complete(&mut d, 1);
    record_carrier_status(&mut d, 5, CarrierStatus::Delivered);
    assert_eq!(d.state, DeliveryState::Delivered);
    assert_eq!(d.delivered_at, Some(5));
    record_carrier_status(&mut d, 6, CarrierStatus::Failed { error: "carrier".into() });
    assert_eq!(d.state, DeliveryState::Failed);
    assert_eq!(d.last_error.as_deref(), Some("carrier"));
    assert_eq!(d.next_attempt_at, None);
}

#[test]
fn plan_send_walks_the_segments() {
    let text = segment_view(None, Some("hi"));
    let blank = segment_view(None, Some("  "));
    let pending = segment_view(Some((ToolStatus::Pending, false)), None);
    let parked = segment_view(Some((ToolStatus::Pending, true)), None);
    let mut d = fresh();
    let segs = [text, blank];
    assert_eq!(plan_send(None, DispatchMode::Message, true, Some(&d), &segs), SendStep::SendTool(0));
    d.tool_index = 1;
    assert_eq!(plan_send(None, DispatchMode::Message, true, Some(&d), &segs), SendStep::Skip);
    d.tool_index = 2;
    assert_eq!(plan_send(None, DispatchMode::Message, true, Some(&d), &segs), SendStep::SendFinal);
    d.tool_index = 0;
    assert_eq!(
        plan_send(None, DispatchMode::Message, true, Some(&d), &[pending]),
        SendStep::DeliverHitls
    );
    assert_eq!(
        plan_send(Some(DispatchMode::Signal), DispatchMode::Message, true, Some(&d), &segs),
        SendStep::Finish
    );
    assert_eq!(plan_send(None, DispatchMode::Message, false, Some(&d), &segs), SendStep::Finish);
    assert_eq!(plan_send(None, DispatchMode::Message, true, None, &segs), SendStep::Finish);
    d.state = DeliveryState::Sent;
    assert_eq!(plan_send(None, DispatchMode::Message, true, Some(&d), &segs), SendStep::Finish);
    let _ = parked;
}

#[test]
fn outcomes_of_steps() {
    assert_eq!(step_outcome(SendStep::SendTool(0), true), SegmentOutcome::Continue);
    assert_eq!(step_outcome(SendStep::SendTool(0), false), SegmentOutcome::Halted);
    assert_eq!(step_outcome(SendStep::SendFinal, true), SegmentOutcome::Done);
    assert_eq!(step_outcome(SendStep::Park, true), SegmentOutcome::Halted);
    assert_eq!(
        after_hitl_report(DeliverHitlReport { attempted: 2, delivered: 1 }),
        Some(SegmentOutcome::Halted)
    );
    assert_eq!(
        after_hitl_report(DeliverHitlReport { attempted: 2, delivered: 2 }),
        Some(SegmentOutcome::Continue)
    );
    assert_eq!(after_hitl_report(DeliverHitlReport { attempted: 0, delivered: 0 }), None);
}

#[test]
fn self_contact_carries_the_address() {
    let c = synthesize_self_contact(Some(("u1", "Alice")), "+1555");
    assert_eq!(c.user_id, "u1");
    assert_eq!(c.name, "Alice");
    assert_eq!(c.addresses, vec!["+1555".to_string()]);
    let anon = synthesize_self_contact(None, "+1555");
    assert_eq!(anon.id, "");
}

#[test]
fn inbound_prompt_plan() {
    assert!(plan_inbound_prompt(DispatchMode::Message, Some("Bob"), &[]).is_none());
    let cats = vec![
        ("otp".to_string(), "a code".to_string()),
        ("link".to_string(), "a URL".to_string()),
    ];
    let p = plan_inbound_prompt(DispatchMode::Message, Some("Bob"), &cats).unwrap();
    assert_eq!(p.template, "channel/message.md");
    assert_eq!(p.sender_block, " from Bob");
    assert_eq!(p.awaiting_list, "- otp: a code\n- link: a URL");
    let s = plan_inbound_prompt(DispatchMode::Signal, None, &[]).unwrap();
    assert_eq!(s.template, "channel/signal.md");
    assert_eq!(s.sender_block, "");
}

fn decide(mode: DispatchMode, message_allowed: bool, signal_allowed: bool) -> Option<DispatchMode> {
    let mut ask = first_dispatch_ask(mode);
    loop {
        let allowed = match ask {
            PolicyAsk::ReceiveMessage => message_allowed,
            PolicyAsk::ReceiveSignal => signal_allowed,
        };
        match dispatch_after(ask, allowed) {
            Ok(d) => return d,
            Err(next) => ask = next,
        }
    }
}

#[test]
fn message_channel_falls_back_to_signal_when_messages_are_denied() {
    assert_eq!(decide(DispatchMode::Message, true, false), Some(DispatchMode::Message));
    assert_eq!(decide(DispatchMode::Message, false, true), Some(DispatchMode::Signal));
    assert_eq!(decide(DispatchMode::Message, false, false), None);
}

#[test]
fn signal_channel_only_asks_about_signals() {
    assert_eq!(first_dispatch_ask(DispatchMode::Signal), PolicyAsk::ReceiveSignal);
    assert_eq!(decide(DispatchMode::Signal, true, true), Some(DispatchMode::Signal));
    assert_eq!(decide(DispatchMode::Signal, true, false), None);
}

#[test]
fn outbound_decision_checks_role_status_delivery_and_mode() {
    let m = DispatchMode::Message;
    assert_eq!(outbound_decision(false, true, None, None, m), OutboundDecision::NotAgentReply);
    assert_eq!(outbound_decision(true, false, None, None, m), OutboundDecision::NotReady);
    assert_eq!(outbound_decision(true, true, Some(DeliveryState::Sent), None, m), OutboundDecision::AlreadyTerminal);
    assert_eq!(outbound_decision(true, true, Some(DeliveryState::Failed), None, m), OutboundDecision::AlreadyTerminal);
    assert_eq!(outbound_decision(true, true, Some(DeliveryState::Pending), None, m), OutboundDecision::Deliver);
    assert_eq!(outbound_decision(true, true, None, Some(DispatchMode::Signal), m), OutboundDecision::NotMessageMode);
    assert_eq!(outbound_decision(true, true, None, Some(m), DispatchMode::Signal), OutboundDecision::Deliver);
    assert_eq!(outbound_decision(true, true, None, None, DispatchMode::Signal), OutboundDecision::NotMessageMode);
}

#[test]
fn outbound_events_are_filtered_by_table_action_and_space() {
    assert!(message_event_in_space("message", EntityAction::Created, Some("s1"), "s1"));
    assert!(message_event_in_space("message", EntityAction::Updated, Some("s1"), "s1"));
    assert!(!message_event_in_space("message", EntityAction::Deleted, Some("s1"), "s1"));
    assert!(!message_event_in_space("chat", EntityAction::Created, Some("s1"), "s1"));
    assert!(!message_event_in_space("message", EntityAction::Created, Some("s2"), "s1"));
    assert!(!message_event_in_space("message", EntityAction::Created, None, "s1"));
    assert_eq!(streaming_chat(Some("s1"), "s1", Some("c1")), Some("c1"));
    assert_eq!(streaming_chat(Some("s2"), "s1", Some("c1")), None);
    assert_eq!(streaming_chat(None, "s1", Some("c1")), None);
    assert_eq!(streaming_chat(Some("s1"), "s1", None), None);
}

#[test]
fn only_pending_undelivered_requests_are_offered() {
    let call = |id: &str, status: Option<ToolStatus>, delivered: bool| ToolCall {
        id: id.to_string(),
        hitl: status.map(|status| Hitl {
            prompt: "ok?".to_string(),
            url: String::new(),
            request: HitlRequest::Question { options: vec!["a".to_string()] },
            status,
            response: None,
            delivery: if delivered {
                Some(HitlDelivery { external_message_id: "m1".to_string() })
            } else {
                None
            },
        }),
    };
    let calls = vec![
        call("t0", None, false),
        call("t1", Some(ToolStatus::Pending), false),
        call("t2", Some(ToolStatus::Pending), true),
        call("t3", Some(ToolStatus::Resolved), false),
        call("t4", Some(ToolStatus::Pending), false),
    ];
    assert_eq!(pending_hitl_batch(&calls), vec![1, 4]);
    assert!(pending_hitl_batch(&[]).is_empty());
}

#[test]
fn recovery_stamps_only_message_mode_orphans() {
    let modes = [None, Some(DispatchMode::Signal), Some(DispatchMode::Message), None];
    assert_eq!(reconcile_orphans(DispatchMode::Message, &modes), vec![0, 2, 3]);
    assert!(reconcile_orphans(DispatchMode::Signal, &modes).is_empty());
}

#[test]
fn offer_report_counts_and_pairs_confirmed_deliveries() {
    let d = |id: &str| HitlDelivery { external_message_id: id.to_string() };
    let (report, pairs) = hitl_offer_outcome(&[1, 4, 6], vec![d("m1"), d("m2")]);
    assert_eq!(report, DeliverHitlReport { attempted: 3, delivered: 2 });
    assert_eq!(pairs, vec![(1, d("m1")), (4, d("m2"))]);
    let (report, pairs) = hitl_offer_outcome(&[], vec![]);
    assert_eq!(report, DeliverHitlReport { attempted: 0, delivered: 0 });
    assert!(pairs.is_empty());
}

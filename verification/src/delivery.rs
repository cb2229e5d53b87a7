//! Outbound delivery bookkeeping of the channel manager: how each send
//! attempt updates a message's delivery record, when a failed delivery is
//! retried, and which step a send attempt takes next.

use vstd::prelude::*;
use std::time::Duration;
use crate::error::{ChannelError, ChannelErrorKind};
use crate::hitl::{HitlDelivery, ToolCall, ToolStatus};
use crate::models::DispatchMode;
use crate::text::{chars_of, equals_str, is_blank, is_blank_str, join_with};
use crate::broadcast::EntityAction;

verus! {

/// A delivery is retried at most this many times in all.
pub const DELIVERY_MAX_ATTEMPTS: u32 = 5u32;

/// Seconds to wait before the next attempt after `attempts` failures: none
/// before the first, then 5 s, 25 s, 2 min and 10 min, capped there.
pub open spec fn backoff_secs(attempts: u32) -> u64 {
    if attempts == 0 {
        0
    } else if attempts == 1 {
        5
    } else if attempts == 2 {
        25
    } else if attempts == 3 {
        120
    } else {
        600
    }
}

/// The duration of `secs` seconds (std's `Duration::from_secs`).
pub uninterp spec fn secs_duration(secs: u64) -> Duration;

/// The whole milliseconds in a duration (std's `Duration::as_millis`).
pub uninterp spec fn duration_ms(d: Duration) -> u128;

/// std's `Duration::from_secs`: a duration of `secs` whole seconds, that is
/// `secs * 1000` milliseconds.
#[verifier::external_body]
pub(crate) fn duration_from_secs(secs: u64) -> (r: Duration)
    ensures
        r == secs_duration(secs),
        duration_ms(r) == secs * 1000,
{
    Duration::from_secs(secs)
}

/// std's `Duration::as_millis`: the whole milliseconds of a duration.
#[verifier::external_body]
pub(crate) fn duration_as_millis(d: &Duration) -> (r: u128)
    ensures
        r == duration_ms(*d),
{
    d.as_millis()
}

/// How long to wait before the next attempt after `attempts` failures.
pub fn backoff_for(attempts: u32) -> (r: Duration)
    ensures
        r == secs_duration(backoff_secs(attempts)),
        duration_ms(r) == backoff_secs(attempts) * 1000,
{
    let secs: u64 = if attempts == 0 {
        0
    } else if attempts == 1 {
        5
    } else if attempts == 2 {
        25
    } else if attempts == 3 {
        120
    } else {
        600
    };
    duration_from_secs(secs)
}

/// The backoff never shrinks as failures add up, and never exceeds ten
/// minutes.
pub proof fn law_backoff_monotone_and_capped(a: u32, b: u32)
    ensures
        a <= b ==> backoff_secs(a) <= backoff_secs(b),
        backoff_secs(a) <= 600,
{
}

#[derive(Debug, Clone, Copy, PartialEq, Eq, Structural)]
pub enum DeliveryState {
    Pending,
    Sent,
    Delivered,
    Failed,
}

/// The delivery record of an outbound message. Times are milliseconds since
/// the Unix epoch.
#[derive(Debug, Clone)]
pub struct Delivery {
    pub state: DeliveryState,
    /// Failed attempts so far.
    pub attempts: u32,
    /// Index of the next tool call segment to send.
    pub tool_index: u32,
    pub last_error: Option<String>,
    pub failure_kind: Option<ChannelErrorKind>,
    pub last_attempt_at: Option<i64>,
    pub next_attempt_at: Option<i64>,
    pub sent_at: Option<i64>,
    pub delivered_at: Option<i64>,
}

/// What a carrier reported about a message it was handed.
#[derive(Debug, Clone)]
pub enum CarrierStatus {
    Delivered,
    Failed { error: String },
}

/// How many pending requests were offered to the adapter and how many it
/// confirmed it rendered.
#[derive(Debug, Clone, Copy, PartialEq, Eq, Structural)]
pub struct DeliverHitlReport {
    pub attempted: usize,
    pub delivered: usize,
}

/// What a send attempt leaves to do.
#[derive(Debug, Clone, Copy, PartialEq, Eq, Structural)]
pub enum SegmentOutcome {
    Continue,
    Done,
    Halted,
}

/// Whether a failure of kind `kind`, bringing the count to `attempts`, ends
/// the delivery for good.
pub open spec fn gives_up(kind: ChannelErrorKind, attempts: u32) -> bool {
    kind.terminal_kind() || attempts >= DELIVERY_MAX_ATTEMPTS
}

/// Milliseconds to wait after the `attempts`-th failure: the provider's hint
/// when it gave one, else the backoff.
pub open spec fn retry_delay(hint: Option<Duration>, attempts: u32) -> int {
    match hint {
        Some(h) => duration_ms(h) as int,
        None => backoff_secs(attempts) * 1000,
    }
}

/// The failure count after one more failure.
pub open spec fn bumped(attempts: u32) -> u32 {
    if attempts < u32::MAX {
        (attempts + 1) as u32
    } else {
        attempts
    }
}

fn bump(a: u32) -> (r: u32)
    ensures
        r == bumped(a),
{
    if a < u32::MAX {
        a + 1
    } else {
        a
    }
}

/// Records that one segment was sent.
pub fn record_segment_progress(d: &mut Delivery, now: i64)
    ensures
        final(d).state == old(d).state,
        final(d).attempts == old(d).attempts,
        final(d).tool_index == bumped(old(d).tool_index),
        final(d).last_error is None,
        final(d).failure_kind is None,
        final(d).last_attempt_at == Some(now),
        final(d).next_attempt_at == Some(now),
        final(d).sent_at == old(d).sent_at,
        final(d).delivered_at == old(d).delivered_at,
{
    d.last_attempt_at = Some(now);
    d.tool_index = if d.tool_index < u32::MAX {
        d.tool_index + 1
    } else {
        d.tool_index
    };
    d.last_error = None;
    d.failure_kind = None;
    d.next_attempt_at = Some(now);
}

/// Records that the final segment was sent.
pub fn record_segment_complete(d: &mut Delivery, now: i64)
    ensures
        final(d).state == DeliveryState::Sent,
        final(d).attempts == old(d).attempts,
        final(d).tool_index == old(d).tool_index,
        final(d).last_error is None,
        final(d).failure_kind is None,
        final(d).last_attempt_at == Some(now),
        final(d).next_attempt_at is None,
        final(d).sent_at == Some(now),
        final(d).delivered_at == old(d).delivered_at,
{
    d.state = DeliveryState::Sent;
    d.sent_at = Some(now);
    d.last_attempt_at = Some(now);
    d.next_attempt_at = None;
    d.last_error = None;
    d.failure_kind = None;
}

/// Milliseconds to wait before retrying after `err` made `attempts` failures.
pub fn retry_delay_ms(err: &ChannelError, attempts: u32) -> (r: u128)
    ensures
        r == retry_delay(err.retry_hint, attempts),
{
    match &err.retry_hint {
        Some(h) => duration_as_millis(h),
        None => {
            let b = backoff_for(attempts);
            duration_as_millis(&b)
        },
    }
}

/// Records a failed attempt: counts it, keeps the error and schedules the
/// next attempt after [`retry_delay`], unless the error is terminal or the
/// attempts are used up, in which case no retry is scheduled.
pub fn record_segment_failure(d: &mut Delivery, now: i64, err: &ChannelError)
    requires
        !gives_up(err.kind, bumped(old(d).attempts)) ==> now + retry_delay(
            err.retry_hint,
            bumped(old(d).attempts),
        ) <= i64::MAX,
    ensures
        final(d).state == DeliveryState::Failed,
        final(d).attempts == bumped(old(d).attempts),
        final(d).tool_index == old(d).tool_index,
        final(d).last_error matches Some(m) && m@ == err.message@,
        final(d).failure_kind == Some(err.kind),
        final(d).last_attempt_at == Some(now),
        final(d).next_attempt_at == (if gives_up(err.kind, final(d).attempts) {
            None
        } else {
            Some((now + retry_delay(err.retry_hint, final(d).attempts)) as i64)
        }),
        final(d).sent_at == old(d).sent_at,
        final(d).delivered_at == old(d).delivered_at,
{
    d.last_attempt_at = Some(now);
    d.attempts = bump(d.attempts);
    d.last_error = Some(err.message.clone());
    d.failure_kind = Some(err.kind);
    let terminal = err.kind.is_terminal() || d.attempts >= DELIVERY_MAX_ATTEMPTS;
    d.state = DeliveryState::Failed;
    if terminal {
        d.next_attempt_at = None;
    } else {
        let delay = retry_delay_ms(err, d.attempts);
        let at = (now as i128) + (delay as i128);
        d.next_attempt_at = Some(at as i64);
    }
}

/// Records what the carrier reported: a confirmed delivery, or a failure
/// that is not retried.
pub fn record_carrier_status(d: &mut Delivery, now: i64, status: CarrierStatus)
    ensures
        match status {
            CarrierStatus::Delivered => {
                &&& final(d).state == DeliveryState::Delivered
                &&& final(d).delivered_at == Some(now)
                &&& final(d).last_error is None
                &&& final(d).next_attempt_at == old(d).next_attempt_at
            },
            CarrierStatus::Failed { error } => {
                &&& final(d).state == DeliveryState::Failed
                &&& final(d).last_error matches Some(m) && m@ == error@
                &&& final(d).next_attempt_at is None
                &&& final(d).delivered_at == old(d).delivered_at
            },
        },
        final(d).attempts == old(d).attempts,
        final(d).tool_index == old(d).tool_index,
        final(d).sent_at == old(d).sent_at,
        final(d).failure_kind == old(d).failure_kind,
        final(d).last_attempt_at == old(d).last_attempt_at,
{
    match status {
        CarrierStatus::Delivered => {
            d.state = DeliveryState::Delivered;
            d.delivered_at = Some(now);
            d.last_error = None;
        },
        CarrierStatus::Failed { error } => {
            d.state = DeliveryState::Failed;
            d.last_error = Some(error);
            d.next_attempt_at = None;
        },
    }
}

/// What the send loop knows of the tool call at a delivery cursor: its
/// pending request's status and whether that was delivered, and whether
/// the call carries text for the user.
#[derive(Debug, Clone, Copy, PartialEq, Eq, Structural)]
pub struct SegmentView {
    pub hitl_status: Option<ToolStatus>,
    pub hitl_delivered: bool,
    pub has_text: bool,
}

/// What the send loop does next for a message.
#[derive(Debug, Clone, Copy, PartialEq, Eq, Structural)]
pub enum SendStep {
    /// Nothing to send: the message is done.
    Finish,
    /// Offer the pending requests from the cursor on to the adapter.
    DeliverHitls,
    /// Wait: a delivered request at the cursor awaits its answer.
    Park,
    /// Move the cursor past this tool call without sending.
    Skip,
    /// Send the text of the tool call at this index.
    SendTool(u32),
    /// Send the final answer.
    SendFinal,
}

/// The step for the tool call at `idx` once pending requests are handled:
/// a delivered pending request parks the loop, an answered one is skipped,
/// a call without text is skipped, other calls are sent, and past the last
/// call the final answer is sent.
pub open spec fn segment_step(idx: u32, segs: Seq<SegmentView>) -> SendStep {
    if idx < segs.len() {
        let s = segs[idx as int];
        if s.hitl_status == Some(ToolStatus::Pending) && s.hitl_delivered {
            SendStep::Park
        } else if s.hitl_status == Some(ToolStatus::Resolved) || s.hitl_status == Some(ToolStatus::Denied) {
            SendStep::Skip
        } else if !s.has_text {
            SendStep::Skip
        } else {
            SendStep::SendTool(idx)
        }
    } else {
        SendStep::SendFinal
    }
}

/// The next step for a message: nothing unless it goes out as a message,
/// is complete (or has no status), has a delivery that is not yet sent;
/// pending requests at the cursor are offered first.
pub open spec fn send_step(
    msg_mode: Option<DispatchMode>,
    channel_mode: DispatchMode,
    status_sendable: bool,
    delivery: Option<(DeliveryState, u32)>,
    segs: Seq<SegmentView>,
) -> SendStep {
    let mode = match msg_mode {
        Some(m) => m,
        None => channel_mode,
    };
    if mode != DispatchMode::Message || !status_sendable {
        SendStep::Finish
    } else {
        match delivery {
            None => SendStep::Finish,
            Some((state, idx)) => if state == DeliveryState::Sent || state == DeliveryState::Delivered {
                SendStep::Finish
            } else if idx < segs.len() && segs[idx as int].hitl_status == Some(ToolStatus::Pending) {
                SendStep::DeliverHitls
            } else {
                segment_step(idx, segs)
            },
        }
    }
}

/// The step after pending requests were offered, see [`segment_step`].
pub fn plan_segment(tool_index: u32, segments: &[SegmentView]) -> (r: SendStep)
    ensures
        r == segment_step(tool_index, segments@),
{
    if (tool_index as usize) < segments.len() {
        let s = segments[tool_index as usize];
        if s.hitl_status == Some(ToolStatus::Pending) && s.hitl_delivered {
            SendStep::Park
        } else if s.hitl_status == Some(ToolStatus::Resolved) || s.hitl_status == Some(ToolStatus::Denied) {
            SendStep::Skip
        } else if !s.has_text {
            SendStep::Skip
        } else {
            SendStep::SendTool(tool_index)
        }
    } else {
        SendStep::SendFinal
    }
}

/// Decides the next step of sending a message, see [`send_step`].
pub fn plan_send(
    msg_mode: Option<DispatchMode>,
    channel_mode: DispatchMode,
    status_sendable: bool,
    delivery: Option<&Delivery>,
    segments: &[SegmentView],
) -> (r: SendStep)
    ensures
        r == send_step(
            msg_mode,
            channel_mode,
            status_sendable,
            match delivery {
                Some(d) => Some((d.state, d.tool_index)),
                None => None,
            },
            segments@,
        ),
{
    let mode = match msg_mode {
        Some(m) => m,
        None => channel_mode,
    };
    if mode != DispatchMode::Message || !status_sendable {
        return SendStep::Finish;
    }
    let d = match delivery {
        Some(d) => d,
        None => return SendStep::Finish,
    };
    if d.state == DeliveryState::Sent || d.state == DeliveryState::Delivered {
        return SendStep::Finish;
    }
    if (d.tool_index as usize) < segments.len() && segments[d.tool_index as usize].hitl_status == Some(ToolStatus::Pending) {
        return SendStep::DeliverHitls;
    }
    plan_segment(d.tool_index, segments)
}

/// What the loop does after the adapter was offered pending requests: a
/// partial render parks it, a full one continues, and an empty offer falls
/// through to [`plan_segment`].
pub fn after_hitl_report(report: DeliverHitlReport) -> (r: Option<SegmentOutcome>)
    ensures
        report.delivered < report.attempted ==> r == Some(SegmentOutcome::Halted),
        report.delivered >= report.attempted && report.attempted > 0 ==> r == Some(SegmentOutcome::Continue),
        report.delivered >= report.attempted && report.attempted == 0 ==> r is None,
{
    if report.delivered < report.attempted {
        Some(SegmentOutcome::Halted)
    } else if report.attempted > 0 {
        Some(SegmentOutcome::Continue)
    } else {
        None
    }
}

/// The outcome of a step once it was carried out (`succeeded` says whether
/// the adapter call went through): sends and skips continue, the final
/// send finishes, a failed send or a park halts.
pub fn step_outcome(step: SendStep, succeeded: bool) -> (r: SegmentOutcome)
    ensures
        r == match step {
            SendStep::Finish => SegmentOutcome::Done,
            SendStep::Park => SegmentOutcome::Halted,
            SendStep::Skip => SegmentOutcome::Continue,
            SendStep::SendTool(_) => if succeeded { SegmentOutcome::Continue } else { SegmentOutcome::Halted },
            SendStep::SendFinal => if succeeded { SegmentOutcome::Done } else { SegmentOutcome::Halted },
            SendStep::DeliverHitls => if succeeded { SegmentOutcome::Continue } else { SegmentOutcome::Halted },
        },
{
    match step {
        SendStep::Finish => SegmentOutcome::Done,
        SendStep::Park => SegmentOutcome::Halted,
        SendStep::Skip => SegmentOutcome::Continue,
        SendStep::SendTool(_) => if succeeded { SegmentOutcome::Continue } else { SegmentOutcome::Halted },
        SendStep::SendFinal => if succeeded { SegmentOutcome::Done } else { SegmentOutcome::Halted },
        SendStep::DeliverHitls => if succeeded { SegmentOutcome::Continue } else { SegmentOutcome::Halted },
    }
}

/// A tool call as the send loop sees it; a call has text for the user when
/// its turn text is not blank.
pub fn segment_view(hitl: Option<(ToolStatus, bool)>, turn_text: Option<&str>) -> (r: SegmentView)
    ensures
        r.hitl_status == match hitl { Some((s, _)) => Some(s), None => None::<ToolStatus> },
        r.hitl_delivered == match hitl { Some((_, d)) => d, None => false },
        r.has_text == match turn_text { Some(t) => !is_blank(t@), None => false },
{
    SegmentView {
        hitl_status: match hitl { Some((s, _)) => Some(s), None => None },
        hitl_delivered: match hitl { Some((_, d)) => d, None => false },
        has_text: match turn_text { Some(t) => !is_blank_str(t), None => false },
    }
}

/// A contact standing for the channel's owner, for authorization only.
#[derive(Debug, Clone)]
pub struct PolicyContact {
    pub id: String,
    pub user_id: String,
    pub name: String,
    pub address: String,
    pub addresses: Vec<String>,
}

/// The contact for the owner's own address: the owner's id and name when
/// known (empty otherwise), with that one address.
pub fn synthesize_self_contact(user: Option<(&str, &str)>, address: &str) -> (r: PolicyContact)
    ensures
        r.address@ == address@,
        r.addresses@.len() == 1 && r.addresses@[0]@ == address@,
        match user {
            Some((id, name)) => r.id@ == id@ && r.user_id@ == id@ && r.name@ == name@,
            None => r.id@.len() == 0 && r.user_id@.len() == 0 && r.name@.len() == 0,
        },
{
    let (id, user_id, name) = match user {
        Some((id, name)) => (String::from_str(id), String::from_str(id), String::from_str(name)),
        None => (String::new(), String::new(), String::new()),
    };
    let mut addresses = Vec::new();
    addresses.push(String::from_str(address));
    PolicyContact { id, user_id, name, address: String::from_str(address), addresses }
}

/// The parts of the prompt that frames an inbound message for the agent.
#[derive(Debug, Clone)]
pub struct InboundPromptPlan {
    /// The prompt template to render.
    pub template: &'static str,
    /// `" from {sender}"`, or empty.
    pub sender_block: String,
    /// `"- {category}: {info}"` per awaited category, one per line.
    pub awaiting_list: String,
}

/// A question put to the policy service about the channel's agent.
#[derive(Debug, Clone, Copy, PartialEq, Eq, Structural)]
pub enum PolicyAsk {
    /// May the agent receive the message as a message?
    ReceiveMessage,
    /// May the agent receive the message as a signal?
    ReceiveSignal,
}

/// How an inbound message reaches the agent, from the policy's answers: as
/// a message when the channel is in message mode and that is allowed, else
/// as a signal when that is allowed, else not at all.
pub open spec fn effective_mode(channel_mode: DispatchMode, message_allowed: bool, signal_allowed: bool) -> Option<DispatchMode> {
    if channel_mode == DispatchMode::Message && message_allowed {
        Some(DispatchMode::Message)
    } else if signal_allowed {
        Some(DispatchMode::Signal)
    } else {
        None
    }
}

/// The first question when choosing how an inbound message is dispatched:
/// a message-mode channel asks about messages, a signal-mode one about
/// signals.
pub fn first_dispatch_ask(channel_mode: DispatchMode) -> (r: PolicyAsk)
    ensures
        r == first_dispatch_ask_of(channel_mode),
{
    match channel_mode {
        DispatchMode::Message => PolicyAsk::ReceiveMessage,
        DispatchMode::Signal => PolicyAsk::ReceiveSignal,
    }
}

/// What follows the policy's answer to `asked`: `Ok` with the dispatch
/// mode once decided, `Err` with the next question. A denied message falls
/// back to asking about signals.
pub open spec fn dispatch_step(asked: PolicyAsk, allowed: bool) -> Result<Option<DispatchMode>, PolicyAsk> {
    match asked {
        PolicyAsk::ReceiveMessage => if allowed {
            Ok(Some(DispatchMode::Message))
        } else {
            Err(PolicyAsk::ReceiveSignal)
        },
        PolicyAsk::ReceiveSignal => if allowed {
            Ok(Some(DispatchMode::Signal))
        } else {
            Ok(None)
        },
    }
}

/// Decides after the policy's answer, see [`dispatch_step`].
pub fn dispatch_after(asked: PolicyAsk, allowed: bool) -> (r: Result<Option<DispatchMode>, PolicyAsk>)
    ensures
        r == dispatch_step(asked, allowed),
{
    match asked {
        PolicyAsk::ReceiveMessage => if allowed {
            Ok(Some(DispatchMode::Message))
        } else {
            Err(PolicyAsk::ReceiveSignal)
        },
        PolicyAsk::ReceiveSignal => if allowed {
            Ok(Some(DispatchMode::Signal))
        } else {
            Ok(None)
        },
    }
}

/// Asking the policy as [`first_dispatch_ask`] and [`dispatch_after`] say
/// ends after at most two questions, in the mode that `effective_mode`
/// gives for the policy's answers.
pub proof fn law_dispatch_questions_decide(channel_mode: DispatchMode, message_allowed: bool, signal_allowed: bool)
    ensures
        ({
            let first = first_dispatch_ask_of(channel_mode);
            let expected = effective_mode(channel_mode, message_allowed, signal_allowed);
            match dispatch_step(first, answer_of(first, message_allowed, signal_allowed)) {
                Ok(d) => d == expected,
                Err(next) => dispatch_step(next, answer_of(next, message_allowed, signal_allowed))
                    == Ok::<Option<DispatchMode>, PolicyAsk>(expected),
            }
        }),
{
}

/// The first question for a channel mode (see [`first_dispatch_ask`]).
pub open spec fn first_dispatch_ask_of(channel_mode: DispatchMode) -> PolicyAsk {
    if channel_mode == DispatchMode::Message { PolicyAsk::ReceiveMessage } else { PolicyAsk::ReceiveSignal }
}

/// The policy's answer to `ask`, given its answers to both questions.
pub open spec fn answer_of(ask: PolicyAsk, message_allowed: bool, signal_allowed: bool) -> bool {
    match ask {
        PolicyAsk::ReceiveMessage => message_allowed,
        PolicyAsk::ReceiveSignal => signal_allowed,
    }
}

/// Whether and how to frame an inbound message: nothing in message mode
/// when no category is awaited; otherwise the mode's template, the sender
/// and the list of awaited categories.
pub fn plan_inbound_prompt(mode: DispatchMode, sender: Option<&str>, awaiting_categories: &[(String, String)]) -> (r: Option<InboundPromptPlan>)
    ensures
        (mode == DispatchMode::Message && awaiting_categories@.len() == 0) <==> r is None,
        r matches Some(p) ==> {
            &&& p.template@ == (if mode == DispatchMode::Message { "channel/message.md"@ } else { "channel/signal.md"@ })
            &&& p.sender_block@ == match sender { Some(s) => " from "@ + s@, None => Seq::<char>::empty() }
            &&& p.awaiting_list@ == join_with(
                Seq::new(awaiting_categories@.len(), |k: int| "- "@ + awaiting_categories@[k].0@ + ": "@ + awaiting_categories@[k].1@),
                "\n"@,
            )
        },
{
    if mode == DispatchMode::Message && awaiting_categories.len() == 0 {
        return None;
    }
    let sender_block = match sender {
        Some(s) => {
            let mut b = String::from_str(" from ");
            b.append(s);
            b
        },
        None => String::new(),
    };
    let ghost lines = Seq::new(awaiting_categories@.len(), |k: int| "- "@ + awaiting_categories@[k].0@ + ": "@ + awaiting_categories@[k].1@);
    let mut list = String::new();
    let mut k: usize = 0;
    while k < awaiting_categories.len()
        invariant
            k <= awaiting_categories@.len(),
            lines == Seq::new(awaiting_categories@.len(), |k: int| "- "@ + awaiting_categories@[k].0@ + ": "@ + awaiting_categories@[k].1@),
            list@ == join_with(lines.subrange(0, k as int), "\n"@),
        decreases awaiting_categories@.len() - k,
    {
        proof {
            let next = lines.subrange(0, k + 1);
            assert(next.drop_last() =~= lines.subrange(0, k as int));
            if k == 0 {
                assert(lines.subrange(0, k as int) =~= Seq::<Seq<char>>::empty());
            }
        }
        if k > 0 {
            list.append("\n");
        }
        list.append("- ");
        list.append(awaiting_categories[k].0.as_str());
        list.append(": ");
        list.append(awaiting_categories[k].1.as_str());
        k = k + 1;
    }
    assert(lines.subrange(0, awaiting_categories@.len() as int) =~= lines);
    let template = if mode == DispatchMode::Message {
        "channel/message.md"
    } else {
        "channel/signal.md"
    };
    Some(InboundPromptPlan { template, sender_block, awaiting_list: list })
}

/// What the outbound dispatcher does with a message that was created or
/// updated in its space.
#[derive(Debug, Clone, Copy, PartialEq, Eq, Structural)]
pub enum OutboundDecision {
    /// Neither an agent reply nor a task's completion report.
    NotAgentReply,
    /// The message is not complete yet (or failed).
    NotReady,
    /// Its delivery was already sent or failed for good.
    AlreadyTerminal,
    /// The message's mode, else the channel's, is not `Message`.
    NotMessageMode,
    /// Look the chat up and, if it is bound to a channel, send.
    Deliver,
}

/// The checks, in turn: a reply for the user (or a task's report),
/// complete or without status, whose delivery is neither sent nor failed,
/// going out in `Message` mode.
pub open spec fn outbound_decision_of(
    agent_reply: bool,
    status_ready: bool,
    delivery_state: Option<DeliveryState>,
    msg_mode: Option<DispatchMode>,
    channel_mode: DispatchMode,
) -> OutboundDecision {
    let mode = match msg_mode {
        Some(m) => m,
        None => channel_mode,
    };
    if !agent_reply {
        OutboundDecision::NotAgentReply
    } else if !status_ready {
        OutboundDecision::NotReady
    } else if delivery_state == Some(DeliveryState::Sent) || delivery_state == Some(DeliveryState::Failed) {
        OutboundDecision::AlreadyTerminal
    } else if mode != DispatchMode::Message {
        OutboundDecision::NotMessageMode
    } else {
        OutboundDecision::Deliver
    }
}

/// Decides whether a message event leads to a send, see [`outbound_decision_of`].
pub fn outbound_decision(
    agent_reply: bool,
    status_ready: bool,
    delivery_state: Option<DeliveryState>,
    msg_mode: Option<DispatchMode>,
    channel_mode: DispatchMode,
) -> (r: OutboundDecision)
    ensures
        r == outbound_decision_of(agent_reply, status_ready, delivery_state, msg_mode, channel_mode),
{
    let mode = match msg_mode {
        Some(m) => m,
        None => channel_mode,
    };
    if !agent_reply {
        OutboundDecision::NotAgentReply
    } else if !status_ready {
        OutboundDecision::NotReady
    } else if delivery_state == Some(DeliveryState::Sent) || delivery_state == Some(DeliveryState::Failed) {
        OutboundDecision::AlreadyTerminal
    } else if mode != DispatchMode::Message {
        OutboundDecision::NotMessageMode
    } else {
        OutboundDecision::Deliver
    }
}

/// Whether an entity event concerns the dispatcher: a message created or
/// updated in the channel's own space.
pub fn message_event_in_space(table: &str, action: EntityAction, event_space_id: Option<&str>, space_id: &str) -> (r: bool)
    ensures
        r == (table@ == "message"@ && action != EntityAction::Deleted
            && (event_space_id matches Some(e) && e@ == space_id@)),
{
    let tv = chars_of(table);
    if !equals_str(&tv, "message") || action == EntityAction::Deleted {
        return false;
    }
    match event_space_id {
        Some(e) => {
            let ev = chars_of(e);
            equals_str(&ev, space_id)
        },
        None => false,
    }
}

/// The chat a streaming event is about, where it concerns the channel's
/// space; the chat must still turn out to be bound to a channel.
pub fn streaming_chat<'a>(event_space_id: Option<&str>, space_id: &str, chat_id: Option<&'a str>) -> (r: Option<&'a str>)
    ensures
        r == (if event_space_id matches Some(e) && e@ == space_id@ { chat_id } else { None }),
{
    match event_space_id {
        Some(e) => {
            let ev = chars_of(e);
            if equals_str(&ev, space_id) {
                chat_id
            } else {
                None
            }
        },
        None => None,
    }
}

/// A request that waits to be offered to the adapter: pending, and not
/// delivered yet.
pub open spec fn awaits_offer(tc: ToolCall) -> bool {
    tc.hitl matches Some(h) && h.status == ToolStatus::Pending && h.delivery is None
}

/// The indices of the tool calls whose requests wait to be offered, in
/// order.
pub open spec fn offer_batch(tcs: Seq<ToolCall>) -> Seq<usize>
    decreases tcs.len(),
{
    if tcs.len() == 0 {
        Seq::empty()
    } else {
        let rest = offer_batch(tcs.drop_last());
        if awaits_offer(tcs.last()) {
            rest.push((tcs.len() - 1) as usize)
        } else {
            rest
        }
    }
}

/// The batch of pending, undelivered requests of a message's tool calls
/// that the adapter is offered, by index; the report's `attempted` is its
/// length.
pub fn pending_hitl_batch(tool_calls: &[ToolCall]) -> (r: Vec<usize>)
    ensures
        r@ == offer_batch(tool_calls@),
{
    let mut r: Vec<usize> = Vec::new();
    let mut i: usize = 0;
    while i < tool_calls.len()
        invariant
            i <= tool_calls@.len(),
            r@ == offer_batch(tool_calls@.subrange(0, i as int)),
        decreases tool_calls@.len() - i,
    {
        proof {
            assert(tool_calls@.subrange(0, i + 1).drop_last() =~= tool_calls@.subrange(0, i as int));
        }
        let waits = match &tool_calls[i].hitl {
            Some(h) => h.status == ToolStatus::Pending && h.delivery.is_none(),
            None => false,
        };
        if waits {
            r.push(i);
        }
        i = i + 1;
    }
    proof {
        assert(tool_calls@.subrange(0, tool_calls@.len() as int) =~= tool_calls@);
    }
    r
}

/// The messages that recovery stamps with a pending delivery, by index:
/// none unless the channel dispatches messages; then each message not
/// marked for signal mode (those are kept for the record only).
pub open spec fn orphans_of(channel_mode: DispatchMode, msg_modes: Seq<Option<DispatchMode>>) -> Seq<usize>
    decreases msg_modes.len(),
{
    if channel_mode != DispatchMode::Message || msg_modes.len() == 0 {
        Seq::empty()
    } else {
        let rest = orphans_of(channel_mode, msg_modes.drop_last());
        if msg_modes.last() == Some(DispatchMode::Signal) {
            rest
        } else {
            rest.push((msg_modes.len() - 1) as usize)
        }
    }
}

/// Which undelivered, completed messages of a channel get a pending
/// delivery on recovery, see [`orphans_of`]; `msg_modes` holds each
/// message's own dispatch mode.
pub fn reconcile_orphans(channel_mode: DispatchMode, msg_modes: &[Option<DispatchMode>]) -> (r: Vec<usize>)
    ensures
        r@ == orphans_of(channel_mode, msg_modes@),
{
    let mut r: Vec<usize> = Vec::new();
    if channel_mode != DispatchMode::Message {
        return r;
    }
    let mut i: usize = 0;
    while i < msg_modes.len()
        invariant
            channel_mode == DispatchMode::Message,
            i <= msg_modes@.len(),
            r@ == orphans_of(channel_mode, msg_modes@.subrange(0, i as int)),
        decreases msg_modes@.len() - i,
    {
        proof {
            assert(msg_modes@.subrange(0, i + 1).drop_last() =~= msg_modes@.subrange(0, i as int));
        }
        if msg_modes[i] != Some(DispatchMode::Signal) {
            r.push(i);
        }
        i = i + 1;
    }
    proof {
        assert(msg_modes@.subrange(0, msg_modes@.len() as int) =~= msg_modes@);
    }
    r
}

/// What an offer of pending requests comes to: the report (`attempted` is
/// the batch's size, `delivered` the number of deliveries the adapter
/// confirmed) and, in order, each batch item with the confirmed delivery to
/// record on it. An empty batch is not offered: its report is all zeros.
pub fn hitl_offer_outcome(batch: &[usize], deliveries: Vec<HitlDelivery>) -> (r: (DeliverHitlReport, Vec<(usize, HitlDelivery)>))
    ensures
        r.0.attempted == batch@.len(),
        r.0.delivered == deliveries@.len(),
        r.1@.len() == if batch@.len() <= deliveries@.len() { batch@.len() } else { deliveries@.len() },
        forall|i: int| 0 <= i < r.1@.len() ==> (#[trigger] r.1@[i]) == (batch@[i], deliveries@[i]),
{
    let report = DeliverHitlReport { attempted: batch.len(), delivered: deliveries.len() };
    let n = if batch.len() <= deliveries.len() { batch.len() } else { deliveries.len() };
    let ghost all = deliveries@;
    let mut rest = deliveries;
    let mut pairs: Vec<(usize, HitlDelivery)> = Vec::new();
    let mut i: usize = 0;
    while i < n
        invariant
            n <= batch@.len(),
            n <= all.len(),
            i <= n,
            rest@ == all.subrange(i as int, all.len() as int),
            pairs@.len() == i,
            forall|k: int| 0 <= k < i ==> (#[trigger] pairs@[k]) == (batch@[k], all[k]),
        decreases n - i,
    {
        let d = rest.remove(0);
        pairs.push((batch[i], d));
        proof {
            assert(rest@ =~= all.subrange(i + 1, all.len() as int));
        }
        i = i + 1;
    }
    (report, pairs)
}

/// A tool call whose request was delivered and still awaits its answer
/// halts the send loop there, whatever the call's text: nothing past it is
/// sent until the answer moves the cursor.
pub proof fn law_delivered_pending_request_parks(idx: u32, segs: Seq<SegmentView>)
    requires
        idx < segs.len(),
        segs[idx as int].hitl_status == Some(ToolStatus::Pending),
        segs[idx as int].hitl_delivered,
    ensures
        segment_step(idx, segs) == SendStep::Park,
{
}

/// Each step of the send loop at cursor `idx`: past the last tool call the
/// final answer goes out; a delivered request still awaiting its answer
/// parks the loop; an answered or denied one, or a call without text, is
/// passed over; any other call's text is sent.
pub proof fn law_segment_steps(idx: u32, segs: Seq<SegmentView>)
    ensures
        idx >= segs.len() ==> segment_step(idx, segs) == SendStep::SendFinal,
        idx < segs.len() ==> {
            let s = segs[idx as int];
            &&& (s.hitl_status == Some(ToolStatus::Pending) && s.hitl_delivered)
                ==> segment_step(idx, segs) == SendStep::Park
            &&& (s.hitl_status == Some(ToolStatus::Resolved) || s.hitl_status == Some(ToolStatus::Denied))
                ==> segment_step(idx, segs) == SendStep::Skip
            &&& (s.hitl_status is None || (s.hitl_status == Some(ToolStatus::Pending) && !s.hitl_delivered))
                ==> segment_step(idx, segs) == (if s.has_text { SendStep::SendTool(idx) } else { SendStep::Skip })
        },
{
}

} // verus!

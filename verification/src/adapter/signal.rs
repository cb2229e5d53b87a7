//! Signal through a linked device: the manifest, typing notifications and
//! how send failures classify.

use vstd::prelude::*;
use crate::adapter::common::{bare_manifest, link};
use crate::error::{ChannelError, ChannelErrorKind};
use crate::models::ChannelManifest;
use crate::delivery::{duration_as_millis, duration_ms};
use std::time::{Duration, SystemTime, UNIX_EPOCH};

verus! {

#[verifier::external_type_specification]
#[verifier::external_body]
pub struct ExSystemTime(SystemTime);

/// std's `SystemTime::now`: a reading of the system clock. It depends on
/// when it is called, so nothing is stated of it.
#[verifier::external_body]
fn system_now() -> (r: SystemTime) {
    SystemTime::now()
}

/// std's `SystemTime::duration_since` against `UNIX_EPOCH`: how long after
/// the epoch `t` lies, `None` where `t` is earlier. What the clock read is
/// not known here, so nothing is stated of the duration.
#[verifier::external_body]
fn since_unix_epoch(t: &SystemTime) -> (r: Option<Duration>) {
    match t.duration_since(UNIX_EPOCH) {
        Ok(d) => Some(d),
        Err(_) => None,
    }
}

/// The milliseconds of a time since the Unix epoch, cut to 64 bits; a
/// clock set before the epoch reads as zero.
pub open spec fn epoch_millis(since: Option<Duration>) -> u64 {
    match since {
        Some(d) => duration_ms(d) as u64,
        None => 0,
    }
}

/// Milliseconds from how long after the Unix epoch the clock reads.
pub fn millis_since_epoch(since: Option<Duration>) -> (r: u64)
    ensures
        r == epoch_millis(since),
{
    match since {
        Some(d) => {
            let ms = duration_as_millis(&d);
            ms as u64
        },
        None => 0,
    }
}

/// The current time in milliseconds since the Unix epoch: whatever the
/// clock reads, it is such a count, or zero for a clock before the epoch.
pub fn now_ms() -> (r: u64)
    ensures
        exists|since: Option<Duration>| r == epoch_millis(since),
{
    let t = system_now();
    let since = since_unix_epoch(&t);
    let r = millis_since_epoch(since);
    assert(r == epoch_millis(since));
    r
}

/// A Signal channel needs no configuration.
#[derive(Debug, Clone)]
pub struct SignalConfig {}

/// The factory of Signal channels.
pub struct SignalAdapterFactory;

impl SignalAdapterFactory {
    /// No fields; the account is linked as a secondary device, and the links
    /// point at Signal's terms and privacy policy.
    pub fn manifest(&self) -> (m: ChannelManifest)
        ensures
            m.id@ == "signal"@,
            m.display_name@ == "Signal"@,
            m.config_fields@.len() == 0,
            m.setup_instructions is Some,
            m.external_links@.len() == 2,
            m.external_links@[0].url@ == "https://signal.org/legal/"@,
            m.external_links@[1].url@ == "https://signal.org/privacy/"@,
    {
        let mut m = bare_manifest(
            "signal",
            "Signal",
            "Chat with your agent from Signal by linking your account as a secondary device.",
        );
        m.setup_instructions = Some(String::from_str(
            "Start the channel, then scan the code from Signal under Settings > Linked devices.",
        ));
        m.external_links.push(link("Terms of service", "https://signal.org/legal/"));
        m.external_links.push(link("Privacy policy", "https://signal.org/privacy/"));
        m
    }
}

/// Whether a typing notification starts or stops.
#[derive(Debug, Clone, Copy, PartialEq, Eq, Structural)]
pub enum TypingAction {
    Started,
    Stopped,
}

/// How a Signal send failed, by what it means for delivery.
#[derive(Debug, Clone, Copy, PartialEq, Eq, Structural)]
pub enum SignalFailure {
    UnknownGroup,
    UnknownRecipient,
    NotYetRegistered,
    AlreadyRegistered,
    RelinkNecessary,
    NotPrimaryDevice,
    CaptchaRequired,
    PushChallengeRequired,
    UnverifiedRegistrationSession,
    PhoneNumber,
    InvalidThread,
    InvalidUsername,
    InvalidDeviceId,
    ParseContact,
    Io,
    Timeout,
    MessagePipeNotStarted,
    MessagePipeInterrupted,
    Service,
    MessageSender,
    Protocol,
    Other,
}

/// The channel error kind of a Signal failure: an unknown recipient is not
/// found; a device that must be re-linked is unauthorized; a malformed
/// address is an invalid payload; the rest is transient.
pub open spec fn signal_kind(f: SignalFailure) -> ChannelErrorKind {
    match f {
        SignalFailure::UnknownGroup | SignalFailure::UnknownRecipient => ChannelErrorKind::NotFound,
        SignalFailure::NotYetRegistered | SignalFailure::AlreadyRegistered
        | SignalFailure::RelinkNecessary | SignalFailure::NotPrimaryDevice
        | SignalFailure::CaptchaRequired | SignalFailure::PushChallengeRequired
        | SignalFailure::UnverifiedRegistrationSession => ChannelErrorKind::Unauthorized,
        SignalFailure::PhoneNumber | SignalFailure::InvalidThread | SignalFailure::InvalidUsername
        | SignalFailure::InvalidDeviceId | SignalFailure::ParseContact => ChannelErrorKind::PayloadInvalid,
        _ => ChannelErrorKind::Transient,
    }
}

/// The channel error for a failed Signal send with text `msg`.
pub fn classify_signal_error(failure: SignalFailure, msg: String) -> (r: ChannelError)
    ensures
        r.kind == signal_kind(failure),
        r.message@ == msg@,
        r.retry_hint is None,
{
    let kind = match failure {
        SignalFailure::UnknownGroup | SignalFailure::UnknownRecipient => ChannelErrorKind::NotFound,
        SignalFailure::NotYetRegistered | SignalFailure::AlreadyRegistered
        | SignalFailure::RelinkNecessary | SignalFailure::NotPrimaryDevice
        | SignalFailure::CaptchaRequired | SignalFailure::PushChallengeRequired
        | SignalFailure::UnverifiedRegistrationSession => ChannelErrorKind::Unauthorized,
        SignalFailure::PhoneNumber | SignalFailure::InvalidThread | SignalFailure::InvalidUsername
        | SignalFailure::InvalidDeviceId | SignalFailure::ParseContact => ChannelErrorKind::PayloadInvalid,
        _ => ChannelErrorKind::Transient,
    };
    if kind.is_terminal() {
        ChannelError::terminal(msg, kind)
    } else {
        ChannelError::transient(msg)
    }
}

} // verus!

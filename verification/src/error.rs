//! Errors that channel adapters report, and whether a failed delivery may
//! be retried.

use vstd::prelude::*;
use std::time::Duration;

verus! {

#[derive(Debug, Clone, Copy, PartialEq, Eq, Structural)]
pub enum ChannelErrorKind {
    Transient,
    Forbidden,
    NotFound,
    PayloadInvalid,
    PayloadTooLarge,
    Unauthorized,
    Other,
}

impl ChannelErrorKind {
    /// Every kind but `Transient` is terminal: retrying cannot help.
    pub open spec fn terminal_kind(self) -> bool {
        !(self is Transient)
    }

    pub fn is_terminal(self) -> (r: bool)
        ensures
            r == self.terminal_kind(),
    {
        !matches!(self, ChannelErrorKind::Transient)
    }
}

/// A failure reported by a channel adapter.
#[derive(Debug)]
pub struct ChannelError {
    pub message: String,
    pub kind: ChannelErrorKind,
    /// How long the provider asked us to wait before retrying.
    pub retry_hint: Option<Duration>,
}

impl ChannelError {
    pub fn transient(message: String) -> (r: Self)
        ensures
            r.message@ == message@,
            r.kind == ChannelErrorKind::Transient,
            r.retry_hint is None,
    {
        ChannelError { message, kind: ChannelErrorKind::Transient, retry_hint: None }
    }

    /// An error that retrying cannot fix; `kind` is never `Transient`.
    pub fn terminal(message: String, kind: ChannelErrorKind) -> (r: Self)
        requires
            kind.terminal_kind(),
        ensures
            r.message@ == message@,
            r.kind == kind,
            r.retry_hint is None,
    {
        ChannelError { message, kind, retry_hint: None }
    }

    pub fn with_retry_hint(self, after: Duration) -> (r: Self)
        ensures
            r.message@ == self.message@,
            r.kind == self.kind,
            r.retry_hint == Some(after),
    {
        let mut e = self;
        e.retry_hint = Some(after);
        e
    }

    /// `"{kind:?}: {message}"`, what the error displays as.
    pub fn describe(&self) -> (r: String)
        ensures
            r@ == kind_name(self.kind) + ": "@ + self.message@,
    {
        let mut r = String::from_str(kind_label(self.kind));
        r.append(": ");
        r.append(self.message.as_str());
        r
    }
}

/// The name of an error kind as `Debug` prints it.
pub open spec fn kind_name(k: ChannelErrorKind) -> Seq<char> {
    match k {
        ChannelErrorKind::Transient => "Transient"@,
        ChannelErrorKind::Forbidden => "Forbidden"@,
        ChannelErrorKind::NotFound => "NotFound"@,
        ChannelErrorKind::PayloadInvalid => "PayloadInvalid"@,
        ChannelErrorKind::PayloadTooLarge => "PayloadTooLarge"@,
        ChannelErrorKind::Unauthorized => "Unauthorized"@,
        ChannelErrorKind::Other => "Other"@,
    }
}

fn kind_label(k: ChannelErrorKind) -> (r: &'static str)
    ensures
        r@ == kind_name(k),
{
    match k {
        ChannelErrorKind::Transient => "Transient",
        ChannelErrorKind::Forbidden => "Forbidden",
        ChannelErrorKind::NotFound => "NotFound",
        ChannelErrorKind::PayloadInvalid => "PayloadInvalid",
        ChannelErrorKind::PayloadTooLarge => "PayloadTooLarge",
        ChannelErrorKind::Unauthorized => "Unauthorized",
        ChannelErrorKind::Other => "Other",
    }
}

/// The server's error, by the response it maps to.
#[derive(Debug, Clone, PartialEq)]
pub enum AppError {
    Validation(String),
    NotFound(String),
    Forbidden(String),
    Internal(String),
    Tool(String),
}

} // verus!

//! What the entity supervisor decides on each health check: restart an
//! entity that died, or give up on it once it used its restarts, and the
//! notices it sends the owner.

use vstd::prelude::*;
use std::time::Duration;
use crate::render::{decimal, decimal_chars};
use crate::text::string_from_chars;

verus! {

/// How often the supervisor checks its entities, how many restarts an
/// entity gets, and after how long an idle one is hibernated.
#[derive(Debug, Clone, Copy)]
pub struct SupervisorConfig {
    pub health_check_interval: Duration,
    pub max_restart_attempts: u32,
    pub hibernate_after: Option<Duration>,
}

/// What becomes of an entity found dead.
#[derive(Debug, Clone, PartialEq)]
pub enum DeadAction {
    /// Start it again.
    Restart,
    /// Mark it failed with `reason`, notify the owner, try an automatic fix.
    GiveUp { reason: String },
}

/// An entity that already used `max` restarts is given up on; any other is
/// restarted.
pub fn dead_entity_action(restarts: u32, max_restart_attempts: u32) -> (r: DeadAction)
    ensures
        restarts < max_restart_attempts ==> r == DeadAction::Restart,
        restarts >= max_restart_attempts ==> (r matches DeadAction::GiveUp { reason } && reason@
            == "exceeded "@ + decimal(max_restart_attempts as nat) + " restart attempts"@),
{
    if restarts >= max_restart_attempts {
        let digits = decimal_chars(max_restart_attempts as u64);
        let mut reason = String::from_str("exceeded ");
        let d = string_from_chars(&digits, 0, digits.len());
        assert(d@ =~= decimal(max_restart_attempts as nat));
        reason.append(d.as_str());
        reason.append(" restart attempts");
        DeadAction::GiveUp { reason }
    } else {
        DeadAction::Restart
    }
}

/// `"{label} '{name}' {what}"`, the title of a notice about an entity.
pub open spec fn notice_title(label: Seq<char>, name: Seq<char>, what: Seq<char>) -> Seq<char> {
    label + " '"@ + name + "' "@ + what
}

fn title(label: &str, name: &str, what: &str) -> (r: String)
    ensures
        r@ == notice_title(label@, name@, what@),
{
    let mut r = String::from_str(label);
    r.append(" '");
    r.append(name);
    r.append("' ");
    r.append(what);
    r
}

/// The title of the notice that an entity crashed for good.
pub fn crash_title(label: &str, name: &str) -> (r: String)
    ensures
        r@ == notice_title(label@, name@, "crashed"@),
{
    title(label, name, "crashed")
}

/// The title of the notice that an entity failed to start on restore.
pub fn restore_failure_title(label: &str, name: &str) -> (r: String)
    ensures
        r@ == notice_title(label@, name@, "failed to start"@),
{
    title(label, name, "failed to start")
}

/// Whether the supervisor looks for idle entities to hibernate at all.
pub fn hibernates(config: &SupervisorConfig) -> (r: bool)
    ensures
        r == config.hibernate_after is Some,
{
    config.hibernate_after.is_some()
}

} // verus!

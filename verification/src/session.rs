//! The decisions made while a chat session is put together: which tools
//! the agent gets for this turn, and which MCP servers its prompt names.

use vstd::prelude::*;
use crate::text::{chars_of, equals_str, starts_with_str, string_from_chars};

verus! {

/// The facts about a chat's task that decide whether task tools apply.
#[derive(Debug, Clone, Copy, PartialEq, Eq, Structural)]
pub struct TaskFacts {
    /// The task recurs on a schedule.
    pub cron: bool,
    /// The task's status is pending or in progress.
    pub open: bool,
}

/// Task tools (and the task prompt) apply only to a one-off task that is
/// still pending or in progress: a recurring task that completed itself
/// would stop firing for good.
pub open spec fn task_applies(task: Option<TaskFacts>) -> bool {
    match task {
        Some(t) => !t.cron && t.open,
        None => false,
    }
}

/// Whether the chat's task puts the session in task mode.
pub fn task_in_progress(task: Option<TaskFacts>) -> (r: bool)
    ensures
        r == task_applies(task),
{
    match task {
        Some(t) => !t.cron && t.open,
        None => false,
    }
}

/// `send_message` starts a new user-facing message; the agent may use it
/// only in its own heartbeat chat.
pub fn send_message_allowed(chat_id: &str, heartbeat_chat_id: Option<&str>) -> (r: bool)
    ensures
        r == (heartbeat_chat_id matches Some(h) && h@ == chat_id@),
{
    match heartbeat_chat_id {
        Some(h) => {
            let hv = chars_of(h);
            equals_str(&hv, chat_id)
        },
        None => false,
    }
}

/// An MCP server the user has installed.
#[derive(Debug, Clone)]
pub struct McpServerView {
    pub handle: String,
    pub display_name: String,
    pub description: Option<String>,
    /// The server's status is running.
    pub running: bool,
}

/// The tool group under which a server's tools are registered.
pub open spec fn mcp_group(handle: Seq<char>) -> Seq<char> {
    "mcp:"@ + handle
}

/// Whether some allowed tool group is the server's.
pub open spec fn group_allowed(groups: Seq<String>, handle: Seq<char>) -> bool {
    exists|i: int| 0 <= i < groups.len() && (#[trigger] groups[i])@ == mcp_group(handle)
}

/// What the prompt says of a server: its description, else its display
/// name.
pub open spec fn server_blurb(s: McpServerView) -> Seq<char> {
    match s.description {
        Some(d) => d@,
        None => s.display_name@,
    }
}

/// The running servers whose tool group is allowed, in order, each with
/// its blurb.
pub open spec fn bridged(servers: Seq<McpServerView>, groups: Seq<String>) -> Seq<(Seq<char>, Seq<char>)>
    decreases servers.len(),
{
    if servers.len() == 0 {
        Seq::empty()
    } else {
        let rest = bridged(servers.drop_last(), groups);
        let s = servers.last();
        if s.running && group_allowed(groups, s.handle@) {
            rest.push((s.handle@, server_blurb(s)))
        } else {
            rest
        }
    }
}

/// Whether `group` is the tool group of the server `handle`.
fn names_server(group: &String, handle: &String) -> (r: bool)
    ensures
        r == (group@ == mcp_group(handle@)),
{
    let v = chars_of(group.as_str());
    if !starts_with_str(&v, "mcp:") {
        proof {
            reveal_strlit("mcp:");
            if group@ == mcp_group(handle@) {
                assert(v@.subrange(0, 4) =~= "mcp:"@);
            }
        }
        return false;
    }
    proof {
        reveal_strlit("mcp:");
    }
    let rest = string_from_chars(&v, 4, v.len());
    let r = rest == *handle;
    proof {
        if r {
            assert(group@ =~= mcp_group(handle@));
        } else if group@ == mcp_group(handle@) {
            assert(rest@ =~= handle@);
        }
    }
    r
}

fn group_listed(groups: &[String], handle: &String) -> (r: bool)
    ensures
        r == group_allowed(groups@, handle@),
{
    let mut i: usize = 0;
    while i < groups.len()
        invariant
            i <= groups@.len(),
            forall|j: int| 0 <= j < i ==> (#[trigger] groups@[j])@ != mcp_group(handle@),
        decreases groups@.len() - i,
    {
        if names_server(&groups[i], handle) {
            return true;
        }
        i = i + 1;
    }
    false
}

/// The MCP servers the system prompt lists: none unless the bridge is on;
/// then each running server whose tool group the agent may use, with its
/// description, or its display name where it has none.
pub fn bridged_mcp_servers(bridge_mode: bool, servers: &[McpServerView], allowed_tool_groups: &[String]) -> (r: Vec<(String, String)>)
    ensures
        bridge_mode ==> crate::text::pair_views(r@) == bridged(servers@, allowed_tool_groups@),
        !bridge_mode ==> r@.len() == 0,
{
    let mut out: Vec<(String, String)> = Vec::new();
    if !bridge_mode {
        return out;
    }
    let mut i: usize = 0;
    while i < servers.len()
        invariant
            i <= servers@.len(),
            crate::text::pair_views(out@) == bridged(servers@.subrange(0, i as int), allowed_tool_groups@),
        decreases servers@.len() - i,
    {
        let s = &servers[i];
        proof {
            assert(servers@.subrange(0, i + 1).drop_last() =~= servers@.subrange(0, i as int));
        }
        if s.running && group_listed(allowed_tool_groups, &s.handle) {
            let blurb = match &s.description {
                Some(d) => d.clone(),
                None => s.display_name.clone(),
            };
            out.push((s.handle.clone(), blurb));
            proof {
                assert(crate::text::pair_views(out@) =~= bridged(servers@.subrange(0, i as int), allowed_tool_groups@).push((s.handle@, server_blurb(*s))));
            }
        }
        i = i + 1;
    }
    proof {
        assert(servers@.subrange(0, servers@.len() as int) =~= servers@);
    }
    out
}

} // verus!

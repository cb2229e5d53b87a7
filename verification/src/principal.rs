//! Who acts: a user, an agent, an MCP server or an app, by id.

use vstd::prelude::*;

verus! {

#[derive(Debug, Clone, Copy, PartialEq, Eq, Hash, Structural)]
pub enum PrincipalKind {
    User,
    Agent,
    McpServer,
    App,
}

#[derive(Debug, Clone, PartialEq, Eq, Hash)]
pub struct Principal {
    pub kind: PrincipalKind,
    pub id: String,
}

impl Principal {
    pub fn user(id: &str) -> (r: Self)
        ensures
            r.kind == PrincipalKind::User,
            r.id@ == id@,
    {
        Principal { kind: PrincipalKind::User, id: String::from_str(id) }
    }

    pub fn agent(id: &str) -> (r: Self)
        ensures
            r.kind == PrincipalKind::Agent,
            r.id@ == id@,
    {
        Principal { kind: PrincipalKind::Agent, id: String::from_str(id) }
    }

    pub fn mcp_server(id: &str) -> (r: Self)
        ensures
            r.kind == PrincipalKind::McpServer,
            r.id@ == id@,
    {
        Principal { kind: PrincipalKind::McpServer, id: String::from_str(id) }
    }

    pub fn app(id: &str) -> (r: Self)
        ensures
            r.kind == PrincipalKind::App,
            r.id@ == id@,
    {
        Principal { kind: PrincipalKind::App, id: String::from_str(id) }
    }
}

} // verus!

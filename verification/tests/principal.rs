use frona_server::principal::{Principal, PrincipalKind};

#[test]
fn constructors_set_kind_and_id() {
    assert_eq!(
        Principal::user("u1"),
        Principal {
            kind: PrincipalKind::User,
            id: "u1".into()
        }
    );
    assert_eq!(
        Principal::agent("a1"),
        Principal {
            kind: PrincipalKind::Agent,
            id: "a1".into()
        }
    );
    assert_eq!(
        Principal::mcp_server("m1"),
        Principal {
            kind: PrincipalKind::McpServer,
            id: "m1".into()
        }
    );
    assert_eq!(
        Principal::app("p1"),
        Principal {
            kind: PrincipalKind::App,
            id: "p1".into()
        }
    );
}

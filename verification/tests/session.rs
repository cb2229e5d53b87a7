use frona_server::session::{bridged_mcp_servers, send_message_allowed, task_in_progress, McpServerView, TaskFacts};

fn server(handle: &str, display: &str, description: Option<&str>, running: bool) -> McpServerView {
    McpServerView {
        handle: handle.to_string(),
        display_name: display.to_string(),
        description: description.map(|d| d.to_string()),
        running,
    }
}

#[test]
fn send_message_only_in_heartbeat_chat() {
    assert!(send_message_allowed("chat-1", Some("chat-1")));
    assert!(!send_message_allowed("chat-1", Some("chat-2")));
    assert!(!send_message_allowed("chat-1", None));
    assert!(!send_message_allowed("chat-1", Some("chat-10")));
}

#[test]
fn task_mode_needs_open_one_off_task() {
    assert!(task_in_progress(Some(TaskFacts { cron: false, open: true })));
    assert!(!task_in_progress(Some(TaskFacts { cron: true, open: true })));
    assert!(!task_in_progress(Some(TaskFacts { cron: false, open: false })));
    assert!(!task_in_progress(None));
}

#[test]
fn bridged_servers_are_running_and_allowed() {
    let servers = vec![
        server("github", "GitHub", Some("Issues and PRs"), true),
        server("slack", "Slack", None, true),
        server("stopped", "Stopped", Some("x"), false),
        server("hidden", "Hidden", None, true),
    ];
    let groups = vec![
        "mcp:github".to_string(),
        "mcp:slack".to_string(),
        "mcp:stopped".to_string(),
        "web".to_string(),
        "mcp:hid".to_string(),
    ];
    let out = bridged_mcp_servers(true, &servers, &groups);
    assert_eq!(
        out,
        vec![
            ("github".to_string(), "Issues and PRs".to_string()),
            ("slack".to_string(), "Slack".to_string()),
        ]
    );
    assert!(bridged_mcp_servers(false, &servers, &groups).is_empty());
}

use frona_server::adapter::common::ExternalIdError;
use frona_server::adapter::discord::{
    build_discord_components, build_external_chat_id, button_rows, with_overflow_note, chunk_for_discord,
    is_discord_retryable_error, parse_external_id, should_skip, truncate_label, ButtonStyle,
    DiscordAdapterFactory, DiscordButton, DISCORD_MAX_MESSAGE_LEN,
};
use frona_server::hitl::{parse_callback_data, CallbackAction, HitlKind};

#[test]
fn manifest_declares_required_secret_bot_token() {
    let m = DiscordAdapterFactory.manifest();
    assert_eq!(m.id, "discord");
    assert_eq!(m.display_name, "Discord");
    let f = m
        .config_fields
        .iter()
        .find(|f| f.name == "bot_token")
        .expect("bot_token field missing");
    assert!(f.is_required);
    assert!(f.is_secret);
}

#[test]
fn discord_parse_external_id_dm() {
    let c = parse_external_id("dm:123456789012345678").unwrap();
    assert_eq!(c, 123456789012345678);
}

#[test]
fn parse_external_id_group() {
    let c = parse_external_id("group:987654321098765432").unwrap();
    assert_eq!(c, 987654321098765432);
}

#[test]
fn discord_parse_external_id_rejects_garbage() {
    assert!(parse_external_id("nonsense").is_err());
    assert!(parse_external_id("dm:").is_err());
    assert!(parse_external_id("group:").is_err());
    assert!(parse_external_id("group:not-a-number").is_err());
    assert!(parse_external_id("thread:123").is_err());
}

#[test]
fn parse_external_id_error_kinds() {
    assert!(matches!(
        parse_external_id("thread:123"),
        Err(ExternalIdError::Unrecognised(_))
    ));
    assert!(matches!(
        parse_external_id("group:not-a-number"),
        Err(ExternalIdError::InvalidNumber(_))
    ));
}

#[test]
fn build_external_chat_id_dm() {
    assert_eq!(build_external_chat_id(42, true), "dm:42");
}

#[test]
fn build_external_chat_id_group() {
    assert_eq!(build_external_chat_id(999, false), "group:999");
}

#[test]
fn external_chat_id_round_trips() {
    let id = build_external_chat_id(123456789012345678, false);
    assert_eq!(parse_external_id(&id), Ok(123456789012345678));
}

#[test]
fn should_skip_self_message() {
    let me = 1;
    assert!(should_skip(me, false, "hi", me));
}

#[test]
fn should_skip_bot_author() {
    assert!(should_skip(2, true, "hi", 1));
}

#[test]
fn should_skip_empty_content() {
    assert!(should_skip(2, false, "   ", 1));
}

#[test]
fn should_not_skip_human_message() {
    assert!(!should_skip(2, false, "hello", 1));
}

#[test]
fn chunk_for_discord_under_limit_returns_one_chunk() {
    let chunks = chunk_for_discord("hello world");
    assert_eq!(chunks, vec!["hello world".to_string()]);
}

#[test]
fn chunk_for_discord_splits_on_newline_boundary() {
    let line = "a".repeat(500);
    let blob = format!("{line}\n{line}\n{line}\n{line}\n{line}");
    let chunks = chunk_for_discord(&blob);
    assert!(chunks.len() >= 2, "expected at least 2 chunks, got {}", chunks.len());
    for c in &chunks {
        assert!(c.len() <= DISCORD_MAX_MESSAGE_LEN, "chunk exceeds limit: {}", c.len());
    }
    let rejoined: String = chunks.join("\n");
    assert_eq!(rejoined.replace('\n', ""), blob.replace('\n', ""));
}

#[test]
fn chunk_for_discord_falls_back_to_hard_split_when_no_boundary() {
    let blob = "x".repeat(2500);
    let chunks = chunk_for_discord(&blob);
    assert!(chunks.len() >= 2);
    for c in &chunks {
        assert!(c.len() <= DISCORD_MAX_MESSAGE_LEN);
    }
    let rejoined: String = chunks.concat();
    assert_eq!(rejoined, blob);
}

#[test]
fn chunk_for_discord_drops_leading_whitespace_of_the_next_chunk() {
    let blob = format!("{} {}", "a".repeat(1800), "b".repeat(300));
    let chunks = chunk_for_discord(&blob);
    assert_eq!(chunks.len(), 2);
    assert_eq!(chunks[1], "b".repeat(300));
}

#[test]
fn truncate_label_caps_at_eighty_chars() {
    assert_eq!(truncate_label("short"), "short");
    let long = "é".repeat(100);
    let cut = truncate_label(&long);
    assert_eq!(cut.chars().count(), 80);
    assert!(cut.ends_with('…'));
}

#[test]
fn retryable_statuses() {
    assert!(is_discord_retryable_error(Some(429)));
    assert!(is_discord_retryable_error(Some(503)));
    assert!(is_discord_retryable_error(None));
    assert!(!is_discord_retryable_error(Some(403)));
}

#[test]
fn components_for_approval_have_yes_no_and_link() {
    let rows = build_discord_components("tc1", &HitlKind::Approval, "https://x/y");
    assert_eq!(rows.len(), 2);
    assert_eq!(
        rows[0],
        vec![
            DiscordButton::Action {
                custom_id: "r:tc1:y".into(),
                label: "Yes".into(),
                style: ButtonStyle::Success
            },
            DiscordButton::Action {
                custom_id: "r:tc1:n".into(),
                label: "No".into(),
                style: ButtonStyle::Danger
            },
        ]
    );
    assert_eq!(
        rows[1],
        vec![DiscordButton::Link {
            url: "https://x/y".into(),
            label: "Open on web →".into()
        }]
    );
}

#[test]
fn components_for_choice_cap_at_five_and_drop_bad_links() {
    let options: Vec<String> = (0..7).map(|i| format!("opt{i}")).collect();
    let rows = build_discord_components("t", &HitlKind::Choice { options }, "ftp://x");
    assert_eq!(rows.len(), 5);
    assert_eq!(
        rows[4],
        vec![DiscordButton::Action {
            custom_id: "r:t:c:4".into(),
            label: "opt4".into(),
            style: ButtonStyle::Primary
        }]
    );
    assert!(build_discord_components("t", &HitlKind::External, "ftp://x").is_empty());
}

#[test]
fn discord_external_id_reads_back_its_channel() {
    for &(id, dm) in &[(0u64, true), (42, false), (u64::MAX, true), (987654321098765432, false)] {
        assert_eq!(parse_external_id(&build_external_chat_id(id, dm)), Ok(id));
    }
}

#[test]
fn discord_buttons_carry_callback_data_that_reads_back() {
    let rows = build_discord_components("tc-9", &HitlKind::Approval, "");
    let ids: Vec<String> = rows[0]
        .iter()
        .map(|b| match b {
            DiscordButton::Action { custom_id, .. } => custom_id.clone(),
            DiscordButton::Link { .. } => panic!("expected an action button"),
        })
        .collect();
    assert_eq!(
        parse_callback_data(&ids[0]),
        Ok(CallbackAction::Approval { tool_call_id: "tc-9".into(), approved: true })
    );
    assert_eq!(
        parse_callback_data(&ids[1]),
        Ok(CallbackAction::Approval { tool_call_id: "tc-9".into(), approved: false })
    );
    let choice = HitlKind::Choice { options: vec!["a".into(), "b".into(), "c".into()] };
    let rows = build_discord_components("tc-9", &choice, "");
    for (i, row) in rows.iter().enumerate() {
        match &row[0] {
            DiscordButton::Action { custom_id, .. } => assert_eq!(
                parse_callback_data(custom_id),
                Ok(CallbackAction::Choice { tool_call_id: "tc-9".into(), index: i })
            ),
            DiscordButton::Link { .. } => panic!("expected an action button"),
        }
    }
}

#[test]
fn attachment_buttons_go_in_rows_of_five_up_to_twenty_five() {
    let (rows, left_out) = button_rows((0..7).collect::<Vec<u32>>());
    assert_eq!(rows, vec![vec![0, 1, 2, 3, 4], vec![5, 6]]);
    assert_eq!(left_out, 0);
    let (rows, left_out) = button_rows((0..31).collect::<Vec<u32>>());
    assert_eq!(rows.len(), 5);
    assert!(rows.iter().all(|r| r.len() == 5));
    assert_eq!(rows[4], vec![20, 21, 22, 23, 24]);
    assert_eq!(left_out, 6);
    let (rows, left_out) = button_rows(Vec::<u32>::new());
    assert!(rows.is_empty());
    assert_eq!(left_out, 0);
}

#[test]
fn overflow_note_counts_the_attachments_left_out() {
    assert_eq!(with_overflow_note("hi", 0), "hi");
    assert_eq!(with_overflow_note("hi", 1), "hi\n\n(plus 1 more attachment \u{2014} see in app)");
    assert_eq!(with_overflow_note("", 12), "\n\n(plus 12 more attachments \u{2014} see in app)");
}

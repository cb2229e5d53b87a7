use std::time::Duration;

use frona_server::adapter::telegram::{
    bubble_chunks, build_inline_keyboard, TELEGRAM_MAX_MESSAGE_LEN, classify_telegram_error, parse_external_id, TelegramAdapterFactory,
    TelegramApiError, TelegramButton, TelegramFailure,
};
use frona_server::error::ChannelErrorKind;
use frona_server::hitl::HitlKind;

#[test]
fn manifest_has_bot_token_param() {
    let m = TelegramAdapterFactory.manifest();
    assert_eq!(m.id, "telegram");
    assert_eq!(m.display_name, "Telegram Bot");
    let bot_token = m
        .config_fields
        .iter()
        .find(|f| f.name == "bot_token")
        .expect("bot_token field must be declared");
    assert!(bot_token.is_required);
    assert!(bot_token.is_secret);
}

#[test]
fn telegram_parse_external_id_dm() {
    let (chat, thread) = parse_external_id("dm:12345").unwrap();
    assert_eq!(chat, 12345);
    assert!(thread.is_none());
}

#[test]
fn parse_external_id_group_negative() {
    let (chat, thread) = parse_external_id("group:-1001234567890").unwrap();
    assert_eq!(chat, -1001234567890);
    assert!(thread.is_none());
}

#[test]
fn parse_external_id_forum_topic() {
    let (chat, thread) = parse_external_id("group:-100123:topic:42").unwrap();
    assert_eq!(chat, -100123);
    assert!(thread.is_some());
    assert_eq!(thread, Some(42));
}

#[test]
fn telegram_parse_external_id_rejects_garbage() {
    assert!(parse_external_id("nonsense").is_err());
    assert!(parse_external_id("dm:notanumber").is_err());
    assert!(parse_external_id("group:1:topic:notanumber").is_err());
}

#[test]
fn parse_external_id_topic_only_on_groups() {
    assert!(parse_external_id("dm:1:topic:2").is_err());
    assert!(parse_external_id("group:1:topic:99999999999").is_err());
}

#[test]
fn build_inline_keyboard_approval_has_yes_no_and_url_row() {
    let kb = build_inline_keyboard("tc-1", &HitlKind::Approval, "https://x/chats/abc");
    assert_eq!(kb.len(), 2);
    assert_eq!(kb[0].len(), 2);
    assert_eq!(
        kb[0][0],
        TelegramButton::Callback {
            text: "Yes".into(),
            data: "r:tc-1:y".into()
        }
    );
    assert_eq!(
        kb[0][1],
        TelegramButton::Callback {
            text: "No".into(),
            data: "r:tc-1:n".into()
        }
    );
    match &kb[1][0] {
        TelegramButton::Url { text, url } => {
            assert_eq!(text, "Open on web →");
            assert_eq!(url, "https://x/chats/abc");
        }
        other => panic!("expected a URL button, got {other:?}"),
    }
}

#[test]
fn build_inline_keyboard_choice_has_only_option_rows() {
    let kb = build_inline_keyboard(
        "tc-1",
        &HitlKind::Choice {
            options: vec!["us".to_string(), "eu".to_string()],
        },
        "https://x/chats/abc",
    );
    assert_eq!(kb.len(), 2);
    assert_eq!(
        kb[0][0],
        TelegramButton::Callback {
            text: "us".into(),
            data: "r:tc-1:c:0".into()
        }
    );
    assert_eq!(
        kb[1][0],
        TelegramButton::Callback {
            text: "eu".into(),
            data: "r:tc-1:c:1".into()
        }
    );
}

#[test]
fn build_inline_keyboard_external_has_only_url_button() {
    let kb = build_inline_keyboard("tc-1", &HitlKind::External, "https://x/chats/abc");
    assert_eq!(kb.len(), 1);
    assert!(matches!(&kb[0][0], TelegramButton::Url { text, .. } if text == "Open on web →"));
}

#[test]
fn build_inline_keyboard_drops_an_unparsable_url() {
    assert!(build_inline_keyboard("t", &HitlKind::External, "not a url").is_empty());
    assert_eq!(build_inline_keyboard("t", &HitlKind::Approval, "not a url").len(), 1);
}

#[test]
fn classify_telegram_error_matrix() {
    let e = classify_telegram_error(&TelegramFailure::Api(TelegramApiError::BotBlocked), "m".into());
    assert_eq!(e.kind, ChannelErrorKind::Forbidden);
    let e = classify_telegram_error(&TelegramFailure::Api(TelegramApiError::ChatNotFound), "m".into());
    assert_eq!(e.kind, ChannelErrorKind::NotFound);
    let e = classify_telegram_error(&TelegramFailure::Api(TelegramApiError::InvalidToken), "m".into());
    assert_eq!(e.kind, ChannelErrorKind::Unauthorized);
    let e = classify_telegram_error(&TelegramFailure::Api(TelegramApiError::MessageIsTooLong), "m".into());
    assert_eq!(e.kind, ChannelErrorKind::PayloadTooLarge);
    let e = classify_telegram_error(&TelegramFailure::Api(TelegramApiError::CantParseEntities), "m".into());
    assert_eq!(e.kind, ChannelErrorKind::PayloadInvalid);
    let e = classify_telegram_error(&TelegramFailure::MigrateToChatId, "m".into());
    assert_eq!(e.kind, ChannelErrorKind::NotFound);
    let e = classify_telegram_error(&TelegramFailure::Network, "net".into());
    assert_eq!(e.kind, ChannelErrorKind::Transient);
    assert_eq!(e.message, "net");
}

#[test]
fn classify_telegram_error_keeps_retry_after() {
    let e = classify_telegram_error(&TelegramFailure::RetryAfter(Duration::from_secs(7)), "slow".into());
    assert_eq!(e.kind, ChannelErrorKind::Transient);
    assert_eq!(e.retry_hint, Some(Duration::from_secs(7)));
}

#[test]
fn bubble_chunks_convert_to_markdown_v2_before_splitting() {
    let splitter = frona_server::split::TelegramMarkdownV2Splitter::new(TELEGRAM_MAX_MESSAGE_LEN, None);
    let (chunks, v2) = bubble_chunks(&splitter, "Hello. **World**!");
    assert!(v2);
    assert_eq!(chunks.len(), 1);
    assert!(chunks[0].contains("\\."), "{:?}", chunks[0]);
    assert!(chunks[0].contains("*World*"), "{:?}", chunks[0]);
}

#[test]
fn bubble_chunks_split_long_replies_at_the_splitter_limit() {
    let splitter = frona_server::split::TelegramMarkdownV2Splitter::new(40, None);
    let text = "word ".repeat(40);
    let (chunks, v2) = bubble_chunks(&splitter, &text);
    assert!(v2);
    assert!(chunks.len() > 1);
    assert!(chunks.iter().all(|c| c.len() <= 44));
}

#[test]
fn build_inline_keyboard_normalizes_the_link() {
    let kb = build_inline_keyboard("t", &HitlKind::External, "HTTPS://Example.com");
    match &kb[0][0] {
        TelegramButton::Url { url, .. } => assert_eq!(url, "https://example.com/"),
        other => panic!("unexpected {other:?}"),
    }
}

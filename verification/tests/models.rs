use frona_server::error::AppError;
use frona_server::models::{
    missing_required_fields, ChannelConfigField, ChannelManifest, Chat, ChatType, DispatchMode,
    Entity, external_chat_id, resolve_config_values, show_resolved_defaults, ConfigRef,
};

use frona_server::models::channel_webhook_url;
use frona_server::models::{channel_needs_restart, ChannelSettings};

fn field(name: &str, is_required: bool, is_secret: bool) -> ChannelConfigField {
    ChannelConfigField {
        name: name.into(),
        description: None,
        is_required,
        is_secret,
        format: None,
        default_from: None,
        default_resolved: None,
    }
}

#[test]
fn manifest_struct_constructs() {
    let m = ChannelManifest {
        id: "telegram".into(),
        display_name: "Telegram".into(),
        description: "x".into(),
        config_fields: vec![ChannelConfigField {
            name: "bot_token".into(),
            description: Some("token from BotFather".into()),
            is_required: true,
            is_secret: true,
            format: Some("password".into()),
            default_from: None,
            default_resolved: None,
        }],
        webhook_url_visible: false,
        setup_instructions: None,
        external_links: vec![],
    };
    assert_eq!(m.id, "telegram");
    assert_eq!(m.config_fields.len(), 1);
    assert!(m.config_fields[0].is_secret);
}

#[test]
fn dispatch_mode_default_is_message() {
    assert_eq!(DispatchMode::default(), DispatchMode::Message);
}

#[test]
fn chat_type_from_external_id() {
    assert_eq!(ChatType::from_external_id("dm:12345"), ChatType::Direct);
    assert_eq!(ChatType::from_external_id("group:67890"), ChatType::Group);
    assert_eq!(ChatType::from_external_id("group:67890:topic:1"), ChatType::Group);
    assert_eq!(ChatType::from_external_id("anything-else"), ChatType::Group);
    assert_eq!(ChatType::from_external_id(""), ChatType::Group);
}

#[test]
fn chat_type_strings() {
    assert_eq!(ChatType::Direct.as_str(), "direct");
    assert_eq!(ChatType::Group.as_str(), "group");
}

#[test]
fn missing_required_fields_reports_unprovided_ones() {
    let m = ChannelManifest {
        id: "x".into(),
        display_name: "X".into(),
        description: String::new(),
        config_fields: vec![
            field("token", true, true),
            field("from", true, false),
            field("opt", false, false),
            field("sid", true, true),
        ],
        webhook_url_visible: false,
        setup_instructions: None,
        external_links: vec![],
    };
    let keys = vec!["from".to_string()];
    let creds = vec!["token".to_string()];
    let resolves = vec![false, false, false, false];
    assert_eq!(
        missing_required_fields(&m, &keys, &creds, &resolves),
        vec!["sid".to_string()]
    );
    let resolves = vec![false, false, false, true];
    assert!(missing_required_fields(&m, &keys, &creds, &resolves).is_empty());
    // A credential only stands in for a secret field.
    assert_eq!(
        missing_required_fields(&m, &[], &["from".to_string(), "token".to_string()], &resolves),
        vec!["from".to_string()]
    );
}

fn chat_with(external: Option<&str>) -> Chat {
    Chat {
        id: "chat-7".into(),
        user_id: "u".into(),
        space_id: None,
        task_id: None,
        agent_id: "a".into(),
        title: None,
        channel_external_id: external.map(|s| s.to_string()),
        archived_at: None,
        created_at: 0,
        updated_at: 0,
    }
}

#[test]
fn external_chat_id_requires_the_channel_id() {
    assert_eq!(external_chat_id(&chat_with(Some("dm:42"))), Ok("dm:42"));
    match external_chat_id(&chat_with(None)) {
        Err(AppError::Validation(m)) => {
            assert_eq!(m, "missing channel_external_id on Chat \u{2014} cannot deliver outbound")
        }
        other => panic!("unexpected {other:?}"),
    }
}

#[test]
fn chat_is_kept_in_the_chat_table_under_its_id() {
    let chat = Chat {
        id: "chat-7".into(),
        user_id: "u".into(),
        space_id: None,
        task_id: None,
        agent_id: "a".into(),
        title: None,
        channel_external_id: None,
        archived_at: None,
        created_at: 0,
        updated_at: 0,
    };
    assert_eq!(Chat::table(), "chat");
    assert_eq!(chat.id(), "chat-7");
}

fn pairs(v: &[(&str, &str)]) -> Vec<(String, String)> {
    v.iter().map(|(k, x)| (k.to_string(), x.to_string())).collect()
}

fn lookup<'a>(out: &'a [(String, String)], key: &str) -> Option<&'a str> {
    out.iter().find(|(k, _)| k == key).map(|(_, v)| v.as_str())
}

#[test]
fn resolved_config_prefers_secrets_then_settings_then_defaults() {
    let mut from_number = field("from_number", true, false);
    from_number.default_from = Some(ConfigRef { section: "sms".into(), field: "from".into() });
    let mut region = field("region", false, false);
    region.default_from = Some(ConfigRef { section: "sms".into(), field: "region".into() });
    let fields = vec![field("auth_token", true, true), from_number, region];
    let defaults = vec![None, Some("+1000".to_string()), Some("us".to_string())];
    let config = pairs(&[("from_number", "+1555"), ("extra", "x")]);
    let secrets = pairs(&[("auth_token", "s1"), ("auth_token", "s2")]);
    let out = resolve_config_values(&fields, &defaults, &config, &secrets).unwrap();
    assert_eq!(lookup(&out, "auth_token"), Some("s2"));
    assert_eq!(lookup(&out, "from_number"), Some("+1555"));
    assert_eq!(lookup(&out, "region"), Some("us"));
    assert_eq!(lookup(&out, "extra"), Some("x"));
    assert_eq!(out.len(), 4);
}

#[test]
fn resolved_config_names_the_first_required_field_left_unset() {
    let fields = vec![field("a", false, false), field("b", true, false), field("c", true, true)];
    let defaults = vec![None, None, None];
    let r = resolve_config_values(&fields, &defaults, &pairs(&[("a", "1")]), &[]);
    assert_eq!(r, Err("b".to_string()));
    let r = resolve_config_values(&fields, &defaults, &pairs(&[("b", "2")]), &[]);
    assert_eq!(r, Err("c".to_string()));
}

#[test]
fn shown_defaults_skip_secret_fields() {
    let mut plain = field("from_number", true, false);
    plain.default_from = Some(ConfigRef { section: "sms".into(), field: "from".into() });
    let mut secret = field("auth_token", true, true);
    secret.default_from = Some(ConfigRef { section: "sms".into(), field: "token".into() });
    let mut m = ChannelManifest {
        id: "sms".into(),
        display_name: "SMS".into(),
        description: "d".into(),
        config_fields: vec![plain, secret, field("other", false, false)],
        webhook_url_visible: true,
        setup_instructions: None,
        external_links: vec![],
    };
    let defaults = vec![Some("+1000".to_string()), Some("tok".to_string()), Some("x".to_string())];
    show_resolved_defaults(&mut m, &defaults);
    assert_eq!(m.config_fields[0].default_resolved.as_deref(), Some("+1000"));
    assert_eq!(m.config_fields[1].default_resolved, None);
    assert_eq!(m.config_fields[2].default_resolved, None);
    assert_eq!(m.config_fields[0].name, "from_number");
}

#[test]
fn channel_webhook_url_drops_trailing_slashes_of_base() {
    assert_eq!(
        channel_webhook_url("https://frona.example.com//", "sms", "ch-1"),
        "https://frona.example.com/api/webhooks/channels/sms/ch-1"
    );
    assert_eq!(
        channel_webhook_url("http://localhost:3001", "whatsapp_cloud", "abc"),
        "http://localhost:3001/api/webhooks/channels/whatsapp_cloud/abc"
    );
}

#[test]
fn restart_only_when_runtime_settings_change() {
    let base = ChannelSettings {
        provider: "telegram".to_string(),
        agent_id: "a1".to_string(),
        dispatch_mode: DispatchMode::Message,
        config: vec![("bot_token".to_string(), "t".to_string())],
    };
    assert!(!channel_needs_restart(&base, &base.clone()));
    let mut other = base.clone();
    other.agent_id = "a2".to_string();
    assert!(channel_needs_restart(&base, &other));
    let mut other = base.clone();
    other.dispatch_mode = DispatchMode::Signal;
    assert!(channel_needs_restart(&base, &other));
    let mut other = base.clone();
    other.config[0].1 = "u".to_string();
    assert!(channel_needs_restart(&base, &other));
    let mut other = base.clone();
    other.config.push(("x".to_string(), "y".to_string()));
    assert!(channel_needs_restart(&base, &other));
    let mut other = base.clone();
    other.provider = "sms".to_string();
    assert!(channel_needs_restart(&base, &other));
}

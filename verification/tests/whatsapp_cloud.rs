use frona_server::adapter::whatsapp_cloud::{
    build_interactive_payload, default_filename, default_mime_for, is_http_url,
    is_whatsapp_cloud_retryable_error, parse_external_id, verify_signature, wa_media_kind,
    answer_verification, InteractivePayload, VerifyAnswer, WaPayload, WhatsAppCloudAdapterFactory,
};
use frona_server::error::AppError;
use frona_server::hitl::HitlKind;
use frona_server::text::truncate_chars;
use hmac::{Hmac, Mac};
use sha2::Sha256;

#[test]
fn manifest_has_required_fields() {
    let m = WhatsAppCloudAdapterFactory.manifest();
    assert_eq!(m.id, "whatsapp_cloud");
    assert!(m.webhook_url_visible);
    assert!(m.setup_instructions.is_some());
    assert!(
        !m.external_links.is_empty(),
        "manifest should advertise external policy/docs links",
    );
    let expected = [
        ("phone_number_id", false),
        ("business_account_id", false),
        ("access_token", true),
        ("verify_token", true),
        ("app_secret", true),
    ];
    for (name, is_secret) in expected {
        let f = m
            .config_fields
            .iter()
            .find(|f| f.name == name)
            .unwrap_or_else(|| panic!("manifest missing field {name}"));
        assert!(f.is_required, "{name} should be required");
        assert_eq!(f.is_secret, is_secret, "{name} secrecy");
    }
}

#[test]
fn whatsapp_cloud_parse_external_id_strips_prefix() {
    assert_eq!(parse_external_id("wa:+15551234567").unwrap(), "+15551234567");
    assert!(parse_external_id("sms:+15551234567").is_err());
    assert!(parse_external_id("wa:").is_err());
}

#[test]
fn signature_verifies_known_vector() {
    let secret = "shh";
    let body = b"hello world";
    let mut mac = Hmac::<Sha256>::new_from_slice(secret.as_bytes()).unwrap();
    mac.update(body);
    let header = format!("sha256={}", hex::encode(mac.finalize().into_bytes()));
    assert!(verify_signature(secret, body, &header));
    assert!(!verify_signature("other", body, &header));
    assert!(!verify_signature(secret, b"different body", &header));
}

#[test]
fn signature_rejects_missing_prefix() {
    assert!(!verify_signature("s", b"x", "sha1=abc"));
    assert!(!verify_signature("s", b"x", ""));
}

#[test]
fn signature_rejects_bad_hex() {
    assert!(!verify_signature("s", b"x", "sha256=zz"));
}

#[test]
fn wa_media_kind_buckets() {
    assert_eq!(wa_media_kind("image/png"), "image");
    assert_eq!(wa_media_kind("audio/ogg"), "audio");
    assert_eq!(wa_media_kind("video/mp4"), "video");
    assert_eq!(wa_media_kind("application/pdf"), "document");
    assert_eq!(wa_media_kind("application/octet-stream"), "document");
}

#[test]
fn default_mime_and_filename() {
    assert_eq!(default_mime_for("image"), "image/jpeg");
    assert_eq!(default_mime_for("document"), "application/octet-stream");
    assert_eq!(default_filename("abc", "image/png"), "abc.png");
}

#[test]
fn http_url_check() {
    assert!(is_http_url("https://x"));
    assert!(is_http_url("http://x"));
    assert!(!is_http_url("vault://x"));
}

#[test]
fn approval_renders_yes_no_buttons_with_url_in_body() {
    let v = build_interactive_payload(
        "15551234567",
        "tc-1",
        "Deploy app foo?",
        &HitlKind::Approval,
        "https://app.example/chats/abc",
    );
    match v {
        WaPayload::Buttons { to, body_text, buttons } => {
            assert_eq!(to, "15551234567");
            assert!(body_text.contains("Deploy app foo?"));
            assert!(body_text.contains("https://app.example/chats/abc"));
            assert_eq!(buttons.len(), 2);
            assert_eq!(buttons[0], ("r:tc-1:y".to_string(), "Yes".to_string()));
            assert_eq!(buttons[1], ("r:tc-1:n".to_string(), "No".to_string()));
        }
        other => panic!("expected buttons, got {other:?}"),
    }
}

#[test]
fn choice_le_three_renders_reply_buttons() {
    let kind = HitlKind::Choice {
        options: vec!["EU".into(), "US".into(), "APAC".into()],
    };
    match build_interactive_payload("15550000000", "tc-2", "Region?", &kind, "") {
        WaPayload::Buttons { buttons, .. } => {
            assert_eq!(buttons.len(), 3);
            assert_eq!(buttons[0], ("r:tc-2:c:0".to_string(), "EU".to_string()));
            assert_eq!(buttons[2].0, "r:tc-2:c:2");
        }
        other => panic!("expected buttons, got {other:?}"),
    }
}

#[test]
fn choice_four_to_ten_renders_list() {
    let opts: Vec<String> = (0..6).map(|i| format!("opt-{i}")).collect();
    let kind = HitlKind::Choice { options: opts };
    match build_interactive_payload("15550000000", "tc-3", "Pick one", &kind, "") {
        WaPayload::List { rows, action_button, .. } => {
            assert_eq!(rows.len(), 6);
            assert_eq!(rows[0].0, "r:tc-3:c:0");
            assert_eq!(rows[5].0, "r:tc-3:c:5");
            assert_eq!(action_button, "Choose");
        }
        other => panic!("expected list, got {other:?}"),
    }
}

#[test]
fn choice_over_ten_truncates_to_ten_rows() {
    let opts: Vec<String> = (0..15).map(|i| format!("opt-{i}")).collect();
    let kind = HitlKind::Choice { options: opts };
    match build_interactive_payload("15550000000", "tc-4", "Pick", &kind, "") {
        WaPayload::List { rows, body_text, .. } => {
            assert_eq!(rows.len(), 10);
            assert!(body_text.contains("+5 more"));
        }
        other => panic!("expected list, got {other:?}"),
    }
}

#[test]
fn choice_empty_options_falls_back_to_text() {
    let kind = HitlKind::Choice { options: vec![] };
    let v = build_interactive_payload("15550000000", "tc-5", "Anything?", &kind, "");
    assert_eq!(
        v,
        WaPayload::Text {
            to: "15550000000".into(),
            body: "Anything?".into()
        }
    );
}

#[test]
fn external_with_http_url_renders_cta_url() {
    let v = build_interactive_payload(
        "15550000000",
        "tc-6",
        "Pick a credential",
        &HitlKind::External,
        "https://app.example/vault/pick?q=postgres",
    );
    match v {
        WaPayload::CtaUrl { display_text, url, .. } => {
            assert_eq!(display_text, "Open on web");
            assert_eq!(url, "https://app.example/vault/pick?q=postgres");
        }
        other => panic!("expected cta_url, got {other:?}"),
    }
}

#[test]
fn external_with_non_http_url_falls_back_to_text() {
    let v = build_interactive_payload(
        "15550000000",
        "tc-7",
        "Pick a credential",
        &HitlKind::External,
        "vault://pick",
    );
    match v {
        WaPayload::Text { body, .. } => {
            assert!(body.contains("Pick a credential"));
            assert!(body.contains("vault://pick"));
        }
        other => panic!("expected text, got {other:?}"),
    }
}

#[test]
fn long_option_titles_truncate_to_meta_limits() {
    let long = "x".repeat(50);
    let kind = HitlKind::Choice {
        options: vec![long.clone()],
    };
    match build_interactive_payload("15550000000", "tc-8", "Pick", &kind, "") {
        WaPayload::Buttons { buttons, .. } => {
            let title = &buttons[0].1;
            assert!(title.chars().count() <= 20, "got len {}", title.chars().count());
            assert!(title.ends_with('…'));
        }
        other => panic!("expected buttons, got {other:?}"),
    }
}

#[test]
fn retry_classifier_5xx_is_retryable() {
    let e = AppError::Internal("WA send 503: gateway".into());
    assert!(is_whatsapp_cloud_retryable_error(&e));
}

#[test]
fn retry_classifier_429_is_retryable() {
    let e = AppError::Internal("WA send 429: rate limited".into());
    assert!(is_whatsapp_cloud_retryable_error(&e));
}

#[test]
fn retry_classifier_4xx_is_permanent() {
    for code in [400, 401, 403, 404, 422] {
        let e = AppError::Internal(format!("WA send {code}: bad request"));
        assert!(!is_whatsapp_cloud_retryable_error(&e), "code {code}");
    }
}

#[test]
fn retry_classifier_network_error_is_retryable() {
    let e = AppError::Internal("WA send failed: tcp connect".into());
    assert!(is_whatsapp_cloud_retryable_error(&e));
}

#[test]
fn retry_classifier_only_reads_internal_errors() {
    assert!(!is_whatsapp_cloud_retryable_error(&AppError::Validation("x".into())));
    assert!(is_whatsapp_cloud_retryable_error(&AppError::Internal("other".into())));
}

#[test]
fn truncate_chars_uses_ellipsis() {
    assert_eq!(truncate_chars("short", 10), "short");
    let out = truncate_chars(&"abc".repeat(50), 20);
    assert_eq!(out.chars().count(), 20);
    assert!(out.ends_with('…'));
}

#[test]
fn interactive_reply_id_follows_the_reply_kind() {
    let button = InteractivePayload {
        kind: "button_reply".into(),
        button_reply: Some("r:tc-1:y".into()),
        list_reply: None,
    };
    assert_eq!(button.reply_id().as_deref(), Some("r:tc-1:y"));
    let list = InteractivePayload {
        kind: "list_reply".into(),
        button_reply: Some("ignored".into()),
        list_reply: Some("r:tc-2:c:3".into()),
    };
    assert_eq!(list.reply_id().as_deref(), Some("r:tc-2:c:3"));
    let missing = InteractivePayload { kind: "list_reply".into(), button_reply: None, list_reply: None };
    assert_eq!(missing.reply_id(), None);
    let other = InteractivePayload {
        kind: "nfm_reply".into(),
        button_reply: Some("x".into()),
        list_reply: Some("y".into()),
    };
    assert_eq!(other.reply_id(), None);
}

#[test]
fn verification_echoes_the_challenge_for_the_right_token() {
    let q = "hub.mode=subscribe&hub.verify_token=s%20ecret&hub.challenge=12345";
    assert_eq!(answer_verification(Some(q), "s ecret"), VerifyAnswer::Challenge("12345".into()));
}

#[test]
fn verification_forbids_a_wrong_token_or_mode() {
    let q = "hub.mode=subscribe&hub.verify_token=nope&hub.challenge=1";
    assert_eq!(answer_verification(Some(q), "secret"), VerifyAnswer::Forbidden);
    let q = "hub.mode=unsubscribe&hub.verify_token=secret&hub.challenge=1";
    assert_eq!(answer_verification(Some(q), "secret"), VerifyAnswer::Forbidden);
}

#[test]
fn verification_needs_all_three_parameters() {
    assert_eq!(answer_verification(None, "secret"), VerifyAnswer::BadRequest);
    let q = "hub.mode=subscribe&hub.verify_token=secret";
    assert_eq!(answer_verification(Some(q), "secret"), VerifyAnswer::BadRequest);
}

#[test]
fn verification_takes_the_last_value_of_a_repeated_parameter() {
    let q = "hub.mode=subscribe&hub.verify_token=old&hub.verify_token=secret&hub.challenge=c";
    assert_eq!(answer_verification(Some(q), "secret"), VerifyAnswer::Challenge("c".into()));
}

#[test]
fn signature_hex_may_be_upper_case_but_not_odd_length() {
    let secret = "shh";
    let body = b"payload";
    let mut mac = Hmac::<Sha256>::new_from_slice(secret.as_bytes()).unwrap();
    mac.update(body);
    let hex_sig = hex::encode(mac.finalize().into_bytes());
    assert!(verify_signature(secret, body, &format!("sha256={}", hex_sig.to_uppercase())));
    assert!(!verify_signature(secret, body, &format!("sha256={}", &hex_sig[1..])));
    assert!(!verify_signature(secret, body, &format!("sha256={}0", hex_sig)));
}

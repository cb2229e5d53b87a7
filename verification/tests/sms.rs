use base64::Engine;
use hmac::{Hmac, Mac};

use frona_server::adapter::sms::{
    canonical_webhook_url, classify_twilio_error, compose_sms_body, msg_id_from_query,
    parse_external_id,
    authenticated_webhook, status_callback_url, verify_twilio_signature, webhook_action, WebhookAction, SmsAdapterFactory, TwilioError, TwilioWebhook,
};
use frona_server::delivery::CarrierStatus;
use frona_server::error::ChannelErrorKind;
use frona_server::models::ConfigRef;

/// The `code` of a Twilio JSON error body, when it has one.
fn code_of(body: &str) -> Option<u32> {
    serde_json::from_str::<serde_json::Value>(body)
        .ok()
        .and_then(|v| v.get("code").and_then(|c| c.as_u64()))
        .map(|c| c as u32)
}

fn kind_for(status: u16, body: &str, msg: &str) -> ChannelErrorKind {
    TwilioError::from_http(status, code_of(body))
        .to_channel_error(msg.into())
        .kind
}

#[test]
fn twilio_classifies_recipient_opted_out_as_forbidden() {
    let body = r#"{"code":21610,"message":"unsubscribed"}"#;
    assert_eq!(kind_for(400, body, body), ChannelErrorKind::Forbidden);
}

#[test]
fn twilio_classifies_invalid_to_number_as_payload_invalid() {
    let body = r#"{"code":21211,"message":"invalid 'To'"}"#;
    assert_eq!(kind_for(400, body, body), ChannelErrorKind::PayloadInvalid);
}

#[test]
fn twilio_classifies_unknown_destination_as_not_found() {
    let body = r#"{"code":30005,"message":"unknown destination"}"#;
    assert_eq!(kind_for(400, body, body), ChannelErrorKind::NotFound);
}

#[test]
fn twilio_classifies_message_too_long_as_payload_too_large() {
    let body = r#"{"code":21611,"message":"too long"}"#;
    assert_eq!(kind_for(400, body, body), ChannelErrorKind::PayloadTooLarge);
}

#[test]
fn twilio_classifies_rate_limit_as_transient() {
    let body = r#"{"code":20429,"message":"too many requests"}"#;
    assert_eq!(kind_for(429, body, body), ChannelErrorKind::Transient);
}

#[test]
fn twilio_classifies_handset_unreachable_as_transient() {
    let body = r#"{"code":30003,"message":"unreachable"}"#;
    assert_eq!(kind_for(400, body, body), ChannelErrorKind::Transient);
}

#[test]
fn twilio_falls_back_to_http_status_when_body_unparseable() {
    assert_eq!(
        kind_for(500, "<html>upstream gateway</html>", "transient"),
        ChannelErrorKind::Transient
    );
    assert_eq!(kind_for(401, "no body", "auth"), ChannelErrorKind::Unauthorized);
}

#[test]
fn twilio_unknown_code_defaults_to_transient() {
    let body = r#"{"code":999999,"message":"never seen"}"#;
    assert_eq!(kind_for(400, body, body), ChannelErrorKind::Transient);
}

#[test]
fn twilio_http_status_only_matrix() {
    for (status, kind) in [
        (403, ChannelErrorKind::Forbidden),
        (404, ChannelErrorKind::NotFound),
        (413, ChannelErrorKind::PayloadTooLarge),
        (429, ChannelErrorKind::Transient),
        (400, ChannelErrorKind::PayloadInvalid),
        (422, ChannelErrorKind::PayloadInvalid),
        (418, ChannelErrorKind::Transient),
    ] {
        assert_eq!(kind_for(status, "", "m"), kind, "status {status}");
    }
}

#[test]
fn twilio_error_keeps_the_message() {
    let e = classify_twilio_error(&TwilioError::from_code(20003), "auth failed".into());
    assert_eq!(e.kind, ChannelErrorKind::Unauthorized);
    assert_eq!(e.message, "auth failed");
    assert!(e.retry_hint.is_none());
}

#[test]
fn manifest_has_required_fields_with_default_from() {
    let m = SmsAdapterFactory.manifest();
    assert_eq!(m.id, "sms");
    assert_eq!(m.display_name, "Twilio SMS");
    let by_name = |name: &str| {
        m.config_fields
            .iter()
            .find(|f| f.name == name)
            .unwrap_or_else(|| panic!("field {name} missing"))
    };
    let sid = by_name("account_sid");
    assert!(sid.is_required && sid.is_secret);
    assert_eq!(
        sid.default_from,
        Some(ConfigRef {
            section: "voice".into(),
            field: "twilio_account_sid".into(),
        })
    );
    assert_eq!(sid.default_resolved, None);
    let token = by_name("auth_token");
    assert!(token.is_required && token.is_secret);
    assert_eq!(
        token.default_from,
        Some(ConfigRef {
            section: "voice".into(),
            field: "twilio_auth_token".into(),
        })
    );
    let from = by_name("from_number");
    assert!(from.is_required && !from.is_secret);
    assert_eq!(
        from.default_from,
        Some(ConfigRef {
            section: "voice".into(),
            field: "twilio_from_number".into(),
        })
    );
}

#[test]
fn parse_external_id_e164() {
    assert_eq!(parse_external_id("sms:+15551234567").unwrap(), "+15551234567");
}

#[test]
fn sms_parse_external_id_rejects_garbage() {
    assert!(parse_external_id("nonsense").is_err());
    assert!(parse_external_id("sms:").is_err());
    assert!(parse_external_id("dm:+15551234567").is_err());
}

#[test]
fn webhook_params_extracts_known_fields() {
    let pairs: Vec<(String, String)> = vec![
        ("From".into(), "+1".into()),
        ("Body".into(), "hi".into()),
        ("MessageSid".into(), "SM1".into()),
        ("NumMedia".into(), "2".into()),
        ("MessageStatus".into(), "delivered".into()),
        ("ErrorCode".into(), "30001".into()),
        ("ErrorMessage".into(), "queue overflow".into()),
        ("Unknown".into(), "ignored".into()),
    ];
    let p = TwilioWebhook::from_pairs(&pairs);
    assert_eq!(p.from, "+1");
    assert_eq!(p.body, "hi");
    assert_eq!(p.message_sid, "SM1");
    assert_eq!(p.num_media, "2");
    assert_eq!(p.message_status, "delivered");
    assert_eq!(p.error_code, "30001");
    assert_eq!(p.error_message, "queue overflow");
}

#[test]
fn webhook_params_defaults_num_media_to_zero() {
    let p = TwilioWebhook::from_pairs(&[]);
    assert_eq!(p.num_media, "0");
    assert_eq!(p.from, "");
}

#[test]
fn webhook_params_later_pair_wins() {
    let pairs: Vec<(String, String)> = vec![
        ("Body".into(), "first".into()),
        ("Body".into(), "second".into()),
    ];
    assert_eq!(TwilioWebhook::from_pairs(&pairs).body, "second");
}

#[test]
fn is_status_callback_true_for_twilio_status_payload() {
    let p = TwilioWebhook {
        message_status: "delivered".into(),
        message_sid: "SM1".into(),
        num_media: "0".into(),
        ..Default::default()
    };
    assert!(p.is_status_callback());
}

#[test]
fn is_status_callback_false_for_inbound_with_received_status() {
    let p = TwilioWebhook {
        message_status: "received".into(),
        from: "+15551234567".into(),
        body: "hello".into(),
        message_sid: "SM2".into(),
        ..Default::default()
    };
    assert!(!p.is_status_callback());
}

#[test]
fn is_status_callback_false_for_inbound_mms_with_no_body() {
    let p = TwilioWebhook {
        message_status: "received".into(),
        from: "+15551234567".into(),
        body: String::new(),
        num_media: "1".into(),
        message_sid: "SM3".into(),
        ..Default::default()
    };
    assert!(!p.is_status_callback());
}

#[test]
fn is_status_callback_false_for_empty_ping() {
    let p = TwilioWebhook::default();
    assert!(!p.is_status_callback());
}

#[test]
fn msg_id_from_query_round_trips_uuid() {
    let id = "5c6450c3-19aa-4ab2-84fd-b08b7359f81d";
    let q = format!("msg_id={id}");
    assert_eq!(msg_id_from_query(Some(&q)).as_deref(), Some(id));
    assert_eq!(msg_id_from_query(None), None);
    assert_eq!(msg_id_from_query(Some("other=1")), None);
}

#[test]
fn msg_id_from_query_decodes_percent_escapes() {
    assert_eq!(
        msg_id_from_query(Some("a=1&msg_id=x%20y")).as_deref(),
        Some("x y")
    );
}

#[test]
fn status_callback_url_appends_msg_id_query() {
    let url = status_callback_url("https://x.com/api/webhooks/channels/sms/abc", "msg-1");
    assert_eq!(url, "https://x.com/api/webhooks/channels/sms/abc?msg_id=msg-1");
}

#[test]
fn status_callback_url_encodes_the_id() {
    let url = status_callback_url("https://x.com/h", "a b&c");
    assert_eq!(url, "https://x.com/h?msg_id=a+b%26c");
    let query = url.split_once('?').unwrap().1;
    assert_eq!(msg_id_from_query(Some(query)).as_deref(), Some("a b&c"));
}

#[test]
fn format_carrier_error_with_message() {
    let p = TwilioWebhook {
        message_status: "failed".into(),
        error_code: "30007".into(),
        error_message: "carrier rejected".into(),
        ..Default::default()
    };
    assert_eq!(p.format_carrier_error(), "carrier rejected (failed 30007)");
}

#[test]
fn format_carrier_error_without_message() {
    let p = TwilioWebhook {
        message_status: "undelivered".into(),
        error_code: "30005".into(),
        ..Default::default()
    };
    assert_eq!(p.format_carrier_error(), "Twilio undelivered (30005)");
}

#[test]
fn carrier_status_reports_delivery_and_failure() {
    let delivered = TwilioWebhook {
        message_status: "delivered".into(),
        ..Default::default()
    };
    assert!(matches!(delivered.carrier_status(), Some(CarrierStatus::Delivered)));
    let failed = TwilioWebhook {
        message_status: "failed".into(),
        error_code: "30007".into(),
        ..Default::default()
    };
    match failed.carrier_status() {
        Some(CarrierStatus::Failed { error }) => assert_eq!(error, "Twilio failed (30007)"),
        _ => panic!("expected a failure"),
    }
    let sent = TwilioWebhook {
        message_status: "sent".into(),
        ..Default::default()
    };
    assert!(sent.carrier_status().is_none());
}

#[test]
fn inbound_message_uses_the_sender_number() {
    let p = TwilioWebhook {
        from: "+15551234567".into(),
        body: "hello".into(),
        ..Default::default()
    };
    let m = p.inbound_message();
    assert_eq!(m.external_chat_id, "sms:+15551234567");
    assert_eq!(m.content, "hello");
    assert_eq!(m.sender_external_id.as_deref(), Some("+15551234567"));
}

#[test]
fn canonical_webhook_url_includes_query_when_present() {
    let base = "https://x.com/api/webhooks/channels/ch:1";
    assert_eq!(canonical_webhook_url(base, None), base);
    assert_eq!(
        canonical_webhook_url(base, Some("a=1&b=2")),
        format!("{base}?a=1&b=2"),
    );
}

#[test]
fn compose_sms_body_joins_turn_texts_and_trailing_with_blank_line() {
    let tcs = vec![Some("hello".to_string()), Some("here is the result".to_string())];
    let body = compose_sms_body(&tcs, "anything else?");
    assert_eq!(body, "hello\n\nhere is the result\n\nanything else?");
}

#[test]
fn compose_sms_body_skips_empty_and_whitespace_turn_texts() {
    let tcs = vec![
        Some(String::new()),
        Some("   \n  ".to_string()),
        None,
        Some("real".to_string()),
    ];
    let body = compose_sms_body(&tcs, "tail");
    assert_eq!(body, "real\n\ntail");
}

#[test]
fn compose_sms_body_returns_only_trailing_when_no_tools() {
    let body = compose_sms_body(&[], "just trailing");
    assert_eq!(body, "just trailing");
}

#[test]
fn compose_sms_body_returns_only_turn_texts_when_trailing_empty() {
    let tcs = vec![Some("a".to_string()), Some("b".to_string())];
    let body = compose_sms_body(&tcs, "");
    assert_eq!(body, "a\n\nb");
}

#[test]
fn compose_sms_body_empty_when_no_input() {
    let body = compose_sms_body(&[], "");
    assert_eq!(body, "");
}

#[test]
fn compose_sms_body_strips_markdown_formatting() {
    let tcs = vec![Some("**bold** here".to_string())];
    let body = compose_sms_body(&tcs, "");
    assert!(!body.contains("**"));
    assert!(body.contains("bold"));
}

fn fixture_signature() -> (String, String, Vec<(String, String)>, String) {
    let token = "12345".to_string();
    let url = "https://mycompany.com/myapp.php?foo=1&bar=2".to_string();
    let params: Vec<(String, String)> = vec![
        ("CallSid".into(), "CA1234567890ABCDE".into()),
        ("Caller".into(), "+14158675309".into()),
        ("Digits".into(), "1234".into()),
        ("From".into(), "+14158675309".into()),
        ("To".into(), "+18005551212".into()),
    ];
    let mut canonical = String::from(&url);
    let mut sorted = params.clone();
    sorted.sort_by(|a, b| a.0.cmp(&b.0));
    for (k, v) in &sorted {
        canonical.push_str(k);
        canonical.push_str(v);
    }
    let mut mac = Hmac::<sha1::Sha1>::new_from_slice(token.as_bytes()).unwrap();
    mac.update(canonical.as_bytes());
    let sig = base64::engine::general_purpose::STANDARD.encode(mac.finalize().into_bytes());
    (token, url, params, sig)
}

#[test]
fn verify_twilio_signature_known_vector() {
    let (token, url, params, sig) = fixture_signature();
    assert!(verify_twilio_signature(&token, &url, &params, &sig));
}

#[test]
fn verify_twilio_signature_mismatch_returns_false() {
    let (token, url, params, _sig) = fixture_signature();
    assert!(!verify_twilio_signature(
        &token,
        &url,
        &params,
        "AAAAAAAAAAAAAAAAAAAAAAAAAAA="
    ));
}

#[test]
fn verify_twilio_signature_param_reorder_still_validates() {
    let (token, url, params, sig) = fixture_signature();
    let mut shuffled = params;
    shuffled.reverse();
    assert!(verify_twilio_signature(&token, &url, &shuffled, &sig));
}

#[test]
fn verify_twilio_signature_rejects_bad_base64_and_other_token() {
    let (token, url, params, sig) = fixture_signature();
    assert!(!verify_twilio_signature(&token, &url, &params, "not base64!"));
    assert!(!verify_twilio_signature("other", &url, &params, &sig));
    assert!(!verify_twilio_signature(&token, "https://other.example", &params, &sig));
}

fn sign(token: &str, url: &str, params: &[(&str, &str)]) -> String {
    let mut sorted: Vec<(&str, &str)> = params.to_vec();
    sorted.sort_by(|a, b| a.0.cmp(b.0));
    let mut canonical = url.to_string();
    for (k, v) in sorted {
        canonical.push_str(k);
        canonical.push_str(v);
    }
    let mut mac = Hmac::<sha1::Sha1>::new_from_slice(token.as_bytes()).unwrap();
    mac.update(canonical.as_bytes());
    base64::engine::general_purpose::STANDARD.encode(mac.finalize().into_bytes())
}

#[test]
fn authenticated_webhook_reads_a_signed_body() {
    let sig = sign("tok", "https://h/w?c=1", &[("From", "+1555"), ("Body", "hi there")]);
    let w = authenticated_webhook("tok", "https://h/w", Some("c=1"), &sig, b"From=%2B1555&Body=hi+there")
        .expect("signature matches");
    assert_eq!(w.from, "+1555");
    assert_eq!(w.body, "hi there");
    assert_eq!(w.num_media, "0");
    assert_eq!(webhook_action(&w), Ok(WebhookAction::Inbound));
}

#[test]
fn authenticated_webhook_rejects_a_tampered_body() {
    let sig = sign("tok", "https://h/w", &[("From", "+1555"), ("Body", "hi")]);
    assert!(authenticated_webhook("tok", "https://h/w", None, &sig, b"From=%2B1555&Body=bye").is_none());
    assert!(authenticated_webhook("tok", "https://h/w", Some("x=1"), &sig, b"From=%2B1555&Body=hi").is_none());
}

#[test]
fn webhook_action_drops_empty_calls_and_needs_a_sender() {
    let empty = TwilioWebhook::from_pairs(&[]);
    assert_eq!(webhook_action(&empty), Ok(WebhookAction::Ignore));
    let status = TwilioWebhook::from_pairs(&[("MessageStatus".into(), "delivered".into())]);
    assert_eq!(webhook_action(&status), Ok(WebhookAction::CarrierStatus));
    let anonymous = TwilioWebhook::from_pairs(&[("Body".into(), "hi".into())]);
    assert_eq!(
        webhook_action(&anonymous),
        Err(frona_server::error::AppError::Validation("Twilio webhook missing From".into()))
    );
}

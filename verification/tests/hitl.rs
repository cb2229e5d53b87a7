use frona_server::hitl::{
    choice_for, kind_for, parse_callback_data, parse_yes_no, render_default_text, render_text,
    resolve_reply, response_display, CallbackAction, CallbackError, Hitl, HitlDelivery, HitlKind,
    HitlRequest, HitlResponse, ToolCall, ToolStatus, VaultGrant,
};

fn app_request() -> HitlRequest {
    HitlRequest::App {
        action: "deploy".into(),
        manifest: "{}".into(),
        previous_manifest: None,
    }
}

fn hitl(request: HitlRequest, delivered_as: Option<&str>) -> Hitl {
    Hitl {
        prompt: "Deploy notes?".into(),
        url: "https://app.example/chats/abc".into(),
        request,
        status: ToolStatus::Pending,
        response: None,
        delivery: delivered_as.map(|id| HitlDelivery {
            external_message_id: id.to_string(),
        }),
    }
}

#[test]
fn kind_for_question_returns_choice_with_options() {
    let req = HitlRequest::Question {
        options: vec!["a".into(), "b".into()],
    };
    match kind_for(&req) {
        HitlKind::Choice { options } => {
            assert_eq!(options, vec!["a".to_string(), "b".to_string()]);
        }
        _ => panic!("expected Choice"),
    }
}

#[test]
fn kind_for_takeover_returns_choice_with_done() {
    let req = HitlRequest::Takeover {
        reason: "manual debug".into(),
        debugger_url: "https://x".into(),
    };
    match kind_for(&req) {
        HitlKind::Choice { options } => {
            assert_eq!(options, vec!["Done".to_string()]);
        }
        _ => panic!("expected Choice"),
    }
}

#[test]
fn kind_for_service_approval_returns_approval() {
    assert_eq!(kind_for(&app_request()), HitlKind::Approval);
}

#[test]
fn kind_for_vault_pick_returns_external() {
    let req = HitlRequest::Credential {
        query: "postgres".into(),
        reason: "ETL".into(),
    };
    assert_eq!(kind_for(&req), HitlKind::External);
}

#[test]
fn kind_for_question_with_empty_options_still_returns_choice() {
    let req = HitlRequest::Question { options: vec![] };
    match kind_for(&req) {
        HitlKind::Choice { options } => assert!(options.is_empty()),
        _ => panic!("expected Choice"),
    }
}

#[test]
fn render_default_text_contains_prompt_and_url() {
    let h = hitl(app_request(), None);
    let text = render_default_text(&h);
    assert!(text.contains("Deploy notes?"));
    assert!(text.contains("https://app.example/chats/abc"));
    assert_eq!(text, "Deploy notes?\n\nhttps://app.example/chats/abc");
}

#[test]
fn render_text_per_kind() {
    assert_eq!(
        render_text(&hitl(app_request(), None)),
        "Deploy notes?\n\nReply YES or NO"
    );
    assert_eq!(
        render_text(&hitl(HitlRequest::Question { options: vec!["a".into()] }, None)),
        "Deploy notes?"
    );
    let vault = HitlRequest::Credential {
        query: "q".into(),
        reason: "r".into(),
    };
    assert_eq!(
        render_text(&hitl(vault, None)),
        "Deploy notes?\n\nhttps://app.example/chats/abc"
    );
}

#[test]
fn response_display_approval_yes() {
    assert_eq!(response_display(&HitlResponse::Approval(true)), "✅ Yes");
}

#[test]
fn response_display_approval_no() {
    assert_eq!(response_display(&HitlResponse::Approval(false)), "❌ No");
}

#[test]
fn response_display_choice_returns_chosen_text() {
    let r = HitlResponse::Choice("eu".into());
    assert_eq!(response_display(&r), "eu");
}

#[test]
fn response_display_vault() {
    let granted = HitlResponse::Vault(VaultGrant::Granted {
        credential_id: "c1".into(),
    });
    assert_eq!(response_display(&granted), "🔑 Granted");
    assert_eq!(response_display(&HitlResponse::Vault(VaultGrant::Denied)), "🚫 Denied");
}

#[test]
fn parse_yes_no_recognises_yes_variants() {
    for s in ["yes", "Y", " yeah ", "OK", "👍", "approved"] {
        assert_eq!(parse_yes_no(s), Some(true), "expected Some(true) for {s:?}");
    }
}

#[test]
fn parse_yes_no_recognises_no_variants() {
    for s in ["no", "N", " nope ", "Cancel", "👎", "rejected"] {
        assert_eq!(parse_yes_no(s), Some(false), "expected Some(false) for {s:?}");
    }
}

#[test]
fn parse_yes_no_returns_none_for_ambiguous_text() {
    for s in ["maybe", "yes please", "no problem", "i guess", ""] {
        assert_eq!(parse_yes_no(s), None, "expected None for {s:?}");
    }
}

#[test]
fn resolve_reply_answers_the_sole_pending_approval() {
    let calls = vec![
        ToolCall { id: "t0".into(), hitl: None },
        ToolCall {
            id: "t1".into(),
            hitl: Some(hitl(app_request(), Some("m1"))),
        },
    ];
    assert_eq!(
        resolve_reply(&calls, None, " Yes "),
        Some(("t1".to_string(), HitlResponse::Approval(true)))
    );
    assert_eq!(resolve_reply(&calls, None, "maybe"), None);
}

#[test]
fn resolve_reply_uses_the_quoted_message() {
    let q = HitlRequest::Question {
        options: vec!["eu".into(), "us".into()],
    };
    let calls = vec![
        ToolCall {
            id: "a".into(),
            hitl: Some(hitl(q.clone(), Some("m1"))),
        },
        ToolCall {
            id: "b".into(),
            hitl: Some(hitl(q, Some("m2"))),
        },
    ];
    // Two are pending: without a quote nothing is targeted.
    assert_eq!(resolve_reply(&calls, None, "eu"), None);
    assert_eq!(
        resolve_reply(&calls, Some("m2"), "us"),
        Some(("b".to_string(), HitlResponse::Choice("us".into())))
    );
    assert_eq!(resolve_reply(&calls, Some("m9"), "us"), None);
}

#[test]
fn resolve_reply_never_answers_a_vault_request() {
    let vault = HitlRequest::Credential {
        query: "q".into(),
        reason: "r".into(),
    };
    let calls = vec![ToolCall {
        id: "v".into(),
        hitl: Some(hitl(vault, Some("m1"))),
    }];
    assert_eq!(resolve_reply(&calls, None, "yes"), None);
}

#[test]
fn parse_callback_data_shapes() {
    assert_eq!(
        parse_callback_data("r:tc1:y"),
        Ok(CallbackAction::Approval {
            tool_call_id: "tc1".into(),
            approved: true
        })
    );
    assert_eq!(
        parse_callback_data("r:tc1:n"),
        Ok(CallbackAction::Approval {
            tool_call_id: "tc1".into(),
            approved: false
        })
    );
    assert_eq!(
        parse_callback_data("r:tc1:c:2"),
        Ok(CallbackAction::Choice {
            tool_call_id: "tc1".into(),
            index: 2
        })
    );
    assert_eq!(
        parse_callback_data("r:tc1:c:x"),
        Err(CallbackError::BadChoiceIndex("x".into()))
    );
    assert_eq!(
        parse_callback_data("q:tc1:y"),
        Err(CallbackError::Malformed("q:tc1:y".into()))
    );
    assert_eq!(
        parse_callback_data("r:tc1"),
        Err(CallbackError::Malformed("r:tc1".into()))
    );
}

#[test]
fn choice_for_picks_the_option() {
    let q = HitlRequest::Question {
        options: vec!["eu".into(), "us".into()],
    };
    assert_eq!(choice_for(&q, 1), Ok("us".to_string()));
    assert_eq!(choice_for(&q, 2), Err(CallbackError::OptionOutOfRange(2)));
    let t = HitlRequest::Takeover {
        reason: "r".into(),
        debugger_url: "u".into(),
    };
    assert_eq!(choice_for(&t, 0), Ok("Done".to_string()));
    assert_eq!(choice_for(&app_request(), 0), Err(CallbackError::NotChoice));
}

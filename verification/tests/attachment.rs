use frona_server::attachment::{
    button_label, classify, inline_list, inline_list_line, is_media, is_path_traversal,
    is_previewable, outbound_url, parse_owner, Attachment, AttachmentKind, AttachmentOwner,
    ChannelMode,
};
use frona_server::error::AppError;

fn att(filename: &str, content_type: &str, owner: &str) -> Attachment {
    Attachment {
        filename: filename.into(),
        content_type: content_type.into(),
        size_bytes: 0,
        owner: owner.into(),
        path: filename.into(),
        url: None,
    }
}

#[test]
fn classify_matrix() {
    assert_eq!(classify(&att("a.png", "image/png", "user:x")), AttachmentKind::Image);
    assert_eq!(classify(&att("a.jpg", "IMAGE/JPEG", "user:x")), AttachmentKind::Image);
    assert_eq!(classify(&att("a.mp3", "audio/mpeg", "user:x")), AttachmentKind::Audio);
    assert_eq!(classify(&att("a.mp4", "video/mp4", "user:x")), AttachmentKind::Video);
    assert_eq!(classify(&att("a.md", "text/markdown", "user:x")), AttachmentKind::Document);
    assert_eq!(classify(&att("a.pdf", "application/pdf", "user:x")), AttachmentKind::Document);
    assert_eq!(classify(&att("a.csv", "text/csv", "user:x")), AttachmentKind::Document);
    assert_eq!(classify(&att("a.zip", "application/zip", "user:x")), AttachmentKind::Document);
}

#[test]
fn is_media_only_media_kinds() {
    assert!(is_media(AttachmentKind::Image));
    assert!(is_media(AttachmentKind::Audio));
    assert!(is_media(AttachmentKind::Video));
    assert!(!is_media(AttachmentKind::Document));
}

#[test]
fn inline_list_line_format() {
    let line = inline_list_line(
        &att("report.md", "text/markdown", "agent:researcher"),
        "https://app.host/s/abc12345",
    );
    assert_eq!(line, "📄 report.md — https://app.host/s/abc12345");
}

#[test]
fn inline_list_uses_kind_icon() {
    let line = inline_list_line(
        &att("chart.png", "image/png", "agent:researcher"),
        "https://app.host/s/xyz",
    );
    assert!(line.starts_with("🖼️"));
}

#[test]
fn inline_list_line_audio_and_video_icons() {
    assert!(inline_list_line(&att("a.mp3", "audio/mpeg", "x"), "u").starts_with("🎵"));
    assert!(inline_list_line(&att("a.mp4", "video/mp4", "x"), "u").starts_with("🎬"));
}

#[test]
fn button_label_includes_filename() {
    let label = button_label(&att("data.csv", "text/csv", "agent:researcher"));
    assert_eq!(label, "📄 Open data.csv");
}

#[test]
fn is_previewable_matrix() {
    assert!(is_previewable(&att("a.md", "text/markdown", "agent:r")));
    assert!(is_previewable(&att("a.rs", "text/x-rust", "agent:r")));
    assert!(is_previewable(&att("a.py", "text/x-python", "agent:r")));
    assert!(is_previewable(&att("a.go", "text/x-go", "agent:r")));
    assert!(is_previewable(&att("a.sh", "text/x-shellscript", "agent:r")));
    assert!(is_previewable(&att("a.json", "application/json", "agent:r")));
    assert!(is_previewable(&att("a.xml", "application/xml", "agent:r")));
    assert!(is_previewable(&att("a.yaml", "text/yaml", "agent:r")));
    assert!(is_previewable(&att("a.toml", "text/toml", "agent:r")));
    assert!(is_previewable(&att("a.md", "TEXT/MARKDOWN", "agent:r")));

    assert!(!is_previewable(&att("a.html", "text/html", "agent:r")));
    assert!(!is_previewable(&att("a.png", "image/png", "agent:r")));
    assert!(!is_previewable(&att("a.jpg", "image/jpeg", "agent:r")));
    assert!(!is_previewable(&att("a.pdf", "application/pdf", "agent:r")));
    assert!(!is_previewable(&att("a.mp3", "audio/mpeg", "agent:r")));
    assert!(!is_previewable(&att("a.mp4", "video/mp4", "agent:r")));
    assert!(!is_previewable(&att("a.txt", "text/plain", "agent:r")));
    assert!(!is_previewable(&att("a.log", "text/plain", "agent:r")));
    assert!(!is_previewable(&att("a.css", "text/css", "agent:r")));
    assert!(!is_previewable(&att("a.csv", "text/csv", "agent:r")));
    assert!(!is_previewable(&att("a.zip", "application/zip", "agent:r")));
    assert!(!is_previewable(&att("a.bin", "application/octet-stream", "agent:r")));
}

#[test]
fn inline_list_joins_with_newlines() {
    let atts = vec![
        att("a.md", "text/markdown", "agent:x"),
        att("b.csv", "text/csv", "agent:x"),
    ];
    let urls = vec!["url1".to_string(), "url2".to_string()];
    let list = inline_list(&atts, &urls);
    assert_eq!(list, "📄 a.md — url1\n📄 b.csv — url2");
}

#[test]
fn inline_list_stops_at_the_shorter_list() {
    let atts = vec![att("a.md", "text/markdown", "x"), att("b.md", "text/markdown", "x")];
    let urls = vec!["url1".to_string()];
    assert_eq!(inline_list(&atts, &urls), "📄 a.md — url1");
    assert_eq!(inline_list(&[], &[]), "");
}

#[test]
fn outbound_url_routes_by_mode_and_preview() {
    assert_eq!(
        outbound_url("https://app.host/", ChannelMode::Inline, true, "abc12345"),
        "https://app.host/p/abc12345"
    );
    assert_eq!(
        outbound_url("https://app.host", ChannelMode::Inline, false, "abc12345"),
        "https://app.host/s/abc12345"
    );
    assert_eq!(
        outbound_url("https://app.host//", ChannelMode::Button, true, "u/alice/r.md"),
        "https://app.host/p/u/alice/r.md"
    );
    assert_eq!(
        outbound_url("https://app.host", ChannelMode::Button, false, "u/alice/a.png"),
        "https://app.host/api/files/u/alice/a.png"
    );
}

#[test]
fn parse_owner_reads_user_and_agent_handles() {
    match parse_owner("user:Alice") {
        Ok(AttachmentOwner::User(h)) => assert_eq!(h.as_str(), "alice"),
        other => panic!("expected a user owner, got {other:?}"),
    }
    match parse_owner("agent:researcher") {
        Ok(AttachmentOwner::Agent(h)) => assert_eq!(h.as_str(), "researcher"),
        other => panic!("expected an agent owner, got {other:?}"),
    }
}

#[test]
fn parse_owner_rejects_bad_owners() {
    match parse_owner("space:x") {
        Err(AppError::Validation(m)) => assert_eq!(m, "unsupported attachment owner: space:x"),
        other => panic!("expected a validation error, got {other:?}"),
    }
    match parse_owner("user:a") {
        Err(AppError::Validation(m)) => assert!(m.starts_with("invalid owner handle in user:a: handle 'a' is invalid")),
        other => panic!("expected a validation error, got {other:?}"),
    }
}

#[test]
fn path_traversal_is_spotted() {
    assert!(is_path_traversal("../secret"));
    assert!(is_path_traversal("a/../../b"));
    assert!(!is_path_traversal("a/b.c/d"));
    assert!(!is_path_traversal("."));
}

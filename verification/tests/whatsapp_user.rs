use frona_server::adapter::whatsapp_user::{parse_external_id, WhatsAppUserAdapterFactory};

#[test]
fn manifest_id_and_no_fields() {
    let m = WhatsAppUserAdapterFactory.manifest();
    assert_eq!(m.id, "whatsapp_user");
    assert!(m.config_fields.is_empty());
    assert!(m.setup_instructions.is_some());
    let urls: Vec<&str> = m.external_links.iter().map(|l| l.url.as_str()).collect();
    assert!(urls.iter().any(|u| u.contains("terms-of-service")));
    assert!(urls.iter().any(|u| u.contains("privacy-policy")));
}

#[test]
fn whatsapp_user_parse_external_id_strips_prefix() {
    assert_eq!(
        parse_external_id("wa:15551234567@s.whatsapp.net").unwrap(),
        "15551234567@s.whatsapp.net"
    );
    assert!(parse_external_id("foo:bar").is_err());
    assert!(parse_external_id("wa:").is_err());
}

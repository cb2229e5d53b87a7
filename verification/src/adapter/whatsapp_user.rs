//! WhatsApp through a linked personal account: external ids and the
//! manifest.

use vstd::prelude::*;
use crate::adapter::common::{after_prefix, bare_manifest, link, strip_id_prefix, ExternalIdError};
use crate::models::ChannelManifest;

verus! {

/// A WhatsApp personal-account channel needs no configuration.
#[derive(Debug, Clone)]
pub struct WhatsAppUserConfig {}

/// The factory of WhatsApp personal-account channels.
pub struct WhatsAppUserAdapterFactory;

impl WhatsAppUserAdapterFactory {
    /// No fields; the account is linked by scanning a code, and the links
    /// point at WhatsApp's terms of service and privacy policy.
    pub fn manifest(&self) -> (m: ChannelManifest)
        ensures
            m.id@ == "whatsapp_user"@,
            m.config_fields@.len() == 0,
            m.setup_instructions is Some,
            m.external_links@.len() == 2,
            m.external_links@[0].url@ == "https://www.whatsapp.com/legal/terms-of-service"@,
            m.external_links@[1].url@ == "https://www.whatsapp.com/legal/privacy-policy"@,
    {
        let mut m = bare_manifest(
            "whatsapp_user",
            "WhatsApp (personal account)",
            "Chat with your agent from WhatsApp by linking a personal account as a companion device.",
        );
        m.setup_instructions = Some(String::from_str(
            "Start the channel, then scan the pairing code from WhatsApp under Settings > Linked devices.",
        ));
        m.external_links.push(link("Terms of service", "https://www.whatsapp.com/legal/terms-of-service"));
        m.external_links.push(link("Privacy policy", "https://www.whatsapp.com/legal/privacy-policy"));
        m
    }
}

/// The WhatsApp JID of a chat id `wa:{jid}`.
pub fn parse_external_id(s: &str) -> (r: Result<String, ExternalIdError>)
    ensures
        match r {
            Ok(n) => after_prefix(s@, "wa:"@) == Some(n@),
            Err(ExternalIdError::Unrecognised(t)) => after_prefix(s@, "wa:"@) is None && t@ == s@,
            Err(_) => false,
        },
{
    strip_id_prefix(s, "wa:")
}

} // verus!

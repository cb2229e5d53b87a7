//! Provider-specific logic of the channel adapters.

pub mod common;
pub mod sms;
pub mod whatsapp_cloud;
pub mod discord;
pub mod telegram;
pub mod whatsapp_user;
pub mod signal;

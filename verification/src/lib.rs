//! Channel-facing text logic of the frona server: message splitting,
//! slash-command parsing, template interpolation, human-in-the-loop
//! replies, attachment rendering and the per-provider helpers.

use vstd::prelude::*;

pub mod text;
pub mod split;
pub mod slash;
pub mod render;
pub mod attachment;
pub mod hitl;
pub mod error;
pub mod delivery;
pub mod models;
pub mod principal;
pub mod handle;
pub mod command;
pub mod adapter;
pub mod pairing;
pub mod broadcast;
pub mod markdown;
pub mod metadata;
pub mod state;
pub mod supervisor;
pub mod session;

verus! {

} // verus!

//! skillctl: a profile-driven manager for Agent skills and the gateway of
//! their protocol.

pub mod detect;
pub mod digest;
pub mod error;
pub mod id;
pub mod order;
pub mod profile;
pub mod protocol;
pub mod skill;
pub mod source;
pub mod store;
pub mod strmap;
pub mod text;
pub mod tui;
pub mod types;
pub mod version;
pub mod agent;
pub mod commands;

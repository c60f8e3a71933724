//! Verified core of the Void peer-to-peer messenger: onion identities,
//! wire-format helpers, invitations, control-port parsing and the
//! decision rules of the messaging engine.

pub mod std_glue;
pub mod base32;
pub mod primitives;
pub mod text;
pub mod crypto;
pub mod dm_crypto;
pub mod bytes;
pub mod proto_dm;
pub mod proto_groups;
pub mod handshake;
pub mod frames;
pub mod percent;
pub mod invite;
pub mod tor;
pub mod tor_control;
pub mod store;
pub mod engine;
pub mod groups;
pub mod messages;
pub mod session;
pub mod contacts;
pub mod seed_file;

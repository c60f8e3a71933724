//! The rows that the message store keeps: messages and relayed envelopes.

use vstd::prelude::*;

verus! {

/// Version of the message store's schema.
pub const STORE_SCHEMA_VERSION: u32 = 3;

/// One stored message, direct or of a group (`peer_id` is then the group).
#[derive(Clone, Debug, PartialEq)]
pub struct DmRecord {
    pub id: String,
    pub peer_id: String,
    pub author_id: String,
    pub body: String,
    pub created_ms: u64,
    pub status: u8,
    pub kind: u8,
    pub duration_ms: u32,
}

/// An envelope held for a peer that was offline.
#[derive(Clone, Debug, PartialEq)]
pub struct RelayRow {
    pub id: [u8; 16],
    pub sender_id: String,
    pub recipient_id: String,
    pub kind: u8,
    pub payload: Vec<u8>,
    pub stored_ms: u64,
}

} // verus!

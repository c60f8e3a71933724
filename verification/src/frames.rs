//! The frames exchanged over a peer session, and their length-prefixed
//! framing: a four-byte big-endian body length followed by the body.

use vstd::prelude::*;
use crate::bytes::{push_all, push_u32_be, u32_be, u32_be_roundtrip, u32_from_be, u32_from_be_bytes};
use crate::proto_groups::{GroupEnvelope, KeyBlob, MemberEntry, RelayItem};

verus! {

/// The largest body a frame may carry.
pub const MAX_FRAME_SIZE: usize = 1024 * 1024;

/// Everything one peer can say to another over an established session.
#[derive(Clone, Debug, PartialEq)]
pub enum Frame {
    Hello { onion_id: String, display_name: String, nonce: [u8; 16], signature: [u8; 64] },
    Welcome { onion_id: String, display_name: String, nonce: [u8; 16], signature: [u8; 64] },
    Ping { timestamp_ms: u64 },
    Pong { timestamp_ms: u64 },
    Ack { message_id: [u8; 16] },
    GroupInvite { group_id: String, name: String, members: Vec<MemberEntry>, key: KeyBlob },
    GroupMembers { group_id: String, members: Vec<MemberEntry> },
    GroupMsg { envelope: GroupEnvelope },
    GroupRotate { group_id: String, key: KeyBlob },
    GroupRemove { group_id: String, member_id: String },
    GroupLeave { group_id: String },
    Relay { recipient_id: String, kind: u8, payload: Vec<u8> },
    RelayPush { items: Vec<RelayItem> },
    RelayAck { ids: Vec<[u8; 16]> },
    SyncDm { last_ms: u64 },
    ProfileUpdate {
        display_name: String,
        bio: String,
        status: String,
        accent: String,
        avatar_b64: String,
    },
    FriendRequest { display_name: String },
    Bye { reason: String },
    App { payload: Vec<u8> },
}

/// Whether a body of `len` bytes may travel in a frame.
pub open spec fn body_len_ok(len: int) -> bool {
    len <= MAX_FRAME_SIZE
}

/// A framed body: its length, big-endian, then the body itself.
pub open spec fn framed_spec(body: Seq<u8>) -> Seq<u8> {
    u32_be(body.len() as u32) + body
}

/// The body length announced by a four-byte prefix.
pub fn prefix_body_len(prefix: [u8; 4]) -> (len: usize)
    ensures
        len == u32_from_be(prefix@),
{
    u32_from_be_bytes(prefix) as usize
}

/// Whether a received body of `len` bytes is within the frame limit; larger
/// bodies are refused before they are read or decoded.
pub fn body_len_allowed(len: usize) -> (ok: bool)
    ensures
        ok == body_len_ok(len as int),
{
    len <= MAX_FRAME_SIZE
}

/// Frames an encoded body for the wire, or `None` when the body is larger
/// than `MAX_FRAME_SIZE`.
pub fn frame_body(body: &[u8]) -> (res: Option<Vec<u8>>)
    ensures
        body_len_ok(body@.len() as int) <==> res is Some,
        res matches Some(out) ==> out@ == framed_spec(body@),
{
    if body.len() > MAX_FRAME_SIZE {
        return None;
    }
    let mut out: Vec<u8> = Vec::new();
    push_u32_be(&mut out, body.len() as u32);
    push_all(&mut out, body);
    Some(out)
}

/// The prefix of a framed body announces exactly the body's length, and the
/// body follows it unchanged.
pub proof fn framed_prefix_is_body_len(body: Seq<u8>)
    requires
        body_len_ok(body.len() as int),
    ensures
        framed_spec(body).len() == 4 + body.len(),
        u32_from_be(framed_spec(body).take(4)) == body.len(),
        framed_spec(body).skip(4) == body,
{
    let f = framed_spec(body);
    u32_be_roundtrip(body.len() as u32);
    assert(f.take(4) =~= u32_be(body.len() as u32));
    assert(f.skip(4) =~= body);
}

} // verus!

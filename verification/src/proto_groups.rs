//! Group envelopes, key blobs, relay items and the associated data of group
//! messages and group keys.

use vstd::prelude::*;
use vstd::utf8::{encode_utf8, encode_utf8_decode_utf8};
use crate::bytes::{push_all, push_u64_be, u64_be, u64_be_injective};

verus! {

pub const KIND_TEXT: u8 = 0;
pub const KIND_VOICE: u8 = 1;
pub const RELAY_KIND_DM: u8 = 1;
pub const RELAY_KIND_GROUP: u8 = 2;

/// A member of a group as the wire carries it.
#[derive(Clone, Debug, PartialEq)]
pub struct MemberEntry {
    pub onion_id: String,
    pub display_name: String,
}

/// A group key sealed for one recipient.
#[derive(Clone, Debug, PartialEq)]
pub struct KeyBlob {
    pub nonce: [u8; 12],
    pub ciphertext: Vec<u8>,
}

/// An encrypted group message.
#[derive(Clone, Debug, PartialEq)]
pub struct GroupEnvelope {
    pub message_id: [u8; 16],
    pub group_id: String,
    pub author_id: String,
    pub timestamp_ms: u64,
    pub kind: u8,
    pub duration_ms: u32,
    pub nonce: [u8; 12],
    pub ciphertext: Vec<u8>,
}

/// An envelope held by a relay for a peer that was offline.
#[derive(Clone, Debug, PartialEq)]
pub struct RelayItem {
    pub id: [u8; 16],
    pub kind: u8,
    pub payload: Vec<u8>,
}

/// The bytes of `"void-group-msg-v1"`.
pub open spec fn group_aad_prefix() -> Seq<u8> {
    seq![118u8, 111, 105, 100, 45, 103, 114, 111, 117, 112, 45, 109, 115, 103, 45, 118, 49]
}

/// The bytes of `"void-group-key-v1"`.
pub open spec fn group_key_aad_prefix() -> Seq<u8> {
    seq![118u8, 111, 105, 100, 45, 103, 114, 111, 117, 112, 45, 107, 101, 121, 45, 118, 49]
}

/// `GROUP_AAD_PREFIX`.
pub fn group_aad_prefix_bytes() -> (res: Vec<u8>)
    ensures
        res@ == group_aad_prefix(),
{
    let v: Vec<u8> = vec![118u8, 111, 105, 100, 45, 103, 114, 111, 117, 112, 45, 109, 115, 103, 45, 118, 49];
    assert(v@ =~= group_aad_prefix());
    v
}

/// `GROUP_KEY_AAD_PREFIX`.
pub fn group_key_aad_prefix_bytes() -> (res: Vec<u8>)
    ensures
        res@ == group_key_aad_prefix(),
{
    let v: Vec<u8> = vec![118u8, 111, 105, 100, 45, 103, 114, 111, 117, 112, 45, 107, 101, 121, 45, 118, 49];
    assert(v@ =~= group_key_aad_prefix());
    v
}

/// Prefix, message id, group id, author (UTF-8) and big-endian timestamp.
pub open spec fn group_aad_spec(message_id: Seq<u8>, group_id: Seq<char>, author: Seq<char>, timestamp_ms: u64) -> Seq<u8> {
    group_aad_prefix() + message_id + encode_utf8(group_id) + encode_utf8(author) + u64_be(
        timestamp_ms,
    )
}

/// Prefix, group id and recipient (UTF-8).
pub open spec fn group_key_aad_spec(group_id: Seq<char>, recipient: Seq<char>) -> Seq<u8> {
    group_key_aad_prefix() + encode_utf8(group_id) + encode_utf8(recipient)
}

/// The associated data of a group message.
pub fn group_aad_parts(message_id: &[u8; 16], group_id: &str, author_id: &str, timestamp_ms: u64) -> (aad: Vec<u8>)
    ensures
        aad@ == group_aad_spec(message_id@, group_id@, author_id@, timestamp_ms),
{
    let mut aad = group_aad_prefix_bytes();
    push_all(&mut aad, message_id.as_slice());
    push_all(&mut aad, group_id.as_bytes());
    push_all(&mut aad, author_id.as_bytes());
    push_u64_be(&mut aad, timestamp_ms);
    assert(aad@ =~= group_aad_spec(message_id@, group_id@, author_id@, timestamp_ms));
    aad
}

/// The associated data of an envelope's own header.
pub fn group_aad(envelope: &GroupEnvelope) -> (aad: Vec<u8>)
    ensures
        aad@ == group_aad_spec(
            envelope.message_id@,
            envelope.group_id@,
            envelope.author_id@,
            envelope.timestamp_ms,
        ),
{
    group_aad_parts(
        &envelope.message_id,
        envelope.group_id.as_str(),
        envelope.author_id.as_str(),
        envelope.timestamp_ms,
    )
}

/// The associated data under which a group key is sealed for `recipient_id`.
pub fn group_key_aad(group_id: &str, recipient_id: &str) -> (aad: Vec<u8>)
    ensures
        aad@ == group_key_aad_spec(group_id@, recipient_id@),
{
    let mut aad = group_key_aad_prefix_bytes();
    push_all(&mut aad, group_id.as_bytes());
    push_all(&mut aad, recipient_id.as_bytes());
    assert(aad@ =~= group_key_aad_spec(group_id@, recipient_id@));
    aad
}

/// The associated data of a group message pins its message id and
/// timestamp, and the group and author when the two group ids have the
/// same length.
pub proof fn group_aad_binding(
    m1: Seq<u8>,
    g1: Seq<char>,
    a1: Seq<char>,
    t1: u64,
    m2: Seq<u8>,
    g2: Seq<char>,
    a2: Seq<char>,
    t2: u64,
)
    requires
        m1.len() == 16,
        m2.len() == 16,
        group_aad_spec(m1, g1, a1, t1) == group_aad_spec(m2, g2, a2, t2),
    ensures
        m1 == m2,
        t1 == t2,
        encode_utf8(g1).len() == encode_utf8(g2).len() ==> g1 == g2 && a1 == a2,
{
    let x = group_aad_spec(m1, g1, a1, t1);
    let y = group_aad_spec(m2, g2, a2, t2);
    let n = x.len() as int;
    assert(x.subrange(17, 33) =~= m1);
    assert(y.subrange(17, 33) =~= m2);
    assert(x.skip(n - 8) =~= u64_be(t1));
    assert(y.skip(n - 8) =~= u64_be(t2));
    u64_be_injective(t1, t2);
    let lg = encode_utf8(g1).len() as int;
    if lg == encode_utf8(g2).len() {
        assert(x.subrange(33, 33 + lg) =~= encode_utf8(g1));
        assert(y.subrange(33, 33 + lg) =~= encode_utf8(g2));
        assert(x.subrange(33 + lg, n - 8) =~= encode_utf8(a1));
        assert(y.subrange(33 + lg, n - 8) =~= encode_utf8(a2));
        encode_utf8_decode_utf8(g1);
        encode_utf8_decode_utf8(g2);
        encode_utf8_decode_utf8(a1);
        encode_utf8_decode_utf8(a2);
    }
}

/// A group key sealed for one recipient cannot be taken for another
/// recipient's key of the same group, and its associated data always starts
/// with the group-key prefix.
pub proof fn group_key_aad_binding(g: Seq<char>, r1: Seq<char>, r2: Seq<char>)
    ensures
        group_key_aad_spec(g, r1) == group_key_aad_spec(g, r2) ==> r1 == r2,
        group_key_aad_spec(g, r1).take(17) == group_key_aad_prefix(),
{
    let x = group_key_aad_spec(g, r1);
    let y = group_key_aad_spec(g, r2);
    let k = 17 + encode_utf8(g).len() as int;
    assert(x.take(17) =~= group_key_aad_prefix());
    if x == y {
        assert(x.skip(k) =~= encode_utf8(r1));
        assert(y.skip(k) =~= encode_utf8(r2));
        encode_utf8_decode_utf8(r1);
        encode_utf8_decode_utf8(r2);
    }
}

} // verus!

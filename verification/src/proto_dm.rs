//! Direct-message envelopes and the associated data that binds their
//! header to the ciphertext.

use vstd::prelude::*;
use vstd::utf8::{encode_utf8, encode_utf8_decode_utf8};
use crate::bytes::{push_all, push_u64_be, u64_be, u64_be_injective};

verus! {

/// An encrypted direct message as it travels between peers.
#[derive(Clone, Debug, PartialEq)]
pub struct DmEnvelope {
    pub message_id: [u8; 16],
    pub author_id: String,
    pub recipient_id: String,
    pub timestamp_ms: u64,
    pub kind: u8,
    pub duration_ms: u32,
    pub nonce: [u8; 12],
    pub ciphertext: Vec<u8>,
}

/// Message id, author, recipient (UTF-8) and big-endian timestamp, concatenated.
pub open spec fn dm_aad_spec(message_id: Seq<u8>, author: Seq<char>, recipient: Seq<char>, timestamp_ms: u64) -> Seq<u8> {
    message_id + encode_utf8(author) + encode_utf8(recipient) + u64_be(timestamp_ms)
}

/// The associated data of a direct message.
pub fn dm_aad_parts(message_id: &[u8; 16], author_id: &str, recipient_id: &str, timestamp_ms: u64) -> (aad: Vec<u8>)
    ensures
        aad@ == dm_aad_spec(message_id@, author_id@, recipient_id@, timestamp_ms),
{
    let mut aad: Vec<u8> = Vec::new();
    push_all(&mut aad, message_id.as_slice());
    push_all(&mut aad, author_id.as_bytes());
    push_all(&mut aad, recipient_id.as_bytes());
    push_u64_be(&mut aad, timestamp_ms);
    assert(aad@ =~= dm_aad_spec(message_id@, author_id@, recipient_id@, timestamp_ms));
    aad
}

/// The associated data of an envelope's own header.
pub fn dm_aad(envelope: &DmEnvelope) -> (aad: Vec<u8>)
    ensures
        aad@ == dm_aad_spec(
            envelope.message_id@,
            envelope.author_id@,
            envelope.recipient_id@,
            envelope.timestamp_ms,
        ),
{
    dm_aad_parts(
        &envelope.message_id,
        envelope.author_id.as_str(),
        envelope.recipient_id.as_str(),
        envelope.timestamp_ms,
    )
}

/// The associated data pins the message id and timestamp of a 16-byte id,
/// and the author and recipient too when the two authors have the same
/// length (as onion identifiers do): changing any of them changes it.
pub proof fn dm_aad_binding(
    m1: Seq<u8>,
    a1: Seq<char>,
    r1: Seq<char>,
    t1: u64,
    m2: Seq<u8>,
    a2: Seq<char>,
    r2: Seq<char>,
    t2: u64,
)
    requires
        m1.len() == 16,
        m2.len() == 16,
        dm_aad_spec(m1, a1, r1, t1) == dm_aad_spec(m2, a2, r2, t2),
    ensures
        m1 == m2,
        t1 == t2,
        encode_utf8(a1).len() == encode_utf8(a2).len() ==> a1 == a2 && r1 == r2,
{
    let x = dm_aad_spec(m1, a1, r1, t1);
    let n = x.len() as int;
    assert(x.take(16) =~= m1);
    assert(dm_aad_spec(m2, a2, r2, t2).take(16) =~= m2);
    assert(x.skip(n - 8) =~= u64_be(t1));
    assert(dm_aad_spec(m2, a2, r2, t2).skip(n - 8) =~= u64_be(t2));
    u64_be_injective(t1, t2);
    let la = encode_utf8(a1).len() as int;
    if la == encode_utf8(a2).len() {
        assert(x.subrange(16, 16 + la) =~= encode_utf8(a1));
        assert(dm_aad_spec(m2, a2, r2, t2).subrange(16, 16 + la) =~= encode_utf8(a2));
        assert(x.subrange(16 + la, n - 8) =~= encode_utf8(r1));
        assert(dm_aad_spec(m2, a2, r2, t2).subrange(16 + la, n - 8) =~= encode_utf8(r2));
        encode_utf8_decode_utf8(a1);
        encode_utf8_decode_utf8(a2);
        encode_utf8_decode_utf8(r1);
        encode_utf8_decode_utf8(r2);
    }
}

} // verus!

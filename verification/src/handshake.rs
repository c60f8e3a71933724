//! The signed HELLO / WELCOME handshake: each side signs a fresh nonce and
//! its own onion identifier under a domain string, and the other side checks
//! the signature against the key that the identifier itself names.

use vstd::prelude::*;
use vstd::utf8::encode_utf8;
use crate::bytes::push_all;
use crate::crypto::{
    onion_id_from_public, onion_id_roundtrip, onion_id_spec, onion_id_to_public, onion_public_spec,
    Identity,
};
use crate::primitives::{ed25519_public_spec, ed25519_verify_spec, fill_random};

verus! {

/// The bytes of `"void-handshake-hello-v1"`.
pub open spec fn hello_domain_spec() -> Seq<u8> {
    seq![118u8, 111, 105, 100, 45, 104, 97, 110, 100, 115, 104, 97, 107, 101, 45, 104, 101, 108, 108, 111, 45, 118, 49]
}

/// The bytes of `"void-handshake-welcome-v1"`.
pub open spec fn welcome_domain_spec() -> Seq<u8> {
    seq![118u8, 111, 105, 100, 45, 104, 97, 110, 100, 115, 104, 97, 107, 101, 45, 119, 101, 108, 99, 111, 109, 101, 45, 118, 49]
}

/// `HELLO_DOMAIN`: the domain under which the dialing side signs.
pub fn hello_domain() -> (res: Vec<u8>)
    ensures
        res@ == hello_domain_spec(),
{
    let v: Vec<u8> = vec![118u8, 111, 105, 100, 45, 104, 97, 110, 100, 115, 104, 97, 107, 101, 45, 104, 101, 108, 108, 111, 45, 118, 49];
    assert(v@ =~= hello_domain_spec());
    v
}

/// `WELCOME_DOMAIN`: the domain under which the answering side signs.
pub fn welcome_domain() -> (res: Vec<u8>)
    ensures
        res@ == welcome_domain_spec(),
{
    let v: Vec<u8> = vec![118u8, 111, 105, 100, 45, 104, 97, 110, 100, 115, 104, 97, 107, 101, 45, 119, 101, 108, 99, 111, 109, 101, 45, 118, 49];
    assert(v@ =~= welcome_domain_spec());
    v
}

/// A fresh random 16-byte nonce.
pub fn new_nonce() -> (nonce: [u8; 16]) {
    let mut nonce = [0u8; 16];
    fill_random(&mut nonce);
    nonce
}

/// The signed message: domain, nonce and onion identifier (UTF-8).
pub open spec fn handshake_message_spec(domain: Seq<u8>, nonce: Seq<u8>, onion_id: Seq<char>) -> Seq<u8> {
    domain + nonce + encode_utf8(onion_id)
}

pub fn handshake_message(domain: &[u8], nonce: &[u8; 16], onion_id: &str) -> (message: Vec<u8>)
    ensures
        message@ == handshake_message_spec(domain@, nonce@, onion_id@),
{
    let mut message: Vec<u8> = Vec::new();
    push_all(&mut message, domain);
    push_all(&mut message, nonce.as_slice());
    push_all(&mut message, onion_id.as_bytes());
    assert(message@ =~= handshake_message_spec(domain@, nonce@, onion_id@));
    message
}

/// Whether a handshake claiming `onion_id` is accepted: the identifier must
/// be a valid onion address and the signature must verify under the key it
/// names.
pub open spec fn handshake_accepted(domain: Seq<u8>, onion_id: Seq<char>, nonce: Seq<u8>, signature: Seq<u8>) -> bool {
    match onion_public_spec(onion_id) {
        None => false,
        Some(public) => ed25519_verify_spec(
            public,
            handshake_message_spec(domain, nonce, onion_id),
            signature,
        ),
    }
}

/// Signs a handshake for `identity`. The signature is always accepted by
/// `verify_handshake` for the same domain, nonce and the identity's onion
/// identifier.
pub fn sign_handshake(identity: &Identity, domain: &[u8], nonce: &[u8; 16]) -> (signature: [u8; 64])
    ensures
        handshake_accepted(domain@, onion_id_spec(ed25519_public_spec(identity@)), nonce@, signature@),
{
    let public = identity.public();
    let onion_id = onion_id_from_public(&public);
    let message = handshake_message(domain, nonce, onion_id.as_str());
    let signature = identity.sign_bytes(message.as_slice());
    proof {
        onion_id_roundtrip(public@);
    }
    signature
}

/// Checks a peer's handshake signature against the key its onion
/// identifier names.
pub fn verify_handshake(domain: &[u8], onion_id: &str, nonce: &[u8; 16], signature: &[u8; 64]) -> (ok: bool)
    ensures
        ok == handshake_accepted(domain@, onion_id@, nonce@, signature@),
{
    let public = match onion_id_to_public(onion_id) {
        Some(p) => p,
        None => return false,
    };
    assert(onion_public_spec(onion_id@) == Some(public@));
    let message = handshake_message(domain, nonce, onion_id);
    Identity::verify_public_bytes(&public, message.as_slice(), signature)
}

} // verus!

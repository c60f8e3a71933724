//! Direct-message cryptography: X25519 agreement between two identities,
//! HKDF conversation keys and ChaCha20-Poly1305 sealing.

use vstd::prelude::*;
use vstd::utf8::encode_utf8;
use crate::crypto::{
    expanded_blob_spec, expanded_key_blob_from_seed, onion_id_canonical, onion_id_to_public, onion_id_spec,
    onion_public_spec, CryptoError, Identity,
};
use crate::primitives::{
    sealable,
    aead_open, aead_open_spec, aead_seal, aead_seal_spec, ed25519_dh_secret, edwards_to_montgomery,
    ed25519_public_spec, fill_random, sha512_spec, x25519_basepoint, hkdf_sha256, hkdf_sha256_spec, montgomery_of_edwards_spec,
    x25519, x25519_spec,
};

verus! {

/// The bytes of `"void-dm-v1"`, the HKDF info string of conversation keys.
pub open spec fn dm_info() -> Seq<u8> {
    seq![118u8, 111, 105, 100, 45, 100, 109, 45, 118, 49]
}

fn dm_info_bytes() -> (res: Vec<u8>)
    ensures
        res@ == dm_info(),
{
    let v: Vec<u8> = vec![118u8, 111, 105, 100, 45, 100, 109, 45, 118, 49];
    assert(v@ =~= dm_info());
    v
}

/// The X25519 u-coordinate of an Ed25519 public key, if it is a curve point.
pub fn ed25519_public_to_x25519(public: &[u8; 32]) -> (res: Option<[u8; 32]>)
    ensures
        res.deep_view() == montgomery_of_edwards_spec(public@),
        forall|seed: Seq<u8>|
            seed.len() == 32 && public@ == #[trigger] ed25519_public_spec(seed) ==> res.deep_view() == Some(
                x25519_spec(ed25519_dh_secret(seed), x25519_basepoint()),
            ),
{
    edwards_to_montgomery(public)
}

/// The X25519 secret scalar of an Ed25519 seed: the clamped first half of
/// the expanded key.
pub fn ed25519_seed_to_x25519(seed: &[u8; 32]) -> (res: [u8; 32])
    ensures
        res@ == expanded_blob_spec(seed@).take(32),
        res@ == ed25519_dh_secret(seed@),
{
    let blob = expanded_key_blob_from_seed(seed);
    let mut secret = [0u8; 32];
    let mut i: usize = 0;
    while i < 32
        invariant
            i <= 32,
            forall|k: int| 0 <= k < i ==> secret@[k] == blob@[k],
        decreases 32 - i,
    {
        secret[i] = blob[i];
        i = i + 1;
    }
    assert(secret@ =~= blob@.take(32));
    proof {
        assert forall|k: int| 0 <= k < 32 implies secret@[k] == ed25519_dh_secret(seed@)[k] by {
            assert(secret@[k] == blob@[k]);
        }
        assert(secret@ =~= ed25519_dh_secret(seed@));
    }
    secret
}

/// Byte-wise lexicographic order, which is the order of `str`.
pub open spec fn bytes_le(a: Seq<u8>, b: Seq<u8>) -> bool
    decreases a.len(),
{
    if a.len() == 0 {
        true
    } else if b.len() == 0 {
        false
    } else if a[0] != b[0] {
        a[0] < b[0]
    } else {
        bytes_le(a.drop_first(), b.drop_first())
    }
}

/// `a <= b` on strings.
pub open spec fn str_le(a: Seq<char>, b: Seq<char>) -> bool {
    bytes_le(encode_utf8(a), encode_utf8(b))
}

pub(crate) fn le_bytes(a: &[u8], b: &[u8]) -> (res: bool)
    ensures
        res == bytes_le(a@, b@),
{
    let mut i: usize = 0;
    assert(a@.skip(0) =~= a@ && b@.skip(0) =~= b@);
    while i < a.len() && i < b.len() && a[i] == b[i]
        invariant
            i <= a.len(),
            i <= b.len(),
            bytes_le(a@, b@) == bytes_le(a@.skip(i as int), b@.skip(i as int)),
        decreases a.len() - i,
    {
        proof {
            assert(a@.skip(i as int).drop_first() =~= a@.skip(i + 1));
            assert(b@.skip(i as int).drop_first() =~= b@.skip(i + 1));
        }
        i = i + 1;
    }
    if i == a.len() {
        true
    } else if i == b.len() {
        false
    } else {
        a[i] < b[i]
    }
}

/// The HKDF salt of a conversation: both onion identifiers, smaller first.
pub open spec fn conversation_salt(mine: Seq<char>, peer: Seq<char>) -> Seq<char> {
    if str_le(mine, peer) {
        mine + peer
    } else {
        peer + mine
    }
}

proof fn lemma_bytes_le_total(a: Seq<u8>, b: Seq<u8>)
    ensures
        bytes_le(a, b) || bytes_le(b, a),
        bytes_le(a, b) && bytes_le(b, a) ==> a == b,
    decreases a.len(),
{
    if a.len() > 0 && b.len() > 0 && a[0] == b[0] {
        lemma_bytes_le_total(a.drop_first(), b.drop_first());
        if bytes_le(a, b) && bytes_le(b, a) {
            assert(a =~= seq![a[0]] + a.drop_first());
            assert(b =~= seq![b[0]] + b.drop_first());
        }
    }
}

/// String order is total: of two strings, one is at most the other.
pub proof fn str_le_total(a: Seq<char>, b: Seq<char>)
    ensures
        str_le(a, b) || str_le(b, a),
{
    lemma_bytes_le_total(encode_utf8(a), encode_utf8(b));
}

/// The salt does not depend on which side computes it.
pub proof fn conversation_salt_symmetric(a: Seq<char>, b: Seq<char>)
    ensures
        conversation_salt(a, b) == conversation_salt(b, a),
{
    lemma_bytes_le_total(encode_utf8(a), encode_utf8(b));
    if str_le(a, b) && str_le(b, a) {
        vstd::utf8::encode_utf8_decode_utf8(a);
        vstd::utf8::encode_utf8_decode_utf8(b);
    }
}

/// The conversation key of `seed` with the owner of `peer`, or `None` when
/// `peer` is not a valid onion identifier of a curve point.
pub open spec fn conversation_key_spec(seed: Seq<u8>, peer: Seq<char>) -> Option<Seq<u8>> {
    match onion_public_spec(peer) {
        None => None,
        Some(public) => match montgomery_of_edwards_spec(public) {
            None => None,
            Some(x) => Some(
                hkdf_sha256_spec(
                    encode_utf8(conversation_salt(onion_id_spec(ed25519_public_spec(seed)), peer)),
                    x25519_spec(expanded_blob_spec(seed).take(32), x),
                    dm_info(),
                ),
            ),
        },
    }
}

/// The onion identifier of the identity with this seed.
pub open spec fn seed_onion_id(seed: Seq<u8>) -> Seq<char> {
    onion_id_spec(ed25519_public_spec(seed))
}

/// The conversation key of the identities with seeds `a` and `b`, as `a`
/// derives it: `a`'s X25519 secret with `b`'s X25519 public key, through
/// HKDF-SHA256 salted with both identifiers in order.
pub open spec fn pair_key_spec(a: Seq<u8>, b: Seq<u8>) -> Seq<u8> {
    hkdf_sha256_spec(
        encode_utf8(conversation_salt(seed_onion_id(a), seed_onion_id(b))),
        x25519_spec(ed25519_dh_secret(a), x25519_spec(ed25519_dh_secret(b), x25519_basepoint())),
        dm_info(),
    )
}

/// The key shared by `my_identity` and the owner of `peer_onion_id`:
/// X25519 of our secret with their key, through HKDF-SHA256 salted with
/// both identifiers in order.
pub fn conversation_key(my_identity: &Identity, peer_onion_id: &str) -> (res: Result<
    [u8; 32],
    CryptoError,
>)
    ensures
        match res {
            Ok(k) => conversation_key_spec(my_identity@, peer_onion_id@) == Some(k@),
            Err(CryptoError::InvalidOnion(p)) => p@ == peer_onion_id@ && conversation_key_spec(
                my_identity@,
                peer_onion_id@,
            ) is None,
            Err(_) => false,
        },
        forall|peer_seed: Seq<u8>|
            peer_seed.len() == 32 && onion_public_spec(peer_onion_id@) == Some(
                #[trigger] ed25519_public_spec(peer_seed),
            ) ==> (res matches Ok(k) && k@ == pair_key_spec(my_identity@, peer_seed) && k@ == pair_key_spec(
                peer_seed,
                my_identity@,
            )),
{
    let peer_public = match onion_id_to_public(peer_onion_id) {
        Some(p) => p,
        None => return Err(CryptoError::InvalidOnion(String::from_str(peer_onion_id))),
    };
    assert(onion_public_spec(peer_onion_id@) == Some(peer_public@));
    let peer_x25519 = match ed25519_public_to_x25519(&peer_public) {
        Some(x) => x,
        None => return Err(CryptoError::InvalidOnion(String::from_str(peer_onion_id))),
    };
    assert(montgomery_of_edwards_spec(peer_public@) == Some(peer_x25519@));
    let seed = my_identity.seed();
    let my_secret = ed25519_seed_to_x25519(&seed);
    let shared = x25519(&my_secret, &peer_x25519);
    let my_id = my_identity.onion_id();
    let salt = if le_bytes(my_id.as_str().as_bytes(), peer_onion_id.as_bytes()) {
        my_id.concat(peer_onion_id)
    } else {
        let p = String::from_str(peer_onion_id);
        p.concat(my_id.as_str())
    };
    let info = dm_info_bytes();
    match hkdf_sha256(salt.as_str().as_bytes(), shared.as_slice(), info.as_slice()) {
        Some(okm) => {
            proof {
                assert forall|b: Seq<u8>|
                    b.len() == 32 && onion_public_spec(peer_onion_id@) == Some(
                        #[trigger] ed25519_public_spec(b),
                    ) implies okm@ == pair_key_spec(my_identity@, b) && okm@ == pair_key_spec(
                    b,
                    my_identity@,
                ) by {
                    assert(peer_x25519@ == x25519_spec(ed25519_dh_secret(b), x25519_basepoint()));
                    assert(shared@ == x25519_spec(
                        ed25519_dh_secret(b),
                        x25519_spec(ed25519_dh_secret(my_identity@), x25519_basepoint()),
                    ));
                    onion_id_canonical(peer_onion_id@);
                    assert(seed_onion_id(b) == peer_onion_id@);
                    conversation_salt_symmetric(my_id@, peer_onion_id@);
                }
            }
            Ok(okm)
        },
        None => Err(CryptoError::Kdf(String::from_str("expansion HKDF"))),
    }
}

/// Seals `plaintext` under `key` with a fresh random nonce.
pub fn dm_encrypt(key: &[u8; 32], aad: &[u8], plaintext: &[u8]) -> (res: Option<([u8; 12], Vec<u8>)>)
    ensures
        res matches Some((nonce, ct)) ==> aead_seal_spec(key@, nonce@, aad@, plaintext@) == Some(
            ct@,
        ),
        res matches Some((nonce, ct)) ==> ct@.len() == plaintext@.len() + 16,
        res is Some <==> sealable(plaintext@.len() as int),
{
    let mut nonce = [0u8; 12];
    fill_random(&mut nonce);
    match aead_seal(key, &nonce, aad, plaintext) {
        Some(ct) => {
            assert(ct.deep_view() =~= ct@);
            Some((nonce, ct))
        },
        None => None,
    }
}

/// Opens a sealed message; `None` when it does not authenticate under
/// `key`, `nonce` and `aad`. What `dm_encrypt` sealed opens to the
/// plaintext it sealed.
pub fn dm_decrypt(key: &[u8; 32], nonce: &[u8; 12], aad: &[u8], ciphertext: &[u8]) -> (res: Option<
    Vec<u8>,
>)
    ensures
        res.deep_view() == aead_open_spec(key@, nonce@, aad@, ciphertext@),
        forall|m: Seq<u8>|
            #[trigger] aead_seal_spec(key@, nonce@, aad@, m) == Some(ciphertext@) ==> (res matches Some(
                p,
            ) && p@ == m),
{
    let res = aead_open(key, nonce, aad, ciphertext);
    proof {
        if res is Some {
            assert(res->0.deep_view() =~= res->0@);
        }
    }
    res
}

/// `a <= b` on strings.
pub fn string_le(a: &str, b: &str) -> (res: bool)
    ensures
        res == str_le(a@, b@),
{
    le_bytes(a.as_bytes(), b.as_bytes())
}

} // verus!

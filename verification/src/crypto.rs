//! Identities: Ed25519 seeds, v3 onion addresses derived from their public
//! keys, expanded onion-service keys and BIP-39 recovery phrases.

use vstd::prelude::*;
use vstd::utf8::{decode_utf8, encode_utf8, encode_utf8_decode_utf8};
use crate::base32::{
    base32_bytes, base32_canonical, base32_decode_lower, base32_decode_spec, base32_lower_nopad,
    base32_roundtrip, base32_text, b32_symbol, b32_values,
};
use crate::primitives::{
    base64_encode, base64_encode_spec, bip39_entropy, bip39_entropy_spec, bip39_phrase,
    bip39_phrase_spec, ed25519_public, ed25519_public_spec, ed25519_sign, ed25519_signature_spec,
    ed25519_dh_secret, ed25519_verify, ed25519_verify_spec, is_curve_point, space_count, edwards_basepoint_mul, edwards_basepoint_mul_spec,
    fill_random, is_lower_words_text, is_single_spaced, lowercase_spec, sha3_256, sha3_256_spec,
    sha512, sha512_spec, to_lowercase,
};
use crate::invite::ascii_lower;
use crate::text::{
    all_ascii, hex_encode, hex_spec, hex_spec_len, is_white_space, join_words, normalize_keeps_ascii,
    normalize_of_spaced_words, spaced_words, well_spaced,
    normalize_of_single_spaced, normalize_whitespace, normalize_ws_spec, prefix_chars,
};

verus! {

pub const ONION_VERSION_BYTE: u8 = 3;

/// Why a key could not be derived.
#[derive(Debug)]
pub enum CryptoError {
    Mnemonic(String),
    InvalidOnion(String),
    Kdf(String),
}

impl CryptoError {
    /// The human-readable description of the error.
    pub fn message(&self) -> (res: String)
        ensures
            match self {
                CryptoError::Mnemonic(d) => res@ == "phrase de récupération invalide: "@ + d@,
                CryptoError::InvalidOnion(d) => res@ == "adresse oignon invalide: "@ + d@,
                CryptoError::Kdf(d) => res@ == "dérivation de clé impossible: "@ + d@,
            },
    {
        let (prefix, detail) = match self {
            CryptoError::Mnemonic(d) => ("phrase de récupération invalide: ", d),
            CryptoError::InvalidOnion(d) => ("adresse oignon invalide: ", d),
            CryptoError::Kdf(d) => ("dérivation de clé impossible: ", d),
        };
        let out = String::from_str(prefix);
        out.concat(detail.as_str())
    }
}

/// The bytes of `".onion checksum"`.
pub open spec fn onion_checksum_prefix() -> Seq<u8> {
    seq![46u8, 111, 110, 105, 111, 110, 32, 99, 104, 101, 99, 107, 115, 117, 109]
}

/// The SHA3-256 digest whose first two bytes are the checksum of an onion address.
pub open spec fn onion_checksum(public: Seq<u8>) -> Seq<u8> {
    sha3_256_spec(onion_checksum_prefix() + public + seq![ONION_VERSION_BYTE])
}

/// The 35 bytes behind a v3 onion address: public key, checksum, version.
pub open spec fn onion_id_bytes(public: Seq<u8>) -> Seq<u8> {
    public + seq![onion_checksum(public)[0], onion_checksum(public)[1], ONION_VERSION_BYTE]
}

/// The 56-character v3 onion identifier of an Ed25519 public key.
pub open spec fn onion_id_spec(public: Seq<u8>) -> Seq<char> {
    base32_text(onion_id_bytes(public))
}

/// The public key named by an onion identifier, when its length, alphabet,
/// checksum and version byte are right.
pub open spec fn onion_public_spec(id: Seq<char>) -> Option<Seq<u8>> {
    let text = encode_utf8(id);
    if text.len() != 56 {
        None
    } else {
        match base32_decode_spec(text) {
            None => None,
            Some(bytes) => {
                if bytes.len() != 35 {
                    None
                } else {
                    let public = bytes.take(32);
                    let digest = onion_checksum(public);
                    if digest[0] == bytes[32] && digest[1] == bytes[33] && bytes[34]
                        == ONION_VERSION_BYTE {
                        Some(public)
                    } else {
                        None
                    }
                }
            }
        }
    }
}

fn checksum_input(public: &[u8; 32]) -> (res: Vec<u8>)
    ensures
        res@ == onion_checksum_prefix() + public@ + seq![ONION_VERSION_BYTE],
{
    let mut v: Vec<u8> = Vec::new();
    v.push(46u8);
    v.push(111u8);
    v.push(110u8);
    v.push(105u8);
    v.push(111u8);
    v.push(110u8);
    v.push(32u8);
    v.push(99u8);
    v.push(104u8);
    v.push(101u8);
    v.push(99u8);
    v.push(107u8);
    v.push(115u8);
    v.push(117u8);
    v.push(109u8);
    let mut i: usize = 0;
    while i < 32
        invariant
            i <= 32,
            v@ == onion_checksum_prefix() + public@.take(i as int),
        decreases 32 - i,
    {
        v.push(public[i]);
        i = i + 1;
        assert(v@ =~= onion_checksum_prefix() + public@.take(i as int));
    }
    v.push(ONION_VERSION_BYTE);
    assert(public@.take(32) =~= public@);
    assert(v@ =~= onion_checksum_prefix() + public@ + seq![ONION_VERSION_BYTE]);
    v
}

/// The v3 onion identifier (without `.onion`) of an Ed25519 public key.
pub fn onion_id_from_public(public: &[u8; 32]) -> (res: String)
    ensures
        res@ == onion_id_spec(public@),
        ({
            let d = sha3_256_spec(onion_checksum_prefix() + public@ + seq![3u8]);
            res@ == base32_text(public@ + seq![d[0], d[1], 3u8])
        }),
{
    let digest = sha3_256(checksum_input(public).as_slice());
    let mut data = [0u8; 35];
    let mut i: usize = 0;
    while i < 32
        invariant
            i <= 32,
            forall|k: int| 0 <= k < i ==> data@[k] == public@[k],
        decreases 32 - i,
    {
        data[i] = public[i];
        i = i + 1;
    }
    data[32] = digest[0];
    data[33] = digest[1];
    data[34] = ONION_VERSION_BYTE;
    assert(data@ =~= onion_id_bytes(public@));
    proof {
        onion_id_layout(public@);
    }
    base32_lower_nopad(&data)
}

/// The Ed25519 public key named by a v3 onion identifier, if it is valid.
pub fn onion_id_to_public(id: &str) -> (res: Option<[u8; 32]>)
    ensures
        res.deep_view() == onion_public_spec(id@),
{
    if id.as_bytes().len() != 56 {
        return None;
    }
    let bytes = match base32_decode_lower(id) {
        Some(b) => b,
        None => return None,
    };
    if bytes.len() != 35 {
        return None;
    }
    let mut public = [0u8; 32];
    let mut i: usize = 0;
    while i < 32
        invariant
            i <= 32,
            bytes.len() == 35,
            forall|k: int| 0 <= k < i ==> public@[k] == bytes@[k],
        decreases 32 - i,
    {
        public[i] = bytes[i];
        i = i + 1;
    }
    assert(public@ =~= bytes@.take(32));
    let digest = sha3_256(checksum_input(&public).as_slice());
    assert(digest@ == onion_checksum(public@));
    assert(base32_decode_spec(encode_utf8(id@)) == Some(bytes@));
    if digest[0] == bytes[32] && digest[1] == bytes[33] && bytes[34] == ONION_VERSION_BYTE {
        let res = Some(public);
        assert(res.deep_view() =~~= Some(public@));
        assert(Some(public@) == onion_public_spec(id@));
        res
    } else {
        assert(onion_public_spec(id@) is None);
        None
    }
}

/// Whether `id` is a well-formed v3 onion identifier with a valid checksum.
pub fn onion_id_is_valid(id: &str) -> (b: bool)
    ensures
        b == (onion_public_spec(id@) is Some),
{
    id.as_bytes().len() == 56 && onion_id_to_public(id).is_some()
}

proof fn lemma_values_len(d: Seq<u8>)
    requires
        d.len() % 5 == 0,
    ensures
        b32_values(d).len() == d.len() / 5 * 8,
    decreases d.len(),
{
    if d.len() > 0 {
        lemma_values_len(d.skip(5));
    }
}

/// The onion identifier of a public key names that key back.
pub proof fn onion_id_roundtrip(public: Seq<u8>)
    requires
        public.len() == 32,
    ensures
        onion_public_spec(onion_id_spec(public)) == Some(public),
        onion_id_spec(public).len() == 56,
        encode_utf8(onion_id_spec(public)).len() == 56,
{
    let bytes = onion_id_bytes(public);
    base32_roundtrip(bytes);
    lemma_values_len(bytes);
    assert(bytes.take(32) =~= public);
}

/// Each valid onion identifier is the identifier of the key it names:
/// identifiers and public keys correspond one to one.
pub proof fn onion_id_canonical(id: Seq<char>)
    requires
        onion_public_spec(id) is Some,
    ensures
        onion_id_spec(onion_public_spec(id)->0) == id,
{
    let text = encode_utf8(id);
    let bytes = base32_decode_spec(text)->0;
    let public = bytes.take(32);
    base32_canonical(text);
    assert(onion_id_bytes(public) =~= bytes);
    base32_roundtrip(bytes);
    encode_utf8_decode_utf8(id);
    encode_utf8_decode_utf8(onion_id_spec(public));
}

proof fn lemma_values_last(d: Seq<u8>)
    requires
        d.len() >= 5,
        d.len() % 5 == 0,
    ensures
        b32_values(d).len() == d.len() / 5 * 8,
        b32_values(d)[b32_values(d).len() - 1] == d[d.len() - 1] & 31u8,
    decreases d.len(),
{
    lemma_values_len(d);
    let rest = d.skip(5);
    if d.len() == 5 {
        assert(rest.len() == 0);
        assert(b32_values(rest) =~= Seq::<u8>::empty());
        assert(d.take(5) =~= d);
    } else {
        lemma_values_last(rest);
        assert(rest[rest.len() - 1] == d[d.len() - 1]);
    }
}

/// Every valid onion identifier has 56 characters and ends with `d`, the
/// symbol that the version byte 3 leaves in the last place.
pub proof fn onion_id_shape(id: Seq<char>)
    requires
        onion_public_spec(id) is Some,
    ensures
        id.len() == 56,
        id[55] == 'd',
{
    let public = onion_public_spec(id)->0;
    onion_id_canonical(id);
    assert(public.len() == 32);
    onion_id_roundtrip(public);
    let bytes = onion_id_bytes(public);
    assert(bytes[34] == ONION_VERSION_BYTE);
    lemma_values_last(bytes);
    let v = b32_values(bytes);
    assert(v[55] == 3u8 & 31u8);
    assert(3u8 & 31u8 == 3u8) by (bit_vector);
    assert(id[55] == b32_symbol(v[55]) as char);
}

/// Changing the last character of a valid onion identifier makes it
/// invalid; so does adding or removing characters.
pub proof fn onion_id_last_char_fixed(id: Seq<char>, other: Seq<char>)
    requires
        onion_public_spec(id) is Some,
        other.len() != id.len() || other[other.len() - 1] != id[id.len() - 1],
    ensures
        onion_public_spec(other) is None,
{
    onion_id_shape(id);
    if onion_public_spec(other) is Some {
        onion_id_shape(other);
    }
}

/// The v3 onion identifier of a key as Tor spells it: the base32 text of
/// the key, then the first and second byte of
/// SHA3-256(".onion checksum" || key || 0x03), in that order, then the
/// version byte 3. That text names the key back.
pub proof fn onion_id_layout(public: Seq<u8>)
    requires
        public.len() == 32,
    ensures
        ({
            let d = sha3_256_spec(onion_checksum_prefix() + public + seq![3u8]);
            let id = base32_text(public + seq![d[0], d[1], 3u8]);
            onion_id_spec(public) == id && onion_public_spec(id) == Some(public)
        }),
{
    onion_id_roundtrip(public);
    assert(onion_id_bytes(public) =~= public + seq![
        sha3_256_spec(onion_checksum_prefix() + public + seq![3u8])[0],
        sha3_256_spec(onion_checksum_prefix() + public + seq![3u8])[1],
        3u8,
    ]);
}

/// SHA-512 of the seed with the Ed25519 clamping applied to its first half.
pub open spec fn expanded_blob_spec(seed: Seq<u8>) -> Seq<u8> {
    let h = sha512_spec(seed);
    h.update(0, h[0] & 248u8).update(31, (h[31] & 127u8) | 64u8)
}

/// The 64-byte expanded secret key that Tor's `ADD_ONION ED25519-V3` takes.
pub fn expanded_key_blob_from_seed(seed: &[u8; 32]) -> (blob: [u8; 64])
    ensures
        blob@ == expanded_blob_spec(seed@),
        sha512_spec(seed@).len() == 64,
        blob@.take(32) == ed25519_dh_secret(seed@),
{
    let mut blob = sha512(seed.as_slice());
    blob[0] = blob[0] & 248u8;
    blob[31] = blob[31] & 127u8;
    blob[31] = blob[31] | 64u8;
    proof {
        let h = sha512_spec(seed@);
        assert(((h[31] & 127u8) | 64u8) == (h[31] & 127u8) | 64u8);
    }
    assert(blob@ =~= expanded_blob_spec(seed@));
    assert(blob@.take(32) =~= ed25519_dh_secret(seed@));
    blob
}

/// The public key of an expanded secret key: its scalar times the base point.
pub fn public_from_expanded(blob: &[u8; 64]) -> (public: [u8; 32])
    ensures
        public@ == edwards_basepoint_mul_spec(blob@.take(32)),
        forall|seed: Seq<u8>|
            seed.len() == 32 && blob@.take(32) == #[trigger] ed25519_dh_secret(seed) ==> public@
                == ed25519_public_spec(seed),
{
    let mut scalar = [0u8; 32];
    let mut i: usize = 0;
    while i < 32
        invariant
            i <= 32,
            forall|k: int| 0 <= k < i ==> scalar@[k] == blob@[k],
        decreases 32 - i,
    {
        scalar[i] = blob[i];
        i = i + 1;
    }
    assert(scalar@ =~= blob@.take(32));
    edwards_basepoint_mul(&scalar)
}

/// The onion identifier of an expanded secret key.
pub fn onion_id_from_expanded(blob: &[u8; 64]) -> (res: String)
    ensures
        res@ == onion_id_spec(edwards_basepoint_mul_spec(blob@.take(32))),
        forall|seed: Seq<u8>|
            seed.len() == 32 && blob@.take(32) == #[trigger] ed25519_dh_secret(seed) ==> res@ == onion_id_spec(
                ed25519_public_spec(seed),
            ),
{
    onion_id_from_public(&public_from_expanded(blob))
}

/// An identity: the 32-byte Ed25519 seed from which every key is derived.
pub struct Identity {
    seed: [u8; 32],
}

impl View for Identity {
    type V = Seq<u8>;

    closed spec fn view(&self) -> Seq<u8> {
        self.seed@
    }
}

impl Clone for Identity {
    fn clone(&self) -> (res: Self)
        ensures
            res@ == self@,
    {
        Identity { seed: self.seed }
    }
}

impl Identity {
    pub proof fn view_len(&self)
        ensures
            self@.len() == 32,
    {
    }

    /// A fresh identity from 32 random bytes.
    pub fn generate() -> (res: Identity)
        ensures
            res@.len() == 32,
    {
        let mut seed = [0u8; 32];
        fill_random(&mut seed);
        Identity { seed }
    }

    pub fn from_seed(seed: [u8; 32]) -> (res: Identity)
        ensures
            res@ == seed@,
    {
        Identity { seed }
    }

    pub fn seed(&self) -> (res: [u8; 32])
        ensures
            res@ == self@,
    {
        self.seed
    }

    /// The compressed Ed25519 public key.
    pub fn public(&self) -> (res: [u8; 32])
        ensures
            res@ == ed25519_public_spec(self@),
    {
        ed25519_public(&self.seed)
    }

    /// Signs `message` with this identity's key.
    pub fn sign(&self, message: &[u8]) -> (sig: [u8; 64])
        ensures
            sig@ == ed25519_signature_spec(self@, message@),
            ed25519_verify_spec(ed25519_public_spec(self@), message@, sig@),
    {
        ed25519_sign(&self.seed, message)
    }

    /// Signs `message` and returns the 64 signature bytes.
    pub fn sign_bytes(&self, message: &[u8]) -> (sig: [u8; 64])
        ensures
            sig@ == ed25519_signature_spec(self@, message@),
            ed25519_verify_spec(ed25519_public_spec(self@), message@, sig@),
    {
        self.sign(message)
    }

    /// Whether `signature` signs `message` under `public`.
    pub fn verify(public: &[u8; 32], message: &[u8], signature: &[u8; 64]) -> (ok: bool)
        ensures
            ok == ed25519_verify_spec(public@, message@, signature@),
            !is_curve_point(public@) ==> !ok,
    {
        ed25519_verify(public, message, signature)
    }

    pub fn verify_bytes(public: &[u8; 32], message: &[u8], signature: &[u8; 64]) -> (ok: bool)
        ensures
            ok == ed25519_verify_spec(public@, message@, signature@),
            !is_curve_point(public@) ==> !ok,
    {
        Self::verify(public, message, signature)
    }

    /// Whether `signature` signs `message` under the compressed key `public`;
    /// false when `public` is not a curve point.
    pub fn verify_public_bytes(public: &[u8; 32], message: &[u8], signature: &[u8; 64]) -> (ok: bool)
        ensures
            ok == ed25519_verify_spec(public@, message@, signature@),
            !is_curve_point(public@) ==> !ok,
    {
        Self::verify_bytes(public, message, signature)
    }

    /// The expanded secret key; its first half is the clamped scalar whose
    /// multiple of the base point is this identity's public key (see
    /// `public_from_expanded` and `onion_id_from_expanded`).
    pub fn expanded_key_blob(&self) -> (blob: [u8; 64])
        ensures
            blob@ == expanded_blob_spec(self@),
            blob@.take(32) == ed25519_dh_secret(self@),
    {
        expanded_key_blob_from_seed(&self.seed)
    }

    /// The expanded key in standard base64, as `ADD_ONION` expects it.
    pub fn onion_service_key_b64(&self) -> (res: String)
        ensures
            res@ == base64_encode_spec(expanded_blob_spec(self@)),
    {
        let blob = self.expanded_key_blob();
        base64_encode(blob.as_slice())
    }

    /// The onion identifier of this identity's public key.
    pub fn onion_id(&self) -> (res: String)
        ensures
            res@ == onion_id_spec(ed25519_public_spec(self@)),
    {
        onion_id_from_public(&self.public())
    }

    /// The full `.onion` host name.
    pub fn onion_address(&self) -> (res: String)
        ensures
            res@ == onion_id_spec(ed25519_public_spec(self@)) + ".onion"@,
    {
        let id = self.onion_id();
        id.concat(".onion")
    }

    /// The first 16 hexadecimal digits of the public key.
    pub fn fingerprint_short(&self) -> (res: String)
        ensures
            res@ == hex_spec(ed25519_public_spec(self@)).take(16),
    {
        let public = self.public();
        let hex = hex_encode(public.as_slice());
        proof {
            hex_spec_len(public@);
        }
        prefix_chars(hex.as_str(), 16)
    }
}

/// The 24-word English recovery phrase of a seed.
pub fn recovery_phrase(seed: &[u8; 32]) -> (res: Result<String, CryptoError>)
    ensures
        res matches Ok(p) && p@ == bip39_phrase_spec(seed@),
        res matches Ok(p) ==> is_lower_words_text(p@) && is_single_spaced(p@),
        res matches Ok(p) ==> space_count(p@) == 23,
{
    match bip39_phrase(seed) {
        Some(p) => Ok(p),
        None => Err(CryptoError::Mnemonic(String::from_str("phrase indisponible"))),
    }
}

proof fn lemma_lower_join(ws: Seq<Seq<char>>)
    ensures
        ascii_lower(join_words(ws)) == join_words(ws.map_values(|w: Seq<char>| ascii_lower(w))),
    decreases ws.len(),
{
    let lw = ws.map_values(|w: Seq<char>| ascii_lower(w));
    if ws.len() == 0 {
        assert(ascii_lower(Seq::<char>::empty()) =~= Seq::<char>::empty());
    } else if ws.len() == 1 {
        assert(lw[0] == ascii_lower(ws[0]));
    } else {
        let ws1 = ws.drop_last();
        lemma_lower_join(ws1);
        assert(ws1.map_values(|w: Seq<char>| ascii_lower(w)) =~= lw.drop_last());
        let a = join_words(ws1);
        let b = ws.last();
        assert(lw.last() == ascii_lower(b));
        assert(ascii_lower(a + seq![' '] + b) =~= ascii_lower(a) + seq![' '] + ascii_lower(b));
    }
}

/// A recovery phrase typed with its words in any ASCII case and with any
/// white space before, between and after them becomes the phrase again
/// once normalised: white space folded to single spaces, then lower-cased.
/// Typed in ASCII, it therefore gives `seed_from_recovery_phrase` the same
/// seed as the phrase itself.
pub proof fn typed_phrase_normalizes(words: Seq<Seq<char>>, typed: Seq<Seq<char>>, gaps: Seq<Seq<char>>)
    requires
        typed.len() == words.len(),
        forall|i: int| 0 <= i < typed.len() ==> ascii_lower(#[trigger] typed[i]) == words[i],
        well_spaced(typed, gaps),
    ensures
        ascii_lower(normalize_ws_spec(spaced_words(typed, gaps))) == join_words(words),
{
    normalize_of_spaced_words(typed, gaps);
    lemma_lower_join(typed);
    assert(typed.map_values(|w: Seq<char>| ascii_lower(w)) =~= words);
}

/// What a typed recovery phrase becomes before it is parsed: its words
/// joined by single spaces, then lower-cased.
pub open spec fn normalized_phrase(phrase: Seq<char>) -> Seq<char> {
    lowercase_spec(normalize_ws_spec(phrase))
}

/// The seed that a recovery phrase encodes. White space around and between
/// words and upper-case letters are accepted.
pub fn seed_from_recovery_phrase(phrase: &str) -> (res: Result<[u8; 32], CryptoError>)
    ensures
        match res {
            Ok(seed) => bip39_entropy_spec(normalized_phrase(phrase@)) == Some(seed@),
            Err(CryptoError::Mnemonic(d)) => match bip39_entropy_spec(normalized_phrase(phrase@)) {
                None => true,
                Some(e) => e.len() != 32 && d@ == "taille d'entropie inattendue"@,
            },
            Err(_) => false,
        },
        forall|e: Seq<u8>|
            e.len() == 32 && #[trigger] bip39_phrase_spec(e) == phrase@ && is_lower_words_text(phrase@)
                && is_single_spaced(phrase@) ==> (res matches Ok(seed) && seed@ == e),
        forall|e: Seq<u8>|
            e.len() == 32 && all_ascii(phrase@) && #[trigger] bip39_phrase_spec(e) == ascii_lower(
                normalize_ws_spec(phrase@),
            ) ==> (res matches Ok(seed) && seed@ == e),
{
    let normalized = normalize_whitespace(phrase);
    proof {
        if is_lower_words_text(phrase@) && is_single_spaced(phrase@) {
            assert forall|i: int| 0 <= i < phrase@.len() implies (#[trigger] phrase@[i] == ' '
                || !is_white_space(phrase@[i])) by {
                assert('a' <= phrase@[i] <= 'z' || phrase@[i] == ' ');
            }
            normalize_of_single_spaced(phrase@);
        }
    }
    let ghost spaced = normalized@;
    let normalized = to_lowercase(normalized.as_str());
    proof {
        if is_lower_words_text(phrase@) && is_single_spaced(phrase@) {
            assert(vstd::utf8::is_ascii_chars(spaced)) by {
                assert forall|i: int| 0 <= i < spaced.len() implies '\0' <= #[trigger] spaced[i] <= '\u{7f}' by {
                    assert('a' <= spaced[i] <= 'z' || spaced[i] == ' ');
                }
            }
            assert(normalized@ =~= phrase@);
        }
        if all_ascii(phrase@) {
            normalize_keeps_ascii(phrase@);
            assert(vstd::utf8::is_ascii_chars(spaced)) by {
                assert forall|i: int| 0 <= i < spaced.len() implies '\0' <= #[trigger] spaced[i] <= '\u{7f}' by {
                    assert(spaced == normalize_ws_spec(phrase@));
                    assert('\0' <= spaced[i] <= '\u{7f}');
                }
            }
            assert(normalized@ =~= ascii_lower(spaced));
        }
    }
    let entropy = match bip39_entropy(normalized.as_str()) {
        Ok(e) => e,
        Err(reason) => return Err(CryptoError::Mnemonic(reason)),
    };
    if entropy.len() != 32 {
        return Err(CryptoError::Mnemonic(String::from_str("taille d'entropie inattendue")));
    }
    let mut seed = [0u8; 32];
    let mut i: usize = 0;
    while i < 32
        invariant
            i <= 32,
            entropy.len() == 32,
            forall|k: int| 0 <= k < i ==> seed@[k] == entropy@[k],
        decreases 32 - i,
    {
        seed[i] = entropy[i];
        i = i + 1;
    }
    assert(seed@ =~= entropy@);
    Ok(seed)
}

} // verus!

//! Trusted wrappers around the cryptographic and encoding crates.
//!
//! Each function here makes one call into an outside crate and converts its
//! arguments and result; its contract is believed, not proved. Results that
//! would take pages to state are given names (`*_spec`): a name only claims
//! that equal arguments give equal results.

use vstd::prelude::*;
use base64::Engine;
use chacha20poly1305::aead::{Aead, KeyInit, Payload};
use ed25519_dalek::{Signer, Verifier};
use rand_core::RngCore;
use sha2::Digest;

verus! {

/// SHA3-256 of a byte string (FIPS 202).
pub uninterp spec fn sha3_256_spec(data: Seq<u8>) -> Seq<u8>;

/// SHA-512 of a byte string (FIPS 180-4).
pub uninterp spec fn sha512_spec(data: Seq<u8>) -> Seq<u8>;

/// The compressed Ed25519 public key of a 32-byte secret seed (RFC 8032).
pub uninterp spec fn ed25519_public_spec(seed: Seq<u8>) -> Seq<u8>;

/// The Ed25519 signature of `msg` under the secret seed `seed` (RFC 8032).
pub uninterp spec fn ed25519_signature_spec(seed: Seq<u8>, msg: Seq<u8>) -> Seq<u8>;

/// Whether `sig` is a valid Ed25519 signature of `msg` for the compressed
/// public key `public` (false when `public` is not a curve point).
pub uninterp spec fn ed25519_verify_spec(public: Seq<u8>, msg: Seq<u8>, sig: Seq<u8>) -> bool;

/// The Montgomery u-coordinate of a compressed Edwards point, or `None`
/// when the bytes do not decompress to a point.
pub uninterp spec fn montgomery_of_edwards_spec(public: Seq<u8>) -> Option<Seq<u8>>;

/// The compressed Edwards point `s * B` for the scalar made of the low 255
/// bits of `scalar` (little endian) and the Ed25519 base point `B`.
pub uninterp spec fn edwards_basepoint_mul_spec(scalar: Seq<u8>) -> Seq<u8>;

/// The X25519 function of RFC 7748 on a secret scalar and a u-coordinate.
pub uninterp spec fn x25519_spec(secret: Seq<u8>, public: Seq<u8>) -> Seq<u8>;

/// 32 bytes of HKDF-SHA256 output (RFC 5869) for a salt, input key material
/// and info string.
pub uninterp spec fn hkdf_sha256_spec(salt: Seq<u8>, ikm: Seq<u8>, info: Seq<u8>) -> Seq<u8>;

/// ChaCha20-Poly1305 (RFC 8439) sealing of `msg` with associated data
/// `aad`: ciphertext followed by the tag, or `None` when the message is too
/// long for the cipher.
pub uninterp spec fn aead_seal_spec(key: Seq<u8>, nonce: Seq<u8>, aad: Seq<u8>, msg: Seq<u8>) -> Option<
    Seq<u8>,
>;

/// ChaCha20-Poly1305 opening of `ct`: the plaintext, or `None` when the tag
/// does not authenticate.
pub uninterp spec fn aead_open_spec(key: Seq<u8>, nonce: Seq<u8>, aad: Seq<u8>, ct: Seq<u8>) -> Option<
    Seq<u8>,
>;

/// The English BIP-39 mnemonic of an entropy string.
pub uninterp spec fn bip39_phrase_spec(entropy: Seq<u8>) -> Seq<char>;

/// The entropy that a normalized English BIP-39 mnemonic encodes, or `None`
/// when the words, their number or the checksum are wrong.
pub uninterp spec fn bip39_entropy_spec(phrase: Seq<char>) -> Option<Seq<u8>>;

/// Standard base64 with padding (RFC 4648, section 4).
pub uninterp spec fn base64_encode_spec(data: Seq<u8>) -> Seq<char>;

/// Decoding of standard padded base64, or `None` for malformed input.
pub uninterp spec fn base64_decode_spec(text: Seq<char>) -> Option<Seq<u8>>;

/// The Unicode lower-case mapping of a string (`str::to_lowercase`).
pub uninterp spec fn lowercase_spec(s: Seq<char>) -> Seq<char>;

/// The 26-character Crockford base32 text of a ULID given by its 16
/// big-endian bytes (`Ulid::from_bytes(..).to_string()`).
pub uninterp spec fn ulid_text_spec(bytes: Seq<u8>) -> Seq<char>;

/// The 16 big-endian bytes of the ULID that a text spells
/// (`Ulid::from_string`), or `None` for a text of the wrong length or with
/// a character outside the alphabet.
pub uninterp spec fn ulid_parse_spec(text: Seq<char>) -> Option<Seq<u8>>;

/// The SVG rendering, at least 260 pixels square, black on white, of the
/// QR code of `data` (`qrcode::QrCode::new` then `render`), or `None` when
/// the data does not fit in a QR code.
pub uninterp spec fn qr_svg_spec(data: Seq<u8>) -> Option<Seq<char>>;

/// Whether 32 bytes are the compressed form of a curve point: exactly when
/// they decompress, which is when their Montgomery form exists.
pub open spec fn is_curve_point(public: Seq<u8>) -> bool {
    montgomery_of_edwards_spec(public) is Some
}

/// The X25519 base point, u = 9 (`x25519_dalek::X25519_BASEPOINT_BYTES`).
pub open spec fn x25519_basepoint() -> Seq<u8> {
    Seq::new(32, |i: int| if i == 0 { 9u8 } else { 0u8 })
}

/// The X25519 secret of an Ed25519 seed: the first half of SHA-512 of the
/// seed, clamped as X25519 clamps every scalar.
pub open spec fn ed25519_dh_secret(seed: Seq<u8>) -> Seq<u8> {
    let h = sha512_spec(seed);
    Seq::new(
        32,
        |i: int|
            if i == 0 {
                h[0] & 248u8
            } else if i == 31 {
                (h[31] & 127u8) | 64u8
            } else {
                h[i]
            },
    )
}

/// Lower-case ASCII letters and spaces, nothing else.
pub open spec fn is_lower_words_text(s: Seq<char>) -> bool {
    forall|i: int| 0 <= i < s.len() ==> ('a' <= #[trigger] s[i] <= 'z' || s[i] == ' ')
}

/// The number of spaces in a text.
pub open spec fn space_count(s: Seq<char>) -> nat
    decreases s.len(),
{
    if s.len() == 0 {
        0
    } else {
        space_count(s.drop_last()) + if s.last() == ' ' {
            1nat
        } else {
            0nat
        }
    }
}

/// Words separated by single spaces, with no space at either end.
pub open spec fn is_single_spaced(s: Seq<char>) -> bool {
    &&& s.len() > 0
    &&& s[0] != ' '
    &&& s[s.len() - 1] != ' '
    &&& forall|i: int| 0 <= i < s.len() - 1 ==> !(#[trigger] s[i] == ' ' && s[i + 1] == ' ')
}

/// SHA3-256 (`sha3::Sha3_256::digest`).
#[verifier::external_body]
pub(crate) fn sha3_256(data: &[u8]) -> (res: [u8; 32])
    ensures
        res@ == sha3_256_spec(data@),
{
    sha3::Sha3_256::digest(data).into()
}

/// SHA-512 (`sha2::Sha512::digest`).
#[verifier::external_body]
pub(crate) fn sha512(data: &[u8]) -> (res: [u8; 64])
    ensures
        res@ == sha512_spec(data@),
{
    sha2::Sha512::digest(data).into()
}

/// `ed25519_dalek::SigningKey::from_bytes(seed).verifying_key()`, compressed.
#[verifier::external_body]
pub(crate) fn ed25519_public(seed: &[u8; 32]) -> (res: [u8; 32])
    ensures
        res@ == ed25519_public_spec(seed@),
{
    ed25519_dalek::SigningKey::from_bytes(seed).verifying_key().to_bytes()
}

/// `ed25519_dalek::SigningKey::sign`. The crate documents that a signature
/// it produces verifies under the key's own public key; that fact is the
/// second clause.
#[verifier::external_body]
pub(crate) fn ed25519_sign(seed: &[u8; 32], msg: &[u8]) -> (res: [u8; 64])
    ensures
        res@ == ed25519_signature_spec(seed@, msg@),
        ed25519_verify_spec(ed25519_public_spec(seed@), msg@, res@),
{
    ed25519_dalek::SigningKey::from_bytes(seed).sign(msg).to_bytes()
}

/// `ed25519_dalek::VerifyingKey::from_bytes` followed by `Verifier::verify`;
/// false when the public key does not decompress (`from_bytes` refuses
/// exactly the bytes that `CompressedEdwardsY::decompress` refuses, the
/// same decompression `edwards_to_montgomery` makes): the second clause.
#[verifier::external_body]
pub(crate) fn ed25519_verify(public: &[u8; 32], msg: &[u8], sig: &[u8; 64]) -> (ok: bool)
    ensures
        ok == ed25519_verify_spec(public@, msg@, sig@),
        !is_curve_point(public@) ==> !ok,
{
    match ed25519_dalek::VerifyingKey::from_bytes(public) {
        Ok(key) => key.verify(msg, &ed25519_dalek::Signature::from_bytes(sig)).is_ok(),
        Err(_) => false,
    }
}

/// `CompressedEdwardsY::decompress` followed by `EdwardsPoint::to_montgomery`.
/// ed25519-dalek documents (`VerifyingKey::to_montgomery`) that the
/// Montgomery form of the public key of a seed is the X25519 public key
/// whose secret is the first half of SHA-512 of the seed
/// (`SigningKey::to_scalar_bytes`); X25519 clamps that half, which gives
/// the second clause.
#[verifier::external_body]
pub(crate) fn edwards_to_montgomery(public: &[u8; 32]) -> (res: Option<[u8; 32]>)
    ensures
        res.deep_view() == montgomery_of_edwards_spec(public@),
        forall|seed: Seq<u8>|
            seed.len() == 32 && public@ == #[trigger] ed25519_public_spec(seed) ==> res.deep_view() == Some(
                x25519_spec(ed25519_dh_secret(seed), x25519_basepoint()),
            ),
{
    let point = curve25519_dalek::edwards::CompressedEdwardsY(*public).decompress()?;
    Some(point.to_montgomery().to_bytes())
}

/// `Scalar::from_bits(scalar) * ED25519_BASEPOINT_POINT`, compressed.
/// ed25519-dalek derives the public key of a seed as the clamped lower half
/// of SHA-512 of the seed, as a scalar, times the base point
/// (`hazmat::ExpandedSecretKey`, `VerifyingKey::from`); `Scalar::from_bits`
/// keeps a clamped scalar's value, so that half gives the seed's public
/// key: the second clause.
#[verifier::external_body]
#[allow(deprecated)]
pub(crate) fn edwards_basepoint_mul(scalar: &[u8; 32]) -> (res: [u8; 32])
    ensures
        res@ == edwards_basepoint_mul_spec(scalar@),
        forall|seed: Seq<u8>|
            seed.len() == 32 && scalar@ == #[trigger] ed25519_dh_secret(seed) ==> res@ == ed25519_public_spec(seed),
{
    let s = curve25519_dalek::scalar::Scalar::from_bits(*scalar);
    (&s * &curve25519_dalek::constants::ED25519_BASEPOINT_POINT).compress().to_bytes()
}

/// `x25519_dalek::StaticSecret::diffie_hellman`. x25519-dalek documents
/// (`x25519`) that two parties agree: each one's secret with the other's
/// public key `x25519(secret, X25519_BASEPOINT_BYTES)` gives the same
/// shared secret. That is the second clause.
#[verifier::external_body]
pub(crate) fn x25519(secret: &[u8; 32], public: &[u8; 32]) -> (res: [u8; 32])
    ensures
        res@ == x25519_spec(secret@, public@),
        forall|other: Seq<u8>|
            other.len() == 32 && public@ == #[trigger] x25519_spec(other, x25519_basepoint()) ==> res@
                == x25519_spec(other, x25519_spec(secret@, x25519_basepoint())),
{
    let secret = x25519_dalek::StaticSecret::from(*secret);
    secret.diffie_hellman(&x25519_dalek::PublicKey::from(*public)).to_bytes()
}

/// `hkdf::Hkdf::<Sha256>::new(Some(salt), ikm).expand(info, &mut [0u8; 32])`.
/// The crate only refuses output longer than 255 hash lengths, so 32 bytes
/// are always produced.
#[verifier::external_body]
pub(crate) fn hkdf_sha256(salt: &[u8], ikm: &[u8], info: &[u8]) -> (res: Option<[u8; 32]>)
    ensures
        res is Some,
        res matches Some(k) ==> k@ == hkdf_sha256_spec(salt@, ikm@, info@),
{
    let hkdf = hkdf::Hkdf::<sha2::Sha256>::new(Some(salt), ikm);
    let mut okm = [0u8; 32];
    match hkdf.expand(info, &mut okm) {
        Ok(()) => Some(okm),
        Err(_) => None,
    }
}

/// Whether a message of `len` bytes can be sealed: ChaCha20's 32-bit block
/// counter covers fewer than `u32::MAX` blocks of 64 bytes.
pub open spec fn sealable(len: int) -> bool {
    len / 64 < 0xffff_ffff
}

/// `ChaCha20Poly1305::encrypt` with a payload of message and associated data.
/// The crate refuses a message only when its 64-byte blocks reach
/// `u32::MAX` (`cipher.rs`, `encrypt_in_place_detached`): the second clause.
/// The ciphertext is the message's length followed by the 16-byte tag
/// (`Aead::encrypt` appends the tag): the third clause.
#[verifier::external_body]
pub(crate) fn aead_seal(key: &[u8; 32], nonce: &[u8; 12], aad: &[u8], msg: &[u8]) -> (res: Option<Vec<u8>>)
    ensures
        res.deep_view() == aead_seal_spec(key@, nonce@, aad@, msg@),
        res is Some <==> sealable(msg@.len() as int),
        res matches Some(c) ==> c@.len() == msg@.len() + 16,
{
    let cipher = chacha20poly1305::ChaCha20Poly1305::new(chacha20poly1305::Key::from_slice(key));
    cipher.encrypt(chacha20poly1305::Nonce::from_slice(nonce), Payload { msg, aad }).ok()
}

/// `ChaCha20Poly1305::decrypt`. The second clause is the AEAD's documented
/// correctness: opening what was sealed under the same key, nonce and
/// associated data gives the message back.
#[verifier::external_body]
pub(crate) fn aead_open(key: &[u8; 32], nonce: &[u8; 12], aad: &[u8], ct: &[u8]) -> (res: Option<Vec<u8>>)
    ensures
        res.deep_view() == aead_open_spec(key@, nonce@, aad@, ct@),
        forall|m: Seq<u8>|
            #[trigger] aead_seal_spec(key@, nonce@, aad@, m) == Some(ct@) ==> res.deep_view() == Some(m),
{
    let cipher = chacha20poly1305::ChaCha20Poly1305::new(chacha20poly1305::Key::from_slice(key));
    cipher.decrypt(chacha20poly1305::Nonce::from_slice(nonce), Payload { msg: ct, aad }).ok()
}

/// Fills `buf` from the operating system's random source
/// (`rand_core::OsRng::fill_bytes`). Nothing is promised of the bytes; the
/// call panics if the operating system cannot provide randomness.
#[verifier::external_body]
pub(crate) fn fill_random<const N: usize>(buf: &mut [u8; N]) {
    rand_core::OsRng.fill_bytes(buf);
}

/// `bip39::Mnemonic::from_entropy(entropy).to_string()`. The crate accepts
/// any entropy of 16 to 32 bytes in steps of 4, so 32 bytes always give a
/// phrase: 24 lower-case English words (`nb_bytes * 3 / 4`) joined by
/// single spaces, hence 23 spaces.
#[verifier::external_body]
pub(crate) fn bip39_phrase(entropy: &[u8; 32]) -> (res: Option<String>)
    ensures
        res is Some,
        res matches Some(p) ==> p@ == bip39_phrase_spec(entropy@),
        res matches Some(p) ==> is_lower_words_text(p@) && is_single_spaced(p@),
        res matches Some(p) ==> space_count(p@) == 23,
{
    bip39::Mnemonic::from_entropy(entropy).ok().map(|m| m.to_string())
}

/// `bip39::Mnemonic::parse_normalized(phrase)` then `to_entropy()`, or the
/// parse error's text (which this contract does not state). The crate
/// parses back the phrase it prints for an entropy: the last clause.
#[verifier::external_body]
pub(crate) fn bip39_entropy(phrase: &str) -> (res: Result<Vec<u8>, String>)
    ensures
        res matches Ok(v) ==> bip39_entropy_spec(phrase@) == Some(v@),
        res is Err ==> bip39_entropy_spec(phrase@) is None,
        forall|e: Seq<u8>|
            e.len() == 32 && #[trigger] bip39_phrase_spec(e) == phrase@ ==> res is Ok && res->Ok_0@ == e,
{
    bip39::Mnemonic::parse_normalized(phrase).map(|m| m.to_entropy()).map_err(|e| e.to_string())
}

/// `str::to_lowercase`. On ASCII text it only maps `A`-`Z` to `a`-`z`, as
/// the standard library documents.
#[verifier::external_body]
pub(crate) fn to_lowercase(s: &str) -> (res: String)
    ensures
        res@ == lowercase_spec(s@),
        vstd::utf8::is_ascii_chars(s@) ==> res@ == s@.map_values(
            |c: char| if 'A' <= c <= 'Z' { ((c as u8) + 32) as char } else { c },
        ),
{
    s.to_lowercase()
}

/// `base64::engine::general_purpose::STANDARD.encode`.
#[verifier::external_body]
pub(crate) fn base64_encode(data: &[u8]) -> (res: String)
    ensures
        res@ == base64_encode_spec(data@),
{
    base64::engine::general_purpose::STANDARD.encode(data)
}

/// `base64::engine::general_purpose::STANDARD.decode`. What the engine
/// encodes, it decodes back: the last clause.
#[verifier::external_body]
pub(crate) fn base64_decode(text: &str) -> (res: Option<Vec<u8>>)
    ensures
        res.deep_view() == base64_decode_spec(text@),
        forall|d: Seq<u8>| #[trigger] base64_encode_spec(d) == text@ ==> res.deep_view() == Some(d),
{
    base64::engine::general_purpose::STANDARD.decode(text).ok()
}

/// `Ulid::from_bytes(bytes).to_string()`.
#[verifier::external_body]
pub(crate) fn ulid_to_string(bytes: &[u8; 16]) -> (res: String)
    ensures
        res@ == ulid_text_spec(bytes@),
{
    ulid::Ulid::from_bytes(*bytes).to_string()
}

/// `Ulid::from_string(text)`, as bytes. The crate decodes the text it
/// encodes: the last clause.
#[verifier::external_body]
pub(crate) fn ulid_parse(text: &str) -> (res: Option<[u8; 16]>)
    ensures
        res.deep_view() == ulid_parse_spec(text@),
        forall|b: Seq<u8>|
            b.len() == 16 && #[trigger] ulid_text_spec(b) == text@ ==> res.deep_view() == Some(b),
{
    ulid::Ulid::from_string(text).ok().map(|u| u.to_bytes())
}

/// `QrCode::new(data)` rendered as SVG with a minimum size of 260 by 260,
/// dark colour `#000000` and light colour `#ffffff`; the error's text when
/// the data does not fit.
#[verifier::external_body]
pub(crate) fn qr_svg(data: &[u8]) -> (res: Result<String, String>)
    ensures
        match qr_svg_spec(data@) {
            Some(svg) => res matches Ok(s) && s@ == svg,
            None => res is Err,
        },
{
    match qrcode::QrCode::new(data) {
        Ok(code) => Ok(
            code.render::<qrcode::render::svg::Color>().min_dimensions(260, 260).dark_color(
                qrcode::render::svg::Color("#000000"),
            ).light_color(qrcode::render::svg::Color("#ffffff")).build(),
        ),
        Err(e) => Err(e.to_string()),
    }
}

} // verus!
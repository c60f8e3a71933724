use base64::Engine;
use sha2::Digest;
use void::base32::{base32_decode_lower, base32_lower_nopad};
use void::crypto::{
    expanded_key_blob_from_seed, onion_id_from_expanded, onion_id_from_public, onion_id_is_valid,
    onion_id_to_public, public_from_expanded, recovery_phrase, seed_from_recovery_phrase, CryptoError,
    Identity,
};
use void::text::{hex_encode, normalize_whitespace, trim};

fn b32(bytes: &[u8]) -> String {
    base32_lower_nopad(bytes)
}

#[test]
fn base32_rfc4648_vectors() {
    assert_eq!(b32(b"f"), "my");
    assert_eq!(b32(b"fo"), "mzxq");
    assert_eq!(b32(b"foo"), "mzxw6");
    assert_eq!(b32(b"foob"), "mzxw6yq");
    assert_eq!(b32(b"fooba"), "mzxw6ytb");
    assert_eq!(b32(b"foobar"), "mzxw6ytboi");
}

#[test]
fn base32_decode_inverts_encode() {
    for data in [&b""[..], b"f", b"fo", b"foo", b"foob", b"fooba", b"foobar", &[0u8, 255, 17, 3, 99]] {
        assert_eq!(base32_decode_lower(&b32(data)).unwrap(), data.to_vec());
    }
    assert_eq!(base32_decode_lower("mzxw6ytboi").unwrap(), b"foobar".to_vec());
    assert!(base32_decode_lower("MZXW6").is_none());
    assert!(base32_decode_lower("mzx=").is_none());
}

#[test]
fn onion_id_shape() {
    let id = Identity::generate().onion_id();
    assert_eq!(id.len(), 56);
    assert!(id.chars().all(|c| c.is_ascii_lowercase() || c.is_ascii_digit()));
    assert!(!id.contains('='))
}

#[test]
fn onion_id_deterministic() {
    let seed = [42u8; 32];
    let a = Identity::from_seed(seed).onion_id();
    let b = Identity::from_seed(seed).onion_id();
    assert_eq!(a, b);
    let c = Identity::from_seed([43u8; 32]).onion_id();
    assert_ne!(a, c);
}

#[test]
fn expanded_blob_shape() {
    let id = Identity::generate();
    let blob = id.expanded_key_blob();
    assert_eq!(blob[0] & 7, 0);
    assert_eq!(blob[31] & 128, 0);
    assert_eq!(blob[31] & 64, 64);
    assert_eq!(public_from_expanded(&blob), id.public());
}

#[test]
fn onion_service_key_roundtrip() {
    let id = Identity::generate();
    let b64 = id.onion_service_key_b64();
    let raw = base64::engine::general_purpose::STANDARD.decode(b64).unwrap();
    assert_eq!(raw.len(), 64);
    let blob: [u8; 64] = raw.try_into().unwrap();
    assert_eq!(onion_id_from_expanded(&blob), id.onion_id());
}

#[test]
fn sign_verify() {
    let id = Identity::generate();
    let sig = id.sign(b"void");
    assert!(Identity::verify(&id.public(), b"void", &sig));
    assert!(!Identity::verify(&id.public(), b"voix", &sig));
}

#[test]
fn recovery_phrase_roundtrip() {
    let seed = [7u8; 32];
    let phrase = recovery_phrase(&seed).unwrap();
    let words: Vec<&str> = phrase.split(' ').collect();
    assert_eq!(words.len(), 24);
    let recovered = seed_from_recovery_phrase(&phrase).unwrap();
    assert_eq!(recovered, seed);
}

#[test]
fn recovery_phrase_accepts_dirty_input() {
    let seed = [7u8; 32];
    let phrase = recovery_phrase(&seed).unwrap();
    let dirty = format!("  {}  ", phrase.replace(' ', "   "));
    assert_eq!(seed_from_recovery_phrase(&dirty).unwrap(), seed);
}

#[test]
fn recovery_phrase_accepts_upper_case() {
    let seed = [9u8; 32];
    let phrase = recovery_phrase(&seed).unwrap().to_uppercase();
    assert_eq!(seed_from_recovery_phrase(&phrase).unwrap(), seed);
}

#[test]
fn recovery_phrase_rejects_bad_checksum() {
    let seed = [7u8; 32];
    let phrase = recovery_phrase(&seed).unwrap();
    let mut words: Vec<String> = phrase.split(' ').map(String::from).collect();
    words[23] = String::from("zoo");
    let tampered = words.join(" ");
    assert!(seed_from_recovery_phrase(&tampered).is_err());
}

#[test]
fn recovery_phrase_error_is_mnemonic() {
    let expected = bip39::Mnemonic::parse_normalized("pas une phrase").unwrap_err().to_string();
    match seed_from_recovery_phrase("pas une phrase") {
        Err(CryptoError::Mnemonic(detail)) => assert_eq!(detail, expected),
        other => panic!("unexpected: {other:?}"),
    }
}

#[test]
fn onion_id_validation() {
    let id = Identity::generate().onion_id();
    assert!(onion_id_is_valid(&id));
    let mut corrupted = id.clone();
    let last = corrupted.pop().unwrap();
    corrupted.push(if last == 'a' { 'b' } else { 'a' });
    assert!(!onion_id_is_valid(&corrupted));
    assert!(!onion_id_is_valid("abc"));
    assert!(!onion_id_is_valid(&format!("{id}0")));
}

#[test]
fn onion_id_to_public_roundtrip() {
    let identity = Identity::generate();
    let id = identity.onion_id();
    let public = onion_id_to_public(&id).unwrap();
    assert_eq!(public, identity.public());
    assert!(onion_id_to_public(&format!("{id}0")).is_none());
}

#[test]
fn onion_id_of_public_names_it_back() {
    let public = Identity::from_seed([5u8; 32]).public();
    let id = onion_id_from_public(&public);
    assert_eq!(onion_id_to_public(&id), Some(public));
    assert_eq!(Identity::from_seed([5u8; 32]).onion_address(), format!("{id}.onion"));
}

#[test]
fn sign_verify_bytes() {
    let identity = Identity::generate();
    let sig = identity.sign_bytes(b"void-handshake");
    assert!(Identity::verify_public_bytes(&identity.public(), b"void-handshake", &sig));
    let mut tampered = sig;
    tampered[0] ^= 1;
    assert!(!Identity::verify_public_bytes(&identity.public(), b"void-handshake", &tampered));
    assert!(!Identity::verify_public_bytes(&identity.public(), b"void-autre", &sig));
}

#[test]
fn expanded_blob_is_clamped_sha512() {
    let seed = [1u8; 32];
    let mut h: [u8; 64] = sha2::Sha512::digest(seed).into();
    h[0] &= 248;
    h[31] &= 127;
    h[31] |= 64;
    assert_eq!(expanded_key_blob_from_seed(&seed), h);
}

#[test]
fn fingerprint_is_hex_prefix_of_public_key() {
    let identity = Identity::from_seed([3u8; 32]);
    let fp = identity.fingerprint_short();
    assert_eq!(fp.len(), 16);
    assert_eq!(fp, hex_encode(&identity.public())[..16]);
}

#[test]
fn hex_encode_vectors() {
    assert_eq!(hex_encode(&[]), "");
    assert_eq!(hex_encode(&[0x00, 0x0f, 0xa0, 0xff]), "000fa0ff");
}

#[test]
fn text_trim_and_normalize() {
    assert_eq!(trim("  a b \n"), "a b");
    assert_eq!(trim(" \t "), "");
    assert_eq!(normalize_whitespace("  un   deux\ttrois \n"), "un deux trois");
}

#[test]
fn crypto_error_messages() {
    assert_eq!(
        CryptoError::InvalidOnion("x".to_string()).message(),
        "adresse oignon invalide: x"
    );
    assert_eq!(
        CryptoError::Mnemonic("y".to_string()).message(),
        "phrase de récupération invalide: y"
    );
}

#[test]
fn non_point_key_never_verifies() {
    let identity = Identity::from_seed([3u8; 32]);
    let sig = identity.sign_bytes(b"void-handshake");
    let mut found = 0;
    for b in 0u8..=255 {
        let mut key = [b; 32];
        key[31] &= 0x7f;
        if curve25519_dalek::edwards::CompressedEdwardsY(key).decompress().is_none() {
            assert!(!Identity::verify_public_bytes(&key, b"void-handshake", &sig));
            found += 1;
        }
    }
    assert!(found > 0);
}

#[test]
fn valid_onion_ids_end_with_d() {
    for seed in [[0u8; 32], [1u8; 32], [9u8; 32]] {
        let id = Identity::from_seed(seed).onion_id();
        assert_eq!(id.len(), 56);
        assert!(id.ends_with('d'));
        for c in ['a', 'b', 'c', 'e', '2', '7'] {
            let mut other = id.clone();
            other.pop();
            other.push(c);
            assert!(!onion_id_is_valid(&other));
        }
    }
}

#[test]
fn onion_key_names_the_identity() {
    for seed in [[0u8; 32], [5u8; 32], [200u8; 32]] {
        let identity = Identity::from_seed(seed);
        let blob = expanded_key_blob_from_seed(&seed);
        assert_eq!(public_from_expanded(&blob), identity.public());
        assert_eq!(onion_id_from_expanded(&blob), identity.onion_id());
    }
}

#[test]
fn dirty_phrases_give_the_seed() {
    let seed = [42u8; 32];
    let phrase = recovery_phrase(&seed).unwrap();
    assert_eq!(phrase.split(' ').count(), 24);
    let dirty = format!("\t {} \n", phrase.to_uppercase().replace(' ', "  \t"));
    assert_eq!(seed_from_recovery_phrase(&dirty).unwrap(), seed);
}

use void::crypto::Identity;
use void::dm_crypto::{conversation_key, dm_decrypt, dm_encrypt, ed25519_public_to_x25519, ed25519_seed_to_x25519};
use void::messages::{check_payload, open_dm, seal_dm, should_ack, IncomingPayload};
use void::proto_dm::{dm_aad, dm_aad_parts, DmEnvelope};

fn peers() -> (Identity, Identity) {
    (Identity::generate(), Identity::generate())
}

fn sample() -> DmEnvelope {
    DmEnvelope {
        message_id: [7; 16],
        author_id: "a".repeat(56),
        recipient_id: "b".repeat(56),
        timestamp_ms: 1_700_000_000_000,
        kind: 1,
        duration_ms: 4200,
        nonce: [3; 12],
        ciphertext: vec![1, 2, 3, 4, 5, 6, 7],
    }
}

#[test]
fn dm_aad_is_deterministic_and_bound() {
    let envelope = sample();
    let a = dm_aad(&envelope);
    assert_eq!(a, dm_aad(&envelope));
    let mut other = envelope.clone();
    other.timestamp_ms += 1;
    assert_ne!(a, dm_aad(&other));
}

#[test]
fn dm_aad_layout() {
    let aad = dm_aad_parts(&[1; 16], "ab", "cd", 258);
    let mut expected = vec![1u8; 16];
    expected.extend_from_slice(b"abcd");
    expected.extend_from_slice(&258u64.to_be_bytes());
    assert_eq!(aad, expected);
}

#[test]
fn conversation_key_symmetric() {
    let (a, b) = peers();
    let key_a = conversation_key(&a, &b.onion_id()).unwrap();
    let key_b = conversation_key(&b, &a.onion_id()).unwrap();
    assert_eq!(key_a, key_b);
}

#[test]
fn conversation_key_distinct_per_pair() {
    let (a, b) = peers();
    let c = Identity::generate();
    let ab = conversation_key(&a, &b.onion_id()).unwrap();
    let ac = conversation_key(&a, &c.onion_id()).unwrap();
    assert_ne!(ab, ac);
}

#[test]
fn encrypt_decrypt_roundtrip() {
    let (a, b) = peers();
    let key = conversation_key(&a, &b.onion_id()).unwrap();
    let aad = b"void-aad";
    let (nonce, ct) = dm_encrypt(&key, aad, "salut ✨".as_bytes()).unwrap();
    let plain = dm_decrypt(&key, &nonce, aad, &ct).unwrap();
    assert_eq!(plain, "salut ✨".as_bytes());
    assert_eq!(ct.len(), "salut ✨".len() + 16);
}

#[test]
fn tamper_fails() {
    let (a, b) = peers();
    let key = conversation_key(&a, &b.onion_id()).unwrap();
    let (nonce, mut ct) = dm_encrypt(&key, b"aad", b"secret").unwrap();
    let len = ct.len();
    ct[len - 1] ^= 1;
    assert!(dm_decrypt(&key, &nonce, b"aad", &ct).is_none());
}

#[test]
fn wrong_aad_fails() {
    let (a, b) = peers();
    let key = conversation_key(&a, &b.onion_id()).unwrap();
    let (nonce, ct) = dm_encrypt(&key, b"aad-1", b"secret").unwrap();
    assert!(dm_decrypt(&key, &nonce, b"aad-2", &ct).is_none());
}

#[test]
fn wrong_key_fails() {
    let (a, b) = peers();
    let key = conversation_key(&a, &b.onion_id()).unwrap();
    let other = conversation_key(&b, &Identity::generate().onion_id()).unwrap();
    let (nonce, ct) = dm_encrypt(&key, b"aad", b"secret").unwrap();
    assert!(dm_decrypt(&other, &nonce, b"aad", &ct).is_none());
}

#[test]
fn invalid_onion_rejected() {
    let (a, _) = peers();
    assert!(conversation_key(&a, "pas-un-onion").is_err());
}

#[test]
fn x25519_conversion_of_own_key() {
    let a = Identity::from_seed([11u8; 32]);
    assert!(ed25519_public_to_x25519(&a.public()).is_some());
    assert_ne!(ed25519_seed_to_x25519(&a.seed()), a.seed());
}

#[test]
fn sealed_dm_opens_for_its_recipient_only() {
    let (a, b) = peers();
    let c = Identity::generate();
    let env = seal_dm(&a, &b.onion_id(), &[4; 16], 99, 0, 0, "bonjour".as_bytes()).unwrap();
    assert_eq!(env.author_id, a.onion_id());
    assert_eq!(env.recipient_id, b.onion_id());
    assert_eq!(open_dm(&b, &env).unwrap(), b"bonjour".to_vec());
    assert!(open_dm(&c, &env).is_none());
    let mut changed = env.clone();
    changed.timestamp_ms += 1;
    assert!(open_dm(&b, &changed).is_none());
}

#[test]
fn seal_dm_to_invalid_peer_fails() {
    let a = Identity::generate();
    assert!(seal_dm(&a, "abc", &[0; 16], 0, 0, 0, b"x").is_err());
}

#[test]
fn payload_checks() {
    assert!(matches!(check_payload(0, 0, b"salut".to_vec()), Some(IncomingPayload::Text(t)) if t == "salut"));
    assert!(check_payload(0, 0, Vec::new()).is_none());
    assert!(check_payload(0, 0, vec![0xff, 0xfe]).is_none());
    assert!(check_payload(0, 0, "é".repeat(4001).into_bytes()).is_none());
    assert!(matches!(check_payload(0, 0, "é".repeat(4000).into_bytes()), Some(IncomingPayload::Text(_))));
    assert!(matches!(check_payload(1, 1000, vec![1, 2, 3]), Some(IncomingPayload::Voice(v)) if v == vec![1, 2, 3]));
    assert!(check_payload(1, 0, vec![1]).is_none());
    assert!(check_payload(1, 60_001, vec![1]).is_none());
    assert!(matches!(check_payload(1, 60_000, vec![1]), Some(IncomingPayload::Voice(_))));
    assert!(check_payload(1, 1000, Vec::new()).is_none());
    assert!(check_payload(1, 1000, vec![0; 220_001]).is_none());
}

#[test]
fn ack_only_direct_from_author() {
    assert!(should_ack(Some("alice"), "alice"));
    assert!(!should_ack(Some("bob"), "alice"));
    assert!(!should_ack(None, "alice"));
}

use void::crypto::Identity;
use void::frames::{body_len_allowed, frame_body, prefix_body_len, Frame, MAX_FRAME_SIZE};
use void::handshake::{handshake_message, hello_domain, new_nonce, sign_handshake, verify_handshake, welcome_domain};
use void::proto_groups::{group_aad, group_aad_parts, group_key_aad, group_key_aad_prefix_bytes, GroupEnvelope};

#[test]
fn groups_aad_is_deterministic_and_bound() {
    let envelope = GroupEnvelope {
        message_id: [1; 16],
        group_id: "01HZZZZZZZZZZZZZZZZZZZZZZZZ".into(),
        author_id: "a".repeat(56),
        timestamp_ms: 42,
        kind: 0,
        duration_ms: 0,
        nonce: [0; 12],
        ciphertext: vec![1, 2, 3],
    };
    assert_eq!(group_aad(&envelope), group_aad(&envelope));
    let mut other = envelope.clone();
    other.group_id = "01HZZZZZZZZZZZZZZZZZZZZZZZY".into();
    assert_ne!(group_aad(&envelope), group_aad(&other));
}

#[test]
fn key_aad_recipient_bound() {
    let a = group_key_aad("g", "alice");
    let b = group_key_aad("g", "bob");
    assert_ne!(a, b);
    assert!(a.starts_with(&group_key_aad_prefix_bytes()));
}

#[test]
fn group_aad_layout() {
    let aad = group_aad_parts(&[2; 16], "g", "a", 1);
    let mut expected = b"void-group-msg-v1".to_vec();
    expected.extend_from_slice(&[2; 16]);
    expected.extend_from_slice(b"ga");
    expected.extend_from_slice(&1u64.to_be_bytes());
    assert_eq!(aad, expected);
    assert_eq!(group_key_aad("g", "r"), b"void-group-key-v1gr".to_vec());
}

#[test]
fn frame_prefix_is_big_endian_body_len() {
    let body = vec![9u8; 300];
    let framed = frame_body(&body).unwrap();
    assert_eq!(framed.len(), 304);
    assert_eq!(&framed[..4], &[0, 0, 1, 44]);
    assert_eq!(prefix_body_len(framed[..4].try_into().unwrap()), 300);
    assert_eq!(&framed[4..], &body[..]);
}

#[test]
fn frame_size_limit() {
    assert!(frame_body(&vec![0u8; MAX_FRAME_SIZE]).is_some());
    assert!(frame_body(&vec![0u8; MAX_FRAME_SIZE + 1]).is_none());
    assert!(body_len_allowed(MAX_FRAME_SIZE));
    assert!(!body_len_allowed(MAX_FRAME_SIZE + 1));
    assert_eq!(prefix_body_len([0xff, 0xff, 0xff, 0xff]), 0xffff_ffff);
}

#[test]
fn frames_compare_by_value() {
    let a = Frame::Ping { timestamp_ms: 1 };
    assert_eq!(a.clone(), Frame::Ping { timestamp_ms: 1 });
    assert_ne!(a, Frame::Pong { timestamp_ms: 1 });
}

#[test]
fn handshake_sign_verify() {
    let identity = Identity::generate();
    let nonce = new_nonce();
    let signature = sign_handshake(&identity, &hello_domain(), &nonce);
    assert!(verify_handshake(&hello_domain(), &identity.onion_id(), &nonce, &signature));
}

#[test]
fn handshake_reject_wrong_domain() {
    let identity = Identity::generate();
    let nonce = new_nonce();
    let signature = sign_handshake(&identity, &hello_domain(), &nonce);
    assert!(!verify_handshake(&welcome_domain(), &identity.onion_id(), &nonce, &signature));
}

#[test]
fn handshake_reject_tampered_nonce() {
    let identity = Identity::generate();
    let nonce = new_nonce();
    let signature = sign_handshake(&identity, &hello_domain(), &nonce);
    let mut other = nonce;
    other[0] ^= 1;
    assert!(!verify_handshake(&hello_domain(), &identity.onion_id(), &other, &signature));
}

#[test]
fn handshake_reject_foreign_onion() {
    let identity = Identity::generate();
    let other = Identity::generate();
    let nonce = new_nonce();
    let signature = sign_handshake(&identity, &hello_domain(), &nonce);
    assert!(!verify_handshake(&hello_domain(), &other.onion_id(), &nonce, &signature));
}

#[test]
fn handshake_reject_invalid_onion() {
    let identity = Identity::generate();
    let nonce = new_nonce();
    let signature = sign_handshake(&identity, &hello_domain(), &nonce);
    assert!(!verify_handshake(&hello_domain(), "abc", &nonce, &signature));
}

#[test]
fn handshake_message_layout() {
    let m = handshake_message(b"dom", &[1; 16], "id");
    let mut expected = b"dom".to_vec();
    expected.extend_from_slice(&[1; 16]);
    expected.extend_from_slice(b"id");
    assert_eq!(m, expected);
    assert_eq!(hello_domain(), b"void-handshake-hello-v1".to_vec());
    assert_eq!(welcome_domain(), b"void-handshake-welcome-v1".to_vec());
}

use base64::Engine;
use void::crypto::Identity;
use void::engine::{
    check_dm_recipient, check_voice, default_display_name, delivery_status, identity_info,
    invite_link, invite_qr_svg, message_of, message_text, online_status, onion_fingerprint,
    own_profile_info, peer_from_link, record_of, update_profile, DmMessage, DmStatus, MessageKind,
    Profile, Settings, TorStatus,
};
use void::invite::Invite;
use void::seed_file::{seed_file_bytes, seed_from_plain, split_seed_file, SeedFile};
use void::store::DmRecord;

#[test]
fn status_and_kind_codes() {
    for s in [DmStatus::Queued, DmStatus::Sent, DmStatus::Delivered] {
        assert_eq!(DmStatus::from_u8(s.as_u8()), s);
    }
    assert_eq!(DmStatus::Delivered.as_u8(), 2);
    assert_eq!(DmStatus::from_u8(9), DmStatus::Queued);
    assert_eq!(MessageKind::from_u8(MessageKind::Voice.as_u8()), MessageKind::Voice);
    assert_eq!(MessageKind::from_u8(7), MessageKind::Text);
    assert_eq!(MessageKind::Text.as_u8(), 0);
}

#[test]
fn stored_message_roundtrip() {
    let m = DmMessage {
        message_id: "01TEST".into(),
        peer_id: "p".into(),
        author_id: "a".into(),
        body: "salut".into(),
        created_ms: 1700000000000,
        status: DmStatus::Sent,
        kind: MessageKind::Voice,
        duration_ms: 1500,
    };
    let r = record_of(&m);
    assert_eq!(
        r,
        DmRecord {
            id: "01TEST".into(),
            peer_id: "p".into(),
            author_id: "a".into(),
            body: "salut".into(),
            created_ms: 1700000000000,
            status: 1,
            kind: 1,
            duration_ms: 1500,
        }
    );
    let back = message_of(r);
    assert_eq!(back.message_id, m.message_id);
    assert_eq!(back.status, m.status);
    assert_eq!(back.kind, m.kind);
    assert_eq!(back.duration_ms, m.duration_ms);
}

#[test]
fn outgoing_text_rules() {
    assert_eq!(message_text("  salut \n").unwrap(), "salut");
    assert_eq!(message_text("   ").unwrap_err(), "message invalide (1 à 4000 caractères)");
    assert!(message_text(&"é".repeat(4000)).is_ok());
    assert!(message_text(&"é".repeat(4001)).is_err());
}

#[test]
fn voice_rules() {
    assert!(check_voice(10, 1000).is_ok());
    assert_eq!(check_voice(0, 1000).unwrap_err(), "note vocale invalide (max 60 secondes)");
    assert_eq!(check_voice(220_001, 1000).unwrap_err(), "note vocale invalide (max 60 secondes)");
    assert_eq!(check_voice(10, 0).unwrap_err(), "durée invalide");
    assert!(check_voice(10, 60_000).is_ok());
    assert_eq!(check_voice(10, 60_001).unwrap_err(), "durée invalide");
    assert_eq!(check_voice(1000, 90_000).unwrap_err(), "durée invalide");
}

#[test]
fn dm_recipient_rules() {
    let me = Identity::from_seed([1u8; 32]).onion_id();
    let peer = Identity::from_seed([2u8; 32]).onion_id();
    assert!(check_dm_recipient(&me, &peer).is_ok());
    assert_eq!(check_dm_recipient(&me, &me).unwrap_err(), "impossible de s'écrire à soi-même");
    assert_eq!(check_dm_recipient(&me, "abc").unwrap_err(), "adresse oignon invalide");
}

#[test]
fn delivery_statuses() {
    assert_eq!(delivery_status(Some(true), 0), DmStatus::Sent);
    assert_eq!(delivery_status(Some(false), 5), DmStatus::Queued);
    assert_eq!(delivery_status(None, 2), DmStatus::Sent);
    assert_eq!(delivery_status(None, 0), DmStatus::Queued);
}

fn profile() -> Profile {
    Profile {
        display_name: "nova".into(),
        bio: "b".into(),
        status: "s".into(),
        accent: "".into(),
        avatar_b64: "".into(),
    }
}

#[test]
fn profile_updates() {
    let p = update_profile(&profile(), Some("  zoé ".into()), None, Some(" ici ".into()), Some("#A0b1C2".into()), None).unwrap();
    assert_eq!(p.display_name, "zoé");
    assert_eq!(p.bio, "b");
    assert_eq!(p.status, "ici");
    assert_eq!(p.accent, "#A0b1C2");
    let e = |r: Result<Profile, String>| r.unwrap_err();
    assert_eq!(e(update_profile(&profile(), Some("  ".into()), None, None, None, None)), "nom d'affichage invalide (1 à 32 caractères)");
    assert_eq!(e(update_profile(&profile(), None, Some("x".repeat(201)), None, None, None)), "bio invalide (200 caractères max)");
    assert_eq!(e(update_profile(&profile(), None, None, Some("x".repeat(65)), None, None)), "statut invalide (64 caractères max)");
    assert_eq!(e(update_profile(&profile(), None, None, None, Some("#12345g".into()), None)), "couleur d'accent invalide");
    assert_eq!(e(update_profile(&profile(), None, None, None, None, Some("!!".into()))), "avatar illisible");
    let big = base64::engine::general_purpose::STANDARD.encode(vec![0u8; 64_001]);
    assert_eq!(e(update_profile(&profile(), None, None, None, None, Some(big))), "avatar trop volumineux (64 Ko max)");
    let p = update_profile(&profile(), None, None, None, None, Some("aGVsbG8=".into())).unwrap();
    assert_eq!(p.avatar_b64, "aGVsbG8=");
    assert!(own_profile_info(&p).has_avatar);
    assert!(!own_profile_info(&profile()).has_avatar);
}

#[test]
fn defaults() {
    let s = Settings::default();
    assert!(s.notifications_enabled);
    assert_eq!(s.language, "en");
    assert!(matches!(TorStatus::default(), TorStatus::Starting));
    let p = Profile::default();
    assert_eq!(p.display_name, "");
}

#[test]
fn default_name_and_identity_info() {
    let identity = Identity::from_seed([4u8; 32]);
    let name = default_display_name(&identity);
    assert_eq!(name, format!("void_{}", &identity.fingerprint_short()[..6]));
    let info = identity_info(&profile(), &identity);
    assert_eq!(info.onion, identity.onion_address());
    assert_eq!(info.fingerprint, identity.fingerprint_short());
    assert_eq!(info.display_name, "nova");
}

#[test]
fn invite_link_parses_back() {
    let identity = Identity::from_seed([6u8; 32]);
    let link = invite_link(&identity, "nova");
    let invite = Invite::parse(&link).unwrap();
    assert_eq!(invite.onion_id, identity.onion_id());
    assert_eq!(invite.fingerprint, identity.fingerprint_short());
    assert_eq!(invite.display_name, "nova");
    let peer = peer_from_link(&link).unwrap();
    assert_eq!(peer.added_at, 0);
    assert_eq!(peer_from_link("x").unwrap_err(), "lien d'invitation invalide: le lien doit commencer par void://invite");
}

#[test]
fn qr_svg_starts_at_svg_tag() {
    let svg = invite_qr_svg("void://invite?onion=abc").unwrap();
    assert!(svg.starts_with("<svg"));
    assert!(invite_qr_svg(&"x".repeat(8000)).unwrap_err().starts_with("qr: "));
}

#[test]
fn fingerprints_of_onions() {
    let identity = Identity::from_seed([8u8; 32]);
    assert_eq!(onion_fingerprint(&identity.onion_id()), identity.fingerprint_short());
    assert_eq!(onion_fingerprint("abc"), "");
}

#[test]
fn online_status_text() {
    match online_status("abc", "127.0.0.1:9050".to_string()) {
        TorStatus::Online { onion, socks } => {
            assert_eq!(onion, "abc.onion");
            assert_eq!(socks, "127.0.0.1:9050");
        }
        other => panic!("unexpected: {other:?}"),
    }
}

#[test]
fn seed_file_framing() {
    let bytes = seed_file_bytes(&[9u8; 32]);
    assert_eq!(&bytes[..8], b"VOIDDP1:");
    match split_seed_file(&bytes) {
        SeedFile::Protected(p) => assert_eq!(seed_from_plain(&p, true).unwrap(), [9u8; 32]),
        other => panic!("unexpected: {other:?}"),
    }
    assert_eq!(split_seed_file(&[5u8; 32]), SeedFile::Legacy(vec![5u8; 32]));
    assert_eq!(seed_from_plain(&[1, 2], true).unwrap_err(), "identity.seed illisible");
    assert_eq!(seed_from_plain(&[1, 2], false).unwrap_err(), "identity.seed corrompu");
}

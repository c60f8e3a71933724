use void::contacts::{accept_request, add_peer_from_link, decline_request, peer_profile_info, remove_contact, restore_decision};
use void::crypto::{recovery_phrase, Identity};
use void::engine::{invite_link, PeerInfo, PeerProfile, PendingRequest, Profile};
use void::groups::new_group_state;
use void::messages::{outgoing_message, received_message, record_envelope, IncomingPayload};
use void::engine::{DmStatus, MessageKind};
use void::proto_groups::MemberEntry;
use void::session::{
    apply_friend_request, avatar_update, dial_targets, fallback_name, group_routes, has_avatar_after,
    keep_existing_session, presence_from, profile_update_fields, relay_cutoff, relay_offer_decision,
    relay_targets, rename_contact, rename_in_groups, rtt_ms, sanitize_name, session_continues, AvatarUpdate, Direction,
    FriendRequestOutcome, RelayDecision, SessionInfo,
};
use void::frames::Frame;
use void::store::DmRecord;

fn peer(id: &str, name: &str) -> PeerInfo {
    PeerInfo { onion_id: id.to_string(), fingerprint: "f".to_string(), display_name: name.to_string(), added_at: 0 }
}

fn session(id: &str, name: &str) -> SessionInfo {
    SessionInfo { onion_id: id.to_string(), display_name: name.to_string(), direction: Direction::Incoming, connected_since: 1, rtt_ms: Some(5) }
}

#[test]
fn names_from_the_wire() {
    assert_eq!(sanitize_name("  zoé  "), "zoé");
    assert_eq!(sanitize_name(&"x".repeat(70)), "x".repeat(64));
    assert_eq!(fallback_name("", "abcdefghijklmnop"), "abcdefghij");
    assert_eq!(fallback_name("", "abc"), "abc");
    assert_eq!(fallback_name("nova", "abc"), "nova");
}

#[test]
fn presence_sorted_online_then_name() {
    let contacts = vec![peer("c1", "zed"), peer("c2", "amy"), peer("c3", "")];
    let sessions = vec![session("c1", ""), session("s1", "bob"), session("c3", "carl")];
    let list = presence_from(&sessions, &contacts);
    let shown: Vec<(&str, &str, bool)> = list.iter().map(|p| (p.onion_id.as_str(), p.display_name.as_str(), p.online)).collect();
    assert_eq!(
        shown,
        vec![("s1", "bob", true), ("c3", "carl", true), ("c1", "zed", true), ("c2", "amy", false)]
    );
    assert_eq!(list[0].rtt_ms, Some(5));
    assert_eq!(list[3].direction, None);
}

#[test]
fn presence_is_stable_for_equal_names() {
    let contacts = vec![peer("x1", "same"), peer("x2", "same")];
    let list = presence_from(&vec![], &contacts);
    assert_eq!(list[0].onion_id, "x1");
    assert_eq!(list[1].onion_id, "x2");
}

#[test]
fn session_rules() {
    assert!(keep_existing_session("a", "b"));
    assert!(keep_existing_session("a", "a"));
    assert!(!keep_existing_session("b", "a"));
    assert_eq!(rtt_ms(100, 40), 60);
    assert_eq!(rtt_ms(10, 40), 0);
    assert_eq!(relay_cutoff(5), 0);
    assert_eq!(relay_cutoff(604_800_001), 1);
}

#[test]
fn relay_offers() {
    assert_eq!(relay_offer_decision("me", "me", 10, 0, 0), RelayDecision::ForUs);
    assert_eq!(relay_offer_decision("x", "me", 262_145, 0, 0), RelayDecision::TooLarge);
    assert_eq!(relay_offer_decision("x", "me", 10, 1000, 0), RelayDecision::QueueFull);
    assert_eq!(relay_offer_decision("x", "me", 10, 10, 200), RelayDecision::SenderQuota);
    assert_eq!(relay_offer_decision("x", "me", 262_144, 999, 199), RelayDecision::Store);
}

#[test]
fn routes() {
    let sessions = vec!["a".to_string(), "b".to_string()];
    assert_eq!(relay_targets(&sessions, "a"), vec!["b".to_string()]);
    let members = vec![
        MemberEntry { onion_id: "me".into(), display_name: "".into() },
        MemberEntry { onion_id: "a".into(), display_name: "".into() },
        MemberEntry { onion_id: "c".into(), display_name: "".into() },
    ];
    let (direct, relays) = group_routes(&members, "me", &sessions);
    assert_eq!(direct, vec!["a".to_string()]);
    assert_eq!(relays, vec![("c".to_string(), "a".to_string()), ("c".to_string(), "b".to_string())]);
    let contacts = vec![peer("me", ""), peer("a", ""), peer("z", "")];
    assert_eq!(dial_targets(&contacts, "me", &sessions), vec!["z".to_string()]);
}

#[test]
fn profile_update_rules() {
    assert!(profile_update_fields("p", "p", "n", "", "", "").is_none());
    assert!(profile_update_fields("p", "me", "   ", "", "", "").is_none());
    let (n, b, s, a) = profile_update_fields("p", "me", " nova ", " bio ", "st", "#fff").unwrap();
    assert_eq!((n.as_str(), b.as_str(), s.as_str(), a.as_str()), ("nova", "bio", "st", "#fff"));
    assert!(matches!(avatar_update(""), AvatarUpdate::Remove));
    assert!(matches!(avatar_update("aGVsbG8="), AvatarUpdate::Store(v) if v == b"hello".to_vec()));
    assert!(matches!(avatar_update("!!"), AvatarUpdate::Keep));
    assert!(matches!(avatar_update(&"A".repeat(120_000)), AvatarUpdate::Keep));
    assert!(has_avatar_after(false, true, false));
    assert!(!has_avatar_after(true, false, true));
    assert!(has_avatar_after(true, false, false));
}

#[test]
fn friend_requests() {
    let contacts = vec![peer("c", "")];
    let mut requests: Vec<PendingRequest> = Vec::new();
    assert_eq!(apply_friend_request(&mut requests, &contacts, "me", "me", "x", 1).0, FriendRequestOutcome::Ignored);
    assert_eq!(apply_friend_request(&mut requests, &contacts, "c", "me", "x", 1).0, FriendRequestOutcome::Ignored);
    assert_eq!(apply_friend_request(&mut requests, &contacts, "p", "me", "  ", 1).0, FriendRequestOutcome::Ignored);
    assert_eq!(apply_friend_request(&mut requests, &contacts, "p", "me", " paul ", 7).0, FriendRequestOutcome::Added);
    assert_eq!(apply_friend_request(&mut requests, &contacts, "p", "me", "pierre", 9).0, FriendRequestOutcome::Renamed);
    assert_eq!(requests.len(), 1);
    assert_eq!(requests[0].display_name, "pierre");
    assert_eq!(requests[0].received_at, 7);
    assert_eq!(decline_request(&mut requests, "q").unwrap_err(), "demande introuvable");
    assert!(decline_request(&mut requests, "p").is_ok());
    assert!(requests.is_empty());
}

#[test]
fn accepting_requests() {
    let id = Identity::from_seed([3u8; 32]).onion_id();
    let mut requests = vec![PendingRequest { onion_id: id.clone(), display_name: String::new(), received_at: 1 }];
    let mut contacts: Vec<PeerInfo> = Vec::new();
    assert_eq!(accept_request(&mut requests, &mut contacts, "nope", 5).unwrap_err(), "demande introuvable");
    let p = accept_request(&mut requests, &mut contacts, &id, 5).unwrap();
    assert_eq!(p.display_name, id[..10]);
    assert_eq!(p.fingerprint, Identity::from_seed([3u8; 32]).fingerprint_short());
    assert_eq!(p.added_at, 5);
    assert_eq!(contacts.len(), 1);
    assert!(requests.is_empty());
    let mut requests = vec![PendingRequest { onion_id: "bad".into(), display_name: "b".into(), received_at: 1 }];
    assert_eq!(accept_request(&mut requests, &mut contacts, "bad", 5).unwrap_err(), "adresse oignon invalide");
    assert!(requests.is_empty());
    let mut requests = vec![PendingRequest { onion_id: id.clone(), display_name: "b".into(), received_at: 1 }];
    assert_eq!(accept_request(&mut requests, &mut contacts, &id, 5).unwrap_err(), "déjà dans vos contacts");
}

#[test]
fn contacts_from_links() {
    let me = Identity::from_seed([1u8; 32]);
    let other = Identity::from_seed([2u8; 32]);
    let mut contacts: Vec<PeerInfo> = Vec::new();
    let p = add_peer_from_link(&mut contacts, &invite_link(&other, "bob"), &me.onion_id(), 42).unwrap();
    assert_eq!((p.display_name.as_str(), p.added_at), ("bob", 42));
    assert_eq!(contacts.len(), 1);
    assert_eq!(add_peer_from_link(&mut contacts, &invite_link(&other, "bob"), &me.onion_id(), 43).unwrap_err(), "ce pair est déjà dans vos contacts");
    assert_eq!(add_peer_from_link(&mut contacts, &invite_link(&me, "moi"), &me.onion_id(), 43).unwrap_err(), "vous ne pouvez pas vous ajouter vous-même");
    assert!(rename_contact(&mut contacts, &other.onion_id(), "robert"));
    assert_eq!(contacts[0].display_name, "robert");
    assert!(!rename_contact(&mut contacts, "x", "y"));
    assert_eq!(remove_contact(&mut contacts, "x").unwrap_err(), "pair introuvable");
    assert!(remove_contact(&mut contacts, &other.onion_id()).is_ok());
    assert!(contacts.is_empty());
}

#[test]
fn renames_reach_groups() {
    let members = vec![
        MemberEntry { onion_id: "me".into(), display_name: "".into() },
        MemberEntry { onion_id: "p".into(), display_name: "old".into() },
    ];
    let mut groups = vec![new_group_state("g".into(), "n".into(), &[0u8; 32], "me".into(), members, 1)];
    assert!(rename_in_groups(&mut groups, "p", "new"));
    assert_eq!(groups[0].members[1].display_name, "new");
    assert!(!rename_in_groups(&mut groups, "q", "x"));
}

#[test]
fn peer_profiles() {
    let me = Identity::from_seed([1u8; 32]).onion_id();
    let own = Profile { display_name: "moi".into(), bio: "b".into(), status: "".into(), accent: "".into(), avatar_b64: "x".into() };
    let p = peer_profile_info(&me, &me, &own, &vec![], None).unwrap();
    assert_eq!(p.display_name, "moi");
    assert!(p.has_avatar);
    let contacts = vec![peer("c", "carl")];
    let cached = PeerProfile { bio: "hi".into(), status: "".into(), accent: "".into(), has_avatar: true };
    let p = peer_profile_info("c", &me, &own, &contacts, Some(&cached)).unwrap();
    assert_eq!((p.display_name.as_str(), p.bio.as_str(), p.fingerprint.as_str()), ("carl", "hi", ""));
    assert!(peer_profile_info("z", &me, &own, &contacts, None).is_none());
}

#[test]
fn restoring_identities() {
    let current = Identity::from_seed([1u8; 32]);
    let same = recovery_phrase(&[1u8; 32]).unwrap();
    assert_eq!(restore_decision(&same, &current, false).unwrap(), None);
    let other = recovery_phrase(&[2u8; 32]).unwrap();
    assert_eq!(restore_decision(&other, &current, false).unwrap(), Some([2u8; 32]));
    assert_eq!(restore_decision(&other, &current, true).unwrap_err(), "un bootstrap tor est déjà en cours, réessayez dans un instant");
    assert!(restore_decision("n'importe quoi", &current, false)
        .unwrap_err()
        .starts_with("phrase invalide: phrase de récupération invalide: "));
}

#[test]
fn messages_shown() {
    let m = outgoing_message(&[0u8; 16], "p", "me", MessageKind::Text, "salut", 3, DmStatus::Sent, 0);
    assert_eq!(m.message_id, "00000000000000000000000000");
    assert_eq!(m.body, "salut");
    let v = outgoing_message(&[0u8; 16], "p", "me", MessageKind::Voice, "ignored", 3, DmStatus::Queued, 900);
    assert_eq!(v.body, "");
    let r = received_message(&[0u8; 16], "g", "a", 4, &IncomingPayload::Voice(vec![1]), 700);
    assert_eq!((r.kind, r.duration_ms, r.status), (MessageKind::Voice, 700, DmStatus::Delivered));
}

#[test]
fn stored_messages_resealed() {
    let a = Identity::from_seed([1u8; 32]);
    let b = Identity::from_seed([2u8; 32]);
    let record = DmRecord {
        id: "01ARZ3NDEKTSV4RRFFQ69G5FAV".into(),
        peer_id: b.onion_id(),
        author_id: a.onion_id(),
        body: "encore".into(),
        created_ms: 9,
        status: 0,
        kind: 0,
        duration_ms: 0,
    };
    let env = record_envelope(&a, &b.onion_id(), &record, None).unwrap();
    assert_eq!(env.timestamp_ms, 9);
    assert_eq!(void::messages::open_dm(&b, &env).unwrap(), b"encore".to_vec());
    let mut bad = record.clone();
    bad.id = "not-a-ulid".into();
    assert!(record_envelope(&a, &b.onion_id(), &bad, None).is_none());
    let mut voice = record.clone();
    voice.kind = 1;
    assert!(record_envelope(&a, &b.onion_id(), &voice, None).is_none());
    assert!(record_envelope(&a, &b.onion_id(), &voice, Some(&vec![1, 2])).is_some());
}

#[test]
fn sessions_continue_until_bye_or_replacement() {
    let ping = Frame::Ping { timestamp_ms: 1 };
    assert!(session_continues(Some(4), 4, &ping));
    assert!(!session_continues(Some(5), 4, &ping));
    assert!(!session_continues(None, 4, &ping));
    assert!(!session_continues(Some(4), 4, &Frame::Bye { reason: "x".into() }));
    let hello = Frame::Hello { onion_id: "a".into(), display_name: "b".into(), nonce: [0; 16], signature: [0; 64] };
    assert!(!session_continues(Some(4), 4, &hello));
}

use void::crypto::Identity;
use void::engine::PeerInfo;
use void::groups::{
    add_created_group, add_member_plan, apply_leave, apply_member_list, apply_removal,
    decrypt_group_key, drop_group, encrypt_group_key, find_group, group_key, group_members_for,
    group_name_text, group_send_plan, new_group_state, others, rekey_group, remove_member_plan,
    rotate_target, set_group_key, set_members, to_info, upsert_group, with_new_member,
    without_member, GroupState, RemovalOutcome,
};
use void::messages::{open_group, record_group_envelope, seal_group};
use void::proto_groups::MemberEntry;
use void::store::DmRecord;

fn m(id: &str, name: &str) -> MemberEntry {
    MemberEntry { onion_id: id.to_string(), display_name: name.to_string() }
}

fn state(id: &str, owner: &str, members: Vec<MemberEntry>) -> GroupState {
    new_group_state(id.to_string(), "g".to_string(), &[7u8; 32], owner.to_string(), members, 5)
}

fn peer(id: &str, name: &str) -> PeerInfo {
    PeerInfo { onion_id: id.to_string(), fingerprint: "f".to_string(), display_name: name.to_string(), added_at: 0 }
}

fn ids(g: &GroupState) -> Vec<String> {
    g.members.iter().map(|m| m.onion_id.clone()).collect()
}

#[test]
fn group_keys_in_base64() {
    let s = state("g1", "me", vec![m("me", "")]);
    assert_eq!(group_key(&s.key_b64).unwrap(), [7u8; 32]);
    assert_eq!(group_key("AAAA").unwrap_err(), "clé de groupe corrompue");
    assert_eq!(group_key("!").unwrap_err(), "clé de groupe corrompue");
}

#[test]
fn upsert_replaces_or_appends() {
    let mut gs = vec![state("a", "me", vec![m("me", "")])];
    assert!(upsert_group(&mut gs, state("b", "x", vec![m("me", "")])));
    assert!(!upsert_group(&mut gs, state("a", "y", vec![m("me", ""), m("y", "")])));
    assert_eq!(gs.len(), 2);
    assert_eq!(gs[0].owner_id, "y");
    assert_eq!(find_group(&gs, "b"), Some(1));
    assert_eq!(find_group(&gs, "c"), None);
}

#[test]
fn member_list_updates() {
    let mut gs = vec![state("a", "o", vec![m("me", ""), m("o", "")])];
    assert_eq!(apply_member_list(&mut gs, "x", "a", vec![m("me", "")], "me"), None);
    assert_eq!(apply_member_list(&mut gs, "o", "a", vec![m("o", "")], "me"), None);
    assert_eq!(apply_member_list(&mut gs, "o", "z", vec![m("me", "")], "me"), None);
    assert_eq!(apply_member_list(&mut gs, "o", "a", vec![m("o", ""), m("me", ""), m("n", "")], "me"), Some(0));
    assert_eq!(ids(&gs[0]), vec!["o", "me", "n"]);
}

#[test]
fn removals_and_leaves() {
    let mut gs = vec![state("a", "o", vec![m("me", ""), m("o", ""), m("x", "")])];
    assert_eq!(apply_removal(&mut gs, "x", "a", "o", "me"), RemovalOutcome::Ignored);
    assert_eq!(apply_removal(&mut gs, "o", "a", "x", "me"), RemovalOutcome::Updated(0));
    assert_eq!(ids(&gs[0]), vec!["me", "o"]);
    assert_eq!(apply_leave(&mut gs, "o", "a", "me"), Some(0));
    assert_eq!(ids(&gs[0]), vec!["me"]);
    assert_eq!(apply_leave(&mut gs, "o", "nope", "me"), None);
    assert_eq!(apply_removal(&mut gs, "o", "a", "me", "me"), RemovalOutcome::Excluded(0));
    assert!(gs.is_empty());
}

#[test]
fn rotation_only_by_owner() {
    let mut gs = vec![state("a", "o", vec![m("me", ""), m("o", "")])];
    assert_eq!(rotate_target(&gs, "me", "a"), None);
    assert_eq!(rotate_target(&gs, "o", "a"), Some(0));
    set_group_key(&mut gs, 0, &[9u8; 32]);
    assert_eq!(group_key(&gs[0].key_b64).unwrap(), [9u8; 32]);
}

#[test]
fn creation_members() {
    let contacts = vec![peer("bbbbbbbbbbbbbb", ""), peer("c", "carla"), peer("d", "dan")];
    let online = vec!["bbbbbbbbbbbbbb".to_string(), "c".to_string()];
    let ids_in = vec!["c".to_string(), "me".to_string(), "c".to_string(), "bbbbbbbbbbbbbb".to_string()];
    let members = group_members_for("me", "moi", &ids_in, &contacts, &online).unwrap();
    let names: Vec<(String, String)> = members.into_iter().map(|m| (m.onion_id, m.display_name)).collect();
    assert_eq!(
        names,
        vec![
            ("me".to_string(), "moi".to_string()),
            ("c".to_string(), "carla".to_string()),
            ("bbbbbbbbbbbbbb".to_string(), "bbbbbbbbbb".to_string()),
        ]
    );
    assert_eq!(group_members_for("me", "moi", &vec!["z".to_string()], &contacts, &online).unwrap_err(), "pair inconnu: z");
    assert_eq!(group_members_for("me", "moi", &vec!["d".to_string()], &contacts, &online).unwrap_err(), "ce pair est hors ligne");
    assert_eq!(group_name_text("  amis ").unwrap(), "amis");
    assert!(group_name_text(&"x".repeat(33)).is_err());
    assert_eq!(group_name_text(" ").unwrap_err(), "nom de groupe invalide (1 à 32 caractères)");
}

#[test]
fn adding_a_member() {
    let gs = vec![state("a", "me", vec![m("me", ""), m("o", "")])];
    let contacts = vec![peer("n", "nina"), peer("o", "oscar")];
    let online = vec!["n".to_string()];
    let (i, entry, key) = add_member_plan(&gs, "a", "n", &contacts, &online).unwrap();
    assert_eq!((i, entry.onion_id.as_str(), entry.display_name.as_str(), key), (0, "n", "nina", [7u8; 32]));
    assert_eq!(add_member_plan(&gs, "z", "n", &contacts, &online).unwrap_err(), "groupe introuvable");
    assert_eq!(add_member_plan(&gs, "a", "o", &contacts, &online).unwrap_err(), "déjà membre du groupe");
    assert_eq!(add_member_plan(&gs, "a", "q", &contacts, &online).unwrap_err(), "pair inconnu");
    assert_eq!(add_member_plan(&gs, "a", "n", &contacts, &vec![]).unwrap_err(), "ce pair est hors ligne");
    let mut gs = gs;
    let longer = with_new_member(&gs[0].members, entry);
    assert_eq!(others(&longer, "me"), vec!["o".to_string(), "n".to_string()]);
    assert_eq!(set_members(&mut gs, "a", longer).unwrap(), 0);
    assert_eq!(ids(&gs[0]), vec!["me", "o", "n"]);
    assert_eq!(set_members(&mut gs, "z", vec![]).unwrap_err(), "groupe introuvable");
}

#[test]
fn removing_a_member() {
    let mut gs = vec![state("a", "me", vec![m("me", ""), m("o", ""), m("p", "")])];
    assert_eq!(remove_member_plan(&gs, "a", "me", "me").unwrap_err(), "utilisez quitter le groupe");
    assert_eq!(remove_member_plan(&gs, "z", "o", "me").unwrap_err(), "groupe introuvable");
    assert_eq!(remove_member_plan(&gs, "a", "o", "p").unwrap_err(), "seul le propriétaire peut exclure un membre");
    assert_eq!(remove_member_plan(&gs, "a", "q", "me").unwrap_err(), "ce pair n'est pas membre du groupe");
    let (i, remaining) = remove_member_plan(&gs, "a", "o", "me").unwrap();
    assert_eq!(i, 0);
    assert_eq!(rekey_group(&mut gs, "a", remaining, &[1u8; 32]).unwrap(), 0);
    assert_eq!(ids(&gs[0]), vec!["me", "p"]);
    assert_eq!(group_key(&gs[0].key_b64).unwrap(), [1u8; 32]);
    assert_eq!(without_member(&gs[0].members, "p").len(), 1);
}

#[test]
fn leaving_and_sending() {
    let mut gs = vec![state("a", "me", vec![m("me", "")]), state("b", "me", vec![m("me", "")])];
    assert_eq!(group_send_plan(&gs, "b").unwrap(), (1, [7u8; 32]));
    assert_eq!(group_send_plan(&gs, "z").unwrap_err(), "groupe introuvable");
    drop_group(&mut gs, "a");
    assert_eq!(gs.len(), 1);
    assert_eq!(gs[0].group_id, "b");
    add_created_group(&mut gs, state("c", "me", vec![m("me", "")]));
    assert_eq!(gs.len(), 2);
}

#[test]
fn group_info_marks_online_members() {
    let s = state("a", "me", vec![m("me", "moi"), m("o", "oscar")]);
    let info = to_info(&s, &vec!["o".to_string()]);
    assert_eq!(info.members.len(), 2);
    assert!(!info.members[0].online);
    assert!(info.members[1].online);
    assert_eq!(info.created_ms, 5);
}

#[test]
fn group_key_sealed_for_member_opens() {
    let a = Identity::from_seed([1u8; 32]);
    let b = Identity::from_seed([2u8; 32]);
    let blob = encrypt_group_key(&a, &b.onion_id(), "grp", &[3u8; 32]).unwrap();
    assert_eq!(decrypt_group_key(&b, &a.onion_id(), "grp", &blob).unwrap(), [3u8; 32]);
    assert!(decrypt_group_key(&b, &a.onion_id(), "other", &blob).is_err());
    assert!(encrypt_group_key(&a, "abc", "grp", &[3u8; 32]).is_err());
}

#[test]
fn group_messages_open_for_members() {
    let gs = vec![state("a", "me", vec![m("me", ""), m("o", "")])];
    let env = seal_group(&[7u8; 32], &[1; 16], "a", "o", 10, 0, 0, b"coucou").unwrap();
    assert_eq!(open_group(&gs, &env), Some((0, b"coucou".to_vec())));
    let intruder = seal_group(&[7u8; 32], &[1; 16], "a", "x", 10, 0, 0, b"coucou").unwrap();
    assert_eq!(open_group(&gs, &intruder), None);
    let record = DmRecord {
        id: "01ARZ3NDEKTSV4RRFFQ69G5FAV".into(),
        peer_id: "a".into(),
        author_id: "me".into(),
        body: "re".into(),
        created_ms: 3,
        status: 0,
        kind: 0,
        duration_ms: 0,
    };
    let env = record_group_envelope(&gs, "me", &record, None).unwrap();
    assert_eq!(env.author_id, "me");
    let gs_me = vec![state("a", "me", vec![m("me", "")])];
    assert_eq!(open_group(&gs_me, &env).map(|(_, p)| p), Some(b"re".to_vec()));
}

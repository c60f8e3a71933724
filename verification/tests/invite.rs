use void::crypto::Identity;
use void::invite::{Invite, InviteError, MAX_DISPLAY_NAME};
use void::percent::{percent_decode, percent_encode};

fn sample() -> (Identity, Invite) {
    let identity = Identity::generate();
    let invite = Invite::new(identity.onion_id(), identity.fingerprint_short(), "Zoé ✨".to_string());
    (identity, invite)
}

fn message(e: InviteError) -> String {
    e.message()
}

#[test]
fn invite_roundtrip() {
    let (_, invite) = sample();
    let link = invite.to_link();
    assert!(link.starts_with("void://invite?onion="));
    assert_eq!(Invite::parse(&link).unwrap(), invite);
}

#[test]
fn parse_strips_whitespace() {
    let (_, invite) = sample();
    let link = format!("  {}  ", invite.to_link());
    assert_eq!(Invite::parse(&link).unwrap(), invite);
}

#[test]
fn reject_wrong_scheme() {
    assert!(Invite::parse("https://void.example/invite?onion=abc").is_err());
}

#[test]
fn reject_missing_onion() {
    assert!(Invite::parse("void://invite?fp=ab&n=x").is_err());
}

#[test]
fn reject_corrupted_onion() {
    let (identity, _) = sample();
    let mut id = identity.onion_id();
    let last = id.pop().unwrap();
    id.push(if last == 'a' { 'b' } else { 'a' });
    let link = format!("void://invite?onion={id}&fp=ab12");
    assert!(Invite::parse(&link).is_err());
}

#[test]
fn reject_bad_fingerprint() {
    let (identity, _) = sample();
    let link = format!("void://invite?onion={}&fp=xyz!", identity.onion_id());
    assert!(Invite::parse(&link).is_err());
}

#[test]
fn reject_long_name() {
    let (identity, _) = sample();
    let name = "x".repeat(33);
    let link = format!("void://invite?onion={}&fp=ab&n={name}", identity.onion_id());
    assert!(Invite::parse(&link).is_err());
}

#[test]
fn accept_empty_name() {
    let (identity, _) = sample();
    let link = format!("void://invite?onion={}&fp=ab", identity.onion_id());
    let parsed = Invite::parse(&link).unwrap();
    assert_eq!(parsed.display_name, "");
}

#[test]
fn link_text_is_exact() {
    let invite = Invite::new("o".to_string(), "ab".to_string(), "A b-é".to_string());
    assert_eq!(invite.to_link(), "void://invite?onion=o&fp=ab&n=A%20b%2D%C3%A9");
}

#[test]
fn each_error_message() {
    let id = Identity::from_seed([1u8; 32]).onion_id();
    let cases = [
        ("void:/invite", "lien d'invitation invalide: le lien doit commencer par void://invite".to_string()),
        ("void://invite", "lien d'invitation invalide: paramètres manquants".to_string()),
        ("void://invite?fp=ab", "lien d'invitation invalide: paramètre onion manquant".to_string()),
        ("void://invite?onion=abc&fp=ab", "lien d'invitation invalide: adresse oignon invalide".to_string()),
        (&*Box::leak(format!("void://invite?onion={id}").into_boxed_str()), "lien d'invitation invalide: paramètre fp manquant".to_string()),
        (&*Box::leak(format!("void://invite?onion={id}&fp=").into_boxed_str()), "lien d'invitation invalide: empreinte invalide".to_string()),
        (&*Box::leak(format!("void://invite?onion={id}&fp=ab&n=%FF").into_boxed_str()), "lien d'invitation invalide: nom illisible".to_string()),
        (&*Box::leak(format!("void://invite?onion={id}&fp=ab&n={}", "y".repeat(MAX_DISPLAY_NAME + 1)).into_boxed_str()), "lien d'invitation invalide: nom trop long".to_string()),
    ];
    for (link, expected) in cases {
        assert_eq!(message(Invite::parse(link).unwrap_err()), expected, "{link}");
    }
}

#[test]
fn fingerprint_is_lowercased_and_last_pair_wins() {
    let id = Identity::from_seed([2u8; 32]).onion_id();
    let link = format!("void://invite?x=1&onion=zz&onion={id}&fp=AB12&n=a&n=b%20c&junk");
    let parsed = Invite::parse(&link).unwrap();
    assert_eq!(parsed.onion_id, id);
    assert_eq!(parsed.fingerprint, "ab12");
    assert_eq!(parsed.display_name, "b c");
}

#[test]
fn percent_coding() {
    assert_eq!(percent_encode(b"foo bar?"), b"foo%20bar%3F".to_vec());
    assert_eq!(percent_decode(b"foo%20bar%3F"), b"foo bar?".to_vec());
    assert_eq!(percent_decode(b"%2x%"), b"%2x%".to_vec());
    assert_eq!(percent_decode(b"%c3%A9"), "é".as_bytes().to_vec());
    let all: Vec<u8> = (0..=255u8).collect();
    assert_eq!(percent_decode(&percent_encode(&all)), all);
}

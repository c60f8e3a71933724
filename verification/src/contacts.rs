//! Contacts and friend requests: adding a peer from an invitation link,
//! answering requests, removing a contact, and the profiles shown for
//! peers.

use vstd::prelude::*;
use crate::crypto::{
    onion_id_canonical, onion_id_roundtrip, onion_id_shape, onion_id_spec, onion_public_spec, seed_from_recovery_phrase, CryptoError,
    Identity,
};
use crate::engine::{
    onion_fingerprint, onion_fingerprint_spec, peer_from_link, PeerInfo, PeerProfile, PeerProfileInfo, PendingRequest,
    Profile,
};
use crate::groups::str_eq;
use crate::invite::invite_parse_spec;
use crate::primitives::bip39_entropy_spec;
use crate::crypto::normalized_phrase;
use crate::session::{is_contact, request_position};
use crate::text::{char_count, hex_spec, prefix_chars};

verus! {

/// The contacts without `id`.
pub open spec fn remove_contact_id(contacts: Seq<PeerInfo>, id: Seq<char>) -> Seq<PeerInfo>
    decreases contacts.len(),
{
    if contacts.len() == 0 {
        contacts
    } else {
        let init = remove_contact_id(contacts.drop_last(), id);
        if contacts.last().onion_id@ == id {
            init
        } else {
            init.push(contacts.last())
        }
    }
}

/// The requests without those from `id`.
pub open spec fn remove_request_id(requests: Seq<PendingRequest>, id: Seq<char>) -> Seq<PendingRequest>
    decreases requests.len(),
{
    if requests.len() == 0 {
        requests
    } else {
        let init = remove_request_id(requests.drop_last(), id);
        if requests.last().onion_id@ == id {
            init
        } else {
            init.push(requests.last())
        }
    }
}

proof fn lemma_remove_contact_len(s: Seq<PeerInfo>, id: Seq<char>)
    ensures
        remove_contact_id(s, id).len() <= s.len(),
        remove_contact_id(s, id).len() == s.len() <==> !is_contact(s, id),
    decreases s.len(),
{
    if s.len() > 0 {
        lemma_remove_contact_len(s.drop_last(), id);
        if is_contact(s, id) && s.last().onion_id@ != id {
            let j = choose|j: int| 0 <= j < s.len() && (#[trigger] s[j]).onion_id@ == id;
            assert(s.drop_last()[j].onion_id@ == id);
        }
        if is_contact(s.drop_last(), id) {
            let j = choose|j: int| 0 <= j < s.drop_last().len() && (#[trigger] s.drop_last()[j]).onion_id@ == id;
            assert(s[j].onion_id@ == id);
        }
        if s.last().onion_id@ == id {
            assert(s[s.len() - 1].onion_id@ == id);
        }
    }
}

proof fn lemma_remove_request_len(s: Seq<PendingRequest>, id: Seq<char>)
    ensures
        remove_request_id(s, id).len() <= s.len(),
        remove_request_id(s, id).len() == s.len() <==> request_position(s, id) is None,
    decreases s.len(),
{
    if s.len() > 0 {
        lemma_remove_request_len(s.drop_last(), id);
        let has = exists|j: int| 0 <= j < s.len() && (#[trigger] s[j]).onion_id@ == id;
        let has_init = exists|j: int| 0 <= j < s.drop_last().len() && (#[trigger] s.drop_last()[j]).onion_id@ == id;
        if has && s.last().onion_id@ != id {
            let j = choose|j: int| 0 <= j < s.len() && (#[trigger] s[j]).onion_id@ == id;
            assert(s.drop_last()[j].onion_id@ == id);
        }
        if has_init {
            let j = choose|j: int| 0 <= j < s.drop_last().len() && (#[trigger] s.drop_last()[j]).onion_id@ == id;
            assert(s[j].onion_id@ == id);
        }
        if s.last().onion_id@ == id {
            assert(s[s.len() - 1].onion_id@ == id);
        }
    }
}

/// Removes the contact `onion_id`; "pair introuvable" when there is none.
pub fn remove_contact(contacts: &mut Vec<PeerInfo>, onion_id: &str) -> (res: Result<(), String>)
    ensures
        final(contacts)@ == remove_contact_id(old(contacts)@, onion_id@),
        is_contact(old(contacts)@, onion_id@) <==> res is Ok,
        res matches Err(e) ==> e@ == "pair introuvable"@,
{
    let mut all: Vec<PeerInfo> = Vec::new();
    std::mem::swap(&mut all, contacts);
    let n = all.len();
    let ghost orig = all@;
    let ghost mut k: int = 0;
    assert(orig.take(0) =~= Seq::<PeerInfo>::empty());
    assert(orig.skip(0) =~= orig);
    while all.len() > 0
        invariant
            0 <= k <= orig.len(),
            all@ == orig.skip(k),
            contacts@ == remove_contact_id(orig.take(k), onion_id@),
        decreases all.len(),
    {
        let c = all.remove(0);
        assert(c == orig[k]);
        assert(orig.take(k + 1).drop_last() =~= orig.take(k));
        assert(all@ =~= orig.skip(k + 1));
        if !str_eq(c.onion_id.as_str(), onion_id) {
            contacts.push(c);
        }
        proof {
            k = k + 1;
        }
    }
    assert(orig.take(k) =~= orig);
    proof {
        lemma_remove_contact_len(orig, onion_id@);
    }
    if contacts.len() == n {
        return Err(String::from_str("pair introuvable"));
    }
    Ok(())
}

/// Declines every pending request from `onion_id`; "demande introuvable"
/// when there is none.
pub fn decline_request(requests: &mut Vec<PendingRequest>, onion_id: &str) -> (res: Result<(), String>)
    ensures
        final(requests)@ == remove_request_id(old(requests)@, onion_id@),
        request_position(old(requests)@, onion_id@) is Some <==> res is Ok,
        res matches Err(e) ==> e@ == "demande introuvable"@,
{
    let mut all: Vec<PendingRequest> = Vec::new();
    std::mem::swap(&mut all, requests);
    let n = all.len();
    let ghost orig = all@;
    let ghost mut k: int = 0;
    assert(orig.take(0) =~= Seq::<PendingRequest>::empty());
    assert(orig.skip(0) =~= orig);
    while all.len() > 0
        invariant
            0 <= k <= orig.len(),
            all@ == orig.skip(k),
            requests@ == remove_request_id(orig.take(k), onion_id@),
        decreases all.len(),
    {
        let r = all.remove(0);
        assert(r == orig[k]);
        assert(orig.take(k + 1).drop_last() =~= orig.take(k));
        assert(all@ =~= orig.skip(k + 1));
        if !str_eq(r.onion_id.as_str(), onion_id) {
            requests.push(r);
        }
        proof {
            k = k + 1;
        }
    }
    assert(orig.take(k) =~= orig);
    proof {
        lemma_remove_request_len(orig, onion_id@);
    }
    if requests.len() == n {
        return Err(String::from_str("demande introuvable"));
    }
    Ok(())
}

fn contact_known(contacts: &Vec<PeerInfo>, id: &str) -> (r: bool)
    ensures
        r == is_contact(contacts@, id@),
{
    let mut i: usize = 0;
    while i < contacts.len()
        invariant
            i <= contacts.len(),
            forall|k: int| 0 <= k < i ==> (#[trigger] contacts@[k]).onion_id@ != id@,
        decreases contacts.len() - i,
    {
        if str_eq(contacts[i].onion_id.as_str(), id) {
            assert(contacts@[i as int].onion_id@ == id@);
            return true;
        }
        i = i + 1;
    }
    false
}

/// Adds the peer of an invitation link to the contacts, stamped `now`:
/// refused when the link is invalid, names ourselves, or names a contact.
pub fn add_peer_from_link(contacts: &mut Vec<PeerInfo>, link: &str, my_id: &str, now: u64) -> (res: Result<
    PeerInfo,
    String,
>)
    ensures
        match invite_parse_spec(link@) {
            Err(m) => res matches Err(e) && e@ == "lien d'invitation invalide: "@ + m && final(contacts)@ == old(
                contacts,
            )@,
            Ok((o, f, n)) => if o == my_id@ {
                res matches Err(e) && e@ == "vous ne pouvez pas vous ajouter vous-même"@ && final(contacts)@
                    == old(contacts)@
            } else if is_contact(old(contacts)@, o) {
                res matches Err(e) && e@ == "ce pair est déjà dans vos contacts"@ && final(contacts)@ == old(
                    contacts,
                )@
            } else {
                res matches Ok(p) && p.onion_id@ == o && p.fingerprint@ == f && p.display_name@ == n
                    && p.added_at == now && final(contacts)@.len() == old(contacts)@.len() + 1
                    && final(contacts)@.drop_last() == old(contacts)@ && final(contacts)@.last() == p
            },
        },
{
    let mut peer = match peer_from_link(link) {
        Ok(p) => p,
        Err(e) => return Err(e),
    };
    if str_eq(peer.onion_id.as_str(), my_id) {
        return Err(String::from_str("vous ne pouvez pas vous ajouter vous-même"));
    }
    peer.added_at = now;
    if contact_known(contacts, peer.onion_id.as_str()) {
        return Err(String::from_str("ce pair est déjà dans vos contacts"));
    }
    let out = PeerInfo {
        onion_id: peer.onion_id.clone(),
        fingerprint: peer.fingerprint.clone(),
        display_name: peer.display_name.clone(),
        added_at: peer.added_at,
    };
    contacts.push(peer);
    assert(contacts@.drop_last() =~= old(contacts)@);
    Ok(out)
}

/// The contact made from an accepted request: the first ten characters of
/// its identifier stand for an empty name.
pub open spec fn accepted_name(request_name: Seq<char>, onion_id: Seq<char>) -> Seq<char> {
    if request_name.len() == 0 {
        onion_id.take(10)
    } else {
        request_name
    }
}

/// Accepts the pending request from `onion_id`, stamped `now`. The request
/// leaves the pending list as soon as it is found, even when the contact
/// cannot then be added (invalid identifier, or already a contact).
pub fn accept_request(
    requests: &mut Vec<PendingRequest>,
    contacts: &mut Vec<PeerInfo>,
    onion_id: &str,
    now: u64,
) -> (res: Result<PeerInfo, String>)
    ensures
        match request_position(old(requests)@, onion_id@) {
            None => res matches Err(e) && e@ == "demande introuvable"@ && final(requests)@ == old(requests)@
                && final(contacts)@ == old(contacts)@,
            Some(i) => final(requests)@ == old(requests)@.remove(i) && if onion_public_spec(onion_id@) is None {
                res matches Err(e) && e@ == "adresse oignon invalide"@ && final(contacts)@ == old(contacts)@
            } else if is_contact(old(contacts)@, onion_id@) {
                res matches Err(e) && e@ == "déjà dans vos contacts"@ && final(contacts)@ == old(contacts)@
            } else {
                res matches Ok(p) && p.onion_id@ == onion_id@ && p.fingerprint@ == onion_fingerprint_spec(
                    onion_id@,
                ) && p.display_name@ == accepted_name(old(requests)@[i].display_name@, onion_id@)
                    && p.added_at == now && final(contacts)@ == old(contacts)@.push(p)
            },
        },
        res matches Ok(p) ==> (request_position(old(requests)@, onion_id@) matches Some(i) && {
            let given = old(requests)@[i].display_name@;
            &&& given.len() > 0 ==> p.display_name@ == given
            &&& given.len() == 0 ==> p.display_name@ == onion_id@.take(10)
        }),
{
    let i = match find_request_index(requests, onion_id) {
        Some(i) => i,
        None => return Err(String::from_str("demande introuvable")),
    };
    let request = requests.remove(i);
    if !crate::crypto::onion_id_is_valid(onion_id) {
        return Err(String::from_str("adresse oignon invalide"));
    }
    let fingerprint = onion_fingerprint(onion_id);
    let display = if char_count(request.display_name.as_str()) == 0 {
        proof {
            let public = onion_public_spec(onion_id@)->0;
            onion_id_canonical(onion_id@);
            assert(onion_id@ == onion_id_spec(public));
            lemma_public_len(onion_id@);
            onion_id_roundtrip(public);
        }
        prefix_chars(onion_id, 10)
    } else {
        request.display_name
    };
    if contact_known(contacts, onion_id) {
        return Err(String::from_str("déjà dans vos contacts"));
    }
    let peer = PeerInfo { onion_id: String::from_str(onion_id), fingerprint, display_name: display, added_at: now };
    let out = PeerInfo {
        onion_id: peer.onion_id.clone(),
        fingerprint: peer.fingerprint.clone(),
        display_name: peer.display_name.clone(),
        added_at: peer.added_at,
    };
    contacts.push(peer);
    Ok(out)
}

/// Accepting a request keeps the name the requester gave; only a request
/// without a name is shown by the first ten characters of its identifier,
/// and that stand-in is never empty for a valid identifier.
pub proof fn accepted_name_keeps_given_name(request_name: Seq<char>, onion_id: Seq<char>)
    requires
        onion_public_spec(onion_id) is Some,
    ensures
        request_name.len() > 0 ==> accepted_name(request_name, onion_id) == request_name,
        request_name.len() == 0 ==> accepted_name(request_name, onion_id) == onion_id.take(10)
            && accepted_name(request_name, onion_id).len() == 10,
{
    onion_id_shape(onion_id);
}

proof fn lemma_public_len(id: Seq<char>)
    requires
        onion_public_spec(id) is Some,
    ensures
        onion_public_spec(id)->0.len() == 32,
{
}

fn find_request_index(requests: &Vec<PendingRequest>, id: &str) -> (res: Option<usize>)
    ensures
        res matches Some(i) ==> request_position(requests@, id@) == Some(i as int) && i < requests@.len(),
        res is None ==> request_position(requests@, id@) is None,
{
    let mut i: usize = 0;
    while i < requests.len()
        invariant
            i <= requests.len(),
            forall|k: int| 0 <= k < i ==> (#[trigger] requests@[k]).onion_id@ != id@,
        decreases requests.len() - i,
    {
        if str_eq(requests[i].onion_id.as_str(), id) {
            let ghost j = choose|j: int|
                0 <= j < requests@.len() && (#[trigger] requests@[j]).onion_id@ == id@ && forall|k: int|
                    0 <= k < j ==> requests@[k].onion_id@ != id@;
            assert(requests@[i as int].onion_id@ == id@);
            assert(j == i) by {
                if j < i {
                    assert(requests@[j].onion_id@ != id@);
                } else if j > i {
                    assert(requests@[i as int].onion_id@ != id@);
                }
            }
            return Some(i);
        }
        i = i + 1;
    }
    None
}

/// The profile shown for a contact: what we know of its profile (nothing
/// when `cached` is `None`) and the fingerprint of its identifier.
pub fn peer_profile_entry(contact: &PeerInfo, cached: Option<&PeerProfile>) -> (res: PeerProfileInfo)
    ensures
        res.onion_id@ == contact.onion_id@,
        res.display_name@ == contact.display_name@,
        res.fingerprint@ == onion_fingerprint_spec(contact.onion_id@),
        match cached {
            Some(p) => res.bio@ == p.bio@ && res.status@ == p.status@ && res.accent@ == p.accent@
                && res.has_avatar == p.has_avatar,
            None => res.bio@.len() == 0 && res.status@.len() == 0 && res.accent@.len() == 0 && !res.has_avatar,
        },
{
    let (bio, status, accent, has_avatar) = match cached {
        Some(p) => (p.bio.clone(), p.status.clone(), p.accent.clone(), p.has_avatar),
        None => (String::new(), String::new(), String::new(), false),
    };
    PeerProfileInfo {
        onion_id: contact.onion_id.clone(),
        display_name: contact.display_name.clone(),
        bio,
        status,
        accent,
        has_avatar,
        fingerprint: onion_fingerprint(contact.onion_id.as_str()),
    }
}

/// The profile shown for `onion_id`: our own when it is us, a contact's
/// when it is one (with what we know of its profile), none otherwise.
pub fn peer_profile_info(
    onion_id: &str,
    my_id: &str,
    own: &Profile,
    contacts: &Vec<PeerInfo>,
    cached: Option<&PeerProfile>,
) -> (res: Option<PeerProfileInfo>)
    ensures
        onion_id@ == my_id@ ==> (res matches Some(p) && p.onion_id@ == onion_id@ && p.display_name@
            == own.display_name@ && p.bio@ == own.bio@ && p.status@ == own.status@ && p.accent@
            == own.accent@ && p.has_avatar == (own.avatar_b64@.len() > 0) && p.fingerprint@
            == onion_fingerprint_spec(onion_id@)),
        onion_id@ != my_id@ ==> match crate::groups::contact_position(contacts@, onion_id@) {
            None => res is None,
            Some(j) => res matches Some(p) && p.onion_id@ == onion_id@ && p.display_name@
                == contacts@[j].display_name@ && p.fingerprint@ == onion_fingerprint_spec(onion_id@)
                && match cached {
                Some(c) => p.bio@ == c.bio@ && p.status@ == c.status@ && p.accent@ == c.accent@
                    && p.has_avatar == c.has_avatar,
                None => p.bio@.len() == 0 && p.status@.len() == 0 && p.accent@.len() == 0 && !p.has_avatar,
            },
        },
{
    if str_eq(onion_id, my_id) {
        return Some(
            PeerProfileInfo {
                onion_id: String::from_str(onion_id),
                display_name: own.display_name.clone(),
                bio: own.bio.clone(),
                status: own.status.clone(),
                accent: own.accent.clone(),
                has_avatar: char_count(own.avatar_b64.as_str()) > 0,
                fingerprint: onion_fingerprint(onion_id),
            },
        );
    }
    match crate::groups::find_contact(contacts, onion_id) {
        None => None,
        Some(j) => Some(peer_profile_entry(&contacts[j], cached)),
    }
}

/// How the refusal of an unreadable recovery phrase begins; the rest is the
/// BIP-39 parser's own explanation.
pub open spec fn invalid_phrase_prefix() -> Seq<char> {
    "phrase invalide: phrase de récupération invalide: "@
}

/// The decision on restoring an identity from a recovery phrase: the seed
/// to switch to, nothing when it is already ours, or why not.
pub fn restore_decision(phrase: &str, current: &Identity, bootstrapping: bool) -> (res: Result<Option<[u8; 32]>, String>)
    ensures
        match bip39_entropy_spec(normalized_phrase(phrase@)) {
            Some(e) => if e.len() != 32 {
                res matches Err(m) && m@ == "phrase invalide: phrase de récupération invalide: taille d'entropie inattendue"@
            } else if e == current@ {
                res matches Ok(None)
            } else if bootstrapping {
                res matches Err(m) && m@ == "un bootstrap tor est déjà en cours, réessayez dans un instant"@
            } else {
                res matches Ok(Some(seed)) && seed@ == e
            },
            None => res matches Err(m) && m@.len() >= invalid_phrase_prefix().len() && m@.take(
                invalid_phrase_prefix().len() as int,
            ) == invalid_phrase_prefix(),
        },
{
    let seed = match seed_from_recovery_phrase(phrase) {
        Ok(s) => s,
        Err(e) => {
            let detail = e.message();
            let out = String::from_str("phrase invalide: ").concat(detail.as_str());
            proof {
                reveal_strlit("phrase invalide: ");
                reveal_strlit("phrase de récupération invalide: ");
                reveal_strlit("phrase invalide: phrase de récupération invalide: ");
                reveal_strlit("taille d'entropie inattendue");
                reveal_strlit("phrase invalide: phrase de récupération invalide: taille d'entropie inattendue");
                let p = invalid_phrase_prefix();
                assert(p =~= "phrase invalide: "@ + "phrase de récupération invalide: "@);
                if let CryptoError::Mnemonic(d) = e {
                    assert(out@ =~= p + d@);
                    assert(out@.take(p.len() as int) =~= p);
                    assert(p + "taille d'entropie inattendue"@
                        =~= "phrase invalide: phrase de récupération invalide: taille d'entropie inattendue"@);
                }
            }
            return Err(out);
        },
    };
    let mine = current.seed();
    let mut same = true;
    let mut i: usize = 0;
    while i < 32
        invariant
            i <= 32,
            same == forall|k: int| 0 <= k < i ==> seed@[k] == mine@[k],
        decreases 32 - i,
    {
        if seed[i] != mine[i] {
            same = false;
        }
        i = i + 1;
    }
    if same {
        assert(seed@ =~= mine@);
        return Ok(None);
    }
    if bootstrapping {
        return Err(String::from_str("un bootstrap tor est déjà en cours, réessayez dans un instant"));
    }
    Ok(Some(seed))
}

} // verus!

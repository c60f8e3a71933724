//! Groups: their state, the view shown to the user, their keys, and how
//! the group list changes under the frames received from members and under
//! the user's own operations. Every change keeps us a member of every
//! group we hold.

use vstd::prelude::*;
use vstd::utf8::{decode_utf8, encode_utf8, encode_utf8_decode_utf8, is_char_boundary};
use crate::crypto::Identity;
use crate::dm_crypto::{conversation_key, conversation_key_spec, dm_decrypt, dm_encrypt, pair_key_spec};
use crate::engine::PeerInfo;
use crate::primitives::{
    aead_open_spec, aead_seal_spec, base64_decode, base64_decode_spec, base64_encode, base64_encode_spec,
    ed25519_public_spec, fill_random,
};
use crate::crypto::{onion_id_spec, onion_public_spec};
use crate::proto_groups::{group_key_aad, group_key_aad_spec, KeyBlob, MemberEntry};
use crate::text::{char_count, trim, trim_spec};

verus! {

/// A group as we keep it.
#[derive(Clone, Debug)]
pub struct GroupState {
    pub group_id: String,
    pub name: String,
    pub key_b64: String,
    pub owner_id: String,
    pub members: Vec<MemberEntry>,
    pub created_ms: u64,
}

/// A member as shown to the user.
#[derive(Clone, Debug)]
pub struct GroupMemberInfo {
    pub onion_id: String,
    pub display_name: String,
    pub online: bool,
}

/// A group as shown to the user.
#[derive(Clone, Debug)]
pub struct GroupInfo {
    pub group_id: String,
    pub name: String,
    pub owner_id: String,
    pub members: Vec<GroupMemberInfo>,
    pub created_ms: u64,
}

/// Whether two strings are equal.
pub fn str_eq(a: &str, b: &str) -> (r: bool)
    ensures
        r == (a@ == b@),
{
    let x = a.as_bytes();
    let y = b.as_bytes();
    proof {
        encode_utf8_decode_utf8(a@);
        encode_utf8_decode_utf8(b@);
        assert(x@ == encode_utf8(a@));
        assert(y@ == encode_utf8(b@));
    }
    if x.len() != y.len() {
        proof {
            assert(x@.len() != y@.len());
            if a@ == b@ {
                assert(x@ == y@);
            }
        }
        return false;
    }
    let mut i: usize = 0;
    while i < x.len()
        invariant
            i <= x.len() == y.len(),
            x@ == encode_utf8(a@),
            y@ == encode_utf8(b@),
            forall|k: int| 0 <= k < i ==> x@[k] == y@[k],
        decreases x.len() - i,
    {
        if x[i] != y[i] {
            assert(x@ != y@);
            return false;
        }
        i = i + 1;
    }
    assert(x@ =~= y@);
    true
}

/// Whether `id` is among the members.
pub open spec fn has_member(members: Seq<MemberEntry>, id: Seq<char>) -> bool {
    exists|i: int| 0 <= i < members.len() && (#[trigger] members[i]).onion_id@ == id
}

/// Whether we are a member of every group held.
pub open spec fn member_of_all(groups: Seq<GroupState>, me: Seq<char>) -> bool {
    forall|i: int| 0 <= i < groups.len() ==> has_member((#[trigger] groups[i]).members@, me)
}

/// Whether `id` is a member.
pub fn is_member(members: &Vec<MemberEntry>, id: &str) -> (r: bool)
    ensures
        r == has_member(members@, id@),
{
    let mut i: usize = 0;
    while i < members.len()
        invariant
            i <= members.len(),
            forall|k: int| 0 <= k < i ==> (#[trigger] members@[k]).onion_id@ != id@,
        decreases members.len() - i,
    {
        if str_eq(members[i].onion_id.as_str(), id) {
            assert(members@[i as int].onion_id@ == id@);
            return true;
        }
        i = i + 1;
    }
    false
}

/// Index of the first group with the given identifier.
pub open spec fn group_position(groups: Seq<GroupState>, id: Seq<char>) -> Option<int> {
    if exists|i: int| 0 <= i < groups.len() && (#[trigger] groups[i]).group_id@ == id {
        Some(
            choose|i: int|
                0 <= i < groups.len() && (#[trigger] groups[i]).group_id@ == id && forall|k: int|
                    0 <= k < i ==> groups[k].group_id@ != id,
        )
    } else {
        None
    }
}

proof fn lemma_group_position(groups: Seq<GroupState>, id: Seq<char>, i: int)
    requires
        0 <= i <= groups.len(),
        forall|k: int| 0 <= k < i ==> (#[trigger] groups[k]).group_id@ != id,
        i == groups.len() || groups[i].group_id@ == id,
    ensures
        group_position(groups, id) == if i < groups.len() {
            Some(i)
        } else {
            None::<int>
        },
{
    if i < groups.len() {
        assert(groups[i].group_id@ == id);
        let j = choose|j: int|
            0 <= j < groups.len() && (#[trigger] groups[j]).group_id@ == id && forall|k: int|
                0 <= k < j ==> groups[k].group_id@ != id;
        assert(j == i) by {
            if j < i {
                assert(groups[j].group_id@ != id);
            } else if j > i {
                assert(groups[i].group_id@ != id);
            }
        }
    }
}

/// Index of the first group with the given identifier.
pub fn find_group(groups: &Vec<GroupState>, group_id: &str) -> (res: Option<usize>)
    ensures
        res matches Some(i) ==> group_position(groups@, group_id@) == Some(i as int),
        res is None ==> group_position(groups@, group_id@) is None,
        res matches Some(i) ==> i < groups@.len() && groups@[i as int].group_id@ == group_id@,
{
    let mut i: usize = 0;
    while i < groups.len()
        invariant
            i <= groups.len(),
            forall|k: int| 0 <= k < i ==> (#[trigger] groups@[k]).group_id@ != group_id@,
        decreases groups.len() - i,
    {
        if str_eq(groups[i].group_id.as_str(), group_id) {
            proof {
                lemma_group_position(groups@, group_id@, i as int);
            }
            return Some(i);
        }
        i = i + 1;
    }
    proof {
        lemma_group_position(groups@, group_id@, i as int);
    }
    None
}

/// Whether `id` is among the identifiers of `online`.
pub open spec fn online_has(online: Seq<String>, id: Seq<char>) -> bool {
    exists|i: int| 0 <= i < online.len() && (#[trigger] online[i])@ == id
}

/// Whether `id` is among the connected peers.
pub fn is_online(online: &Vec<String>, id: &str) -> (r: bool)
    ensures
        r == online_has(online@, id@),
{
    let mut i: usize = 0;
    while i < online.len()
        invariant
            i <= online.len(),
            forall|k: int| 0 <= k < i ==> (#[trigger] online@[k])@ != id@,
        decreases online.len() - i,
    {
        if str_eq(online[i].as_str(), id) {
            assert(online@[i as int]@ == id@);
            return true;
        }
        i = i + 1;
    }
    false
}

/// The group as shown to the user; a member is online when a session to
/// it is open (`online` lists the peers with a session).
pub fn to_info(state: &GroupState, online: &Vec<String>) -> (info: GroupInfo)
    ensures
        info.group_id@ == state.group_id@,
        info.name@ == state.name@,
        info.owner_id@ == state.owner_id@,
        info.created_ms == state.created_ms,
        info.members@.len() == state.members@.len(),
        forall|i: int|
            0 <= i < state.members@.len() ==> {
                &&& (#[trigger] info.members@[i]).onion_id@ == state.members@[i].onion_id@
                &&& info.members@[i].display_name@ == state.members@[i].display_name@
                &&& info.members@[i].online == online_has(online@, state.members@[i].onion_id@)
            },
{
    let mut members: Vec<GroupMemberInfo> = Vec::new();
    let mut i: usize = 0;
    while i < state.members.len()
        invariant
            i <= state.members.len(),
            members@.len() == i,
            forall|k: int|
                0 <= k < i ==> {
                    &&& (#[trigger] members@[k]).onion_id@ == state.members@[k].onion_id@
                    &&& members@[k].display_name@ == state.members@[k].display_name@
                    &&& members@[k].online == online_has(online@, state.members@[k].onion_id@)
                },
        decreases state.members.len() - i,
    {
        let m = &state.members[i];
        let online_now = is_online(online, m.onion_id.as_str());
        members.push(
            GroupMemberInfo {
                onion_id: m.onion_id.clone(),
                display_name: m.display_name.clone(),
                online: online_now,
            },
        );
        i = i + 1;
    }
    GroupInfo {
        group_id: state.group_id.clone(),
        name: state.name.clone(),
        owner_id: state.owner_id.clone(),
        members,
        created_ms: state.created_ms,
    }
}

/// The members without `id` (`retain(|m| m.onion_id != id)`).
pub open spec fn remove_id(members: Seq<MemberEntry>, id: Seq<char>) -> Seq<MemberEntry>
    decreases members.len(),
{
    if members.len() == 0 {
        members
    } else {
        let init = remove_id(members.drop_last(), id);
        if members.last().onion_id@ == id {
            init
        } else {
            init.push(members.last())
        }
    }
}

proof fn lemma_remove_id_members(members: Seq<MemberEntry>, id: Seq<char>, other: Seq<char>)
    requires
        other != id,
    ensures
        has_member(remove_id(members, id), other) == has_member(members, other),
        !has_member(remove_id(members, id), id),
    decreases members.len(),
{
    if members.len() > 0 {
        lemma_remove_id_members(members.drop_last(), id, other);
        let init = remove_id(members.drop_last(), id);
        let last = members.last();
        if has_member(members, other) {
            let i = choose|i: int| 0 <= i < members.len() && (#[trigger] members[i]).onion_id@ == other;
            if i < members.len() - 1 {
                assert(members.drop_last()[i].onion_id@ == other);
            }
            if last.onion_id@ != id {
                if i == members.len() - 1 {
                    assert(init.push(last)[init.len() as int].onion_id@ == other);
                } else {
                    let j = choose|j: int| 0 <= j < init.len() && (#[trigger] init[j]).onion_id@ == other;
                    assert(init.push(last)[j].onion_id@ == other);
                }
            }
        }
        if has_member(remove_id(members, id), other) {
            let r = remove_id(members, id);
            let j = choose|j: int| 0 <= j < r.len() && (#[trigger] r[j]).onion_id@ == other;
            if last.onion_id@ != id && j == init.len() {
                assert(members[members.len() - 1].onion_id@ == other);
            } else {
                assert(init[j].onion_id@ == other);
                let k = choose|k: int|
                    0 <= k < members.drop_last().len() && (#[trigger] members.drop_last()[k]).onion_id@
                        == other;
                assert(members[k].onion_id@ == other);
            }
        }
        if has_member(remove_id(members, id), id) {
            let r = remove_id(members, id);
            let j = choose|j: int| 0 <= j < r.len() && (#[trigger] r[j]).onion_id@ == id;
            assert(init[j].onion_id@ == id);
        }
    }
}

/// A copy of a member entry.
pub fn copy_member(m: &MemberEntry) -> (res: MemberEntry)
    ensures
        res == *m,
{
    MemberEntry { onion_id: m.onion_id.clone(), display_name: m.display_name.clone() }
}

/// `members.retain(|m| m.onion_id != id)`.
pub fn without_member(members: &Vec<MemberEntry>, id: &str) -> (res: Vec<MemberEntry>)
    ensures
        res@ == remove_id(members@, id@),
{
    let mut out: Vec<MemberEntry> = Vec::new();
    let mut i: usize = 0;
    while i < members.len()
        invariant
            i <= members.len(),
            out@ == remove_id(members@.take(i as int), id@),
        decreases members.len() - i,
    {
        assert(members@.take(i + 1).drop_last() =~= members@.take(i as int));
        if !str_eq(members[i].onion_id.as_str(), id) {
            out.push(copy_member(&members[i]));
        }
        i = i + 1;
    }
    assert(members@.take(members.len() as int) =~= members@);
    out
}

/// The members other than `id`, in order.
pub fn others(members: &Vec<MemberEntry>, id: &str) -> (res: Vec<String>)
    ensures
        res@.len() == remove_id(members@, id@).len(),
        forall|i: int| 0 <= i < res@.len() ==> #[trigger] res@[i]@ == remove_id(members@, id@)[i].onion_id@,
{
    let mut out: Vec<String> = Vec::new();
    let mut i: usize = 0;
    while i < members.len()
        invariant
            i <= members.len(),
            out@.len() == remove_id(members@.take(i as int), id@).len(),
            forall|k: int|
                0 <= k < out@.len() ==> #[trigger] out@[k]@ == remove_id(members@.take(i as int), id@)[k].onion_id@,
        decreases members.len() - i,
    {
        assert(members@.take(i + 1).drop_last() =~= members@.take(i as int));
        if !str_eq(members[i].onion_id.as_str(), id) {
            out.push(members[i].onion_id.clone());
        }
        i = i + 1;
    }
    assert(members@.take(members.len() as int) =~= members@);
    out
}

/// The 32-byte group key held in base64, if it decodes to 32 bytes.
pub open spec fn group_key_spec(key_b64: Seq<char>) -> Option<Seq<u8>> {
    match base64_decode_spec(key_b64) {
        Some(k) => if k.len() == 32 {
            Some(k)
        } else {
            None
        },
        None => None,
    }
}

/// Decodes a group key; "clé de groupe corrompue" when it is not 32 bytes
/// of base64.
pub fn group_key(key_b64: &str) -> (res: Result<[u8; 32], String>)
    ensures
        match group_key_spec(key_b64@) {
            Some(k) => res matches Ok(key) && key@ == k,
            None => res matches Err(e) && e@ == "clé de groupe corrompue"@,
        },
{
    match base64_decode(key_b64) {
        Some(bytes) => {
            if bytes.len() != 32 {
                return Err(String::from_str("clé de groupe corrompue"));
            }
            let mut key = [0u8; 32];
            let mut i: usize = 0;
            while i < 32
                invariant
                    i <= 32,
                    bytes.len() == 32,
                    forall|k: int| 0 <= k < i ==> key@[k] == bytes@[k],
                decreases 32 - i,
            {
                key[i] = bytes[i];
                i = i + 1;
            }
            assert(key@ =~= bytes@);
            assert(bytes.deep_view() =~= bytes@);
            Ok(key)
        },
        None => Err(String::from_str("clé de groupe corrompue")),
    }
}

/// A fresh random group key.
pub fn generate_key() -> (key: [u8; 32]) {
    let mut key = [0u8; 32];
    fill_random(&mut key);
    key
}

/// A fresh group as its creator holds it.
pub fn new_group_state(
    group_id: String,
    name: String,
    key: &[u8; 32],
    owner_id: String,
    members: Vec<MemberEntry>,
    created_ms: u64,
) -> (state: GroupState)
    ensures
        state.group_id@ == group_id@,
        state.name@ == name@,
        state.key_b64@ == base64_encode_spec(key@),
        state.owner_id@ == owner_id@,
        state.members@ == members@,
        state.created_ms == created_ms,
{
    GroupState { group_id, name, key_b64: base64_encode(key.as_slice()), owner_id, members, created_ms }
}

/// Seals a group key for one member: with our conversation key with that
/// member, bound to the group and to the member.
pub fn encrypt_group_key(identity: &Identity, recipient_id: &str, group_id: &str, key: &[u8; 32]) -> (res: Result<KeyBlob, String>)
    ensures
        match res {
            Ok(blob) => conversation_key_spec(identity@, recipient_id@) matches Some(ck)
                && aead_seal_spec(ck, blob.nonce@, group_key_aad_spec(group_id@, recipient_id@), key@)
                == Some(blob.ciphertext@),
            Err(e) => conversation_key_spec(identity@, recipient_id@) is None && e@
                == "adresse oignon invalide: "@ + recipient_id@,
        },
        forall|b: Seq<u8>|
            b.len() == 32 && onion_public_spec(recipient_id@) == Some(#[trigger] ed25519_public_spec(b)) ==> (res matches Ok(
                blob,
            ) && aead_seal_spec(pair_key_spec(b, identity@), blob.nonce@, group_key_aad_spec(group_id@, recipient_id@), key@)
                == Some(blob.ciphertext@)),
{
    let conversation = match conversation_key(identity, recipient_id) {
        Ok(k) => k,
        Err(e) => return Err(e.message()),
    };
    let aad = group_key_aad(group_id, recipient_id);
    match dm_encrypt(&conversation, aad.as_slice(), key.as_slice()) {
        Some((nonce, ciphertext)) => {
            assert(aead_seal_spec(
                conversation@,
                nonce@,
                group_key_aad_spec(group_id@, recipient_id@),
                key@,
            ) == Some(ciphertext@));
            let blob = KeyBlob { nonce, ciphertext };
            assert(aead_seal_spec(
                conversation@,
                blob.nonce@,
                group_key_aad_spec(group_id@, recipient_id@),
                key@,
            ) == Some(blob.ciphertext@));
            Ok(blob)
        },
        None => Err(String::from_str("chiffrement de clé impossible")),
    }
}

/// Opens a group key sealed for us by `sender_id`; it must decrypt and be
/// 32 bytes long.
pub fn decrypt_group_key(identity: &Identity, sender_id: &str, group_id: &str, blob: &KeyBlob) -> (res: Result<[u8; 32], String>)
    ensures
        match conversation_key_spec(identity@, sender_id@) {
            None => res matches Err(e) && e@ == "adresse oignon invalide: "@ + sender_id@,
            Some(ck) => match aead_open_spec(
                ck,
                blob.nonce@,
                group_key_aad_spec(group_id@, onion_id_spec(ed25519_public_spec(identity@))),
                blob.ciphertext@,
            ) {
                Some(k) => if k.len() == 32 {
                    res matches Ok(key) && key@ == k
                } else {
                    res matches Err(e) && e@ == "taille de clé de groupe inattendue"@
                },
                None => res matches Err(e) && e@ == "déchiffrement de clé de groupe impossible"@,
            },
        },
        forall|a: Seq<u8>, k: Seq<u8>|
            a.len() == 32 && k.len() == 32 && onion_public_spec(sender_id@) == Some(ed25519_public_spec(a))
                && #[trigger] aead_seal_spec(
                pair_key_spec(identity@, a),
                blob.nonce@,
                group_key_aad_spec(group_id@, onion_id_spec(ed25519_public_spec(identity@))),
                k,
            ) == Some(blob.ciphertext@) ==> (res matches Ok(key) && key@ == k),
{
    let conversation = match conversation_key(identity, sender_id) {
        Ok(k) => k,
        Err(e) => return Err(e.message()),
    };
    let my_id = identity.onion_id();
    let aad = group_key_aad(group_id, my_id.as_str());
    let opened = dm_decrypt(&conversation, &blob.nonce, aad.as_slice(), blob.ciphertext.as_slice());
    let bytes = match opened {
        Some(b) => b,
        None => return Err(String::from_str("déchiffrement de clé de groupe impossible")),
    };
    assert(bytes.deep_view() =~= bytes@);
    if bytes.len() != 32 {
        return Err(String::from_str("taille de clé de groupe inattendue"));
    }
    let mut key = [0u8; 32];
    let mut i: usize = 0;
    while i < 32
        invariant
            i <= 32,
            bytes.len() == 32,
            forall|k: int| 0 <= k < i ==> key@[k] == bytes@[k],
        decreases 32 - i,
    {
        key[i] = bytes[i];
        i = i + 1;
    }
    assert(key@ =~= bytes@);
    Ok(key)
}

/// Stores a group received in an invitation: it replaces the group with
/// the same identifier, or is added at the end. Returns whether it is new.
pub fn upsert_group(groups: &mut Vec<GroupState>, state: GroupState) -> (is_new: bool)
    ensures
        match group_position(old(groups)@, state.group_id@) {
            Some(i) => !is_new && final(groups)@ == old(groups)@.update(i, state),
            None => is_new && final(groups)@ == old(groups)@.push(state),
        },
        forall|me: Seq<char>|
            member_of_all(old(groups)@, me) && has_member(state.members@, me) ==> #[trigger] member_of_all(
                final(groups)@,
                me,
            ),
{
    match find_group(groups, state.group_id.as_str()) {
        Some(i) => {
            groups.remove(i);
            groups.insert(i, state);
            assert(groups@ =~= old(groups)@.update(i as int, state));
            proof {
                lemma_update_keeps_member(old(groups)@, i as int, state);
            }
            false
        },
        None => {
            groups.push(state);
            proof {
                lemma_push_keeps_member(old(groups)@, state);
            }
            true
        },
    }
}

proof fn lemma_update_keeps_member(groups: Seq<GroupState>, i: int, state: GroupState)
    requires
        0 <= i < groups.len(),
    ensures
        forall|me: Seq<char>|
            member_of_all(groups, me) && has_member(state.members@, me) ==> #[trigger] member_of_all(
                groups.update(i, state),
                me,
            ),
{
    assert forall|me: Seq<char>|
        member_of_all(groups, me) && has_member(state.members@, me) implies #[trigger] member_of_all(
        groups.update(i, state),
        me,
    ) by {
        assert forall|k: int| 0 <= k < groups.len() implies has_member(
            (#[trigger] groups.update(i, state)[k]).members@,
            me,
        ) by {
            if k != i {
                assert(has_member(groups[k].members@, me));
            }
        }
    }
}

proof fn lemma_push_keeps_member(groups: Seq<GroupState>, state: GroupState)
    ensures
        forall|me: Seq<char>|
            member_of_all(groups, me) && has_member(state.members@, me) ==> #[trigger] member_of_all(
                groups.push(state),
                me,
            ),
{
    assert forall|me: Seq<char>|
        member_of_all(groups, me) && has_member(state.members@, me) implies #[trigger] member_of_all(
        groups.push(state),
        me,
    ) by {
        assert forall|k: int| 0 <= k < groups.len() + 1 implies has_member(
            (#[trigger] groups.push(state)[k]).members@,
            me,
        ) by {
            if k < groups.len() {
                assert(has_member(groups[k].members@, me));
            }
        }
    }
}

/// `new` is `old` with the members of group `i` replaced by `m`, all else
/// unchanged.
pub open spec fn replaced_members(old: Seq<GroupState>, new: Seq<GroupState>, i: int, m: Seq<MemberEntry>) -> bool {
    &&& 0 <= i < old.len()
    &&& new.len() == old.len()
    &&& forall|k: int| 0 <= k < old.len() && k != i ==> #[trigger] new[k] == old[k]
    &&& new[i].members@ == m
    &&& new[i].group_id == old[i].group_id
    &&& new[i].name == old[i].name
    &&& new[i].key_b64 == old[i].key_b64
    &&& new[i].owner_id == old[i].owner_id
    &&& new[i].created_ms == old[i].created_ms
}

fn replace_members_at(groups: &mut Vec<GroupState>, i: usize, members: Vec<MemberEntry>)
    requires
        i < old(groups)@.len(),
    ensures
        replaced_members(old(groups)@, final(groups)@, i as int, members@),
{
    let mut g = groups.remove(i);
    g.members = members;
    groups.insert(i, g);
}

proof fn lemma_replaced_keeps(old: Seq<GroupState>, new: Seq<GroupState>, i: int, m: Seq<MemberEntry>, me: Seq<char>)
    requires
        replaced_members(old, new, i, m),
        member_of_all(old, me),
        has_member(m, me),
    ensures
        member_of_all(new, me),
{
    assert forall|k: int| 0 <= k < new.len() implies has_member((#[trigger] new[k]).members@, me) by {
        if k != i {
            assert(new[k] == old[k]);
            assert(has_member(old[k].members@, me));
        }
    }
}

/// A `GroupMembers` frame from `sender`: the member list of the group is
/// replaced when the sender is a member and the new list still holds us;
/// otherwise nothing changes. Returns the index of the updated group.
pub fn apply_member_list(
    groups: &mut Vec<GroupState>,
    sender: &str,
    group_id: &str,
    members: Vec<MemberEntry>,
    my_id: &str,
) -> (res: Option<usize>)
    ensures
        match group_position(old(groups)@, group_id@) {
            None => res is None && final(groups)@ == old(groups)@,
            Some(i) => if has_member(old(groups)@[i].members@, sender@) && has_member(members@, my_id@) {
                res == Some(i as usize) && replaced_members(old(groups)@, final(groups)@, i, members@)
            } else {
                res is None && final(groups)@ == old(groups)@
            },
        },
        member_of_all(old(groups)@, my_id@) ==> member_of_all(final(groups)@, my_id@),
{
    let i = match find_group(groups, group_id) {
        Some(i) => i,
        None => return None,
    };
    if !is_member(&groups[i].members, sender) {
        return None;
    }
    if !is_member(&members, my_id) {
        return None;
    }
    let ghost m = members@;
    replace_members_at(groups, i, members);
    proof {
        if member_of_all(old(groups)@, my_id@) {
            lemma_replaced_keeps(old(groups)@, groups@, i as int, m, my_id@);
        }
    }
    Some(i)
}

/// The group whose key `sender` may rotate: the first with the identifier,
/// when `sender` owns it.
pub fn rotate_target(groups: &Vec<GroupState>, sender: &str, group_id: &str) -> (res: Option<usize>)
    ensures
        match group_position(groups@, group_id@) {
            None => res is None,
            Some(i) => if groups@[i].owner_id@ == sender@ {
                res == Some(i as usize)
            } else {
                res is None
            },
        },
{
    let i = match find_group(groups, group_id) {
        Some(i) => i,
        None => return None,
    };
    if !str_eq(groups[i].owner_id.as_str(), sender) {
        return None;
    }
    Some(i)
}

/// Replaces the key of group `i`; nothing else changes.
pub fn set_group_key(groups: &mut Vec<GroupState>, i: usize, key: &[u8; 32])
    requires
        i < old(groups)@.len(),
    ensures
        final(groups)@.len() == old(groups)@.len(),
        forall|k: int| 0 <= k < old(groups)@.len() && k != i ==> #[trigger] final(groups)@[k] == old(groups)@[k],
        final(groups)@[i as int].key_b64@ == base64_encode_spec(key@),
        final(groups)@[i as int].members == old(groups)@[i as int].members,
        final(groups)@[i as int].group_id == old(groups)@[i as int].group_id,
        final(groups)@[i as int].owner_id == old(groups)@[i as int].owner_id,
        forall|me: Seq<char>| member_of_all(old(groups)@, me) ==> #[trigger] member_of_all(final(groups)@, me),
{
    let mut g = groups.remove(i);
    g.key_b64 = base64_encode(key.as_slice());
    groups.insert(i, g);
    assert forall|me: Seq<char>| member_of_all(old(groups)@, me) implies #[trigger] member_of_all(groups@, me) by {
        assert forall|k: int| 0 <= k < groups@.len() implies has_member((#[trigger] groups@[k]).members@, me) by {
            assert(has_member(old(groups)@[k].members@, me));
        }
    }
}

/// What a `GroupRemove` frame did.
#[derive(Debug, PartialEq, Eq, Clone, Copy)]
pub enum RemovalOutcome {
    /// Unknown group, or a sender that does not own it.
    Ignored,
    /// We were excluded: the group at this index was dropped.
    Excluded(usize),
    /// The member was removed from the group at this index.
    Updated(usize),
}

/// A `GroupRemove` frame from `sender`: only the owner may remove. When we
/// are the one removed, the group is dropped; otherwise the member leaves
/// its member list.
pub fn apply_removal(
    groups: &mut Vec<GroupState>,
    sender: &str,
    group_id: &str,
    member_id: &str,
    my_id: &str,
) -> (res: RemovalOutcome)
    ensures
        match group_position(old(groups)@, group_id@) {
            None => res == RemovalOutcome::Ignored && final(groups)@ == old(groups)@,
            Some(i) => if old(groups)@[i].owner_id@ != sender@ {
                res == RemovalOutcome::Ignored && final(groups)@ == old(groups)@
            } else if member_id@ == my_id@ {
                res == RemovalOutcome::Excluded(i as usize) && final(groups)@ == old(groups)@.remove(i)
            } else {
                res == RemovalOutcome::Updated(i as usize) && replaced_members(
                    old(groups)@,
                    final(groups)@,
                    i,
                    remove_id(old(groups)@[i].members@, member_id@),
                )
            },
        },
        member_of_all(old(groups)@, my_id@) ==> member_of_all(final(groups)@, my_id@),
{
    let i = match find_group(groups, group_id) {
        Some(i) => i,
        None => return RemovalOutcome::Ignored,
    };
    if !str_eq(groups[i].owner_id.as_str(), sender) {
        return RemovalOutcome::Ignored;
    }
    if str_eq(member_id, my_id) {
        groups.remove(i);
        proof {
            if member_of_all(old(groups)@, my_id@) {
                assert forall|k: int| 0 <= k < groups@.len() implies has_member(
                    (#[trigger] groups@[k]).members@,
                    my_id@,
                ) by {
                    if k < i {
                        assert(has_member(old(groups)@[k].members@, my_id@));
                    } else {
                        assert(groups@[k] == old(groups)@[k + 1]);
                        assert(has_member(old(groups)@[k + 1].members@, my_id@));
                    }
                }
            }
        }
        return RemovalOutcome::Excluded(i);
    }
    let remaining = without_member(&groups[i].members, member_id);
    let ghost m = remaining@;
    replace_members_at(groups, i, remaining);
    proof {
        if member_of_all(old(groups)@, my_id@) {
            lemma_remove_id_members(old(groups)@[i as int].members@, member_id@, my_id@);
            assert(has_member(old(groups)@[i as int].members@, my_id@));
            lemma_replaced_keeps(old(groups)@, groups@, i as int, m, my_id@);
        }
    }
    RemovalOutcome::Updated(i)
}

/// A `GroupLeave` frame: `sender` leaves the group's member list. Returns
/// the index of the group, if it is held.
pub fn apply_leave(groups: &mut Vec<GroupState>, sender: &str, group_id: &str, my_id: &str) -> (res: Option<usize>)
    ensures
        match group_position(old(groups)@, group_id@) {
            None => res is None && final(groups)@ == old(groups)@,
            Some(i) => res == Some(i as usize) && replaced_members(
                old(groups)@,
                final(groups)@,
                i,
                remove_id(old(groups)@[i].members@, sender@),
            ),
        },
        sender@ != my_id@ && member_of_all(old(groups)@, my_id@) ==> member_of_all(final(groups)@, my_id@),
{
    let i = match find_group(groups, group_id) {
        Some(i) => i,
        None => return None,
    };
    let remaining = without_member(&groups[i].members, sender);
    let ghost m = remaining@;
    replace_members_at(groups, i, remaining);
    proof {
        if sender@ != my_id@ && member_of_all(old(groups)@, my_id@) {
            lemma_remove_id_members(old(groups)@[i as int].members@, sender@, my_id@);
            assert(has_member(old(groups)@[i as int].members@, my_id@));
            lemma_replaced_keeps(old(groups)@, groups@, i as int, m, my_id@);
        }
    }
    Some(i)
}

/// A member entry as text: identifier and display name.
pub open spec fn entry_view(m: MemberEntry) -> (Seq<char>, Seq<char>) {
    (m.onion_id@, m.display_name@)
}

pub open spec fn entry_views(ms: Seq<MemberEntry>) -> Seq<(Seq<char>, Seq<char>)> {
    ms.map_values(|m: MemberEntry| entry_view(m))
}

/// Whether an identifier is among member entries given as text.
pub open spec fn has_id(vs: Seq<(Seq<char>, Seq<char>)>, id: Seq<char>) -> bool {
    exists|i: int| 0 <= i < vs.len() && (#[trigger] vs[i]).0 == id
}

proof fn lemma_has_id(ms: Seq<MemberEntry>, id: Seq<char>)
    ensures
        has_member(ms, id) == has_id(entry_views(ms), id),
{
    if has_member(ms, id) {
        let i = choose|i: int| 0 <= i < ms.len() && (#[trigger] ms[i]).onion_id@ == id;
        assert(entry_views(ms)[i].0 == id);
    }
    if has_id(entry_views(ms), id) {
        let i = choose|i: int| 0 <= i < entry_views(ms).len() && (#[trigger] entry_views(ms)[i]).0 == id;
        assert(ms[i].onion_id@ == id);
    }
}

/// Index of the first contact with the given identifier.
pub open spec fn contact_position(contacts: Seq<PeerInfo>, id: Seq<char>) -> Option<int> {
    if exists|i: int| 0 <= i < contacts.len() && (#[trigger] contacts[i]).onion_id@ == id {
        Some(
            choose|i: int|
                0 <= i < contacts.len() && (#[trigger] contacts[i]).onion_id@ == id && forall|k: int|
                    0 <= k < i ==> contacts[k].onion_id@ != id,
        )
    } else {
        None
    }
}

proof fn lemma_contact_position(contacts: Seq<PeerInfo>, id: Seq<char>, i: int)
    requires
        0 <= i <= contacts.len(),
        forall|k: int| 0 <= k < i ==> (#[trigger] contacts[k]).onion_id@ != id,
        i == contacts.len() || contacts[i].onion_id@ == id,
    ensures
        contact_position(contacts, id) == if i < contacts.len() {
            Some(i)
        } else {
            None::<int>
        },
{
    if i < contacts.len() {
        let j = choose|j: int|
            0 <= j < contacts.len() && (#[trigger] contacts[j]).onion_id@ == id && forall|k: int|
                0 <= k < j ==> contacts[k].onion_id@ != id;
        assert(j == i) by {
            if j < i {
                assert(contacts[j].onion_id@ != id);
            } else if j > i {
                assert(contacts[i].onion_id@ != id);
            }
        }
    }
}

/// Index of the first contact with the given identifier.
pub fn find_contact(contacts: &Vec<PeerInfo>, id: &str) -> (res: Option<usize>)
    ensures
        res matches Some(i) ==> contact_position(contacts@, id@) == Some(i as int) && i
            < contacts@.len() && contacts@[i as int].onion_id@ == id@,
        res is None ==> contact_position(contacts@, id@) is None,
{
    let mut i: usize = 0;
    while i < contacts.len()
        invariant
            i <= contacts.len(),
            forall|k: int| 0 <= k < i ==> (#[trigger] contacts@[k]).onion_id@ != id@,
        decreases contacts.len() - i,
    {
        if str_eq(contacts[i].onion_id.as_str(), id) {
            proof {
                lemma_contact_position(contacts@, id@, i as int);
            }
            return Some(i);
        }
        i = i + 1;
    }
    proof {
        lemma_contact_position(contacts@, id@, i as int);
    }
    None
}

/// Whether the first ten bytes of an identifier end on a character
/// boundary (`&id[..10]` is defined).
pub open spec fn id_splits(id: Seq<char>) -> bool {
    is_char_boundary(encode_utf8(id), 10)
}

/// The first ten bytes of an identifier, as text.
pub open spec fn short_id(id: Seq<char>) -> Seq<char> {
    decode_utf8(encode_utf8(id).take(10))
}

/// The name shown for a contact: its display name, or the start of its
/// identifier when it has none.
pub open spec fn display_for(c: PeerInfo, id: Seq<char>) -> Seq<char> {
    if c.display_name@.len() == 0 {
        short_id(id)
    } else {
        c.display_name@
    }
}

/// `&id[..10]`.
pub fn short_id_text(id: &str) -> (res: String)
    requires
        id_splits(id@),
    ensures
        res@ == short_id(id@),
{
    let (head, _) = id.split_at(10);
    proof {
        encode_utf8_decode_utf8(head@);
        assert(encode_utf8(head@) =~= encode_utf8(id@).take(10));
    }
    String::from_str(head)
}

/// The name shown for a contact.
pub fn contact_display(c: &PeerInfo, id: &str) -> (res: String)
    requires
        c.display_name@.len() == 0 ==> id_splits(id@),
    ensures
        res@ == display_for(*c, id@),
{
    if char_count(c.display_name.as_str()) == 0 {
        short_id_text(id)
    } else {
        c.display_name.clone()
    }
}

/// The members of a new group: ourselves first, then each listed peer in
/// order, skipping ourselves and repeats. A peer that is not a contact, or
/// not connected, stops the creation with an error.
pub open spec fn build_members(
    me: Seq<char>,
    my_display: Seq<char>,
    ids: Seq<Seq<char>>,
    contacts: Seq<PeerInfo>,
    online: Seq<String>,
) -> Result<Seq<(Seq<char>, Seq<char>)>, Seq<char>>
    decreases ids.len(),
{
    if ids.len() == 0 {
        Ok(seq![(me, my_display)])
    } else {
        match build_members(me, my_display, ids.drop_last(), contacts, online) {
            Err(e) => Err(e),
            Ok(ms) => {
                let id = ids.last();
                if id == me || has_id(ms, id) {
                    Ok(ms)
                } else {
                    match contact_position(contacts, id) {
                        None => Err("pair inconnu: "@ + id),
                        Some(j) => if !online_has(online, id) {
                            Err("ce pair est hors ligne"@)
                        } else {
                            Ok(ms.push((id, display_for(contacts[j], id))))
                        },
                    }
                }
            },
        }
    }
}

proof fn lemma_build_err(
    me: Seq<char>,
    my_display: Seq<char>,
    ids: Seq<Seq<char>>,
    n: int,
    contacts: Seq<PeerInfo>,
    online: Seq<String>,
    e: Seq<char>,
)
    requires
        0 <= n <= ids.len(),
        build_members(me, my_display, ids.take(n), contacts, online) == Err::<
            Seq<(Seq<char>, Seq<char>)>,
            Seq<char>,
        >(e),
    ensures
        build_members(me, my_display, ids, contacts, online) == Err::<Seq<(Seq<char>, Seq<char>)>, Seq<char>>(e),
    decreases ids.len() - n,
{
    if n < ids.len() {
        assert(ids.take(n + 1).drop_last() =~= ids.take(n));
        lemma_build_err(me, my_display, ids, n + 1, contacts, online, e);
    } else {
        assert(ids.take(n) =~= ids);
    }
}

/// Whether every listed peer that is a contact without a display name has
/// an identifier whose first ten bytes can be taken.
pub open spec fn listed_ids_split(ids: Seq<String>, contacts: Seq<PeerInfo>) -> bool {
    forall|i: int, j: int|
        0 <= i < ids.len() && 0 <= j < contacts.len() && (#[trigger] ids[i])@ == (#[trigger] contacts[j]).onion_id@
            && contacts[j].display_name@.len() == 0 ==> id_splits(ids[i]@)
}

/// The members of a group being created (see `build_members`).
#[verifier::spinoff_prover]
#[verifier::rlimit(40)]
pub fn group_members_for(
    my_id: &str,
    my_display: &str,
    member_ids: &Vec<String>,
    contacts: &Vec<PeerInfo>,
    online: &Vec<String>,
) -> (res: Result<Vec<MemberEntry>, String>)
    requires
        listed_ids_split(member_ids@, contacts@),
    ensures
        match build_members(my_id@, my_display@, crate::tor_control::views(member_ids@), contacts@, online@) {
            Ok(ms) => res matches Ok(v) && entry_views(v@) == ms,
            Err(e) => res matches Err(m) && m@ == e,
        },
{
    let mut members: Vec<MemberEntry> = Vec::new();
    members.push(MemberEntry { onion_id: String::from_str(my_id), display_name: String::from_str(my_display) });
    let ghost ids = crate::tor_control::views(member_ids@);
    assert(ids.take(0) =~= Seq::<Seq<char>>::empty());
    assert(entry_views(members@) =~= seq![(my_id@, my_display@)]);
    let mut i: usize = 0;
    while i < member_ids.len()
        invariant
            i <= member_ids.len(),
            ids == crate::tor_control::views(member_ids@),
            listed_ids_split(member_ids@, contacts@),
            build_members(my_id@, my_display@, ids.take(i as int), contacts@, online@) == Ok::<
                Seq<(Seq<char>, Seq<char>)>,
                Seq<char>,
            >(entry_views(members@)),
        decreases member_ids.len() - i,
    {
        let id = member_ids[i].as_str();
        assert(ids.take(i + 1).drop_last() =~= ids.take(i as int));
        assert(ids.take(i + 1).last() == id@);
        proof {
            lemma_has_id(members@, id@);
        }
        if str_eq(id, my_id) || is_member(&members, id) {
            i = i + 1;
        } else {
            let j = match find_contact(contacts, id) {
                Some(j) => j,
                None => {
                    proof {
                        lemma_build_err(my_id@, my_display@, ids, i + 1, contacts@, online@, "pair inconnu: "@ + id@);
                    }
                    return Err(String::from_str("pair inconnu: ").concat(id));
                },
            };
            if !is_online(online, id) {
                proof {
                    lemma_build_err(my_id@, my_display@, ids, i + 1, contacts@, online@, "ce pair est hors ligne"@);
                }
                return Err(String::from_str("ce pair est hors ligne"));
            }
            assert(member_ids@[i as int]@ == contacts@[j as int].onion_id@);
            let display = contact_display(&contacts[j], id);
            let ghost before = members@;
            members.push(MemberEntry { onion_id: String::from_str(id), display_name: display });
            assert(entry_views(members@) =~= entry_views(before).push((id@, display_for(contacts@[j as int], id@))));
            i = i + 1;
        }
    }
    assert(ids.take(member_ids.len() as int) =~= ids);
    Ok(members)
}

/// The name of a new group: trimmed, 1 to 32 characters.
pub fn group_name_text(name: &str) -> (res: Result<String, String>)
    ensures
        (0 < trim_spec(name@).len() <= 32) <==> res is Ok,
        res matches Ok(t) ==> t@ == trim_spec(name@),
        res matches Err(e) ==> e@ == "nom de groupe invalide (1 à 32 caractères)"@,
{
    let t = trim(name);
    let n = char_count(t.as_str());
    if n == 0 || n > 32 {
        return Err(String::from_str("nom de groupe invalide (1 à 32 caractères)"));
    }
    Ok(t)
}

/// The checks before a member is added to a group, in order: the group is
/// held, the peer is not a member yet, is a contact, is connected, and the
/// group key is readable. On success: the group's index, the new entry (as
/// text) and the group key.
pub open spec fn add_member_spec(
    groups: Seq<GroupState>,
    group_id: Seq<char>,
    member_id: Seq<char>,
    contacts: Seq<PeerInfo>,
    online: Seq<String>,
) -> Result<(int, (Seq<char>, Seq<char>), Seq<u8>), Seq<char>> {
    match group_position(groups, group_id) {
        None => Err("groupe introuvable"@),
        Some(i) => if has_member(groups[i].members@, member_id) {
            Err("déjà membre du groupe"@)
        } else {
            match contact_position(contacts, member_id) {
                None => Err("pair inconnu"@),
                Some(j) => if !online_has(online, member_id) {
                    Err("ce pair est hors ligne"@)
                } else {
                    match group_key_spec(groups[i].key_b64@) {
                        None => Err("clé de groupe corrompue"@),
                        Some(k) => Ok((i, (member_id, display_for(contacts[j], member_id)), k)),
                    }
                },
            }
        },
    }
}

/// Prepares the addition of `member_id` to a group (see `add_member_spec`).
#[verifier::spinoff_prover]
#[verifier::rlimit(40)]
pub fn add_member_plan(
    groups: &Vec<GroupState>,
    group_id: &str,
    member_id: &str,
    contacts: &Vec<PeerInfo>,
    online: &Vec<String>,
) -> (res: Result<(usize, MemberEntry, [u8; 32]), String>)
    requires
        forall|j: int|
            0 <= j < contacts@.len() && (#[trigger] contacts@[j]).onion_id@ == member_id@
                && contacts@[j].display_name@.len() == 0 ==> id_splits(member_id@),
    ensures
        match add_member_spec(groups@, group_id@, member_id@, contacts@, online@) {
            Ok((i, entry, k)) => res matches Ok((idx, e, key)) && idx == i && entry_view(e) == entry
                && key@ == k,
            Err(m) => res matches Err(e) && e@ == m,
        },
{
    let i = match find_group(groups, group_id) {
        Some(i) => i,
        None => return Err(String::from_str("groupe introuvable")),
    };
    if is_member(&groups[i].members, member_id) {
        return Err(String::from_str("déjà membre du groupe"));
    }
    let j = match find_contact(contacts, member_id) {
        Some(j) => j,
        None => return Err(String::from_str("pair inconnu")),
    };
    let display = contact_display(&contacts[j], member_id);
    if !is_online(online, member_id) {
        return Err(String::from_str("ce pair est hors ligne"));
    }
    let key = match group_key(groups[i].key_b64.as_str()) {
        Ok(k) => k,
        Err(e) => return Err(e),
    };
    Ok((i, MemberEntry { onion_id: String::from_str(member_id), display_name: display }, key))
}

/// The member list with one more entry at the end.
pub fn with_new_member(members: &Vec<MemberEntry>, entry: MemberEntry) -> (res: Vec<MemberEntry>)
    ensures
        res@ == members@.push(entry),
        forall|id: Seq<char>| has_member(members@, id) ==> #[trigger] has_member(res@, id),
{
    let mut out: Vec<MemberEntry> = Vec::new();
    let mut i: usize = 0;
    while i < members.len()
        invariant
            i <= members.len(),
            out@ == members@.take(i as int),
        decreases members.len() - i,
    {
        out.push(copy_member(&members[i]));
        i = i + 1;
        assert(out@ =~= members@.take(i as int));
    }
    assert(members@.take(members.len() as int) =~= members@);
    out.push(entry);
    assert forall|id: Seq<char>| has_member(members@, id) implies #[trigger] has_member(out@, id) by {
        let k = choose|k: int| 0 <= k < members@.len() && (#[trigger] members@[k]).onion_id@ == id;
        assert(out@[k] == members@[k]);
    }
    out
}

/// Replaces the member list of a held group; "groupe introuvable" when the
/// group is gone.
pub fn set_members(groups: &mut Vec<GroupState>, group_id: &str, members: Vec<MemberEntry>) -> (res: Result<usize, String>)
    ensures
        match group_position(old(groups)@, group_id@) {
            None => res matches Err(e) && e@ == "groupe introuvable"@ && final(groups)@ == old(groups)@,
            Some(i) => res == Ok::<usize, String>(i as usize) && replaced_members(
                old(groups)@,
                final(groups)@,
                i,
                members@,
            ),
        },
        forall|me: Seq<char>|
            member_of_all(old(groups)@, me) && has_member(members@, me) ==> #[trigger] member_of_all(
                final(groups)@,
                me,
            ),
{
    let i = match find_group(groups, group_id) {
        Some(i) => i,
        None => return Err(String::from_str("groupe introuvable")),
    };
    let ghost m = members@;
    replace_members_at(groups, i, members);
    assert forall|me: Seq<char>|
        member_of_all(old(groups)@, me) && has_member(m, me) implies #[trigger] member_of_all(
        groups@,
        me,
    ) by {
        lemma_replaced_keeps(old(groups)@, groups@, i as int, m, me);
    }
    Ok(i)
}

/// The checks before the owner removes a member, in order: not ourselves,
/// the group is held, we own it, the peer is a member, the key is
/// readable. On success: the group's index and the remaining members.
pub open spec fn remove_member_spec(groups: Seq<GroupState>, group_id: Seq<char>, member_id: Seq<char>, me: Seq<char>) -> Result<
    int,
    Seq<char>,
> {
    if member_id == me {
        Err("utilisez quitter le groupe"@)
    } else {
        match group_position(groups, group_id) {
            None => Err("groupe introuvable"@),
            Some(i) => if groups[i].owner_id@ != me {
                Err("seul le propriétaire peut exclure un membre"@)
            } else if !has_member(groups[i].members@, member_id) {
                Err("ce pair n'est pas membre du groupe"@)
            } else if group_key_spec(groups[i].key_b64@) is None {
                Err("clé de groupe corrompue"@)
            } else {
                Ok(i)
            },
        }
    }
}

/// Prepares the removal of `member_id` by the owner (see
/// `remove_member_spec`): the group's index and the members that remain.
pub fn remove_member_plan(groups: &Vec<GroupState>, group_id: &str, member_id: &str, my_id: &str) -> (res: Result<
    (usize, Vec<MemberEntry>),
    String,
>)
    ensures
        match remove_member_spec(groups@, group_id@, member_id@, my_id@) {
            Ok(i) => res matches Ok((idx, remaining)) && idx == i && remaining@ == remove_id(
                groups@[i].members@,
                member_id@,
            ),
            Err(m) => res matches Err(e) && e@ == m,
        },
{
    if str_eq(member_id, my_id) {
        return Err(String::from_str("utilisez quitter le groupe"));
    }
    let i = match find_group(groups, group_id) {
        Some(i) => i,
        None => return Err(String::from_str("groupe introuvable")),
    };
    if !str_eq(groups[i].owner_id.as_str(), my_id) {
        return Err(String::from_str("seul le propriétaire peut exclure un membre"));
    }
    if !is_member(&groups[i].members, member_id) {
        return Err(String::from_str("ce pair n'est pas membre du groupe"));
    }
    if let Err(e) = group_key(groups[i].key_b64.as_str()) {
        return Err(e);
    }
    Ok((i, without_member(&groups[i].members, member_id)))
}

/// After a removal: the group gets the remaining members and the new key.
pub fn rekey_group(groups: &mut Vec<GroupState>, group_id: &str, members: Vec<MemberEntry>, new_key: &[u8; 32]) -> (res: Result<
    usize,
    String,
>)
    ensures
        match group_position(old(groups)@, group_id@) {
            None => res matches Err(e) && e@ == "groupe introuvable"@ && final(groups)@ == old(groups)@,
            Some(i) => res == Ok::<usize, String>(i as usize) && final(groups)@.len() == old(groups)@.len()
                && final(groups)@[i].members@ == members@ && final(groups)@[i].key_b64@ == base64_encode_spec(
                new_key@,
            ) && final(groups)@[i].group_id == old(groups)@[i].group_id && forall|k: int|
                0 <= k < old(groups)@.len() && k != i ==> #[trigger] final(groups)@[k] == old(groups)@[k],
        },
        forall|me: Seq<char>|
            member_of_all(old(groups)@, me) && has_member(members@, me) ==> #[trigger] member_of_all(
                final(groups)@,
                me,
            ),
{
    let i = match find_group(groups, group_id) {
        Some(i) => i,
        None => return Err(String::from_str("groupe introuvable")),
    };
    let ghost m = members@;
    replace_members_at(groups, i, members);
    let ghost mid = groups@;
    set_group_key(groups, i, new_key);
    assert forall|me: Seq<char>|
        member_of_all(old(groups)@, me) && has_member(m, me) implies #[trigger] member_of_all(
        groups@,
        me,
    ) by {
        lemma_replaced_keeps(old(groups)@, mid, i as int, m, me);
    }
    Ok(i)
}

/// The groups without the one with the given identifier
/// (`retain(|g| g.group_id != id)`).
pub open spec fn remove_group_id(groups: Seq<GroupState>, id: Seq<char>) -> Seq<GroupState>
    decreases groups.len(),
{
    if groups.len() == 0 {
        groups
    } else {
        let init = remove_group_id(groups.drop_last(), id);
        if groups.last().group_id@ == id {
            init
        } else {
            init.push(groups.last())
        }
    }
}

/// Drops every group with the given identifier (leaving a group).
pub fn drop_group(groups: &mut Vec<GroupState>, group_id: &str)
    ensures
        final(groups)@ == remove_group_id(old(groups)@, group_id@),
        forall|me: Seq<char>| member_of_all(old(groups)@, me) ==> #[trigger] member_of_all(final(groups)@, me),
{
    let mut all: Vec<GroupState> = Vec::new();
    std::mem::swap(&mut all, groups);
    let ghost orig = all@;
    let ghost mut k: int = 0;
    assert(orig.take(0) =~= Seq::<GroupState>::empty());
    assert(orig.skip(0) =~= orig);
    while all.len() > 0
        invariant
            0 <= k <= orig.len(),
            all@ == orig.skip(k),
            groups@ == remove_group_id(orig.take(k), group_id@),
            forall|me: Seq<char>| member_of_all(orig, me) ==> #[trigger] member_of_all(groups@, me),
        decreases all.len(),
    {
        let g = all.remove(0);
        assert(g == orig[k]);
        assert(orig.take(k + 1).drop_last() =~= orig.take(k));
        assert(all@ =~= orig.skip(k + 1));
        if !str_eq(g.group_id.as_str(), group_id) {
            let ghost before = groups@;
            groups.push(g);
            assert forall|me: Seq<char>| member_of_all(orig, me) implies #[trigger] member_of_all(groups@, me) by {
                assert(member_of_all(before, me));
                assert forall|q: int| 0 <= q < groups@.len() implies has_member((#[trigger] groups@[q]).members@, me) by {
                    if q < before.len() {
                        assert(groups@[q] == before[q]);
                    } else {
                        assert(groups@[q] == orig[k]);
                    }
                }
            }
        }
        proof {
            k = k + 1;
        }
    }
    assert(orig.take(k) =~= orig);
}

/// The checks before sending to a group: it is held and its key is
/// readable. On success: its index and key.
pub fn group_send_plan(groups: &Vec<GroupState>, group_id: &str) -> (res: Result<(usize, [u8; 32]), String>)
    ensures
        match group_position(groups@, group_id@) {
            None => res matches Err(e) && e@ == "groupe introuvable"@,
            Some(i) => match group_key_spec(groups@[i].key_b64@) {
                None => res matches Err(e) && e@ == "clé de groupe corrompue"@,
                Some(k) => res matches Ok((idx, key)) && idx == i && key@ == k,
            },
        },
{
    let i = match find_group(groups, group_id) {
        Some(i) => i,
        None => return Err(String::from_str("groupe introuvable")),
    };
    match group_key(groups[i].key_b64.as_str()) {
        Ok(k) => Ok((i, k)),
        Err(e) => Err(e),
    }
}

/// Records a group we just created (appended to the list).
pub fn add_created_group(groups: &mut Vec<GroupState>, state: GroupState)
    ensures
        final(groups)@ == old(groups)@.push(state),
        forall|me: Seq<char>|
            member_of_all(old(groups)@, me) && has_member(state.members@, me) ==> #[trigger] member_of_all(
                final(groups)@,
                me,
            ),
{
    let ghost s = state;
    groups.push(state);
    proof {
        lemma_push_keeps_member(old(groups)@, s);
    }
}

} // verus!

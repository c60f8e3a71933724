//! Sealing outgoing messages into envelopes, opening incoming ones, and the
//! checks a decrypted payload must pass before it becomes a message.

use vstd::prelude::*;
use vstd::utf8::{decode_utf8, valid_utf8};
use crate::crypto::{onion_id_spec, onion_public_spec, Identity};
use crate::dm_crypto::{conversation_key, conversation_key_spec, dm_decrypt, dm_encrypt, pair_key_spec};
use crate::engine::{max_incoming_payload, DmMessage, DmStatus, MessageKind, MAX_MESSAGE_CHARS, VOICE_MAX_BYTES, VOICE_MAX_DURATION_MS};
use crate::groups::{group_key, group_key_spec, group_position, has_member, is_member, find_group, str_eq, GroupState};
use crate::primitives::{aead_open_spec, aead_seal_spec, sealable, ed25519_public_spec, ulid_parse, ulid_parse_spec, ulid_text_spec, ulid_to_string};
use crate::store::DmRecord;
use crate::proto_dm::{dm_aad, dm_aad_parts, dm_aad_spec, DmEnvelope};
use crate::proto_groups::{group_aad, group_aad_parts, group_aad_spec, GroupEnvelope, KIND_VOICE};
use crate::std_glue::utf8_to_string;
use crate::text::char_count;

verus! {

/// Our onion identifier.
pub open spec fn my_onion(identity: Identity) -> Seq<char> {
    onion_id_spec(ed25519_public_spec(identity@))
}

/// Seals a direct message for `peer_onion_id`: the envelope carries our
/// identifier as author and the ciphertext of `plaintext` under our
/// conversation key with the peer, bound to the header.
pub fn seal_dm(
    identity: &Identity,
    peer_onion_id: &str,
    message_id: &[u8; 16],
    timestamp_ms: u64,
    kind: u8,
    duration_ms: u32,
    plaintext: &[u8],
) -> (res: Result<DmEnvelope, String>)
    ensures
        match res {
            Ok(env) => {
                &&& env.message_id == *message_id
                &&& env.author_id@ == my_onion(*identity)
                &&& env.recipient_id@ == peer_onion_id@
                &&& env.timestamp_ms == timestamp_ms
                &&& env.kind == kind
                &&& env.duration_ms == duration_ms
                &&& conversation_key_spec(identity@, peer_onion_id@) matches Some(k) && aead_seal_spec(
                    k,
                    env.nonce@,
                    dm_aad_spec(message_id@, my_onion(*identity), peer_onion_id@, timestamp_ms),
                    plaintext@,
                ) == Some(env.ciphertext@)
            },
            Err(e) => if conversation_key_spec(identity@, peer_onion_id@) is None {
                e@ == "adresse oignon invalide: "@ + peer_onion_id@
            } else {
                e@ == "chiffrement impossible"@ && !sealable(plaintext@.len() as int)
            },
        },
        res is Ok <==> (conversation_key_spec(identity@, peer_onion_id@) is Some && sealable(
            plaintext@.len() as int,
        )),
        forall|b: Seq<u8>|
            b.len() == 32 && onion_public_spec(peer_onion_id@) == Some(#[trigger] ed25519_public_spec(b))
                && sealable(plaintext@.len() as int) ==> (res matches Ok(env) && aead_seal_spec(
                pair_key_spec(b, identity@),
                env.nonce@,
                dm_aad_spec(message_id@, my_onion(*identity), peer_onion_id@, timestamp_ms),
                plaintext@,
            ) == Some(env.ciphertext@)),
{
    let my_id = identity.onion_id();
    let aad = dm_aad_parts(message_id, my_id.as_str(), peer_onion_id, timestamp_ms);
    let key = match conversation_key(identity, peer_onion_id) {
        Ok(k) => k,
        Err(e) => return Err(e.message()),
    };
    match dm_encrypt(&key, aad.as_slice(), plaintext) {
        Some((nonce, ciphertext)) => Ok(
            DmEnvelope {
                message_id: *message_id,
                author_id: my_id,
                recipient_id: String::from_str(peer_onion_id),
                timestamp_ms,
                kind,
                duration_ms,
                nonce,
                ciphertext,
            },
        ),
        None => Err(String::from_str("chiffrement impossible")),
    }
}

/// Seals a group message under the group key, bound to its header.
pub fn seal_group(
    key: &[u8; 32],
    message_id: &[u8; 16],
    group_id: &str,
    author_id: &str,
    timestamp_ms: u64,
    kind: u8,
    duration_ms: u32,
    plaintext: &[u8],
) -> (res: Option<GroupEnvelope>)
    ensures
        res matches Some(env) ==> {
            &&& env.message_id == *message_id
            &&& env.group_id@ == group_id@
            &&& env.author_id@ == author_id@
            &&& env.timestamp_ms == timestamp_ms
            &&& env.kind == kind
            &&& env.duration_ms == duration_ms
            &&& aead_seal_spec(
                key@,
                env.nonce@,
                group_aad_spec(message_id@, group_id@, author_id@, timestamp_ms),
                plaintext@,
            ) == Some(env.ciphertext@)
        },
        res is Some <==> sealable(plaintext@.len() as int),
{
    let aad = group_aad_parts(message_id, group_id, author_id, timestamp_ms);
    match dm_encrypt(key, aad.as_slice(), plaintext) {
        Some((nonce, ciphertext)) => Some(
            GroupEnvelope {
                message_id: *message_id,
                group_id: String::from_str(group_id),
                author_id: String::from_str(author_id),
                timestamp_ms,
                kind,
                duration_ms,
                nonce,
                ciphertext,
            },
        ),
        None => None,
    }
}

/// The plaintext of a direct message addressed to us: `None` when it is
/// addressed to someone else, when its author is not a valid key, or when
/// it does not authenticate.
pub open spec fn open_dm_spec(identity: Identity, env: DmEnvelope) -> Option<Seq<u8>> {
    if env.recipient_id@ != my_onion(identity) {
        None
    } else {
        match conversation_key_spec(identity@, env.author_id@) {
            None => None,
            Some(k) => aead_open_spec(
                k,
                env.nonce@,
                dm_aad_spec(env.message_id@, env.author_id@, env.recipient_id@, env.timestamp_ms),
                env.ciphertext@,
            ),
        }
    }
}

/// Opens a direct message addressed to us (see `open_dm_spec`).
pub fn open_dm(identity: &Identity, envelope: &DmEnvelope) -> (res: Option<Vec<u8>>)
    ensures
        res.deep_view() == open_dm_spec(*identity, *envelope),
        forall|a: Seq<u8>, p: Seq<u8>|
            a.len() == 32 && onion_public_spec(envelope.author_id@) == Some(ed25519_public_spec(a))
                && envelope.recipient_id@ == my_onion(*identity) && #[trigger] aead_seal_spec(
                pair_key_spec(identity@, a),
                envelope.nonce@,
                dm_aad_spec(envelope.message_id@, envelope.author_id@, envelope.recipient_id@, envelope.timestamp_ms),
                p,
            ) == Some(envelope.ciphertext@) ==> res.deep_view() == Some(p),
{
    let my_id = identity.onion_id();
    if !str_eq(envelope.recipient_id.as_str(), my_id.as_str()) {
        return None;
    }
    let key = match conversation_key(identity, envelope.author_id.as_str()) {
        Ok(k) => k,
        Err(_) => return None,
    };
    let aad = dm_aad(envelope);
    dm_decrypt(&key, &envelope.nonce, aad.as_slice(), envelope.ciphertext.as_slice())
}

/// The plaintext of a group message: `None` for an unknown group, an author
/// who is not a member, an unreadable group key, or a message that does not
/// authenticate. With the plaintext, the index of the group.
pub open spec fn open_group_spec(groups: Seq<GroupState>, env: GroupEnvelope) -> Option<(int, Seq<u8>)> {
    match group_position(groups, env.group_id@) {
        None => None,
        Some(i) => if !has_member(groups[i].members@, env.author_id@) {
            None
        } else {
            match group_key_spec(groups[i].key_b64@) {
                None => None,
                Some(k) => match aead_open_spec(
                    k,
                    env.nonce@,
                    group_aad_spec(env.message_id@, env.group_id@, env.author_id@, env.timestamp_ms),
                    env.ciphertext@,
                ) {
                    None => None,
                    Some(p) => Some((i, p)),
                },
            }
        },
    }
}

/// Opens a group message (see `open_group_spec`).
pub fn open_group(groups: &Vec<GroupState>, envelope: &GroupEnvelope) -> (res: Option<(usize, Vec<u8>)>)
    ensures
        match open_group_spec(groups@, *envelope) {
            None => res is None,
            Some((i, p)) => res matches Some((idx, pt)) && idx == i && pt@ == p,
        },
{
    let i = match find_group(groups, envelope.group_id.as_str()) {
        Some(i) => i,
        None => return None,
    };
    if !is_member(&groups[i].members, envelope.author_id.as_str()) {
        return None;
    }
    let key = match group_key(groups[i].key_b64.as_str()) {
        Ok(k) => k,
        Err(_) => return None,
    };
    let aad = group_aad(envelope);
    match dm_decrypt(&key, &envelope.nonce, aad.as_slice(), envelope.ciphertext.as_slice()) {
        Some(p) => {
            assert(p.deep_view() =~= p@);
            Some((i, p))
        },
        None => None,
    }
}

/// A decrypted payload that passed the checks.
#[derive(Debug)]
pub enum IncomingPayload {
    Text(String),
    Voice(Vec<u8>),
}

/// The checks on a decrypted payload: at most `max_incoming_payload()`
/// bytes; a voice note has a duration of 1 ms to the maximum and is not
/// empty; a text is UTF-8 of 1 to 4000 characters.
pub open spec fn payload_spec(kind: u8, duration_ms: u32, p: Seq<u8>) -> Option<(bool, Seq<char>)> {
    if p.len() > max_incoming_payload() {
        None
    } else if kind == KIND_VOICE {
        if duration_ms == 0 || duration_ms > VOICE_MAX_DURATION_MS || p.len() == 0 {
            None
        } else {
            Some((true, Seq::<char>::empty()))
        }
    } else if !valid_utf8(p) {
        None
    } else {
        let body = decode_utf8(p);
        if body.len() == 0 || body.len() > MAX_MESSAGE_CHARS {
            None
        } else {
            Some((false, body))
        }
    }
}

/// Checks a decrypted payload (see `payload_spec`): a voice note keeps its
/// bytes, a text becomes its string.
pub fn check_payload(kind: u8, duration_ms: u32, plaintext: Vec<u8>) -> (res: Option<IncomingPayload>)
    ensures
        match payload_spec(kind, duration_ms, plaintext@) {
            None => res is None,
            Some((true, _)) => res matches Some(IncomingPayload::Voice(v)) && v@ == plaintext@,
            Some((false, body)) => res matches Some(IncomingPayload::Text(t)) && t@ == body,
        },
{
    let limit: usize = if VOICE_MAX_BYTES > 8000 {
        VOICE_MAX_BYTES
    } else {
        8000
    };
    if plaintext.len() > limit {
        return None;
    }
    if kind == KIND_VOICE {
        if duration_ms == 0 || duration_ms > VOICE_MAX_DURATION_MS || plaintext.len() == 0 {
            return None;
        }
        return Some(IncomingPayload::Voice(plaintext));
    }
    let ghost bytes = plaintext@;
    let body = match utf8_to_string(plaintext) {
        Some(b) => b,
        None => return None,
    };
    let n = char_count(body.as_str());
    if n == 0 || n > MAX_MESSAGE_CHARS {
        return None;
    }
    Some(IncomingPayload::Text(body))
}

/// The message shown for a received payload: delivered, with the ULID text
/// of its id, the conversation (the author, or the group) and its author.
pub fn received_message(
    message_id: &[u8; 16],
    peer_id: &str,
    author_id: &str,
    created_ms: u64,
    payload: &IncomingPayload,
    duration_ms: u32,
) -> (m: DmMessage)
    ensures
        m.message_id@ == ulid_text_spec(message_id@),
        m.peer_id@ == peer_id@,
        m.author_id@ == author_id@,
        m.created_ms == created_ms,
        m.status == DmStatus::Delivered,
        match payload {
            IncomingPayload::Text(t) => m.kind == MessageKind::Text && m.body@ == t@ && m.duration_ms == 0,
            IncomingPayload::Voice(_) => m.kind == MessageKind::Voice && m.body@.len() == 0
                && m.duration_ms == duration_ms,
        },
{
    let (kind, body, duration) = match payload {
        IncomingPayload::Text(t) => (MessageKind::Text, t.clone(), 0u32),
        IncomingPayload::Voice(_) => (MessageKind::Voice, String::new(), duration_ms),
    };
    DmMessage {
        message_id: ulid_to_string(message_id),
        peer_id: String::from_str(peer_id),
        author_id: String::from_str(author_id),
        body,
        created_ms,
        status: DmStatus::Delivered,
        kind,
        duration_ms: duration,
    }
}

/// Whether a direct message is acknowledged: only when it came straight
/// from its author, not through a relay.
pub fn should_ack(via_peer: Option<&str>, author_id: &str) -> (ack: bool)
    ensures
        ack == (via_peer matches Some(v) && v@ == author_id@),
{
    match via_peer {
        Some(v) => str_eq(v, author_id),
        None => false,
    }
}

/// The plaintext a stored message is sent again with: the voice note's
/// bytes for a voice message (when they could be read), the body's UTF-8
/// for a text.
pub open spec fn stored_plaintext(record: DmRecord, voice: Option<Seq<u8>>) -> Option<Seq<u8>> {
    if record.kind == KIND_VOICE {
        voice
    } else {
        Some(vstd::utf8::encode_utf8(record.body@))
    }
}

/// The bytes of an optional voice note.
pub open spec fn voice_view(voice: Option<&Vec<u8>>) -> Option<Seq<u8>> {
    match voice {
        Some(v) => Some(v@),
        None => None,
    }
}

fn plaintext_of(record: &DmRecord, voice: Option<&Vec<u8>>) -> (res: Option<Vec<u8>>)
    ensures
        match stored_plaintext(*record, voice_view(voice)) {
            Some(p) => res matches Some(r) && r@ == p,
            None => res is None,
        },
{
    if record.kind == KIND_VOICE {
        match voice {
            Some(v) => Some(v.clone()),
            None => None,
        }
    } else {
        let bytes = record.body.as_str().as_bytes();
        let mut out: Vec<u8> = Vec::new();
        crate::bytes::push_all(&mut out, bytes);
        Some(out)
    }
}

/// The envelope that sends a stored direct message again to its peer: the
/// stored id (read back from its ULID text), time, kind and duration, sealed
/// anew. `None` when the id does not parse, the voice note is missing, or
/// sealing fails.
pub fn record_envelope(identity: &Identity, peer_onion_id: &str, record: &DmRecord, voice: Option<&Vec<u8>>) -> (res: Option<
    DmEnvelope,
>)
    ensures
        res matches Some(env) ==> {
            &&& ulid_parse_spec(record.id@) == Some(env.message_id@)
            &&& env.author_id@ == my_onion(*identity)
            &&& env.recipient_id@ == peer_onion_id@
            &&& env.timestamp_ms == record.created_ms
            &&& env.kind == record.kind
            &&& env.duration_ms == record.duration_ms
            &&& match (stored_plaintext(*record, voice_view(voice)), conversation_key_spec(identity@, peer_onion_id@)) {
                (Some(p), Some(k)) => aead_seal_spec(
                    k,
                    env.nonce@,
                    dm_aad_spec(env.message_id@, my_onion(*identity), peer_onion_id@, record.created_ms),
                    p,
                ) == Some(env.ciphertext@),
                _ => false,
            }
        },
        res is Some <==> {
            &&& ulid_parse_spec(record.id@) is Some
            &&& conversation_key_spec(identity@, peer_onion_id@) is Some
            &&& stored_plaintext(*record, voice_view(voice)) matches Some(p) && sealable(p.len() as int)
        },
{
    let message_id = match ulid_parse(record.id.as_str()) {
        Some(m) => m,
        None => return None,
    };
    let plaintext = match plaintext_of(record, voice) {
        Some(p) => p,
        None => return None,
    };
    match seal_dm(
        identity,
        peer_onion_id,
        &message_id,
        record.created_ms,
        record.kind,
        record.duration_ms,
        plaintext.as_slice(),
    ) {
        Ok(env) => Some(env),
        Err(_) => None,
    }
}

/// The envelope that sends a stored group message again: sealed under the
/// group's current key, with us as author. `None` when the group is not
/// held, its key is unreadable, the id does not parse, the voice note is
/// missing, or sealing fails.
pub fn record_group_envelope(
    groups: &Vec<GroupState>,
    my_id: &str,
    record: &DmRecord,
    voice: Option<&Vec<u8>>,
) -> (res: Option<GroupEnvelope>)
    ensures
        res matches Some(env) ==> {
            &&& ulid_parse_spec(record.id@) == Some(env.message_id@)
            &&& env.group_id@ == record.peer_id@
            &&& env.author_id@ == my_id@
            &&& env.timestamp_ms == record.created_ms
            &&& env.kind == record.kind
            &&& env.duration_ms == record.duration_ms
            &&& match group_position(groups@, record.peer_id@) {
                Some(i) => match (group_key_spec(groups@[i].key_b64@), stored_plaintext(*record, voice_view(voice))) {
                    (Some(k), Some(p)) => aead_seal_spec(
                        k,
                        env.nonce@,
                        group_aad_spec(env.message_id@, record.peer_id@, my_id@, record.created_ms),
                        p,
                    ) == Some(env.ciphertext@),
                    _ => false,
                },
                None => false,
            }
        },
        res is Some <==> {
            &&& group_position(groups@, record.peer_id@) matches Some(i) && group_key_spec(
                groups@[i].key_b64@,
            ) is Some
            &&& ulid_parse_spec(record.id@) is Some
            &&& stored_plaintext(*record, voice_view(voice)) matches Some(p) && sealable(p.len() as int)
        },
{
    let i = match find_group(groups, record.peer_id.as_str()) {
        Some(i) => i,
        None => return None,
    };
    let key = match group_key(groups[i].key_b64.as_str()) {
        Ok(k) => k,
        Err(_) => return None,
    };
    let message_id = match ulid_parse(record.id.as_str()) {
        Some(m) => m,
        None => return None,
    };
    let plaintext = match plaintext_of(record, voice) {
        Some(p) => p,
        None => return None,
    };
    seal_group(
        &key,
        &message_id,
        record.peer_id.as_str(),
        my_id,
        record.created_ms,
        record.kind,
        record.duration_ms,
        plaintext.as_slice(),
    )
}

/// A message we just sent, as shown: its ULID text, conversation, author,
/// the text itself for a text message (empty for a voice note), time,
/// status, kind and duration.
pub fn outgoing_message(
    message_id: &[u8; 16],
    peer_id: &str,
    author_id: &str,
    kind: MessageKind,
    text: &str,
    created_ms: u64,
    status: DmStatus,
    duration_ms: u32,
) -> (m: DmMessage)
    ensures
        m.message_id@ == ulid_text_spec(message_id@),
        m.peer_id@ == peer_id@,
        m.author_id@ == author_id@,
        m.body@ == if kind == MessageKind::Text {
            text@
        } else {
            Seq::<char>::empty()
        },
        m.created_ms == created_ms,
        m.status == status,
        m.kind == kind,
        m.duration_ms == duration_ms,
{
    DmMessage {
        message_id: ulid_to_string(message_id),
        peer_id: String::from_str(peer_id),
        author_id: String::from_str(author_id),
        body: match kind {
            MessageKind::Text => String::from_str(text),
            MessageKind::Voice => String::new(),
        },
        created_ms,
        status,
        kind,
        duration_ms,
    }
}

/// The status of a group message just sent: sent when any member or relay
/// took it, queued otherwise.
pub fn group_delivery_status(any_taken: bool) -> (s: DmStatus)
    ensures
        s == if any_taken {
            DmStatus::Sent
        } else {
            DmStatus::Queued
        },
{
    if any_taken {
        DmStatus::Sent
    } else {
        DmStatus::Queued
    }
}

/// The ULID text of a message id (as messages and the store name it).
pub fn message_id_text(message_id: &[u8; 16]) -> (res: String)
    ensures
        res@ == ulid_text_spec(message_id@),
{
    ulid_to_string(message_id)
}

} // verus!

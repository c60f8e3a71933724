//! The messaging engine's data and rules: Tor status, message statuses and
//! kinds, messages and their stored form, profiles and settings, contacts
//! and friend requests, and the checks applied to what the user sends.

use vstd::prelude::*;
use vstd::utf8::encode_utf8;
use crate::crypto::{
    onion_id_roundtrip, onion_id_spec, onion_id_to_public, onion_public_spec, seed_from_recovery_phrase,
    CryptoError, Identity,
};
use crate::groups::GroupInfo;
use crate::invite::{link_spec, Invite, InviteError};
use crate::primitives::{base64_decode, base64_decode_spec, bip39_entropy_spec, ed25519_public_spec, qr_svg, qr_svg_spec};
use crate::store::DmRecord;
use crate::text::{char_count, hex_encode, hex_spec, hex_spec_len, is_ascii_hexdigit, is_hex_digit, prefix_chars, trim, trim_spec};
use crate::std_glue::chars_of;

verus! {

/// Largest voice note, in bytes.
pub const VOICE_MAX_BYTES: usize = 220_000;

/// Longest voice note, in milliseconds: sixty seconds.
pub const VOICE_MAX_DURATION_MS: u32 = 60_000;

/// Largest avatar image, in bytes.
pub const AVATAR_MAX_BYTES: usize = 64_000;

/// Longest text message, in characters.
pub const MAX_MESSAGE_CHARS: usize = 4000;

/// Largest decrypted payload accepted from a peer, text or voice.
pub open spec fn max_incoming_payload() -> int {
    if VOICE_MAX_BYTES > 8000 {
        VOICE_MAX_BYTES as int
    } else {
        8000
    }
}

/// Where Tor is in its life.
#[derive(Clone, Debug)]
pub enum TorStatus {
    Starting,
    Bootstrapping { progress: u8 },
    Online { onion: String, socks: String },
    Failed { error: String },
}

impl Default for TorStatus {
    fn default() -> (res: Self)
        ensures
            res is Starting,
    {
        TorStatus::Starting
    }
}

/// Who we are, as shown to the user.
#[derive(Clone, Debug)]
pub struct IdentityInfo {
    pub display_name: String,
    pub onion: String,
    pub fingerprint: String,
}

/// A contact.
#[derive(Clone, Debug)]
pub struct PeerInfo {
    pub onion_id: String,
    pub fingerprint: String,
    pub display_name: String,
    pub added_at: u64,
}

/// How far a message has gone.
#[derive(Clone, Copy, Debug, PartialEq, Eq, Structural)]
pub enum DmStatus {
    Queued,
    Sent,
    Delivered,
}

/// The stored code of a status.
pub open spec fn status_code(s: DmStatus) -> u8 {
    match s {
        DmStatus::Queued => 0,
        DmStatus::Sent => 1,
        DmStatus::Delivered => 2,
    }
}

/// The status a stored code stands for; unknown codes read as queued.
pub open spec fn status_of(v: u8) -> DmStatus {
    if v == 2 {
        DmStatus::Delivered
    } else if v == 1 {
        DmStatus::Sent
    } else {
        DmStatus::Queued
    }
}

impl DmStatus {
    pub fn as_u8(self) -> (res: u8)
        ensures
            res == status_code(self),
    {
        match self {
            DmStatus::Queued => 0,
            DmStatus::Sent => 1,
            DmStatus::Delivered => 2,
        }
    }

    pub fn from_u8(value: u8) -> (res: Self)
        ensures
            res == status_of(value),
    {
        match value {
            2 => DmStatus::Delivered,
            1 => DmStatus::Sent,
            _ => DmStatus::Queued,
        }
    }
}

/// Reading back the code of a status gives the status; the known codes are
/// exactly 0, 1 and 2.
pub proof fn status_code_roundtrip(s: DmStatus, v: u8)
    ensures
        status_of(status_code(s)) == s,
        status_code(s) <= 2,
        v <= 2 ==> status_code(status_of(v)) == v,
        v > 2 ==> status_of(v) == DmStatus::Queued,
{
}

/// What a message carries.
#[derive(Clone, Copy, Debug, PartialEq, Eq, Structural)]
pub enum MessageKind {
    Text,
    Voice,
}

pub open spec fn kind_code(k: MessageKind) -> u8 {
    match k {
        MessageKind::Text => 0,
        MessageKind::Voice => 1,
    }
}

/// The kind a stored code stands for; unknown codes read as text.
pub open spec fn kind_of(v: u8) -> MessageKind {
    if v == 1 {
        MessageKind::Voice
    } else {
        MessageKind::Text
    }
}

impl MessageKind {
    pub fn as_u8(self) -> (res: u8)
        ensures
            res == kind_code(self),
    {
        match self {
            MessageKind::Text => 0,
            MessageKind::Voice => 1,
        }
    }

    pub fn from_u8(value: u8) -> (res: Self)
        ensures
            res == kind_of(value),
    {
        match value {
            1 => MessageKind::Voice,
            _ => MessageKind::Text,
        }
    }
}

/// Reading back the code of a kind gives the kind; the known codes are 0
/// and 1.
pub proof fn kind_code_roundtrip(k: MessageKind, v: u8)
    ensures
        kind_of(kind_code(k)) == k,
        v <= 1 ==> kind_code(kind_of(v)) == v,
        v > 1 ==> kind_of(v) == MessageKind::Text,
{
}

/// A message as the user interface shows it.
#[derive(Clone, Debug)]
pub struct DmMessage {
    pub message_id: String,
    pub peer_id: String,
    pub author_id: String,
    pub body: String,
    pub created_ms: u64,
    pub status: DmStatus,
    pub kind: MessageKind,
    pub duration_ms: u32,
}

/// What the engine tells the user interface.
#[derive(Clone, Debug)]
pub enum CoreEvent {
    DmNew { message: DmMessage },
    DmStatus { peer_id: String, message_id: String, status: DmStatus },
    GroupNew { group: GroupInfo },
    GroupUpdated { group: GroupInfo },
    GroupRemoved { group_id: String },
    GroupMessage { message: DmMessage },
    FriendRequest { peer_id: String, display_name: String },
    FriendRequestHandled { peer_id: String },
    ProfileUpdated { peer_id: String },
}

/// Our own profile.
#[derive(Clone, Debug)]
pub struct Profile {
    pub display_name: String,
    pub bio: String,
    pub status: String,
    pub accent: String,
    pub avatar_b64: String,
}

impl Default for Profile {
    fn default() -> (res: Self)
        ensures
            res.display_name@.len() == 0,
            res.bio@.len() == 0,
            res.status@.len() == 0,
            res.accent@.len() == 0,
            res.avatar_b64@.len() == 0,
    {
        Profile {
            display_name: String::new(),
            bio: String::new(),
            status: String::new(),
            accent: String::new(),
            avatar_b64: String::new(),
        }
    }
}

/// What we know of a contact's profile.
#[derive(Clone, Debug)]
pub struct PeerProfile {
    pub bio: String,
    pub status: String,
    pub accent: String,
    pub has_avatar: bool,
}

impl Default for PeerProfile {
    fn default() -> (res: Self)
        ensures
            res.bio@.len() == 0,
            res.status@.len() == 0,
            res.accent@.len() == 0,
            !res.has_avatar,
    {
        PeerProfile { bio: String::new(), status: String::new(), accent: String::new(), has_avatar: false }
    }
}

#[derive(Clone, Debug)]
pub struct OwnProfileInfo {
    pub display_name: String,
    pub bio: String,
    pub status: String,
    pub accent: String,
    pub has_avatar: bool,
}

#[derive(Clone, Debug)]
pub struct PeerProfileInfo {
    pub onion_id: String,
    pub display_name: String,
    pub bio: String,
    pub status: String,
    pub accent: String,
    pub has_avatar: bool,
    pub fingerprint: String,
}

/// User settings.
#[derive(Clone, Debug)]
pub struct Settings {
    pub notifications_enabled: bool,
    pub language: String,
}

impl Default for Settings {
    fn default() -> (res: Self)
        ensures
            res.notifications_enabled,
            res.language@ == "en"@,
    {
        Settings { notifications_enabled: true, language: String::from_str("en") }
    }
}

#[derive(Clone, Debug)]
pub struct AppInfo {
    pub version: String,
    pub data_dir: String,
    pub relay_queue: u64,
}

/// A friend request waiting for an answer.
#[derive(Clone, Debug)]
pub struct PendingRequest {
    pub onion_id: String,
    pub display_name: String,
    pub received_at: u64,
}

/// Where the engine keeps its data and finds Tor.
#[derive(Clone, Debug)]
pub struct EngineConfig {
    pub data_dir: String,
    pub tor_dir: String,
}

/// The stored form of a message.
pub open spec fn record_spec(m: DmMessage) -> DmRecord {
    DmRecord {
        id: m.message_id,
        peer_id: m.peer_id,
        author_id: m.author_id,
        body: m.body,
        created_ms: m.created_ms,
        status: status_code(m.status),
        kind: kind_code(m.kind),
        duration_ms: m.duration_ms,
    }
}

/// The message a stored row stands for.
pub open spec fn message_spec(r: DmRecord) -> DmMessage {
    DmMessage {
        message_id: r.id,
        peer_id: r.peer_id,
        author_id: r.author_id,
        body: r.body,
        created_ms: r.created_ms,
        status: status_of(r.status),
        kind: kind_of(r.kind),
        duration_ms: r.duration_ms,
    }
}

/// The row stored for a message.
pub fn record_of(message: &DmMessage) -> (rec: DmRecord)
    ensures
        rec == record_spec(*message),
{
    DmRecord {
        id: message.message_id.clone(),
        peer_id: message.peer_id.clone(),
        author_id: message.author_id.clone(),
        body: message.body.clone(),
        created_ms: message.created_ms,
        status: message.status.as_u8(),
        kind: message.kind.as_u8(),
        duration_ms: message.duration_ms,
    }
}

/// The message a stored row stands for.
pub fn message_of(record: DmRecord) -> (m: DmMessage)
    ensures
        m == message_spec(record),
{
    DmMessage {
        message_id: record.id,
        peer_id: record.peer_id,
        author_id: record.author_id,
        body: record.body,
        created_ms: record.created_ms,
        status: DmStatus::from_u8(record.status),
        kind: MessageKind::from_u8(record.kind),
        duration_ms: record.duration_ms,
    }
}

/// A message read back from the store is the message that was stored.
pub proof fn stored_message_roundtrip(m: DmMessage)
    ensures
        message_spec(record_spec(m)) == m,
{
}

/// The text of an outgoing message: trimmed, 1 to 4000 characters.
pub open spec fn text_ok(text: Seq<char>) -> bool {
    0 < trim_spec(text).len() <= MAX_MESSAGE_CHARS
}

/// Checks the text the user wants to send and returns it trimmed.
pub fn message_text(text: &str) -> (res: Result<String, String>)
    ensures
        text_ok(text@) <==> res is Ok,
        res matches Ok(t) ==> t@ == trim_spec(text@),
        res matches Err(e) ==> e@ == "message invalide (1 à 4000 caractères)"@,
{
    let t = trim(text);
    let n = char_count(t.as_str());
    if n == 0 || n > MAX_MESSAGE_CHARS {
        return Err(String::from_str("message invalide (1 à 4000 caractères)"));
    }
    Ok(t)
}

/// Checks a voice note before it is sent.
pub fn check_voice(len: usize, duration_ms: u32) -> (res: Result<(), String>)
    ensures
        (0 < len <= VOICE_MAX_BYTES && 0 < duration_ms <= VOICE_MAX_DURATION_MS) <==> res is Ok,
        res matches Err(e) ==> if len == 0 || len > VOICE_MAX_BYTES {
            e@ == "note vocale invalide (max 60 secondes)"@
        } else {
            e@ == "durée invalide"@
        },
{
    if len == 0 || len > VOICE_MAX_BYTES {
        return Err(String::from_str("note vocale invalide (max 60 secondes)"));
    }
    if duration_ms == 0 || duration_ms > VOICE_MAX_DURATION_MS {
        return Err(String::from_str("durée invalide"));
    }
    Ok(())
}

/// Checks the recipient of a direct message: not ourselves, and a valid
/// onion identifier.
pub fn check_dm_recipient(my_id: &str, peer_onion_id: &str) -> (res: Result<(), String>)
    ensures
        match res {
            Ok(()) => peer_onion_id@ != my_id@ && onion_public_spec(peer_onion_id@) is Some,
            Err(e) => if peer_onion_id@ == my_id@ {
                e@ == "impossible de s'écrire à soi-même"@
            } else {
                onion_public_spec(peer_onion_id@) is None && e@ == "adresse oignon invalide"@
            },
        },
{
    if crate::groups::str_eq(peer_onion_id, my_id) {
        return Err(String::from_str("impossible de s'écrire à soi-même"));
    }
    if onion_id_to_public(peer_onion_id).is_none() {
        return Err(String::from_str("adresse oignon invalide"));
    }
    Ok(())
}

/// The status of a message just sent: sent when a session took it directly,
/// or, without a session to the recipient, when at least one relay took it;
/// queued otherwise.
pub open spec fn delivery_status_spec(direct: Option<bool>, relayed: nat) -> DmStatus {
    match direct {
        Some(ok) => if ok {
            DmStatus::Sent
        } else {
            DmStatus::Queued
        },
        None => if relayed > 0 {
            DmStatus::Sent
        } else {
            DmStatus::Queued
        },
    }
}

/// `direct` is `Some(taken)` when there is a session to the recipient,
/// `relayed` the number of relays that took the message otherwise.
pub fn delivery_status(direct: Option<bool>, relayed: usize) -> (s: DmStatus)
    ensures
        s == delivery_status_spec(direct, relayed as nat),
{
    match direct {
        Some(ok) => if ok {
            DmStatus::Sent
        } else {
            DmStatus::Queued
        },
        None => if relayed > 0 {
            DmStatus::Sent
        } else {
            DmStatus::Queued
        },
    }
}

/// An accent colour: empty, or `#` and six hexadecimal digits.
pub open spec fn accent_ok(a: Seq<char>) -> bool {
    a.len() == 0 || (a.len() == 7 && a[0] == '#' && forall|i: int|
        1 <= i < 7 ==> is_hex_digit(#[trigger] a[i]))
}

pub fn accent_valid(a: &str) -> (r: bool)
    ensures
        r == accent_ok(a@),
{
    let cs = chars_of(a);
    if cs.len() == 0 {
        return true;
    }
    if cs.len() != 7 || cs[0] != '#' {
        return false;
    }
    let mut i: usize = 1;
    while i < 7
        invariant
            1 <= i <= 7,
            cs@ == a@,
            cs@.len() == 7,
            forall|k: int| 1 <= k < i ==> is_hex_digit(#[trigger] cs@[k]),
        decreases 7 - i,
    {
        if !is_ascii_hexdigit(cs[i]) {
            return false;
        }
        i = i + 1;
    }
    true
}

/// The profile fields as text: name, bio, status, accent, avatar.
pub open spec fn profile_view(p: Profile) -> (Seq<char>, Seq<char>, Seq<char>, Seq<char>, Seq<char>) {
    (p.display_name@, p.bio@, p.status@, p.accent@, p.avatar_b64@)
}

pub open spec fn opt_view(o: Option<String>) -> Option<Seq<char>> {
    match o {
        Some(s) => Some(s@),
        None => None,
    }
}

/// Whether an avatar in base64 is accepted: empty, or decoding to at most
/// `AVATAR_MAX_BYTES` bytes; `Err` with the message otherwise.
pub open spec fn avatar_check(a: Seq<char>) -> Result<(), Seq<char>> {
    if a.len() == 0 {
        Ok(())
    } else {
        match base64_decode_spec(a) {
            None => Err("avatar illisible"@),
            Some(bytes) => if bytes.len() > AVATAR_MAX_BYTES {
                Err("avatar trop volumineux (64 Ko max)"@)
            } else {
                Ok(())
            },
        }
    }
}

/// The profile after an edit: each given field replaces the old one after
/// its check (name 1 to 32 characters, bio at most 200, status at most 64,
/// all trimmed; accent empty or `#rrggbb`; avatar decodable and small
/// enough), checked in that order; the first failing check is the error.
pub open spec fn profile_update_spec(
    p: (Seq<char>, Seq<char>, Seq<char>, Seq<char>, Seq<char>),
    name: Option<Seq<char>>,
    bio: Option<Seq<char>>,
    status: Option<Seq<char>>,
    accent: Option<Seq<char>>,
    avatar: Option<Seq<char>>,
) -> Result<(Seq<char>, Seq<char>, Seq<char>, Seq<char>, Seq<char>), Seq<char>> {
    let n = match name {
        Some(x) => trim_spec(x),
        None => p.0,
    };
    let b = match bio {
        Some(x) => trim_spec(x),
        None => p.1,
    };
    let s = match status {
        Some(x) => trim_spec(x),
        None => p.2,
    };
    let a = match accent {
        Some(x) => trim_spec(x),
        None => p.3,
    };
    let v = match avatar {
        Some(x) => x,
        None => p.4,
    };
    if name is Some && !(0 < n.len() <= 32) {
        Err("nom d'affichage invalide (1 à 32 caractères)"@)
    } else if bio is Some && b.len() > 200 {
        Err("bio invalide (200 caractères max)"@)
    } else if status is Some && s.len() > 64 {
        Err("statut invalide (64 caractères max)"@)
    } else if accent is Some && !accent_ok(a) {
        Err("couleur d'accent invalide"@)
    } else if avatar is Some && avatar_check(v) is Err {
        Err(avatar_check(v)->Err_0)
    } else {
        Ok((n, b, s, a, v))
    }
}

/// An accepted profile edit takes each given field, trimmed (the avatar as
/// given), and keeps each field that is not given; it is accepted exactly
/// when every given field passes its check.
pub proof fn profile_edit_takes_given_fields(
    p: (Seq<char>, Seq<char>, Seq<char>, Seq<char>, Seq<char>),
    name: Option<Seq<char>>,
    bio: Option<Seq<char>>,
    status: Option<Seq<char>>,
    accent: Option<Seq<char>>,
    avatar: Option<Seq<char>>,
)
    ensures
        profile_update_spec(p, name, bio, status, accent, avatar) matches Ok(q) ==> {
            &&& q.0 == (match name {
                Some(x) => trim_spec(x),
                None => p.0,
            })
            &&& q.1 == (match bio {
                Some(x) => trim_spec(x),
                None => p.1,
            })
            &&& q.2 == (match status {
                Some(x) => trim_spec(x),
                None => p.2,
            })
            &&& q.3 == (match accent {
                Some(x) => trim_spec(x),
                None => p.3,
            })
            &&& q.4 == (match avatar {
                Some(x) => x,
                None => p.4,
            })
        },
        profile_update_spec(p, name, bio, status, accent, avatar) is Ok <==> {
            &&& (name matches Some(x) ==> 0 < trim_spec(x).len() <= 32)
            &&& (bio matches Some(x) ==> trim_spec(x).len() <= 200)
            &&& (status matches Some(x) ==> trim_spec(x).len() <= 64)
            &&& (accent matches Some(x) ==> accent_ok(trim_spec(x)))
            &&& (avatar matches Some(x) ==> avatar_check(x) is Ok)
        },
{
}

/// Applies a profile edit: the new profile, or why it was refused.
pub fn update_profile(
    profile: &Profile,
    display_name: Option<String>,
    bio: Option<String>,
    status: Option<String>,
    accent: Option<String>,
    avatar_b64: Option<String>,
) -> (res: Result<Profile, String>)
    ensures
        match profile_update_spec(
            profile_view(*profile),
            opt_view(display_name),
            opt_view(bio),
            opt_view(status),
            opt_view(accent),
            opt_view(avatar_b64),
        ) {
            Ok(v) => res matches Ok(p) && profile_view(p) == v,
            Err(m) => res matches Err(e) && e@ == m,
        },
        res matches Ok(p) ==> p.display_name@ == match display_name {
            Some(x) => trim_spec(x@),
            None => profile.display_name@,
        },
        res matches Ok(p) ==> p.bio@ == match bio {
            Some(x) => trim_spec(x@),
            None => profile.bio@,
        },
        res matches Ok(p) ==> p.status@ == match status {
            Some(x) => trim_spec(x@),
            None => profile.status@,
        },
        res matches Ok(p) ==> p.accent@ == match accent {
            Some(x) => trim_spec(x@),
            None => profile.accent@,
        },
        res matches Ok(p) ==> p.avatar_b64@ == match avatar_b64 {
            Some(x) => x@,
            None => profile.avatar_b64@,
        },
{
    let mut next = profile.clone_profile();
    if let Some(name) = display_name {
        let name = trim(name.as_str());
        let n = char_count(name.as_str());
        if n == 0 || n > 32 {
            return Err(String::from_str("nom d'affichage invalide (1 à 32 caractères)"));
        }
        next.display_name = name;
    }
    if let Some(bio) = bio {
        let bio = trim(bio.as_str());
        if char_count(bio.as_str()) > 200 {
            return Err(String::from_str("bio invalide (200 caractères max)"));
        }
        next.bio = bio;
    }
    if let Some(status) = status {
        let status = trim(status.as_str());
        if char_count(status.as_str()) > 64 {
            return Err(String::from_str("statut invalide (64 caractères max)"));
        }
        next.status = status;
    }
    if let Some(accent) = accent {
        let accent = trim(accent.as_str());
        if !accent_valid(accent.as_str()) {
            return Err(String::from_str("couleur d'accent invalide"));
        }
        next.accent = accent;
    }
    if let Some(avatar) = avatar_b64 {
        if !avatar.as_str().is_empty() {
            match base64_decode(avatar.as_str()) {
                None => return Err(String::from_str("avatar illisible")),
                Some(bytes) => {
                    if bytes.len() > AVATAR_MAX_BYTES {
                        return Err(String::from_str("avatar trop volumineux (64 Ko max)"));
                    }
                },
            }
        }
        next.avatar_b64 = avatar;
    }
    Ok(next)
}

impl Profile {
    /// A copy of the profile.
    pub fn clone_profile(&self) -> (res: Profile)
        ensures
            profile_view(res) == profile_view(*self),
    {
        Profile {
            display_name: self.display_name.clone(),
            bio: self.bio.clone(),
            status: self.status.clone(),
            accent: self.accent.clone(),
            avatar_b64: self.avatar_b64.clone(),
        }
    }
}

/// The profile shown for ourselves.
pub fn own_profile_info(p: &Profile) -> (res: OwnProfileInfo)
    ensures
        res.display_name@ == p.display_name@,
        res.bio@ == p.bio@,
        res.status@ == p.status@,
        res.accent@ == p.accent@,
        res.has_avatar == (p.avatar_b64@.len() > 0),
{
    OwnProfileInfo {
        display_name: p.display_name.clone(),
        bio: p.bio.clone(),
        status: p.status.clone(),
        accent: p.accent.clone(),
        has_avatar: char_count(p.avatar_b64.as_str()) > 0,
    }
}

/// The name a fresh identity starts with: `void_` and the first six
/// hexadecimal digits of its public key.
pub fn default_display_name(identity: &Identity) -> (res: String)
    ensures
        res@ == "void_"@ + hex_spec(ed25519_public_spec(identity@)).take(6),
{
    let public = identity.public();
    let fp = identity.fingerprint_short();
    proof {
        hex_spec_len(public@);
        assert(hex_spec(ed25519_public_spec(identity@)).take(16).take(6) =~= hex_spec(
            ed25519_public_spec(identity@),
        ).take(6));
    }
    let head = prefix_chars(fp.as_str(), 6);
    String::from_str("void_").concat(head.as_str())
}

/// The first sixteen hexadecimal digits of the key an onion identifier
/// names, or nothing when it names none.
pub open spec fn onion_fingerprint_spec(onion_id: Seq<char>) -> Seq<char> {
    match onion_public_spec(onion_id) {
        Some(public) => hex_spec(public).take(16),
        None => Seq::<char>::empty(),
    }
}

pub fn onion_fingerprint(onion_id: &str) -> (res: String)
    ensures
        res@ == onion_fingerprint_spec(onion_id@),
{
    match onion_id_to_public(onion_id) {
        Some(public) => {
            assert(onion_public_spec(onion_id@) == Some(public@));
            let hex = hex_encode(public.as_slice());
            proof {
                hex_spec_len(public@);
            }
            prefix_chars(hex.as_str(), 16)
        },
        None => {
            assert(onion_public_spec(onion_id@) is None);
            String::new()
        },
    }
}

/// Who we are, as shown to the user.
pub fn identity_info(profile: &Profile, identity: &Identity) -> (res: IdentityInfo)
    ensures
        res.display_name@ == profile.display_name@,
        res.onion@ == onion_id_spec(ed25519_public_spec(identity@)) + ".onion"@,
        res.fingerprint@ == hex_spec(ed25519_public_spec(identity@)).take(16),
{
    IdentityInfo {
        display_name: profile.display_name.clone(),
        onion: identity.onion_address(),
        fingerprint: identity.fingerprint_short(),
    }
}

/// Our invitation link.
pub fn invite_link(identity: &Identity, display_name: &str) -> (res: String)
    ensures
        res@ == link_spec(
            onion_id_spec(ed25519_public_spec(identity@)),
            hex_spec(ed25519_public_spec(identity@)).take(16),
            display_name@,
        ),
{
    let invite = Invite::new(identity.onion_id(), identity.fingerprint_short(), String::from_str(display_name));
    invite.to_link()
}

/// The contact an invitation link describes, not yet added (`added_at` 0).
pub fn peer_from_link(link: &str) -> (res: Result<PeerInfo, String>)
    ensures
        match crate::invite::invite_parse_spec(link@) {
            Ok((o, f, n)) => res matches Ok(p) && p.onion_id@ == o && p.fingerprint@ == f
                && p.display_name@ == n && p.added_at == 0,
            Err(m) => res matches Err(e) && e@ == "lien d'invitation invalide: "@ + m,
        },
{
    match Invite::parse(link) {
        Ok(inv) => Ok(PeerInfo {
            onion_id: inv.onion_id,
            fingerprint: inv.fingerprint,
            display_name: inv.display_name,
            added_at: 0,
        }),
        Err(e) => Err(e.message()),
    }
}

/// The characters of `<svg`.
pub open spec fn svg_tag() -> Seq<char> {
    seq!['<', 's', 'v', 'g']
}

/// Index of the first `<svg` at or after `i`, if any.
pub open spec fn find_svg_from(s: Seq<char>, i: int) -> Option<int>
    decreases s.len() - i,
{
    if i < 0 || i + 4 > s.len() {
        None
    } else if s.subrange(i, i + 4) == svg_tag() {
        Some(i)
    } else {
        find_svg_from(s, i + 1)
    }
}

/// The SVG document from its `<svg` tag on (the whole text when there is
/// no such tag).
pub open spec fn svg_from_tag(svg: Seq<char>) -> Seq<char> {
    match find_svg_from(svg, 0) {
        Some(i) => svg.skip(i),
        None => svg,
    }
}

/// The QR code of an invitation link as an SVG document.
pub fn invite_qr_svg(link: &str) -> (res: Result<String, String>)
    ensures
        match qr_svg_spec(encode_utf8(link@)) {
            Some(svg) => res matches Ok(s) && s@ == svg_from_tag(svg),
            None => res matches Err(e) && e@.len() >= 4 && e@.take(4) == "qr: "@,
        },
{
    let svg = match qr_svg(link.as_bytes()) {
        Ok(s) => s,
        Err(e) => {
            let msg = String::from_str("qr: ").concat(e.as_str());
            proof {
                reveal_strlit("qr: ");
                assert(msg@.take(4) =~= "qr: "@);
            }
            return Err(msg);
        },
    };
    let cs = chars_of(svg.as_str());
    let mut i: usize = 0;
    assert(qr_svg_spec(encode_utf8(link@)) == Some(svg@));
    while i < cs.len() && cs.len() - i >= 4
        invariant
            i <= cs.len(),
            cs@ == svg@,
            qr_svg_spec(encode_utf8(link@)) == Some(svg@),
            find_svg_from(svg@, 0) == find_svg_from(svg@, i as int),
        decreases cs.len() - i,
    {
        if cs[i] == '<' && cs[i + 1] == 's' && cs[i + 2] == 'v' && cs[i + 3] == 'g' {
            assert(svg@.subrange(i as int, i + 4) =~= svg_tag());
            assert(find_svg_from(svg@, i as int) == Some(i as int));
            let mut out: Vec<char> = Vec::new();
            let mut j: usize = i;
            while j < cs.len()
                invariant
                    i <= j <= cs.len(),
                    out@ == cs@.subrange(i as int, j as int),
                decreases cs.len() - j,
            {
                out.push(cs[j]);
                j = j + 1;
                assert(out@ =~= cs@.subrange(i as int, j as int));
            }
            assert(cs@.subrange(i as int, cs.len() as int) =~= svg@.skip(i as int));
            return Ok(crate::std_glue::string_from_chars(&out));
        }
        assert(svg@.subrange(i as int, i + 4) != svg_tag()) by {
            if svg@.subrange(i as int, i + 4) == svg_tag() {
                assert(svg@.subrange(i as int, i + 4)[0] == '<');
                assert(svg@.subrange(i as int, i + 4)[1] == 's');
                assert(svg@.subrange(i as int, i + 4)[2] == 'v');
                assert(svg@.subrange(i as int, i + 4)[3] == 'g');
            }
        }
        i = i + 1;
    }
    Ok(svg)
}

/// The status once the onion service is published: our `.onion` host and
/// the SOCKS address.
pub fn online_status(onion_id: &str, socks: String) -> (status: TorStatus)
    ensures
        status matches TorStatus::Online { onion, socks: s } && onion@ == onion_id@ + ".onion"@ && s@ == socks@,
{
    TorStatus::Online { onion: String::from_str(onion_id).concat(".onion"), socks }
}

} // verus!

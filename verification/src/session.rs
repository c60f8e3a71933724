//! Peer sessions as the engine decides about them: presence, names from
//! the wire, duplicate connections, relayed envelopes, profile updates,
//! friend requests, contacts, and where an outgoing message goes.

use vstd::prelude::*;
use crate::dm_crypto::{str_le, str_le_total, string_le};
use crate::engine::{PeerInfo, PendingRequest, AVATAR_MAX_BYTES};
use crate::frames::Frame;
use crate::groups::{has_member, is_online, online_has, remove_id, str_eq, GroupState};
use crate::primitives::{base64_decode, base64_decode_spec};
use crate::proto_groups::MemberEntry;
use crate::std_glue::{chars_of, string_from_chars};
use crate::text::{char_count, trim, trim_spec};

verus! {

/// The virtual port of the onion service.
pub const P2P_VIRTUAL_PORT: u16 = 8477;

/// At most this many envelopes are held for others.
pub const RELAY_MAX_ITEMS: u64 = 1000;

/// At most this many held envelopes may come from one peer.
pub const RELAY_MAX_PER_SENDER: u64 = 200;

/// Largest envelope held for another peer, in bytes.
pub const RELAY_MAX_PAYLOAD: usize = 262_144;

/// How long a held envelope is kept: seven days, in milliseconds.
pub const RELAY_TTL_MS: u64 = 7 * 24 * 3600 * 1000;

/// At most this many messages are sent again when a peer asks to resync.
pub const SYNC_RESEND_LIMIT: u64 = 300;

/// Who opened a session.
#[derive(Clone, Copy, Debug, PartialEq, Eq, Structural)]
pub enum Direction {
    Outgoing,
    Incoming,
}

/// A contact or connected peer as the presence list shows it.
#[derive(Clone, Debug)]
pub struct PresenceInfo {
    pub onion_id: String,
    pub display_name: String,
    pub online: bool,
    pub direction: Option<Direction>,
    pub connected_since: Option<u64>,
    pub rtt_ms: Option<u64>,
}

/// What the presence list reads of an open session.
#[derive(Clone, Debug)]
pub struct SessionInfo {
    pub onion_id: String,
    pub display_name: String,
    pub direction: Direction,
    pub connected_since: u64,
    pub rtt_ms: Option<u64>,
}

/// At most the first `n` characters.
pub open spec fn take_at_most(s: Seq<char>, n: int) -> Seq<char> {
    if s.len() <= n {
        s
    } else {
        s.take(n)
    }
}

fn take_chars(s: &str, n: usize) -> (res: String)
    ensures
        res@ == take_at_most(s@, n as int),
{
    let cs = chars_of(s);
    let mut out: Vec<char> = Vec::new();
    let mut i: usize = 0;
    while i < cs.len() && i < n
        invariant
            i <= cs.len(),
            i <= n,
            cs@ == s@,
            out@ == s@.take(i as int),
        decreases cs.len() - i,
    {
        out.push(cs[i]);
        i = i + 1;
        assert(out@ =~= s@.take(i as int));
    }
    if cs.len() <= n {
        assert(s@.take(i as int) =~= s@);
    }
    string_from_chars(&out)
}

/// A name received from a peer: trimmed, at most 64 characters.
pub open spec fn sanitize_spec(name: Seq<char>) -> Seq<char> {
    take_at_most(trim_spec(name), 64)
}

pub fn sanitize_name(name: &str) -> (res: String)
    ensures
        res@ == sanitize_spec(name@),
{
    let t = trim(name);
    take_chars(t.as_str(), 64)
}

/// The name shown for a peer: its name, or the first ten characters of its
/// identifier when the name is empty.
pub open spec fn fallback_spec(name: Seq<char>, onion_id: Seq<char>) -> Seq<char> {
    if name.len() == 0 {
        take_at_most(onion_id, 10)
    } else {
        name
    }
}

pub fn fallback_name(name: &str, onion_id: &str) -> (res: String)
    ensures
        res@ == fallback_spec(name@, onion_id@),
{
    if char_count(name) == 0 {
        take_chars(onion_id, 10)
    } else {
        String::from_str(name)
    }
}

/// A presence entry as values.
pub open spec fn pview(p: PresenceInfo) -> (Seq<char>, Seq<char>, bool, Option<Direction>, Option<u64>, Option<u64>) {
    (p.onion_id@, p.display_name@, p.online, p.direction, p.connected_since, p.rtt_ms)
}

pub open spec fn pviews(ps: Seq<PresenceInfo>) -> Seq<(Seq<char>, Seq<char>, bool, Option<Direction>, Option<u64>, Option<u64>)> {
    ps.map_values(|p: PresenceInfo| pview(p))
}

/// The first session with the given identifier.
pub open spec fn session_position(sessions: Seq<SessionInfo>, id: Seq<char>) -> Option<int> {
    if exists|i: int| 0 <= i < sessions.len() && (#[trigger] sessions[i]).onion_id@ == id {
        Some(
            choose|i: int|
                0 <= i < sessions.len() && (#[trigger] sessions[i]).onion_id@ == id && forall|k: int|
                    0 <= k < i ==> sessions[k].onion_id@ != id,
        )
    } else {
        None
    }
}

proof fn lemma_session_position(sessions: Seq<SessionInfo>, id: Seq<char>, i: int)
    requires
        0 <= i <= sessions.len(),
        forall|k: int| 0 <= k < i ==> (#[trigger] sessions[k]).onion_id@ != id,
        i == sessions.len() || sessions[i].onion_id@ == id,
    ensures
        session_position(sessions, id) == if i < sessions.len() {
            Some(i)
        } else {
            None::<int>
        },
{
    if i < sessions.len() {
        let j = choose|j: int|
            0 <= j < sessions.len() && (#[trigger] sessions[j]).onion_id@ == id && forall|k: int|
                0 <= k < j ==> sessions[k].onion_id@ != id;
        assert(j == i) by {
            if j < i {
                assert(sessions[j].onion_id@ != id);
            } else if j > i {
                assert(sessions[i].onion_id@ != id);
            }
        }
    }
}

fn find_session(sessions: &Vec<SessionInfo>, id: &str) -> (res: Option<usize>)
    ensures
        res matches Some(i) ==> session_position(sessions@, id@) == Some(i as int) && i < sessions@.len(),
        res is None ==> session_position(sessions@, id@) is None,
{
    let mut i: usize = 0;
    while i < sessions.len()
        invariant
            i <= sessions.len(),
            forall|k: int| 0 <= k < i ==> (#[trigger] sessions@[k]).onion_id@ != id@,
        decreases sessions.len() - i,
    {
        if str_eq(sessions[i].onion_id.as_str(), id) {
            proof {
                lemma_session_position(sessions@, id@, i as int);
            }
            return Some(i);
        }
        i = i + 1;
    }
    proof {
        lemma_session_position(sessions@, id@, i as int);
    }
    None
}

/// The presence entry of a contact: online with the session's details when
/// a session is open (the session's name when it has one), offline
/// otherwise.
pub open spec fn contact_presence(c: PeerInfo, sessions: Seq<SessionInfo>) -> (
    Seq<char>,
    Seq<char>,
    bool,
    Option<Direction>,
    Option<u64>,
    Option<u64>,
) {
    match session_position(sessions, c.onion_id@) {
        Some(k) => {
            let s = sessions[k];
            (
                c.onion_id@,
                if s.display_name@.len() > 0 {
                    s.display_name@
                } else {
                    fallback_spec(c.display_name@, c.onion_id@)
                },
                true,
                Some(s.direction),
                Some(s.connected_since),
                s.rtt_ms,
            )
        },
        None => (c.onion_id@, fallback_spec(c.display_name@, c.onion_id@), false, None, None, None),
    }
}

/// Whether an identifier belongs to a contact.
pub open spec fn is_contact(contacts: Seq<PeerInfo>, id: Seq<char>) -> bool {
    exists|j: int| 0 <= j < contacts.len() && (#[trigger] contacts[j]).onion_id@ == id
}

/// The presence entries of the sessions with peers that are not contacts.
pub open spec fn stranger_presence(sessions: Seq<SessionInfo>, contacts: Seq<PeerInfo>) -> Seq<
    (Seq<char>, Seq<char>, bool, Option<Direction>, Option<u64>, Option<u64>),
>
    decreases sessions.len(),
{
    if sessions.len() == 0 {
        Seq::empty()
    } else {
        let init = stranger_presence(sessions.drop_last(), contacts);
        let s = sessions.last();
        if is_contact(contacts, s.onion_id@) {
            init
        } else {
            init.push(
                (
                    s.onion_id@,
                    fallback_spec(s.display_name@, s.onion_id@),
                    true,
                    Some(s.direction),
                    Some(s.connected_since),
                    s.rtt_ms,
                ),
            )
        }
    }
}

/// Strictly earlier in the presence list: online first, then by name.
pub open spec fn presence_before(
    a: (Seq<char>, Seq<char>, bool, Option<Direction>, Option<u64>, Option<u64>),
    b: (Seq<char>, Seq<char>, bool, Option<Direction>, Option<u64>, Option<u64>),
) -> bool {
    (a.2 && !b.2) || (a.2 == b.2 && !str_le(b.1, a.1))
}

/// Where `x` goes in a sorted list: after every entry that is not strictly
/// after it, so that equal entries keep their order.
pub open spec fn insert_pos(
    sorted: Seq<(Seq<char>, Seq<char>, bool, Option<Direction>, Option<u64>, Option<u64>)>,
    x: (Seq<char>, Seq<char>, bool, Option<Direction>, Option<u64>, Option<u64>),
) -> int
    decreases sorted.len(),
{
    if sorted.len() == 0 {
        0
    } else if presence_before(x, sorted.last()) {
        insert_pos(sorted.drop_last(), x)
    } else {
        sorted.len() as int
    }
}

/// The stable sort of a presence list: online first, then by name, equal
/// entries in their original order.
pub open spec fn sort_presence(l: Seq<(Seq<char>, Seq<char>, bool, Option<Direction>, Option<u64>, Option<u64>)>) -> Seq<
    (Seq<char>, Seq<char>, bool, Option<Direction>, Option<u64>, Option<u64>),
>
    decreases l.len(),
{
    if l.len() == 0 {
        l
    } else {
        let sorted = sort_presence(l.drop_last());
        sorted.insert(insert_pos(sorted, l.last()), l.last())
    }
}

proof fn lemma_insert_pos_bounds(
    sorted: Seq<(Seq<char>, Seq<char>, bool, Option<Direction>, Option<u64>, Option<u64>)>,
    x: (Seq<char>, Seq<char>, bool, Option<Direction>, Option<u64>, Option<u64>),
)
    ensures
        0 <= insert_pos(sorted, x) <= sorted.len(),
    decreases sorted.len(),
{
    if sorted.len() > 0 {
        lemma_insert_pos_bounds(sorted.drop_last(), x);
    }
}

proof fn lemma_sort_len(l: Seq<(Seq<char>, Seq<char>, bool, Option<Direction>, Option<u64>, Option<u64>)>)
    ensures
        sort_presence(l).len() == l.len(),
    decreases l.len(),
{
    if l.len() > 0 {
        lemma_sort_len(l.drop_last());
        lemma_insert_pos_bounds(sort_presence(l.drop_last()), l.last());
    }
}

/// Two entries in presence order: an online entry before an offline one,
/// and entries with the same status by name in string order.
pub open spec fn presence_in_order(
    a: (Seq<char>, Seq<char>, bool, Option<Direction>, Option<u64>, Option<u64>),
    b: (Seq<char>, Seq<char>, bool, Option<Direction>, Option<u64>, Option<u64>),
) -> bool {
    (a.2 && !b.2) || (a.2 == b.2 && str_le(a.1, b.1))
}

/// Each entry of a presence list is in presence order with the next.
pub open spec fn presence_sorted(r: Seq<(Seq<char>, Seq<char>, bool, Option<Direction>, Option<u64>, Option<u64>)>) -> bool {
    forall|i: int| #![trigger r[i]] 0 <= i < r.len() - 1 ==> presence_in_order(r[i], r[i + 1])
}

proof fn lemma_insert_pos_place(
    s: Seq<(Seq<char>, Seq<char>, bool, Option<Direction>, Option<u64>, Option<u64>)>,
    x: (Seq<char>, Seq<char>, bool, Option<Direction>, Option<u64>, Option<u64>),
)
    ensures
        0 <= insert_pos(s, x) <= s.len(),
        insert_pos(s, x) < s.len() ==> presence_before(x, s[insert_pos(s, x)]),
        insert_pos(s, x) > 0 ==> !presence_before(x, s[insert_pos(s, x) - 1]),
    decreases s.len(),
{
    if s.len() > 0 {
        let s1 = s.drop_last();
        lemma_insert_pos_place(s1, x);
        if presence_before(x, s.last()) {
            let p = insert_pos(s1, x);
            if p < s1.len() {
                assert(s[p] == s1[p]);
            }
            if p > 0 {
                assert(s[p - 1] == s1[p - 1]);
            }
        }
    }
}

proof fn lemma_insert_sorted(
    s: Seq<(Seq<char>, Seq<char>, bool, Option<Direction>, Option<u64>, Option<u64>)>,
    x: (Seq<char>, Seq<char>, bool, Option<Direction>, Option<u64>, Option<u64>),
)
    requires
        presence_sorted(s),
    ensures
        presence_sorted(s.insert(insert_pos(s, x), x)),
{
    let p = insert_pos(s, x);
    lemma_insert_pos_place(s, x);
    let r = s.insert(p, x);
    assert forall|i: int| #![trigger r[i]] 0 <= i < r.len() - 1 implies presence_in_order(r[i], r[i + 1]) by {
        if i + 1 < p {
            assert(r[i] == s[i] && r[i + 1] == s[i + 1]);
            assert(presence_in_order(s[i], s[i + 1]));
        } else if i + 1 == p {
            assert(r[i] == s[p - 1] && r[i + 1] == x);
        } else if i == p {
            assert(r[i] == x && r[i + 1] == s[p]);
            str_le_total(x.1, s[p].1);
        } else {
            assert(r[i] == s[i - 1] && r[i + 1] == s[i]);
            assert(presence_in_order(s[i - 1], s[i]));
        }
    }
}

/// The sorted presence list is in presence order throughout: online
/// entries first, and within each status the names in string order.
pub proof fn sorted_presence_is_ordered(l: Seq<(Seq<char>, Seq<char>, bool, Option<Direction>, Option<u64>, Option<u64>)>)
    ensures
        presence_sorted(sort_presence(l)),
        sort_presence(l).len() == l.len(),
    decreases l.len(),
{
    lemma_sort_len(l);
    if l.len() > 0 {
        sorted_presence_is_ordered(l.drop_last());
        lemma_insert_sorted(sort_presence(l.drop_last()), l.last());
    }
}

fn presence_lt(a: &PresenceInfo, b: &PresenceInfo) -> (r: bool)
    ensures
        r == presence_before(pview(*a), pview(*b)),
{
    (a.online && !b.online) || (a.online == b.online && !string_le(b.display_name.as_str(), a.display_name.as_str()))
}

/// Inserts `x` at its place in a sorted presence list.
fn insert_presence(sorted: &mut Vec<PresenceInfo>, x: PresenceInfo)
    ensures
        pviews(final(sorted)@) == pviews(old(sorted)@).insert(insert_pos(pviews(old(sorted)@), pview(x)), pview(x)),
{
    let ghost s = pviews(sorted@);
    let mut p: usize = sorted.len();
    assert(s.take(p as int) =~= s);
    while p > 0 && presence_lt(&x, &sorted[p - 1])
        invariant
            p <= sorted@.len(),
            sorted@ == old(sorted)@,
            s == pviews(sorted@),
            insert_pos(s, pview(x)) == insert_pos(s.take(p as int), pview(x)),
        decreases p,
    {
        assert(s.take(p as int).drop_last() =~= s.take(p - 1));
        assert(s.take(p as int).last() == pview(sorted@[p - 1]));
        p = p - 1;
    }
    proof {
        if p > 0 {
            assert(s.take(p as int).last() == pview(sorted@[p - 1]));
        }
    }
    sorted.insert(p, x);
    assert(pviews(sorted@) =~= s.insert(p as int, pview(x)));
}

/// The presence list: every contact, then every connected peer that is not
/// a contact, sorted online first and then by name (a stable sort).
pub fn presence_from(sessions: &Vec<SessionInfo>, contacts: &Vec<PeerInfo>) -> (res: Vec<PresenceInfo>)
    ensures
        pviews(res@) == sort_presence(
            contacts@.map_values(|c: PeerInfo| contact_presence(c, sessions@)) + stranger_presence(
                sessions@,
                contacts@,
            ),
        ),
        presence_sorted(pviews(res@)),
        res@.len() == contacts@.len() + stranger_presence(sessions@, contacts@).len(),
{
    let mut list: Vec<PresenceInfo> = Vec::new();
    let mut i: usize = 0;
    while i < contacts.len()
        invariant
            i <= contacts.len(),
            pviews(list@) == contacts@.take(i as int).map_values(|c: PeerInfo| contact_presence(c, sessions@)),
        decreases contacts.len() - i,
    {
        let c = &contacts[i];
        let entry = match find_session(sessions, c.onion_id.as_str()) {
            Some(k) => {
                let s = &sessions[k];
                let name = if char_count(s.display_name.as_str()) > 0 {
                    s.display_name.clone()
                } else {
                    fallback_name(c.display_name.as_str(), c.onion_id.as_str())
                };
                PresenceInfo {
                    onion_id: c.onion_id.clone(),
                    display_name: name,
                    online: true,
                    direction: Some(s.direction),
                    connected_since: Some(s.connected_since),
                    rtt_ms: s.rtt_ms,
                }
            },
            None => PresenceInfo {
                onion_id: c.onion_id.clone(),
                display_name: fallback_name(c.display_name.as_str(), c.onion_id.as_str()),
                online: false,
                direction: None,
                connected_since: None,
                rtt_ms: None,
            },
        };
        assert(pview(entry) == contact_presence(contacts@[i as int], sessions@));
        let ghost before = list@;
        let ghost pe = pview(entry);
        list.push(entry);
        assert(pviews(list@) =~= pviews(before).push(pe));
        assert(contacts@.take(i + 1).map_values(|c: PeerInfo| contact_presence(c, sessions@)) =~= contacts@.take(
            i as int,
        ).map_values(|c: PeerInfo| contact_presence(c, sessions@)).push(pe));
        i = i + 1;
    }
    assert(contacts@.take(contacts.len() as int) =~= contacts@);
    let ghost head = pviews(list@);
    let mut j: usize = 0;
    assert(sessions@.take(0) =~= Seq::<SessionInfo>::empty());
    assert(head + stranger_presence(sessions@.take(0), contacts@) =~= head);
    while j < sessions.len()
        invariant
            j <= sessions.len(),
            pviews(list@) == head + stranger_presence(sessions@.take(j as int), contacts@),
        decreases sessions.len() - j,
    {
        let s = &sessions[j];
        assert(sessions@.take(j + 1).drop_last() =~= sessions@.take(j as int));
        assert(sessions@.take(j + 1).last() == sessions@[j as int]);
        let ghost before = list@;
        let known = is_contact_id(contacts, s.onion_id.as_str());
        if !known {
            let entry = PresenceInfo {
                onion_id: s.onion_id.clone(),
                display_name: fallback_name(s.display_name.as_str(), s.onion_id.as_str()),
                online: true,
                direction: Some(s.direction),
                connected_since: Some(s.connected_since),
                rtt_ms: s.rtt_ms,
            };
            let ghost pe = pview(entry);
            list.push(entry);
            assert(pviews(list@) =~= pviews(before).push(pe));
        }
        j = j + 1;
        assert(pviews(list@) =~= head + stranger_presence(sessions@.take(j as int), contacts@));
    }
    assert(sessions@.take(sessions.len() as int) =~= sessions@);
    let ghost all = pviews(list@);
    let mut sorted: Vec<PresenceInfo> = Vec::new();
    let mut rest = list;
    assert(all.take(0) =~= Seq::empty());
    assert(all.skip(0) =~= all);
    let ghost mut k: int = 0;
    while rest.len() > 0
        invariant
            0 <= k <= all.len(),
            pviews(rest@) == all.skip(k),
            pviews(sorted@) == sort_presence(all.take(k)),
        decreases rest.len(),
    {
        assert(pviews(rest@).len() == rest@.len());
        assert(k < all.len());
        assert(pviews(rest@)[0] == all[k]);
        let ghost old_rest = rest@;
        let x = rest.remove(0);
        assert(rest@ =~= old_rest.skip(1));
        assert forall|q: int| 0 <= q < pviews(rest@).len() implies pviews(rest@)[q] == all.skip(k + 1)[q] by {
            assert(pviews(rest@)[q] == pview(old_rest[q + 1]));
            assert(pviews(old_rest)[q + 1] == all.skip(k)[q + 1]);
        }
        assert(pview(x) == all[k]);
        assert(all.take(k + 1).drop_last() =~= all.take(k));
        assert(all.take(k + 1).last() == all[k]);
        insert_presence(&mut sorted, x);
        assert(pviews(rest@) =~= all.skip(k + 1));
        proof {
            k = k + 1;
        }
    }
    assert(all.take(k) =~= all);
    proof {
        sorted_presence_is_ordered(all);
        assert(pviews(sorted@).len() == sorted@.len());
    }
    sorted
}

fn is_contact_id(contacts: &Vec<PeerInfo>, id: &str) -> (r: bool)
    ensures
        r == is_contact(contacts@, id@),
{
    let mut i: usize = 0;
    while i < contacts.len()
        invariant
            i <= contacts.len(),
            forall|k: int| 0 <= k < i ==> (#[trigger] contacts@[k]).onion_id@ != id@,
        decreases contacts.len() - i,
    {
        if str_eq(contacts[i].onion_id.as_str(), id) {
            assert(contacts@[i as int].onion_id@ == id@);
            return true;
        }
        i = i + 1;
    }
    false
}

/// Whether a session's reader keeps going after a frame arrived: the
/// connection must still be the peer's current one (`current_conn` is the
/// connection number now registered for the peer, if any), and the frame
/// must not end the session: a goodbye, or a handshake frame after the
/// handshake.
pub fn session_continues(current_conn: Option<u64>, conn_id: u64, frame: &Frame) -> (go_on: bool)
    ensures
        go_on == (current_conn == Some(conn_id) && !(frame is Bye || frame is Hello || frame is Welcome)),
{
    let current = match current_conn {
        Some(c) => c == conn_id,
        None => false,
    };
    let ends = match frame {
        Frame::Bye { .. } => true,
        Frame::Hello { .. } => true,
        Frame::Welcome { .. } => true,
        _ => false,
    };
    current && !ends
}

/// When a second session with the same peer comes up: the one opened by
/// the smaller initiator identifier wins. `true` when the existing session
/// stays and the new one is dropped.
pub fn keep_existing_session(existing_initiator: &str, new_initiator: &str) -> (keep: bool)
    ensures
        keep == str_le(existing_initiator@, new_initiator@),
{
    string_le(existing_initiator, new_initiator)
}

/// Round-trip time from a `Pong` carrying the time its `Ping` was sent.
pub fn rtt_ms(now_ms: u64, sent_ms: u64) -> (rtt: u64)
    ensures
        rtt == if now_ms >= sent_ms {
            (now_ms - sent_ms) as u64
        } else {
            0
        },
{
    if now_ms >= sent_ms {
        now_ms - sent_ms
    } else {
        0
    }
}

/// The fields of a profile update from `peer`: all sanitized; `None` when
/// the update claims to be ours or carries no name.
pub fn profile_update_fields(
    peer: &str,
    my_id: &str,
    display_name: &str,
    bio: &str,
    status: &str,
    accent: &str,
) -> (res: Option<(String, String, String, String)>)
    ensures
        if peer@ == my_id@ || sanitize_spec(display_name@).len() == 0 {
            res is None
        } else {
            res matches Some((n, b, s, a)) && n@ == sanitize_spec(display_name@) && b@ == sanitize_spec(bio@)
                && s@ == sanitize_spec(status@) && a@ == sanitize_spec(accent@)
        },
{
    let name = sanitize_name(display_name);
    if str_eq(peer, my_id) || char_count(name.as_str()) == 0 {
        return None;
    }
    Some((name, sanitize_name(bio), sanitize_name(status), sanitize_name(accent)))
}

/// What to do with the avatar of a profile update.
#[derive(Debug)]
pub enum AvatarUpdate {
    /// Store these image bytes.
    Store(Vec<u8>),
    /// The peer has no avatar any more.
    Remove,
    /// Unreadable or too large: leave things as they are.
    Keep,
}

/// The avatar decision: an avatar shorter than 120000 bytes of base64 that
/// decodes to 1 to `AVATAR_MAX_BYTES` bytes is stored; an empty one is
/// removed; anything else is ignored.
pub open spec fn avatar_update_spec(a: Seq<char>) -> Option<Option<Seq<u8>>> {
    if a.len() == 0 {
        Some(None)
    } else if vstd::utf8::encode_utf8(a).len() < 120_000 {
        match base64_decode_spec(a) {
            Some(bytes) => if bytes.len() > 0 && bytes.len() <= AVATAR_MAX_BYTES {
                Some(Some(bytes))
            } else {
                None
            },
            None => None,
        }
    } else {
        None
    }
}

pub fn avatar_update(avatar_b64: &str) -> (res: AvatarUpdate)
    ensures
        match avatar_update_spec(avatar_b64@) {
            Some(None) => res is Remove,
            Some(Some(b)) => res matches AvatarUpdate::Store(v) && v@ == b,
            None => res is Keep,
        },
{
    if avatar_b64.is_empty() {
        return AvatarUpdate::Remove;
    }
    let n = avatar_b64.as_bytes().len();
    assert(n == vstd::utf8::encode_utf8(avatar_b64@).len());
    if n >= 120_000 {
        return AvatarUpdate::Keep;
    }
    match base64_decode(avatar_b64) {
        Some(bytes) => {
            assert(bytes.deep_view() =~= bytes@);
            assert(base64_decode_spec(avatar_b64@) == Some(bytes@));
            if bytes.len() > 0 && bytes.len() <= AVATAR_MAX_BYTES {
                AvatarUpdate::Store(bytes)
            } else {
                AvatarUpdate::Keep
            }
        },
        None => AvatarUpdate::Keep,
    }
}

/// Whether a peer has an avatar after an update: as stored when it was
/// written or removed, unchanged when the update's avatar was ignored.
pub fn has_avatar_after(previous: bool, stored: bool, avatar_empty: bool) -> (has: bool)
    ensures
        has == if stored || avatar_empty {
            stored
        } else {
            previous
        },
{
    if stored || avatar_empty {
        stored
    } else {
        previous
    }
}

/// What a friend request did.
#[derive(Debug, PartialEq, Eq, Clone, Copy)]
pub enum FriendRequestOutcome {
    /// From ourselves, nameless, or from a contact: nothing happens.
    Ignored,
    /// A request from this peer was pending: its name was updated.
    Renamed,
    /// A new pending request was recorded.
    Added,
}

/// Index of the first pending request from `id`.
pub open spec fn request_position(requests: Seq<PendingRequest>, id: Seq<char>) -> Option<int> {
    if exists|i: int| 0 <= i < requests.len() && (#[trigger] requests[i]).onion_id@ == id {
        Some(
            choose|i: int|
                0 <= i < requests.len() && (#[trigger] requests[i]).onion_id@ == id && forall|k: int|
                    0 <= k < i ==> requests[k].onion_id@ != id,
        )
    } else {
        None
    }
}

fn find_request(requests: &Vec<PendingRequest>, id: &str) -> (res: Option<usize>)
    ensures
        res matches Some(i) ==> request_position(requests@, id@) == Some(i as int) && i < requests@.len()
            && requests@[i as int].onion_id@ == id@,
        res is None ==> request_position(requests@, id@) is None,
{
    let mut i: usize = 0;
    while i < requests.len()
        invariant
            i <= requests.len(),
            forall|k: int| 0 <= k < i ==> (#[trigger] requests@[k]).onion_id@ != id@,
        decreases requests.len() - i,
    {
        if str_eq(requests[i].onion_id.as_str(), id) {
            let ghost j = choose|j: int|
                0 <= j < requests@.len() && (#[trigger] requests@[j]).onion_id@ == id@ && forall|k: int|
                    0 <= k < j ==> requests@[k].onion_id@ != id@;
            assert(requests@[i as int].onion_id@ == id@);
            assert(j == i) by {
                if j < i {
                    assert(requests@[j].onion_id@ != id@);
                } else if j > i {
                    assert(requests@[i as int].onion_id@ != id@);
                }
            }
            return Some(i);
        }
        i = i + 1;
    }
    None
}

fn rename_request(requests: &mut Vec<PendingRequest>, i: usize, name: String)
    requires
        i < old(requests)@.len(),
    ensures
        final(requests)@.len() == old(requests)@.len(),
        final(requests)@[i as int].onion_id == old(requests)@[i as int].onion_id,
        final(requests)@[i as int].display_name@ == name@,
        final(requests)@[i as int].received_at == old(requests)@[i as int].received_at,
        forall|k: int| 0 <= k < old(requests)@.len() && k != i ==> #[trigger] final(requests)@[k] == old(requests)@[k],
{
    let mut r = requests.remove(i);
    r.display_name = name;
    requests.insert(i, r);
}

/// A friend request from `peer` with the name it gave (sanitized).
#[verifier::spinoff_prover]
pub fn apply_friend_request(
    requests: &mut Vec<PendingRequest>,
    contacts: &Vec<PeerInfo>,
    peer: &str,
    my_id: &str,
    display_name: &str,
    now_ms: u64,
) -> (res: (FriendRequestOutcome, String))
    ensures
        res.1@ == sanitize_spec(display_name@),
        ({
            let o = old(requests)@;
            let f = final(requests)@;
            if peer@ == my_id@ || sanitize_spec(display_name@).len() == 0 || is_contact(contacts@, peer@) {
                res.0 == FriendRequestOutcome::Ignored && f == o
            } else {
                match request_position(o, peer@) {
                    Some(i) => res.0 == FriendRequestOutcome::Renamed && f.len() == o.len() && f[i].onion_id
                        == o[i].onion_id && f[i].display_name@ == sanitize_spec(display_name@)
                        && f[i].received_at == o[i].received_at && forall|k: int|
                        0 <= k < o.len() && k != i ==> #[trigger] f[k] == o[k],
                    None => res.0 == FriendRequestOutcome::Added && f.len() == o.len() + 1 && f.drop_last()
                        == o && f.last().onion_id@ == peer@ && f.last().display_name@ == sanitize_spec(
                        display_name@,
                    ) && f.last().received_at == now_ms,
                }
            }
        }),
{
    let name = sanitize_name(display_name);
    if str_eq(peer, my_id) || char_count(name.as_str()) == 0 || is_contact_id(contacts, peer) {
        return (FriendRequestOutcome::Ignored, name);
    }
    match find_request(requests, peer) {
        Some(i) => {
            rename_request(requests, i, name.clone());
            (FriendRequestOutcome::Renamed, name)
        },
        None => {
            requests.push(
                PendingRequest { onion_id: String::from_str(peer), display_name: name.clone(), received_at: now_ms },
            );
            assert(requests@.drop_last() =~= old(requests)@);
            (FriendRequestOutcome::Added, name)
        },
    }
}

/// What happens to an envelope a peer asks us to relay.
#[derive(Debug, PartialEq, Eq, Clone, Copy)]
pub enum RelayDecision {
    /// It is addressed to us: process it as a relayed item.
    ForUs,
    /// Larger than `RELAY_MAX_PAYLOAD`: refused.
    TooLarge,
    /// `RELAY_MAX_ITEMS` envelopes are already held: refused.
    QueueFull,
    /// The peer already has `RELAY_MAX_PER_SENDER` envelopes held: refused.
    SenderQuota,
    /// Held until the recipient connects.
    Store,
}

/// The decision on a relay offer: `total` envelopes are held, `from_sender`
/// of them from the offering peer.
pub fn relay_offer_decision(recipient: &str, my_id: &str, payload_len: usize, total: u64, from_sender: u64) -> (d: RelayDecision)
    ensures
        d == if recipient@ == my_id@ {
            RelayDecision::ForUs
        } else if payload_len > RELAY_MAX_PAYLOAD {
            RelayDecision::TooLarge
        } else if total >= RELAY_MAX_ITEMS {
            RelayDecision::QueueFull
        } else if from_sender >= RELAY_MAX_PER_SENDER {
            RelayDecision::SenderQuota
        } else {
            RelayDecision::Store
        },
{
    if str_eq(recipient, my_id) {
        RelayDecision::ForUs
    } else if payload_len > RELAY_MAX_PAYLOAD {
        RelayDecision::TooLarge
    } else if total >= RELAY_MAX_ITEMS {
        RelayDecision::QueueFull
    } else if from_sender >= RELAY_MAX_PER_SENDER {
        RelayDecision::SenderQuota
    } else {
        RelayDecision::Store
    }
}

/// The oldest time of held envelopes that are kept: `RELAY_TTL_MS` before
/// now, or 0.
pub fn relay_cutoff(now_ms: u64) -> (cutoff: u64)
    ensures
        cutoff == if now_ms >= RELAY_TTL_MS {
            (now_ms - RELAY_TTL_MS) as u64
        } else {
            0
        },
{
    if now_ms >= RELAY_TTL_MS {
        now_ms - RELAY_TTL_MS
    } else {
        0
    }
}

/// The connected peers other than `peer`, in order: the relays of a message
/// for `peer`.
pub open spec fn relays_for(sessions: Seq<String>, peer: Seq<char>) -> Seq<Seq<char>>
    decreases sessions.len(),
{
    if sessions.len() == 0 {
        Seq::empty()
    } else {
        let init = relays_for(sessions.drop_last(), peer);
        if sessions.last()@ == peer {
            init
        } else {
            init.push(sessions.last()@)
        }
    }
}

/// The relays of a message for `peer` when no session to it is open.
pub fn relay_targets(sessions: &Vec<String>, peer: &str) -> (res: Vec<String>)
    ensures
        crate::tor_control::views(res@) == relays_for(sessions@, peer@),
{
    let mut out: Vec<String> = Vec::new();
    let mut i: usize = 0;
    while i < sessions.len()
        invariant
            i <= sessions.len(),
            crate::tor_control::views(out@) == relays_for(sessions@.take(i as int), peer@),
        decreases sessions.len() - i,
    {
        assert(sessions@.take(i + 1).drop_last() =~= sessions@.take(i as int));
        assert(sessions@.take(i + 1).last() == sessions@[i as int]);
        let ghost before = out@;
        if !str_eq(sessions[i].as_str(), peer) {
            out.push(sessions[i].clone());
            assert(crate::tor_control::views(out@) =~= crate::tor_control::views(before).push(sessions@[i as int]@));
        }
        i = i + 1;
    }
    assert(sessions@.take(sessions.len() as int) =~= sessions@);
    out
}

/// The members of a group a message goes to directly: every member but us
/// with an open session, in member order.
pub open spec fn direct_members(members: Seq<MemberEntry>, me: Seq<char>, sessions: Seq<String>) -> Seq<Seq<char>>
    decreases members.len(),
{
    if members.len() == 0 {
        Seq::empty()
    } else {
        let init = direct_members(members.drop_last(), me, sessions);
        let id = members.last().onion_id@;
        if id != me && online_has(sessions, id) {
            init.push(id)
        } else {
            init
        }
    }
}

/// The relay routes of a group message: for every member but us without an
/// open session, in member order, every connected peer but that member, as
/// (recipient, relay).
pub open spec fn relay_routes(members: Seq<MemberEntry>, me: Seq<char>, sessions: Seq<String>) -> Seq<
    (Seq<char>, Seq<char>),
>
    decreases members.len(),
{
    if members.len() == 0 {
        Seq::empty()
    } else {
        let init = relay_routes(members.drop_last(), me, sessions);
        let id = members.last().onion_id@;
        if id != me && !online_has(sessions, id) {
            init + relays_for(sessions, id).map_values(|r: Seq<char>| (id, r))
        } else {
            init
        }
    }
}

/// Where a group message goes: the members reached directly, and the
/// (recipient, relay) pairs for the others.
pub fn group_routes(members: &Vec<MemberEntry>, my_id: &str, sessions: &Vec<String>) -> (res: (Vec<String>, Vec<(String, String)>))
    ensures
        crate::tor_control::views(res.0@) == direct_members(members@, my_id@, sessions@),
        res.1@.map_values(|p: (String, String)| (p.0@, p.1@)) == relay_routes(members@, my_id@, sessions@),
{
    let mut direct: Vec<String> = Vec::new();
    let mut relays: Vec<(String, String)> = Vec::new();
    let mut i: usize = 0;
    while i < members.len()
        invariant
            i <= members.len(),
            crate::tor_control::views(direct@) == direct_members(members@.take(i as int), my_id@, sessions@),
            relays@.map_values(|p: (String, String)| (p.0@, p.1@)) == relay_routes(
                members@.take(i as int),
                my_id@,
                sessions@,
            ),
        decreases members.len() - i,
    {
        let id = members[i].onion_id.as_str();
        assert(members@.take(i + 1).drop_last() =~= members@.take(i as int));
        assert(members@.take(i + 1).last() == members@[i as int]);
        let ghost before_direct = direct@;
        let ghost before_relays = relays@.map_values(|p: (String, String)| (p.0@, p.1@));
        if !str_eq(id, my_id) {
            if is_online(sessions, id) {
                direct.push(String::from_str(id));
                assert(crate::tor_control::views(direct@) =~= crate::tor_control::views(before_direct).push(id@));
            } else {
                let targets = relay_targets(sessions, id);
                let mut j: usize = 0;
                while j < targets.len()
                    invariant
                        j <= targets.len(),
                        crate::tor_control::views(targets@) == relays_for(sessions@, id@),
                        relays@.map_values(|p: (String, String)| (p.0@, p.1@)) == before_relays
                            + crate::tor_control::views(targets@).take(j as int).map_values(
                            |r: Seq<char>| (id@, r),
                        ),
                    decreases targets.len() - j,
                {
                    let ghost prev = relays@.map_values(|p: (String, String)| (p.0@, p.1@));
                    relays.push((String::from_str(id), targets[j].clone()));
                    assert(relays@.map_values(|p: (String, String)| (p.0@, p.1@)) =~= prev.push(
                        (id@, targets@[j as int]@),
                    ));
                    j = j + 1;
                    assert(crate::tor_control::views(targets@).take(j as int).map_values(
                        |r: Seq<char>| (id@, r),
                    ) =~= crate::tor_control::views(targets@).take(j - 1).map_values(|r: Seq<char>| (id@, r)).push(
                        (id@, targets@[j - 1]@),
                    ));
                }
                assert(crate::tor_control::views(targets@).take(targets.len() as int) =~= crate::tor_control::views(
                    targets@,
                ));
            }
        }
        i = i + 1;
    }
    assert(members@.take(members.len() as int) =~= members@);
    (direct, relays)
}

/// The contacts to dial: every contact but us without an open session, in
/// contact order.
pub open spec fn dial_spec(contacts: Seq<PeerInfo>, me: Seq<char>, online: Seq<String>) -> Seq<Seq<char>>
    decreases contacts.len(),
{
    if contacts.len() == 0 {
        Seq::empty()
    } else {
        let init = dial_spec(contacts.drop_last(), me, online);
        let id = contacts.last().onion_id@;
        if id == me || online_has(online, id) {
            init
        } else {
            init.push(id)
        }
    }
}

pub fn dial_targets(contacts: &Vec<PeerInfo>, my_id: &str, online: &Vec<String>) -> (res: Vec<String>)
    ensures
        crate::tor_control::views(res@) == dial_spec(contacts@, my_id@, online@),
{
    let mut out: Vec<String> = Vec::new();
    let mut i: usize = 0;
    while i < contacts.len()
        invariant
            i <= contacts.len(),
            crate::tor_control::views(out@) == dial_spec(contacts@.take(i as int), my_id@, online@),
        decreases contacts.len() - i,
    {
        assert(contacts@.take(i + 1).drop_last() =~= contacts@.take(i as int));
        assert(contacts@.take(i + 1).last() == contacts@[i as int]);
        let id = contacts[i].onion_id.as_str();
        let ghost before = out@;
        if !str_eq(id, my_id) && !is_online(online, id) {
            out.push(String::from_str(id));
            assert(crate::tor_control::views(out@) =~= crate::tor_control::views(before).push(id@));
        }
        i = i + 1;
    }
    assert(contacts@.take(contacts.len() as int) =~= contacts@);
    out
}

fn set_contact_name(contacts: &mut Vec<PeerInfo>, i: usize, name: &str)
    requires
        i < old(contacts)@.len(),
    ensures
        final(contacts)@.len() == old(contacts)@.len(),
        final(contacts)@[i as int].display_name@ == name@,
        final(contacts)@[i as int].onion_id == old(contacts)@[i as int].onion_id,
        final(contacts)@[i as int].fingerprint == old(contacts)@[i as int].fingerprint,
        final(contacts)@[i as int].added_at == old(contacts)@[i as int].added_at,
        forall|k: int| 0 <= k < old(contacts)@.len() && k != i ==> #[trigger] final(contacts)@[k] == old(contacts)@[k],
{
    let mut c = contacts.remove(i);
    c.display_name = String::from_str(name);
    contacts.insert(i, c);
}

/// A peer's new name reaches its contact entry: the first contact with its
/// identifier is renamed. Returns whether one was.
#[verifier::spinoff_prover]
pub fn rename_contact(contacts: &mut Vec<PeerInfo>, peer: &str, name: &str) -> (changed: bool)
    ensures
        match crate::groups::contact_position(old(contacts)@, peer@) {
            None => !changed && final(contacts)@ == old(contacts)@,
            Some(i) => changed && final(contacts)@.len() == old(contacts)@.len()
                && final(contacts)@[i].display_name@ == name@ && final(contacts)@[i].onion_id
                == old(contacts)@[i].onion_id && final(contacts)@[i].fingerprint == old(contacts)@[i].fingerprint
                && final(contacts)@[i].added_at == old(contacts)@[i].added_at && forall|k: int|
                0 <= k < old(contacts)@.len() && k != i ==> #[trigger] final(contacts)@[k] == old(contacts)@[k],
        },
{
    match crate::groups::find_contact(contacts, peer) {
        None => false,
        Some(i) => {
            set_contact_name(contacts, i, name);
            true
        },
    }
}

/// The members renamed in one group: the first entry with the peer's
/// identifier, if any.
pub open spec fn renamed_first(members: Seq<MemberEntry>, peer: Seq<char>, name: Seq<char>, m: Seq<MemberEntry>) -> bool {
    if has_member(members, peer) {
        exists|i: int|
            0 <= i < members.len() && (#[trigger] members[i]).onion_id@ == peer && (forall|k: int|
                0 <= k < i ==> members[k].onion_id@ != peer) && m.len() == members.len() && m[i].onion_id
                == members[i].onion_id && m[i].display_name@ == name && forall|k: int|
                0 <= k < members.len() && k != i ==> #[trigger] m[k] == members[k]
    } else {
        m == members
    }
}

fn rename_member(members: &mut Vec<MemberEntry>, peer: &str, name: &str) -> (changed: bool)
    ensures
        renamed_first(old(members)@, peer@, name@, final(members)@),
        changed == has_member(old(members)@, peer@),
{
    let mut i: usize = 0;
    while i < members.len()
        invariant
            i <= members.len(),
            members@ == old(members)@,
            forall|k: int| 0 <= k < i ==> (#[trigger] members@[k]).onion_id@ != peer@,
        decreases members.len() - i,
    {
        if str_eq(members[i].onion_id.as_str(), peer) {
            let mut m = members.remove(i);
            m.display_name = String::from_str(name);
            members.insert(i, m);
            assert(old(members)@[i as int].onion_id@ == peer@);
            return true;
        }
        i = i + 1;
    }
    assert(!has_member(old(members)@, peer@)) by {
        if has_member(old(members)@, peer@) {
            let j = choose|j: int| 0 <= j < old(members)@.len() && (#[trigger] old(members)@[j]).onion_id@ == peer@;
            assert(members@[j].onion_id@ != peer@);
        }
    }
    false
}

/// A peer's new name reaches every group it belongs to. Returns whether any
/// group changed. Group identities, keys and member sets are untouched.
pub fn rename_in_groups(groups: &mut Vec<GroupState>, peer: &str, name: &str) -> (changed: bool)
    ensures
        final(groups)@.len() == old(groups)@.len(),
        forall|g: int|
            0 <= g < old(groups)@.len() ==> {
                &&& renamed_first(old(groups)@[g].members@, peer@, name@, (#[trigger] final(groups)@[g]).members@)
                &&& final(groups)@[g].group_id == old(groups)@[g].group_id
                &&& final(groups)@[g].name == old(groups)@[g].name
                &&& final(groups)@[g].key_b64 == old(groups)@[g].key_b64
                &&& final(groups)@[g].owner_id == old(groups)@[g].owner_id
                &&& final(groups)@[g].created_ms == old(groups)@[g].created_ms
            },
        changed == exists|g: int| 0 <= g < old(groups)@.len() && has_member((#[trigger] old(groups)@[g]).members@, peer@),
{
    let mut changed = false;
    let mut i: usize = 0;
    while i < groups.len()
        invariant
            i <= groups.len(),
            groups@.len() == old(groups)@.len(),
            forall|g: int|
                0 <= g < i ==> {
                    &&& renamed_first(old(groups)@[g].members@, peer@, name@, (#[trigger] groups@[g]).members@)
                    &&& groups@[g].group_id == old(groups)@[g].group_id
                    &&& groups@[g].name == old(groups)@[g].name
                    &&& groups@[g].key_b64 == old(groups)@[g].key_b64
                    &&& groups@[g].owner_id == old(groups)@[g].owner_id
                    &&& groups@[g].created_ms == old(groups)@[g].created_ms
                },
            forall|g: int| i <= g < groups@.len() ==> #[trigger] groups@[g] == old(groups)@[g],
            changed == exists|g: int| 0 <= g < i && has_member((#[trigger] old(groups)@[g]).members@, peer@),
        decreases groups.len() - i,
    {
        let ghost before = groups@;
        let mut state = groups.remove(i);
        let hit = rename_member(&mut state.members, peer, name);
        groups.insert(i, state);
        proof {
            assert forall|g: int| 0 <= g < i implies #[trigger] groups@[g] == before[g] by {}
            if hit {
                assert(has_member(old(groups)@[i as int].members@, peer@));
            }
        }
        changed = changed || hit;
        i = i + 1;
        assert(changed == exists|g: int| 0 <= g < i && has_member((#[trigger] old(groups)@[g]).members@, peer@)) by {
            if changed && !hit {
                let g = choose|g: int| 0 <= g < i - 1 && has_member((#[trigger] old(groups)@[g]).members@, peer@);
                assert(0 <= g < i);
            }
            if exists|g: int| 0 <= g < i && has_member((#[trigger] old(groups)@[g]).members@, peer@) {
                let g = choose|g: int| 0 <= g < i && has_member((#[trigger] old(groups)@[g]).members@, peer@);
                if g < i - 1 {
                } else {
                    assert(hit);
                }
            }
        }
    }
    changed
}

} // verus!

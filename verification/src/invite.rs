//! Invitation links: `void://invite?onion=<id>&fp=<fingerprint>&n=<name>`,
//! with the display name percent-encoded.

use vstd::prelude::*;
use vstd::utf8::{
    decode_utf8, encode_utf8, encode_utf8_decode_utf8, encode_utf8_valid_utf8, is_ascii_chars,
    is_ascii_chars_encode_utf8, valid_utf8,
};
use crate::base32::base32_text_alphabet;
use crate::crypto::{onion_id_bytes, onion_id_canonical, onion_id_is_valid, onion_public_spec};
use crate::percent::{
    is_alnum_byte, pct_decode, pct_encode, pct_encode_safe, pct_roundtrip, pct_safe, percent_decode,
    percent_encode,
};
use crate::primitives::to_lowercase;
use crate::std_glue::{ascii_string, chars_of, string_from_chars, utf8_to_string};
use crate::text::{char_count, is_ascii_hexdigit, is_hex_digit, is_white_space, trim, trim_of_padded, trim_of_tight_text, trim_spec};

verus! {

/// The longest display name an invitation may carry, in characters.
pub const MAX_DISPLAY_NAME: usize = 32;

/// The characters of `void://invite`.
pub open spec fn scheme_chars() -> Seq<char> {
    seq!['v', 'o', 'i', 'd', ':', '/', '/', 'i', 'n', 'v', 'i', 't', 'e']
}

pub open spec fn onion_key() -> Seq<char> {
    seq!['o', 'n', 'i', 'o', 'n']
}

pub open spec fn fp_key() -> Seq<char> {
    seq!['f', 'p']
}

pub open spec fn name_key() -> Seq<char> {
    seq!['n']
}

/// Why a link was refused.
#[derive(Debug)]
pub enum InviteError {
    Invalid(String),
}

impl InviteError {
    /// The human-readable description of the error.
    pub fn message(&self) -> (res: String)
        ensures
            match self {
                InviteError::Invalid(d) => res@ == "lien d'invitation invalide: "@ + d@,
            },
    {
        match self {
            InviteError::Invalid(d) => String::from_str("lien d'invitation invalide: ").concat(d.as_str()),
        }
    }
}

/// What an invitation link carries.
#[derive(Clone, Debug, PartialEq)]
pub struct Invite {
    pub onion_id: String,
    pub fingerprint: String,
    pub display_name: String,
}

/// Characters of ASCII bytes.
pub open spec fn ascii_chars(b: Seq<u8>) -> Seq<char> {
    b.map_values(|x: u8| x as char)
}

/// The link of an invitation.
pub open spec fn link_spec(onion: Seq<char>, fp: Seq<char>, name: Seq<char>) -> Seq<char> {
    scheme_chars() + seq!['?'] + onion_key() + seq!['='] + onion + seq!['&'] + fp_key() + seq!['=']
        + fp + seq!['&'] + name_key() + seq!['='] + ascii_chars(pct_encode(encode_utf8(name)))
}

/// The pieces of `s` between occurrences of `sep` (`str::split`).
pub open spec fn split_on(s: Seq<char>, sep: char) -> Seq<Seq<char>>
    decreases s.len(),
{
    if s.len() == 0 {
        seq![Seq::<char>::empty()]
    } else {
        let init = split_on(s.drop_last(), sep);
        if s.last() == sep {
            init.push(Seq::<char>::empty())
        } else {
            init.update(init.len() - 1, init.last().push(s.last()))
        }
    }
}

/// Index of the first `c` in `s`, or `s.len()` when there is none.
pub open spec fn find_char(s: Seq<char>, c: char) -> int
    decreases s.len(),
{
    if s.len() == 0 {
        0
    } else if s[0] == c {
        0
    } else {
        1 + find_char(s.skip(1), c)
    }
}

/// What the query has said so far: the onion identifier, the fingerprint
/// and the display name (empty until given).
pub open spec fn scan_init() -> (Option<Seq<char>>, Option<Seq<char>>, Seq<char>) {
    (None, None, Seq::<char>::empty())
}

/// One `key=value` pair of the query. A pair without `=` or with another
/// key changes nothing; a later pair overrides an earlier one; a name that
/// does not decode to UTF-8 stops the parse.
pub open spec fn scan_step(st: (Option<Seq<char>>, Option<Seq<char>>, Seq<char>), p: Seq<char>) -> Option<
    (Option<Seq<char>>, Option<Seq<char>>, Seq<char>),
> {
    let i = find_char(p, '=');
    if i >= p.len() {
        Some(st)
    } else {
        let key = p.take(i);
        let value = p.skip(i + 1);
        if key == onion_key() {
            Some((Some(value), st.1, st.2))
        } else if key == fp_key() {
            Some((st.0, Some(value), st.2))
        } else if key == name_key() {
            let d = pct_decode(encode_utf8(value));
            if valid_utf8(d) {
                Some((st.0, st.1, decode_utf8(d)))
            } else {
                None
            }
        } else {
            Some(st)
        }
    }
}

pub open spec fn scan_pairs(ps: Seq<Seq<char>>) -> Option<(Option<Seq<char>>, Option<Seq<char>>, Seq<char>)>
    decreases ps.len(),
{
    if ps.len() == 0 {
        Some(scan_init())
    } else {
        match scan_pairs(ps.drop_last()) {
            None => None,
            Some(st) => scan_step(st, ps.last()),
        }
    }
}

/// A fingerprint as accepted: 1 to 64 hexadecimal digits.
pub open spec fn fp_ok(f: Seq<char>) -> bool {
    &&& f.len() > 0
    &&& f.len() <= 64
    &&& forall|i: int| 0 <= i < f.len() ==> is_hex_digit(#[trigger] f[i])
}

pub open spec fn ascii_lower_char(c: char) -> char {
    if 'A' <= c <= 'Z' {
        ((c as u8) + 32) as char
    } else {
        c
    }
}

pub open spec fn ascii_lower(s: Seq<char>) -> Seq<char> {
    s.map_values(|c: char| ascii_lower_char(c))
}

pub open spec fn msg_scheme() -> Seq<char> {
    "le lien doit commencer par void://invite"@
}

pub open spec fn msg_params() -> Seq<char> {
    "paramètres manquants"@
}

pub open spec fn msg_name() -> Seq<char> {
    "nom illisible"@
}

pub open spec fn msg_onion_missing() -> Seq<char> {
    "paramètre onion manquant"@
}

pub open spec fn msg_onion_invalid() -> Seq<char> {
    "adresse oignon invalide"@
}

pub open spec fn msg_fp_missing() -> Seq<char> {
    "paramètre fp manquant"@
}

pub open spec fn msg_fp() -> Seq<char> {
    "empreinte invalide"@
}

pub open spec fn msg_long() -> Seq<char> {
    "nom trop long"@
}

/// The outcome of parsing a link: the onion identifier, the lower-cased
/// fingerprint and the display name, or the message of the first check that
/// fails.
pub open spec fn invite_parse_spec(link: Seq<char>) -> Result<(Seq<char>, Seq<char>, Seq<char>), Seq<char>> {
    let t = trim_spec(link);
    if !(t.len() >= 13 && t.take(13) == scheme_chars()) {
        Err(msg_scheme())
    } else if t.len() == 13 || t[13] != '?' {
        Err(msg_params())
    } else {
        match scan_pairs(split_on(t.skip(14), '&')) {
            None => Err(msg_name()),
            Some(st) => match st.0 {
                None => Err(msg_onion_missing()),
                Some(o) => if onion_public_spec(o) is None {
                    Err(msg_onion_invalid())
                } else {
                    match st.1 {
                        None => Err(msg_fp_missing()),
                        Some(f) => if !fp_ok(f) {
                            Err(msg_fp())
                        } else if st.2.len() > MAX_DISPLAY_NAME {
                            Err(msg_long())
                        } else {
                            Ok((o, ascii_lower(f), st.2))
                        },
                    }
                },
            },
        }
    }
}

pub open spec fn ostr(o: Option<String>) -> Option<Seq<char>> {
    match o {
        Some(s) => Some(s@),
        None => None,
    }
}

proof fn lemma_split_len(s: Seq<char>, sep: char)
    ensures
        split_on(s, sep).len() >= 1,
    decreases s.len(),
{
    if s.len() > 0 {
        lemma_split_len(s.drop_last(), sep);
    }
}

proof fn lemma_find_char(s: Seq<char>, c: char, i: int)
    requires
        0 <= i <= s.len(),
        forall|k: int| 0 <= k < i ==> s[k] != c,
        i == s.len() || s[i] == c,
    ensures
        find_char(s, c) == i,
    decreases i,
{
    if i > 0 {
        assert(s[0] != c);
        lemma_find_char(s.skip(1), c, i - 1);
    }
}

fn sub_chars(v: &Vec<char>, from: usize, to: usize) -> (res: Vec<char>)
    requires
        from <= to <= v.len(),
    ensures
        res@ == v@.subrange(from as int, to as int),
{
    let mut out: Vec<char> = Vec::new();
    let mut i: usize = from;
    while i < to
        invariant
            from <= i <= to <= v.len(),
            out@ == v@.subrange(from as int, i as int),
        decreases to - i,
    {
        out.push(v[i]);
        i = i + 1;
        assert(out@ =~= v@.subrange(from as int, i as int));
    }
    out
}

fn is_onion_key(k: &Vec<char>) -> (r: bool)
    ensures
        r == (k@ == onion_key()),
{
    let r = k.len() == 5 && k[0] == 'o' && k[1] == 'n' && k[2] == 'i' && k[3] == 'o' && k[4] == 'n';
    if r {
        assert(k@ =~= onion_key());
    }
    r
}

fn is_fp_key(k: &Vec<char>) -> (r: bool)
    ensures
        r == (k@ == fp_key()),
{
    let r = k.len() == 2 && k[0] == 'f' && k[1] == 'p';
    if r {
        assert(k@ =~= fp_key());
    }
    r
}

fn is_name_key(k: &Vec<char>) -> (r: bool)
    ensures
        r == (k@ == name_key()),
{
    let r = k.len() == 1 && k[0] == 'n';
    if r {
        assert(k@ =~= name_key());
    }
    r
}

/// Applies one query pair to what has been read so far; false when the pair
/// is a name that does not decode.
fn scan_pair(onion: &mut Option<String>, fp: &mut Option<String>, name: &mut String, p: &Vec<char>) -> (ok: bool)
    ensures
        match scan_step((ostr(*old(onion)), ostr(*old(fp)), old(name)@), p@) {
            None => !ok,
            Some(st) => ok && st == (ostr(*final(onion)), ostr(*final(fp)), final(name)@),
        },
{
    let mut i: usize = 0;
    while i < p.len() && p[i] != '='
        invariant
            i <= p.len(),
            forall|k: int| 0 <= k < i ==> p@[k] != '=',
        decreases p.len() - i,
    {
        i = i + 1;
    }
    proof {
        lemma_find_char(p@, '=', i as int);
    }
    if i >= p.len() {
        return true;
    }
    let key = sub_chars(p, 0, i);
    let value = sub_chars(p, i + 1, p.len());
    assert(key@ =~= p@.take(i as int));
    assert(value@ =~= p@.skip(i + 1));
    if is_onion_key(&key) {
        *onion = Some(string_from_chars(&value));
        true
    } else if is_fp_key(&key) {
        *fp = Some(string_from_chars(&value));
        true
    } else if is_name_key(&key) {
        let text = string_from_chars(&value);
        let decoded = percent_decode(text.as_str().as_bytes());
        match utf8_to_string(decoded) {
            Some(s) => {
                *name = s;
                true
            },
            None => false,
        }
    } else {
        true
    }
}

fn fingerprint_ok(f: &str) -> (r: bool)
    ensures
        r == fp_ok(f@),
{
    let cs = chars_of(f);
    if cs.len() == 0 || cs.len() > 64 {
        return false;
    }
    let mut i: usize = 0;
    while i < cs.len()
        invariant
            i <= cs.len(),
            cs@ == f@,
            forall|k: int| 0 <= k < i ==> is_hex_digit(#[trigger] cs@[k]),
        decreases cs.len() - i,
    {
        if !is_ascii_hexdigit(cs[i]) {
            return false;
        }
        i = i + 1;
    }
    true
}

fn refuse(msg: &str) -> (res: Result<Invite, InviteError>)
    ensures
        res matches Err(InviteError::Invalid(m)) && m@ == msg@,
{
    Err(InviteError::Invalid(String::from_str(msg)))
}

impl Invite {
    pub fn new(onion_id: String, fingerprint: String, display_name: String) -> (res: Invite)
        ensures
            res.onion_id@ == onion_id@,
            res.fingerprint@ == fingerprint@,
            res.display_name@ == display_name@,
    {
        Invite { onion_id, fingerprint, display_name }
    }

    /// The link that carries this invitation.
    pub fn to_link(&self) -> (link: String)
        ensures
            link@ == link_spec(self.onion_id@, self.fingerprint@, self.display_name@),
    {
        let mut out = String::from_str("void://invite?onion=");
        proof {
            reveal_strlit("void://invite?onion=");
            reveal_strlit("&fp=");
            reveal_strlit("&n=");
        }
        assert(out@ =~= scheme_chars() + seq!['?'] + onion_key() + seq!['=']);
        out.append(self.onion_id.as_str());
        out.append("&fp=");
        out.append(self.fingerprint.as_str());
        out.append("&n=");
        let encoded = percent_encode(self.display_name.as_str().as_bytes());
        proof {
            pct_encode_safe(encode_utf8(self.display_name@));
            assert forall|i: int| 0 <= i < encoded@.len() implies encoded@[i] < 128 by {
                assert(is_alnum_byte(encoded@[i]) || encoded@[i] == 37);
            }
        }
        let tail = ascii_string(&encoded);
        out.append(tail.as_str());
        assert(out@ =~= link_spec(self.onion_id@, self.fingerprint@, self.display_name@));
        out
    }

    /// Reads an invitation link. Surrounding white space is ignored; the
    /// fingerprint is returned in lower case.
    pub fn parse(link: &str) -> (res: Result<Invite, InviteError>)
        ensures
            match res {
                Ok(inv) => invite_parse_spec(link@) == Ok::<(Seq<char>, Seq<char>, Seq<char>), Seq<char>>(
                    (inv.onion_id@, inv.fingerprint@, inv.display_name@),
                ),
                Err(InviteError::Invalid(m)) => invite_parse_spec(link@) == Err::<
                    (Seq<char>, Seq<char>, Seq<char>),
                    Seq<char>,
                >(m@),
            },
    {
        let trimmed = trim(link);
        let tc = chars_of(trimmed.as_str());
        let ghost t = tc@;
        assert(t == trim_spec(link@));
        if tc.len() < 13 || !(tc[0] == 'v' && tc[1] == 'o' && tc[2] == 'i' && tc[3] == 'd' && tc[4] == ':'
            && tc[5] == '/' && tc[6] == '/' && tc[7] == 'i' && tc[8] == 'n' && tc[9] == 'v' && tc[10]
            == 'i' && tc[11] == 't' && tc[12] == 'e') {
            proof {
                if t.len() >= 13 && t.take(13) == scheme_chars() {
                    assert(t.take(13)[0] == 'v');
                    assert(t.take(13)[12] == 'e');
                    assert(t.take(13)[1] == scheme_chars()[1]);
                    assert(t.take(13)[2] == scheme_chars()[2]);
                    assert(t.take(13)[3] == scheme_chars()[3]);
                    assert(t.take(13)[4] == scheme_chars()[4]);
                    assert(t.take(13)[5] == scheme_chars()[5]);
                    assert(t.take(13)[6] == scheme_chars()[6]);
                    assert(t.take(13)[7] == scheme_chars()[7]);
                    assert(t.take(13)[8] == scheme_chars()[8]);
                    assert(t.take(13)[9] == scheme_chars()[9]);
                    assert(t.take(13)[10] == scheme_chars()[10]);
                    assert(t.take(13)[11] == scheme_chars()[11]);
                }
            }
            return refuse("le lien doit commencer par void://invite");
        }
        assert(t.take(13) =~= scheme_chars());
        if tc.len() == 13 || tc[13] != '?' {
            return refuse("paramètres manquants");
        }
        let ghost q = t.skip(14);
        let mut onion: Option<String> = None;
        let mut fp: Option<String> = None;
        let mut name = String::new();
        let mut cur: Vec<char> = Vec::new();
        let ghost mut done: Seq<Seq<char>> = Seq::empty();
        let mut j: usize = 14;
        assert(q.take(0) =~= Seq::<char>::empty());
        assert(done.push(cur@) =~= split_on(q.take(0), '&'));
        while j < tc.len()
            invariant
                14 <= j <= tc.len(),
                tc@ == t,
                t == trim_spec(link@),
                t.take(13) == scheme_chars(),
                t[13] == '?',
                q == t.skip(14),
                split_on(q.take(j - 14), '&') == done.push(cur@),
                scan_pairs(done) == Some((ostr(onion), ostr(fp), name@)),
            decreases tc.len() - j,
        {
            let c = tc[j];
            let ghost k = (j - 14) as int;
            assert(q.take(k + 1).drop_last() =~= q.take(k));
            assert(q.take(k + 1).last() == c);
            if c == '&' {
                let ok = scan_pair(&mut onion, &mut fp, &mut name, &cur);
                proof {
                    assert(done.push(cur@).drop_last() =~= done);
                }
                if !ok {
                    proof {
                        assert(q[k] == '&');
                        lemma_split_prefix_none(q, k, done.push(cur@));
                        assert(invite_parse_spec(link@) == Err::<(Seq<char>, Seq<char>, Seq<char>), Seq<char>>(msg_name()));
                    }
                    return refuse("nom illisible");
                }
                proof {
                    done = done.push(cur@);
                }
                cur = Vec::new();
                assert(split_on(q.take(k + 1), '&') =~= done.push(cur@));
            } else {
                let ghost before = cur@;
                cur.push(c);
                proof {
                    lemma_split_len(q.take(k), '&');
                }
                assert(split_on(q.take(k + 1), '&') =~= done.push(cur@));
            }
            j = j + 1;
        }
        assert(q.take(tc.len() - 14) =~= q);
        let ok = scan_pair(&mut onion, &mut fp, &mut name, &cur);
        assert(done.push(cur@).drop_last() =~= done);
        if !ok {
            return refuse("nom illisible");
        }
        let onion = match onion {
            Some(o) => o,
            None => return refuse("paramètre onion manquant"),
        };
        if !onion_id_is_valid(onion.as_str()) {
            return refuse("adresse oignon invalide");
        }
        let fp = match fp {
            Some(f) => f,
            None => return refuse("paramètre fp manquant"),
        };
        if !fingerprint_ok(fp.as_str()) {
            return refuse("empreinte invalide");
        }
        if char_count(name.as_str()) > MAX_DISPLAY_NAME {
            return refuse("nom trop long");
        }
        let lower = to_lowercase(fp.as_str());
        proof {
            assert(is_ascii_chars(fp@)) by {
                assert forall|i: int| 0 <= i < fp@.len() implies '\0' <= #[trigger] fp@[i] <= '\u{7f}' by {
                    assert(is_hex_digit(fp@[i]));
                }
            }
            assert(lower@ =~= ascii_lower(fp@));
        }
        Ok(Invite { onion_id: onion, fingerprint: lower, display_name: name })
    }
}

/// When a pair fails, the whole scan fails, whatever follows it.
proof fn lemma_split_prefix_none(q: Seq<char>, k: int, pieces: Seq<Seq<char>>)
    requires
        0 <= k < q.len(),
        q[k] == '&',
        split_on(q.take(k), '&') == pieces,
        scan_pairs(pieces) is None,
    ensures
        scan_pairs(split_on(q, '&')) is None,
{
    lemma_split_extends(q, k + 1);
    assert(q.take(k + 1).drop_last() =~= q.take(k));
    assert(q.take(k + 1).last() == '&');
    assert(split_on(q.take(k + 1), '&') == pieces.push(Seq::<char>::empty()));
    assert(pieces.push(Seq::<char>::empty()).drop_last() =~= pieces);
    lemma_scan_prefix_none(pieces, split_on(q, '&'));
}

/// The pieces of a longer text begin with all the finished pieces of a
/// shorter prefix.
proof fn lemma_split_extends(q: Seq<char>, n: int)
    requires
        0 <= n <= q.len(),
    ensures
        split_on(q.take(n), '&').len() <= split_on(q, '&').len(),
        split_on(q.take(n), '&').drop_last() == split_on(q, '&').take(
            split_on(q.take(n), '&').len() - 1,
        ),
    decreases q.len() - n,
{
    lemma_split_len(q.take(n), '&');
    if n < q.len() {
        lemma_split_extends(q, n + 1);
        let a = split_on(q.take(n), '&');
        let b = split_on(q.take(n + 1), '&');
        assert(q.take(n + 1).drop_last() =~= q.take(n));
        if q[n] == '&' {
            assert(b =~= a.push(Seq::<char>::empty()));
            assert(a.drop_last() =~= b.drop_last().drop_last());
            assert(b.drop_last() =~= a);
        } else {
            assert(b.drop_last() =~= a.drop_last());
        }
        let full = split_on(q, '&');
        assert(a.drop_last() =~= full.take(a.len() - 1));
    } else {
        assert(q.take(n) =~= q);
    }
}

/// A failure in a prefix of the pieces is a failure of the whole scan.
proof fn lemma_scan_prefix_none(prefix: Seq<Seq<char>>, all: Seq<Seq<char>>)
    requires
        prefix.len() <= all.len(),
        all.take(prefix.len() as int) == prefix,
        scan_pairs(prefix) is None,
    ensures
        scan_pairs(all) is None,
    decreases all.len(),
{
    if all.len() > prefix.len() {
        assert(all.drop_last().take(prefix.len() as int) =~= prefix);
        lemma_scan_prefix_none(prefix, all.drop_last());
    } else {
        assert(all =~= prefix);
    }
}

proof fn lemma_split_append(p: Seq<char>, s: Seq<char>, sep: char)
    requires
        forall|i: int| 0 <= i < s.len() ==> s[i] != sep,
    ensures
        split_on(p + s, sep) == split_on(p, sep).update(
            split_on(p, sep).len() - 1,
            split_on(p, sep).last() + s,
        ),
    decreases s.len(),
{
    lemma_split_len(p, sep);
    let base = split_on(p, sep);
    if s.len() == 0 {
        assert(p + s =~= p);
        assert(base.last() + s =~= base.last());
        assert(base.update(base.len() - 1, base.last() + s) =~= base);
    } else {
        lemma_split_append(p, s.drop_last(), sep);
        assert((p + s).drop_last() =~= p + s.drop_last());
        assert((p + s).last() == s.last());
        assert((base.last() + s.drop_last()).push(s.last()) =~= base.last() + s);
        let init = split_on(p + s.drop_last(), sep);
        assert(init.update(init.len() - 1, init.last().push(s.last())) =~= base.update(
            base.len() - 1,
            base.last() + s,
        ));
    }
}

proof fn lemma_split_sep(p: Seq<char>, sep: char)
    ensures
        split_on(p + seq![sep], sep) == split_on(p, sep).push(Seq::<char>::empty()),
{
    assert((p + seq![sep]).drop_last() =~= p);
}

pub open spec fn link_query(onion: Seq<char>, fp: Seq<char>, name: Seq<char>) -> Seq<char> {
    onion_key() + seq!['='] + onion + seq!['&'] + fp_key() + seq!['='] + fp + seq!['&'] + name_key()
        + seq!['='] + ascii_chars(pct_encode(encode_utf8(name)))
}

proof fn lemma_pv_chars(name: Seq<char>)
    ensures
        forall|i: int|
            0 <= i < ascii_chars(pct_encode(encode_utf8(name))).len() ==> {
                let c = #[trigger] ascii_chars(pct_encode(encode_utf8(name)))[i];
                &&& c != '&'
                &&& c != '='
                &&& !is_white_space(c)
                &&& '\0' <= c <= '\u{7f}'
            },
{
    let enc = pct_encode(encode_utf8(name));
    pct_encode_safe(encode_utf8(name));
    assert forall|i: int| 0 <= i < ascii_chars(enc).len() implies {
        let c = #[trigger] ascii_chars(enc)[i];
        &&& c != '&'
        &&& c != '='
        &&& !is_white_space(c)
        &&& '\0' <= c <= '\u{7f}'
    } by {
        assert(is_alnum_byte(enc[i]) || enc[i] == 37);
    }
}

proof fn lemma_link_trim(onion: Seq<char>, fp: Seq<char>, name: Seq<char>)
    ensures
        trim_spec(link_spec(onion, fp, name)) == link_spec(onion, fp, name),
        link_spec(onion, fp, name).len() > 14,
        link_spec(onion, fp, name).take(13) == scheme_chars(),
        link_spec(onion, fp, name)[13] == '?',
        link_spec(onion, fp, name).skip(14) == link_query(onion, fp, name),
        !is_white_space(link_spec(onion, fp, name)[0]),
        !is_white_space(link_spec(onion, fp, name)[link_spec(onion, fp, name).len() - 1]),
{
    let l = link_spec(onion, fp, name);
    let pv = ascii_chars(pct_encode(encode_utf8(name)));
    lemma_pv_chars(name);
    assert(l[0] == 'v');
    if pv.len() > 0 {
        assert(l[l.len() - 1] == pv[pv.len() - 1]);
    } else {
        assert(l[l.len() - 1] == '=');
    }
    trim_of_tight_text(l);
    assert(l.take(13) =~= scheme_chars());
    assert(l.skip(14) =~= link_query(onion, fp, name));
}

proof fn lemma_three_pieces(a: Seq<char>, b: Seq<char>, c: Seq<char>)
    requires
        forall|i: int| 0 <= i < a.len() ==> a[i] != '&',
        forall|i: int| 0 <= i < b.len() ==> b[i] != '&',
        forall|i: int| 0 <= i < c.len() ==> c[i] != '&',
    ensures
        split_on(a + seq!['&'] + b + seq!['&'] + c, '&') == seq![a, b, c],
{
    lemma_split_append(Seq::<char>::empty(), a, '&');
    assert(Seq::<char>::empty() + a =~= a);
    assert(split_on(a, '&') =~= seq![a]);
    lemma_split_sep(a, '&');
    lemma_split_append(a + seq!['&'], b, '&');
    assert(split_on(a + seq!['&'] + b, '&') =~= seq![a, b]);
    lemma_split_sep(a + seq!['&'] + b, '&');
    lemma_split_append(a + seq!['&'] + b + seq!['&'], c, '&');
    assert(split_on(a + seq!['&'] + b + seq!['&'] + c, '&') =~= seq![a, b, c]);
}

proof fn lemma_name_value(name: Seq<char>)
    ensures
        valid_utf8(pct_decode(encode_utf8(ascii_chars(pct_encode(encode_utf8(name)))))),
        decode_utf8(pct_decode(encode_utf8(ascii_chars(pct_encode(encode_utf8(name)))))) == name,
{
    let enc = pct_encode(encode_utf8(name));
    let pv = ascii_chars(enc);
    lemma_pv_chars(name);
    assert(is_ascii_chars(pv));
    is_ascii_chars_encode_utf8(pv);
    assert(encode_utf8(pv) =~= enc);
    pct_roundtrip(encode_utf8(name));
    encode_utf8_valid_utf8(name);
    encode_utf8_decode_utf8(name);
}

proof fn lemma_link_scan(onion: Seq<char>, fp: Seq<char>, name: Seq<char>)
    requires
        forall|i: int| 0 <= i < onion.len() ==> onion[i] != '&' && onion[i] != '=',
        forall|i: int| 0 <= i < fp.len() ==> fp[i] != '&' && fp[i] != '=',
    ensures
        scan_pairs(split_on(link_query(onion, fp, name), '&')) == Some::<
            (Option<Seq<char>>, Option<Seq<char>>, Seq<char>),
        >((Some(onion), Some(fp), name)),
{
    let pv = ascii_chars(pct_encode(encode_utf8(name)));
    lemma_pv_chars(name);
    let a = onion_key() + seq!['='] + onion;
    let b = fp_key() + seq!['='] + fp;
    let c = name_key() + seq!['='] + pv;
    assert(link_query(onion, fp, name) =~= a + seq!['&'] + b + seq!['&'] + c);
    assert forall|i: int| 0 <= i < a.len() implies a[i] != '&' by {
        if i >= 6 {
            assert(a[i] == onion[i - 6]);
        }
    }
    assert forall|i: int| 0 <= i < b.len() implies b[i] != '&' by {
        if i >= 3 {
            assert(b[i] == fp[i - 3]);
        }
    }
    assert forall|i: int| 0 <= i < c.len() implies c[i] != '&' by {
        if i >= 2 {
            assert(c[i] == pv[i - 2]);
        }
    }
    lemma_three_pieces(a, b, c);
    let pieces = seq![a, b, c];
    assert(pieces.drop_last() =~= seq![a, b]);
    assert(seq![a, b].drop_last() =~= seq![a]);
    assert(seq![a].drop_last() =~= Seq::<Seq<char>>::empty());
    lemma_find_char(a, '=', 5);
    assert(a.take(5) =~= onion_key());
    assert(a.skip(6) =~= onion);
    lemma_find_char(b, '=', 2);
    assert(b.take(2) =~= fp_key());
    assert(b.skip(3) =~= fp);
    lemma_find_char(c, '=', 1);
    assert(c.take(1) =~= name_key());
    assert(c.skip(2) =~= pv);
    lemma_name_value(name);
    assert(fp_key() != onion_key()) by {
        assert(fp_key().len() != onion_key().len());
    }
    assert(name_key() != onion_key()) by {
        assert(name_key().len() != onion_key().len());
    }
    assert(name_key() != fp_key()) by {
        assert(name_key().len() != fp_key().len());
    }
    let s1 = (Some(onion), None::<Seq<char>>, Seq::<char>::empty());
    let s2 = (Some(onion), Some(fp), Seq::<char>::empty());
    let s3 = (Some(onion), Some(fp), name);
    assert(scan_pairs(Seq::<Seq<char>>::empty()) == Some(scan_init()));
    assert(scan_step(scan_init(), a) == Some(s1));
    assert(scan_pairs(seq![a]) == Some(s1));
    assert(scan_step(s1, b) == Some(s2));
    assert(scan_pairs(seq![a, b]) == Some(s2));
    assert(scan_step(s2, c) == Some(s3));
    assert(scan_pairs(pieces) == Some(s3));
}

/// Parsing the link of an invitation gives the invitation back, for every
/// valid onion identifier, lower-case fingerprint of 1 to 64 hexadecimal
/// digits and display name of at most `MAX_DISPLAY_NAME` characters.
pub proof fn invite_link_roundtrip(onion: Seq<char>, fp: Seq<char>, name: Seq<char>)
    requires
        onion_public_spec(onion) is Some,
        fp_ok(fp),
        ascii_lower(fp) == fp,
        name.len() <= MAX_DISPLAY_NAME,
    ensures
        invite_parse_spec(link_spec(onion, fp, name)) == Ok::<(Seq<char>, Seq<char>, Seq<char>), Seq<char>>(
            (onion, fp, name),
        ),
{
    onion_id_canonical(onion);
    let public = onion_public_spec(onion)->0;
    base32_text_alphabet(onion_id_bytes(public));
    assert forall|i: int| 0 <= i < onion.len() implies onion[i] != '&' && onion[i] != '=' by {
        assert('a' <= onion[i] <= 'z' || '2' <= onion[i] <= '7');
    }
    assert forall|i: int| 0 <= i < fp.len() implies fp[i] != '&' && fp[i] != '=' by {
        assert(is_hex_digit(fp[i]));
    }
    lemma_link_trim(onion, fp, name);
    lemma_link_scan(onion, fp, name);
}

/// The same holds of the link with any white space before and after it:
/// parsing trims it first.
pub proof fn invite_link_roundtrip_padded(
    onion: Seq<char>,
    fp: Seq<char>,
    name: Seq<char>,
    before: Seq<char>,
    after: Seq<char>,
)
    requires
        onion_public_spec(onion) is Some,
        fp_ok(fp),
        ascii_lower(fp) == fp,
        name.len() <= MAX_DISPLAY_NAME,
        forall|i: int| 0 <= i < before.len() ==> is_white_space(#[trigger] before[i]),
        forall|i: int| 0 <= i < after.len() ==> is_white_space(#[trigger] after[i]),
    ensures
        invite_parse_spec(before + link_spec(onion, fp, name) + after) == Ok::<
            (Seq<char>, Seq<char>, Seq<char>),
            Seq<char>,
        >((onion, fp, name)),
{
    invite_link_roundtrip(onion, fp, name);
    lemma_link_trim(onion, fp, name);
    trim_of_padded(before, link_spec(onion, fp, name), after);
}

} // verus!

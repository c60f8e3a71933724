//! The bundled Tor process as the library sees it: its configuration, the
//! torrc written for it, the values read back from its control port and
//! the decisions taken while it bootstraps.

use vstd::prelude::*;
use crate::std_glue::{chars_of, push_char, string_from_chars};
use crate::text::{is_white_space, is_whitespace, trim, trim_spec};
use crate::tor_control::{starts_with, trim_quote_chars, trim_quotes};

verus! {

#[verifier::external_type_specification]
#[verifier::external_body]
pub struct ExIoError(std::io::Error);

/// `io::Error`'s `Display` text.
#[verifier::external_body]
fn io_error_text(e: &std::io::Error) -> String {
    format!("{e}")
}

/// What can go wrong with the Tor process.
#[derive(Debug)]
pub enum TorError {
    MissingTor(String),
    Io(std::io::Error),
    Control(String),
    Timeout(String),
    ProcessDied(String),
}

impl TorError {
    /// The human-readable description of the error.
    pub fn message(&self) -> (res: String)
        ensures
            match self {
                TorError::MissingTor(d) => res@ == "tor.exe introuvable dans "@ + d@
                    + ". Lancez scripts/fetch-tor.ps1"@,
                TorError::Io(_) => true,
                TorError::Control(d) => res@ == "protocole control: "@ + d@,
                TorError::Timeout(d) => res@ == "délai dépassé en attendant: "@ + d@,
                TorError::ProcessDied(d) => res@ == "le processus tor s'est arrêté prématurément"@
                    + d@ + " — un antivirus l'a peut-être bloqué (ajoutez une exclusion pour tor.exe)"@,
            },
    {
        match self {
            TorError::MissingTor(d) => String::from_str("tor.exe introuvable dans ").concat(
                d.as_str(),
            ).concat(". Lancez scripts/fetch-tor.ps1"),
            TorError::Io(e) => io_error_text(e),
            TorError::Control(d) => String::from_str("protocole control: ").concat(d.as_str()),
            TorError::Timeout(d) => String::from_str("délai dépassé en attendant: ").concat(
                d.as_str(),
            ),
            TorError::ProcessDied(d) => String::from_str(
                "le processus tor s'est arrêté prématurément",
            ).concat(d.as_str()).concat(
                " — un antivirus l'a peut-être bloqué (ajoutez une exclusion pour tor.exe)",
            ),
        }
    }
}

/// A file name that `Path::join` appends as one plain component: not
/// empty, not `.` or `..` (which a verbatim Windows path drops), and free
/// of separators and drive colons.
pub open spec fn plain_file_name(name: Seq<char>) -> bool {
    &&& name.len() > 0
    &&& name != seq!['.']
    &&& name != seq!['.', '.']
    &&& forall|i: int| 0 <= i < name.len() ==> (#[trigger] name[i] != '/' && name[i] != '\\' && name[i] != ':')
}

/// Whether a directory starts with the verbatim prefix `\\?\`. Joining
/// onto such a directory, Windows rebuilds the whole path from its
/// components (`PathBuf::push`), so the result need not begin with the
/// directory's own text.
pub open spec fn verbatim_prefix(dir: Seq<char>) -> bool {
    dir.len() >= 4 && dir.take(4) == seq!['\\', '\\', '?', '\\']
}

/// Whether `path` is `dir` joined with the file name `name`: outside a
/// verbatim directory, the directory, at most one separator (`/` or `\`),
/// then the name.
pub open spec fn joined(path: Seq<char>, dir: Seq<char>, name: Seq<char>) -> bool {
    !verbatim_prefix(dir) ==> (path == dir + name || path == dir + seq!['/'] + name || path == dir + seq![
        '\\',
    ] + name)
}

/// `Path::new(dir).join(name)` as text. For a plain file name and a
/// directory without a verbatim prefix, std appends the name after the
/// platform's separator (`/`, or `\` on Windows), or with none where the
/// directory needs none. Which separator, and when none is added, depends
/// on the platform and is not stated; under a verbatim prefix nothing is.
#[verifier::external_body]
fn path_join(dir: &str, name: &str) -> (res: String)
    requires
        plain_file_name(name@),
    ensures
        joined(res@, dir@, name@),
{
    std::path::Path::new(dir).join(name).to_string_lossy().into_owned()
}

/// Where the Tor binary lives and where its state goes.
pub struct TorConfig {
    pub tor_dir: String,
    pub data_dir: String,
}

impl TorConfig {
    /// `tor_dir/tor.exe`.
    pub fn tor_exe(&self) -> (res: String)
        ensures
            joined(res@, self.tor_dir@, "tor.exe"@),
    {
        proof {
            reveal_strlit("tor.exe");
            assert("tor.exe"@.len() == 7);
        }
        path_join(self.tor_dir.as_str(), "tor.exe")
    }

    /// `data_dir/control.port`, where Tor writes its control address.
    pub fn port_file(&self) -> (res: String)
        ensures
            joined(res@, self.data_dir@, "control.port"@),
    {
        proof {
            reveal_strlit("control.port");
            assert("control.port"@.len() == 12);
        }
        path_join(self.data_dir.as_str(), "control.port")
    }

    /// `data_dir/control_auth_cookie`.
    pub fn cookie_file(&self) -> (res: String)
        ensures
            joined(res@, self.data_dir@, "control_auth_cookie"@),
    {
        proof {
            reveal_strlit("control_auth_cookie");
            assert("control_auth_cookie"@.len() == 19);
        }
        path_join(self.data_dir.as_str(), "control_auth_cookie")
    }

    /// `data_dir/void-torrc`.
    pub fn torrc_path(&self) -> (res: String)
        ensures
            joined(res@, self.data_dir@, "void-torrc"@),
    {
        proof {
            reveal_strlit("void-torrc");
            assert("void-torrc"@.len() == 10);
        }
        path_join(self.data_dir.as_str(), "void-torrc")
    }
}

/// `s` with every backslash turned into a forward slash.
pub open spec fn slash_spec(s: Seq<char>) -> Seq<char> {
    s.map_values(|c: char| if c == '\\' { '/' } else { c })
}

/// A path written with forward slashes, as the torrc wants it.
pub fn slash(path: &str) -> (res: String)
    ensures
        res@ == slash_spec(path@),
{
    let cs = chars_of(path);
    let mut out = String::new();
    let mut i: usize = 0;
    while i < cs.len()
        invariant
            i <= cs.len(),
            cs@ == path@,
            out@ == slash_spec(path@.take(i as int)),
        decreases cs.len() - i,
    {
        let c = cs[i];
        push_char(&mut out, if c == '\\' { '/' } else { c });
        i = i + 1;
        assert(out@ =~= slash_spec(path@.take(i as int)));
    }
    assert(path@.take(cs.len() as int) =~= path@);
    out
}

/// The torrc for the given control-port file, data directory and GeoIP
/// files (each already written with forward slashes).
pub open spec fn torrc_spec(port_file: Seq<char>, data_dir: Seq<char>, geoip: Seq<char>, geoip6: Seq<char>) -> Seq<char> {
    "SocksPort 127.0.0.1:auto OnionTrafficOnly\nControlPort 127.0.0.1:auto\nControlPortWriteToFile \""@
        + port_file + "\"\nCookieAuthentication 1\nClientOnly 1\nDataDirectory \""@ + data_dir
        + "\"\nGeoIPFile \""@ + geoip + "\"\nGeoIPv6File \""@ + geoip6
        + "\"\nLog notice stdout\nAvoidDiskWrites 1\n"@
}

/// `line` stands on a line of its own in `text`: it starts the text or
/// follows a newline, and a newline follows it.
pub open spec fn has_line(text: Seq<char>, line: Seq<char>) -> bool {
    exists|i: int, j: int|
        0 <= i && j == i + line.len() && j < text.len() && (i == 0 || text[i - 1] == '\n')
            && #[trigger] text.subrange(i, j) == line && text[j] == '\n'
}

/// A line found inside one piece of a text is a line of the whole text.
proof fn lemma_line_in_piece(pre: Seq<char>, piece: Seq<char>, post: Seq<char>, line: Seq<char>, k: int)
    requires
        0 <= k,
        k + line.len() < piece.len(),
        k == 0 ==> pre.len() == 0,
        k > 0 ==> piece[k - 1] == '\n',
        piece.subrange(k, k + line.len()) == line,
        piece[k + line.len()] == '\n',
    ensures
        has_line(pre + piece + post, line),
{
    let text = pre + piece + post;
    let i = pre.len() + k;
    let j = i + line.len();
    assert(text.subrange(i, j) =~= piece.subrange(k, k + line.len()));
    assert(text[j] == piece[k + line.len()]);
    if k > 0 {
        assert(text[i - 1] == piece[k - 1]);
    }
}

/// Whatever the paths, the torrc opens a SOCKS port that only reaches onion
/// services and a control port, both on loopback, asks for cookie
/// authentication, keeps Tor a client only, logs to stdout and avoids disk
/// writes: each of these directives stands on a line of its own.
pub proof fn torrc_directives(port_file: Seq<char>, data_dir: Seq<char>, geoip: Seq<char>, geoip6: Seq<char>)
    ensures
        has_line(torrc_spec(port_file, data_dir, geoip, geoip6), "SocksPort 127.0.0.1:auto OnionTrafficOnly"@),
        has_line(torrc_spec(port_file, data_dir, geoip, geoip6), "ControlPort 127.0.0.1:auto"@),
        has_line(torrc_spec(port_file, data_dir, geoip, geoip6), "CookieAuthentication 1"@),
        has_line(torrc_spec(port_file, data_dir, geoip, geoip6), "ClientOnly 1"@),
        has_line(torrc_spec(port_file, data_dir, geoip, geoip6), "Log notice stdout"@),
        has_line(torrc_spec(port_file, data_dir, geoip, geoip6), "AvoidDiskWrites 1"@),
{
    reveal_strlit("SocksPort 127.0.0.1:auto OnionTrafficOnly\nControlPort 127.0.0.1:auto\nControlPortWriteToFile \"");
    reveal_strlit("\"\nCookieAuthentication 1\nClientOnly 1\nDataDirectory \"");
    reveal_strlit("\"\nGeoIPFile \"");
    reveal_strlit("\"\nGeoIPv6File \"");
    reveal_strlit("\"\nLog notice stdout\nAvoidDiskWrites 1\n");
    reveal_strlit("SocksPort 127.0.0.1:auto OnionTrafficOnly");
    reveal_strlit("ControlPort 127.0.0.1:auto");
    reveal_strlit("CookieAuthentication 1");
    reveal_strlit("ClientOnly 1");
    reveal_strlit("Log notice stdout");
    reveal_strlit("AvoidDiskWrites 1");
    let a = "SocksPort 127.0.0.1:auto OnionTrafficOnly\nControlPort 127.0.0.1:auto\nControlPortWriteToFile \""@;
    let b = "\"\nCookieAuthentication 1\nClientOnly 1\nDataDirectory \""@;
    let c = "\"\nGeoIPFile \""@;
    let d = "\"\nGeoIPv6File \""@;
    let e = "\"\nLog notice stdout\nAvoidDiskWrites 1\n"@;
    let text = torrc_spec(port_file, data_dir, geoip, geoip6);
    let empty = Seq::<char>::empty();
    let after_a = port_file + b + data_dir + c + geoip + d + geoip6 + e;
    assert(text =~= empty + a + after_a);
    assert(a.subrange(0, 41) =~= "SocksPort 127.0.0.1:auto OnionTrafficOnly"@);
    lemma_line_in_piece(empty, a, after_a, "SocksPort 127.0.0.1:auto OnionTrafficOnly"@, 0);
    assert(a.subrange(42, 68) =~= "ControlPort 127.0.0.1:auto"@);
    lemma_line_in_piece(empty, a, after_a, "ControlPort 127.0.0.1:auto"@, 42);
    let before_b = a + port_file;
    let after_b = data_dir + c + geoip + d + geoip6 + e;
    assert(text =~= before_b + b + after_b);
    assert(b.subrange(2, 24) =~= "CookieAuthentication 1"@);
    lemma_line_in_piece(before_b, b, after_b, "CookieAuthentication 1"@, 2);
    assert(b.subrange(25, 37) =~= "ClientOnly 1"@);
    lemma_line_in_piece(before_b, b, after_b, "ClientOnly 1"@, 25);
    let before_e = a + port_file + b + data_dir + c + geoip + d + geoip6;
    assert(text =~= before_e + e + empty);
    assert(e.subrange(2, 19) =~= "Log notice stdout"@);
    lemma_line_in_piece(before_e, e, empty, "Log notice stdout"@, 2);
    assert(e.subrange(20, 37) =~= "AvoidDiskWrites 1"@);
    lemma_line_in_piece(before_e, e, empty, "AvoidDiskWrites 1"@, 20);
}

/// The torrc that the bundled Tor is started with: SOCKS and control ports
/// on loopback, cookie authentication, client only, and the configured data
/// directory and GeoIP files.
pub fn build_torrc(cfg: &TorConfig) -> (res: String)
    ensures
        exists|port_file: Seq<char>, geoip: Seq<char>, geoip6: Seq<char>|
            joined(port_file, cfg.data_dir@, "control.port"@) && joined(geoip, cfg.tor_dir@, "geoip"@)
                && joined(geoip6, cfg.tor_dir@, "geoip6"@) && res@ == torrc_spec(
                slash_spec(port_file),
                slash_spec(cfg.data_dir@),
                slash_spec(geoip),
                slash_spec(geoip6),
            ),
        has_line(res@, "SocksPort 127.0.0.1:auto OnionTrafficOnly"@),
        has_line(res@, "ControlPort 127.0.0.1:auto"@),
        has_line(res@, "CookieAuthentication 1"@),
        has_line(res@, "ClientOnly 1"@),
        has_line(res@, "Log notice stdout"@),
        has_line(res@, "AvoidDiskWrites 1"@),
{
    let port_file = cfg.port_file();
    proof {
        reveal_strlit("geoip");
        reveal_strlit("geoip6");
        assert("geoip"@.len() == 5 && "geoip6"@.len() == 6);
    }
    let geoip = path_join(cfg.tor_dir.as_str(), "geoip");
    let geoip6 = path_join(cfg.tor_dir.as_str(), "geoip6");
    let mut out = String::from_str(
        "SocksPort 127.0.0.1:auto OnionTrafficOnly\nControlPort 127.0.0.1:auto\nControlPortWriteToFile \"",
    );
    out.append(slash(port_file.as_str()).as_str());
    out.append("\"\nCookieAuthentication 1\nClientOnly 1\nDataDirectory \"");
    out.append(slash(cfg.data_dir.as_str()).as_str());
    out.append("\"\nGeoIPFile \"");
    out.append(slash(geoip.as_str()).as_str());
    out.append("\"\nGeoIPv6File \"");
    out.append(slash(geoip6.as_str()).as_str());
    out.append("\"\nLog notice stdout\nAvoidDiskWrites 1\n");
    assert(joined(port_file@, cfg.data_dir@, "control.port"@));
    assert(joined(geoip@, cfg.tor_dir@, "geoip"@));
    assert(joined(geoip6@, cfg.tor_dir@, "geoip6"@));
    assert(out@ =~= torrc_spec(
        slash_spec(port_file@),
        slash_spec(cfg.data_dir@),
        slash_spec(geoip@),
        slash_spec(geoip6@),
    ));
    proof {
        torrc_directives(slash_spec(port_file@), slash_spec(cfg.data_dir@), slash_spec(geoip@), slash_spec(geoip6@));
    }
    out
}

/// The pieces of `s` between white-space characters (`str::split` on
/// `char::is_whitespace`).
pub open spec fn ws_pieces(s: Seq<char>) -> Seq<Seq<char>>
    decreases s.len(),
{
    if s.len() == 0 {
        seq![Seq::<char>::empty()]
    } else {
        let init = ws_pieces(s.drop_last());
        if is_white_space(s.last()) {
            init.push(Seq::<char>::empty())
        } else {
            init.update(init.len() - 1, init.last().push(s.last()))
        }
    }
}

proof fn lemma_ws_pieces_len(s: Seq<char>)
    ensures
        ws_pieces(s).len() >= 1,
    decreases s.len(),
{
    if s.len() > 0 {
        lemma_ws_pieces_len(s.drop_last());
    }
}

/// The text after `prefix` in the first piece that starts with it.
pub open spec fn first_with_prefix(pieces: Seq<Seq<char>>, prefix: Seq<char>) -> Option<Seq<char>>
    decreases pieces.len(),
{
    if pieces.len() == 0 {
        None
    } else if starts_with(pieces[0], prefix) {
        Some(pieces[0].skip(prefix.len() as int))
    } else {
        first_with_prefix(pieces.skip(1), prefix)
    }
}

/// The value of `key=value` among the white-space separated words of `s`:
/// the first word that starts with `key=` gives it.
pub open spec fn extract_kv_spec(s: Seq<char>, key: Seq<char>) -> Option<Seq<char>> {
    first_with_prefix(ws_pieces(s), key + seq!['='])
}

/// Characters of a list of character vectors.
pub open spec fn vviews(v: Seq<Vec<char>>) -> Seq<Seq<char>> {
    v.map_values(|x: Vec<char>| x@)
}

fn ws_split(cs: &Vec<char>) -> (res: Vec<Vec<char>>)
    ensures
        vviews(res@) == ws_pieces(cs@),
{
    let mut done: Vec<Vec<char>> = Vec::new();
    let mut cur: Vec<char> = Vec::new();
    let mut i: usize = 0;
    assert(cs@.take(0) =~= Seq::<char>::empty());
    assert(vviews(done@).push(cur@) =~= ws_pieces(cs@.take(0)));
    while i < cs.len()
        invariant
            i <= cs.len(),
            vviews(done@).push(cur@) == ws_pieces(cs@.take(i as int)),
        decreases cs.len() - i,
    {
        let c = cs[i];
        assert(cs@.take(i + 1).drop_last() =~= cs@.take(i as int));
        assert(cs@.take(i + 1).last() == c);
        proof {
            lemma_ws_pieces_len(cs@.take(i as int));
        }
        if is_whitespace(c) {
            let ghost before = vviews(done@);
            let finished = cur;
            done.push(finished);
            cur = Vec::new();
            assert(vviews(done@) =~= before.push(finished@));
            assert(vviews(done@).push(cur@) =~= ws_pieces(cs@.take(i + 1)));
        } else {
            cur.push(c);
            assert(vviews(done@).push(cur@) =~= ws_pieces(cs@.take(i + 1)));
        }
        i = i + 1;
    }
    assert(cs@.take(cs.len() as int) =~= cs@);
    let ghost before = vviews(done@);
    done.push(cur);
    assert(vviews(done@) =~= before.push(cur@));
    done
}

fn starts_with_vec(s: &Vec<char>, prefix: &Vec<char>) -> (r: bool)
    ensures
        r == starts_with(s@, prefix@),
{
    if s.len() < prefix.len() {
        return false;
    }
    let mut i: usize = 0;
    while i < prefix.len()
        invariant
            i <= prefix.len() <= s.len(),
            forall|k: int| 0 <= k < i ==> s@[k] == prefix@[k],
        decreases prefix.len() - i,
    {
        if s[i] != prefix[i] {
            assert(s@.take(prefix.len() as int)[i as int] != prefix@[i as int]);
            return false;
        }
        i = i + 1;
    }
    assert(s@.take(prefix.len() as int) =~= prefix@);
    true
}

/// The value of `key=value` among the words of a status line.
pub fn extract_kv(s: &str, key: &str) -> (res: Option<String>)
    ensures
        match extract_kv_spec(s@, key@) {
            None => res is None,
            Some(v) => res matches Some(r) && r@ == v,
        },
{
    let cs = chars_of(s);
    let pieces = ws_split(&cs);
    let mut prefix = chars_of(key);
    prefix.push('=');
    assert(prefix@ =~= key@ + seq!['=']);
    let mut i: usize = 0;
    assert(vviews(pieces@).skip(0) =~= vviews(pieces@));
    while i < pieces.len()
        invariant
            i <= pieces.len(),
            prefix@ == key@ + seq!['='],
            vviews(pieces@) == ws_pieces(s@),
            extract_kv_spec(s@, key@) == first_with_prefix(vviews(pieces@).skip(i as int), prefix@),
        decreases pieces.len() - i,
    {
        let piece = &pieces[i];
        assert(vviews(pieces@).skip(i as int)[0] == piece@);
        assert(vviews(pieces@).skip(i as int).skip(1) =~= vviews(pieces@).skip(i + 1));
        if starts_with_vec(piece, &prefix) {
            let mut out = String::new();
            let mut j: usize = prefix.len();
            while j < piece.len()
                invariant
                    prefix.len() <= j <= piece.len(),
                    out@ == piece@.subrange(prefix@.len() as int, j as int),
                decreases piece.len() - j,
            {
                push_char(&mut out, piece[j]);
                j = j + 1;
                assert(out@ =~= piece@.subrange(prefix@.len() as int, j as int));
            }
            assert(piece@.subrange(prefix@.len() as int, piece.len() as int) =~= piece@.skip(
                prefix@.len() as int,
            ));
            return Some(out);
        }
        i = i + 1;
    }
    None
}

pub open spec fn digit_value(c: char) -> nat {
    ((c as u32) - 48) as nat
}

/// Value of a string of decimal digits.
pub open spec fn digits_value(s: Seq<char>) -> nat
    decreases s.len(),
{
    if s.len() == 0 {
        0
    } else {
        digits_value(s.drop_last()) * 10 + digit_value(s.last())
    }
}

pub open spec fn all_digits(s: Seq<char>) -> bool {
    forall|i: int| 0 <= i < s.len() ==> '0' <= #[trigger] s[i] <= '9'
}

/// `u8::from_str`: an optional `+` then one or more decimal digits, of
/// value at most 255.
pub open spec fn parse_u8_spec(s: Seq<char>) -> Option<u8> {
    let d = if s.len() > 0 && s[0] == '+' { s.skip(1) } else { s };
    if d.len() > 0 && all_digits(d) && digits_value(d) <= 255 {
        Some(digits_value(d) as u8)
    } else {
        None
    }
}

proof fn lemma_digits_monotone(s: Seq<char>, i: int)
    requires
        0 <= i <= s.len(),
        all_digits(s),
    ensures
        digits_value(s.take(i)) <= digits_value(s),
    decreases s.len() - i,
{
    if i < s.len() {
        lemma_digits_monotone(s, i + 1);
        assert(s.take(i + 1).drop_last() =~= s.take(i));
    } else {
        assert(s.take(i) =~= s);
    }
}

/// `str::parse::<u8>().ok()`.
#[verifier::rlimit(30)]
pub fn parse_u8(s: &str) -> (res: Option<u8>)
    ensures
        res == parse_u8_spec(s@),
{
    let cs = chars_of(s);
    let start: usize = if cs.len() > 0 && cs[0] == '+' { 1 } else { 0 };
    let ghost d = if s@.len() > 0 && s@[0] == '+' { s@.skip(1) } else { s@ };
    assert(d =~= cs@.skip(start as int));
    if start >= cs.len() {
        return None;
    }
    let mut acc: u32 = 0;
    let mut i: usize = start;
    while i < cs.len()
        invariant
            start <= i <= cs.len(),
            cs@ == s@,
            d == cs@.skip(start as int),
            d == (if s@.len() > 0 && s@[0] == '+' { s@.skip(1) } else { s@ }),
            d.len() > 0,
            all_digits(d.take(i - start)),
            acc == digits_value(d.take(i - start)),
            acc <= 255,
        decreases cs.len() - i,
    {
        let c = cs[i];
        let ghost k = (i - start) as int;
        assert(d.take(k + 1).drop_last() =~= d.take(k));
        assert(d.take(k + 1).last() == c);
        if !('0' <= c && c <= '9') {
            assert(!all_digits(d)) by {
                assert(d[k] == c);
            }
            return None;
        }
        acc = acc * 10 + ((c as u32) - 48);
        assert(all_digits(d.take(k + 1))) by {
            assert forall|m: int| 0 <= m < k + 1 implies '0' <= #[trigger] d.take(k + 1)[m] <= '9' by {
                if m < k {
                    assert(d.take(k + 1)[m] == d.take(k)[m]);
                }
            }
        }
        if acc > 255 {
            proof {
                if all_digits(d) {
                    lemma_digits_monotone(d, k + 1);
                }
            }
            return None;
        }
        i = i + 1;
    }
    assert(d.take(d.len() as int) =~= d);
    Some(acc as u8)
}

/// Bootstrap progress and tag read from `status/bootstrap-phase`: the
/// percentage (0 when absent or unreadable) and the phase tag (empty when
/// absent).
pub fn bootstrap_phase(raw: &str) -> (res: (u8, String))
    ensures
        res.0 == match extract_kv_spec(raw@, "PROGRESS"@) {
            Some(v) => match parse_u8_spec(v) {
                Some(p) => p,
                None => 0u8,
            },
            None => 0u8,
        },
        res.1@ == match extract_kv_spec(raw@, "TAG"@) {
            Some(t) => t,
            None => Seq::<char>::empty(),
        },
{
    let progress = match extract_kv(raw, "PROGRESS") {
        Some(v) => match parse_u8(v.as_str()) {
            Some(p) => p,
            None => 0u8,
        },
        None => 0u8,
    };
    let tag = match extract_kv(raw, "TAG") {
        Some(t) => t,
        None => String::new(),
    };
    (progress, tag)
}

/// Whether `status/circuit-established` reports a circuit: its trimmed
/// value is exactly `1`.
pub fn circuit_is_established(raw: &str) -> (up: bool)
    ensures
        up == (trim_spec(raw@) == seq!['1']),
{
    let t = trim(raw);
    let cs = chars_of(t.as_str());
    let up = cs.len() == 1 && cs[0] == '1';
    if up {
        assert(cs@ =~= seq!['1']);
    }
    up
}

/// The SOCKS listener text from `net/listeners/socks`: trimmed and without
/// surrounding double quotes.
pub fn socks_listener_text(raw: &str) -> (res: String)
    ensures
        res@ == trim_quotes(trim_spec(raw@)),
{
    let t = trim(raw);
    let cs = chars_of(t.as_str());
    let v = trim_quote_chars(&cs);
    string_from_chars(&v)
}

/// The characters of `PORT=`.
pub open spec fn port_prefix() -> Seq<char> {
    seq!['P', 'O', 'R', 'T', '=']
}

/// The address in the control-port file: the trimmed text after `PORT=`,
/// when the trimmed content starts with it.
pub open spec fn control_port_spec(content: Seq<char>) -> Option<Seq<char>> {
    let t = trim_spec(content);
    if starts_with(t, port_prefix()) {
        Some(trim_spec(t.skip(5)))
    } else {
        None
    }
}

/// Reads the address that Tor wrote to its control-port file.
pub fn control_port_text(content: &str) -> (res: Option<String>)
    ensures
        match control_port_spec(content@) {
            None => res is None,
            Some(a) => res matches Some(r) && r@ == a,
        },
{
    let t = trim(content);
    let cs = chars_of(t.as_str());
    let prefix: Vec<char> = vec!['P', 'O', 'R', 'T', '='];
    assert(prefix@ =~= port_prefix());
    if !starts_with_vec(&cs, &prefix) {
        return None;
    }
    let mut rest: Vec<char> = Vec::new();
    let mut i: usize = 5;
    while i < cs.len()
        invariant
            5 <= i <= cs.len(),
            rest@ == cs@.subrange(5, i as int),
        decreases cs.len() - i,
    {
        rest.push(cs[i]);
        i = i + 1;
        assert(rest@ =~= cs@.subrange(5, i as int));
    }
    assert(cs@.subrange(5, cs.len() as int) =~= cs@.skip(5));
    let rest = string_from_chars(&rest);
    Some(trim(rest.as_str()))
}

/// What to do after one poll of a bootstrapping Tor.
#[derive(Debug, PartialEq, Eq, Clone, Copy)]
pub enum BootStep {
    /// The process has exited.
    Died,
    /// A circuit is established: publish the onion service.
    Ready,
    /// Still bootstrapping: report progress and poll again.
    Wait,
    /// The deadline has passed without a circuit.
    TimedOut,
}

/// The decision after one poll: `alive` is whether the process was still
/// running before the poll, `circuit` the answer to the circuit query
/// (`None` when the query failed), `alive_after` whether the process was
/// running when the query failed, and `past_deadline` whether the
/// bootstrap deadline has passed.
pub fn bootstrap_step(alive: bool, circuit: Option<bool>, alive_after: bool, past_deadline: bool) -> (step: BootStep)
    ensures
        step == if !alive {
            BootStep::Died
        } else if circuit == Some(true) {
            BootStep::Ready
        } else if circuit is None && !alive_after {
            BootStep::Died
        } else if past_deadline {
            BootStep::TimedOut
        } else {
            BootStep::Wait
        },
{
    if !alive {
        return BootStep::Died;
    }
    match circuit {
        Some(true) => return BootStep::Ready,
        Some(false) => {},
        None => {
            if !alive_after {
                return BootStep::Died;
            }
        },
    }
    if past_deadline {
        BootStep::TimedOut
    } else {
        BootStep::Wait
    }
}

/// Whether a failed bootstrap attempt is tried again: only for a process
/// that died or an I/O failure, and only while attempts remain.
pub fn retry_bootstrap(attempt: u32, max_attempts: u32, error: &TorError) -> (retry: bool)
    ensures
        retry == (attempt < max_attempts && (error is ProcessDied || error is Io)),
{
    let restartable = match error {
        TorError::ProcessDied(_) => true,
        TorError::Io(_) => true,
        _ => false,
    };
    attempt < max_attempts && restartable
}

/// Whether the onion service Tor published is the one of our identity.
pub fn published_matches(published: &str, expected: &str) -> (ok: bool)
    ensures
        ok == (published@ == expected@),
{
    crate::groups::str_eq(published, expected)
}

} // verus!

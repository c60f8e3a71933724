//! The text side of Tor's control protocol: reply lines, multi-line
//! replies, `GETINFO` values, the `ADD_ONION` service identifier and the
//! commands that the client sends.

use vstd::prelude::*;
use vstd::utf8::{decode_utf8, encode_utf8, encode_utf8_decode_utf8, is_char_boundary};
use crate::std_glue::{chars_of, push_char, string_from_chars};
use crate::text::{hex_encode, hex_spec, trim, trim_spec};
use crate::tor::TorError;

verus! {

pub open spec fn is_digit_byte(b: u8) -> bool {
    48 <= b <= 57
}

/// Whether a line starts with a three-digit status code.
pub open spec fn has_code(b: Seq<u8>) -> bool {
    b.len() >= 3 && is_digit_byte(b[0]) && is_digit_byte(b[1]) && is_digit_byte(b[2])
}

/// The status code of a line that starts with three digits.
pub open spec fn code_value(b: Seq<u8>) -> u16 {
    ((b[0] - 48) * 100 + (b[1] - 48) * 10 + (b[2] - 48)) as u16
}

/// A reply line as `(code, is_final, rest)`: the code, whether the fourth
/// byte ends the reply (anything but `-` and `+`), and what follows it.
/// Lines that do not start with three digits are not reply lines.
pub open spec fn parse_line_spec(b: Seq<u8>) -> Option<(u16, bool, Seq<u8>)> {
    if !has_code(b) {
        None
    } else if b.len() == 3 {
        Some((code_value(b), true, Seq::<u8>::empty()))
    } else {
        Some((code_value(b), b[3] != 45 && b[3] != 43, b.skip(4)))
    }
}

/// Lines on which reading the rest after the fourth byte is defined: the
/// fourth byte of a coded line must be a whole character.
pub open spec fn line_splittable(b: Seq<u8>) -> bool {
    has_code(b) && b.len() > 3 ==> is_char_boundary(b, 4)
}

/// Splits a control-port reply line into its code, whether it is the final
/// line of the reply, and the text after the separator.
pub fn parse_line(line: &str) -> (res: Option<(u16, bool, &str)>)
    requires
        line_splittable(encode_utf8(line@)),
    ensures
        match parse_line_spec(encode_utf8(line@)) {
            None => res is None,
            Some((code, fin, rest)) => res matches Some((c, f, r)) && c == code && f == fin
                && encode_utf8(r@) == rest,
        },
{
    let bytes = line.as_bytes();
    if bytes.len() < 3 || !(48 <= bytes[0] && bytes[0] <= 57 && 48 <= bytes[1] && bytes[1] <= 57 && 48
        <= bytes[2] && bytes[2] <= 57) {
        return None;
    }
    let code: u16 = ((bytes[0] - 48) as u16) * 100 + ((bytes[1] - 48) as u16) * 10 + ((bytes[2]
        - 48) as u16);
    if bytes.len() == 3 {
        let empty = "";
        proof {
            reveal_strlit("");
            assert(encode_utf8(empty@) =~= Seq::<u8>::empty());
        }
        return Some((code, true, empty));
    }
    let sep = bytes[3];
    let (_, rest) = line.split_at(4);
    Some((code, sep != 45 && sep != 43, rest))
}

/// Characters of a list of strings.
pub open spec fn views(v: Seq<String>) -> Seq<Seq<char>> {
    v.map_values(|s: String| s@)
}

/// The lines joined with `sep` between them (`[..].join(sep)`).
pub open spec fn join_spec(lines: Seq<Seq<char>>, sep: Seq<char>) -> Seq<char>
    decreases lines.len(),
{
    if lines.len() == 0 {
        Seq::<char>::empty()
    } else if lines.len() == 1 {
        lines[0]
    } else {
        join_spec(lines.drop_last(), sep) + sep + lines.last()
    }
}

/// `slice::join`.
pub fn join_lines(lines: &Vec<String>, sep: &str) -> (res: String)
    ensures
        res@ == join_spec(views(lines@), sep@),
{
    let mut out = String::new();
    let mut i: usize = 0;
    while i < lines.len()
        invariant
            i <= lines.len(),
            out@ == join_spec(views(lines@.take(i as int)), sep@),
        decreases lines.len() - i,
    {
        assert(views(lines@.take(i + 1)).drop_last() =~= views(lines@.take(i as int)));
        if i > 0 {
            out.append(sep);
        }
        out.append(lines[i].as_str());
        i = i + 1;
        assert(views(lines@.take(i as int)).last() == lines@[i - 1]@);
        if i == 1 {
            assert(out@ =~= join_spec(views(lines@.take(i as int)), sep@));
        }
    }
    assert(lines@.take(lines.len() as int) =~= lines@);
    out
}

pub open spec fn digit_char(d: nat) -> char {
    (48 + d) as char
}

/// Decimal text of a number, without leading zeros.
pub open spec fn decimal_spec(n: nat) -> Seq<char>
    decreases n,
{
    if n < 10 {
        seq![digit_char(n)]
    } else {
        decimal_spec(n / 10) + seq![digit_char(n % 10)]
    }
}

/// Decimal text of a `u16` (its `Display`).
pub fn decimal_u16(n: u16) -> (res: String)
    ensures
        res@ == decimal_spec(n as nat),
    decreases n,
{
    if n < 10 {
        let mut s = String::new();
        push_char(&mut s, ((48u8 + n as u8) as char));
        assert(s@ =~= decimal_spec(n as nat));
        s
    } else {
        let mut s = decimal_u16(n / 10);
        push_char(&mut s, ((48u8 + (n % 10) as u8) as char));
        assert(s@ =~= decimal_spec(n as nat));
        s
    }
}

/// Whether a final code means success (2xx).
pub open spec fn code_ok(code: u16) -> bool {
    200 <= code < 300
}

/// What one more line of a reply does to the reply read so far: the lines
/// kept, and `None` while the reply goes on, or the complete reply or the
/// message of the error it reports once its final line has come. Lines that
/// are not reply lines are skipped.
pub open spec fn reply_after(lines: Seq<Seq<char>>, line: Seq<char>) -> (
    Seq<Seq<char>>,
    Option<Result<Seq<Seq<char>>, Seq<char>>>,
) {
    match parse_line_spec(encode_utf8(line)) {
        None => (lines, None),
        Some((code, fin, rest)) => {
            let all = lines.push(decode_utf8(rest));
            if !fin {
                (all, None)
            } else if code_ok(code) {
                (all, Some(Ok(all)))
            } else {
                (
                    all,
                    Some(
                        Err(
                            "erreur tor "@ + decimal_spec(code as nat) + ": "@ + join_spec(all, " / "@),
                        ),
                    ),
                )
            }
        },
    }
}

/// Feeds one line (without its line break) to a reply being read. Returns
/// `None` while more lines are expected; once the final line has come, the
/// whole reply, or the `Control` error that a non-2xx code reports, and
/// `lines` is emptied.
pub fn reply_line(lines: &mut Vec<String>, line: &str) -> (res: Option<Result<Vec<String>, TorError>>)
    requires
        line_splittable(encode_utf8(line@)),
    ensures
        ({
            let (kept, out) = reply_after(views(old(lines)@), line@);
            match out {
                None => res is None && views(final(lines)@) == kept,
                Some(Ok(all)) => res matches Some(Ok(v)) && views(v@) == all,
                Some(Err(m)) => res matches Some(Err(TorError::Control(e))) && e@ == m,
            }
        }),
{
    match parse_line(line) {
        None => None,
        Some((code, fin, rest)) => {
            proof {
                encode_utf8_decode_utf8(rest@);
            }
            lines.push(String::from_str(rest));
            assert(views(lines@) =~= views(old(lines)@).push(rest@));
            if !fin {
                return None;
            }
            let mut all: Vec<String> = Vec::new();
            std::mem::swap(&mut all, lines);
            if 200 <= code && code < 300 {
                Some(Ok(all))
            } else {
                let mut msg = String::from_str("erreur tor ");
                let digits = decimal_u16(code);
                msg.append(digits.as_str());
                msg.append(": ");
                let joined = join_lines(&all, " / ");
                msg.append(joined.as_str());
                Some(Err(TorError::Control(msg)))
            }
        },
    }
}

/// Whether `s` starts with `prefix`.
pub open spec fn starts_with(s: Seq<char>, prefix: Seq<char>) -> bool {
    s.len() >= prefix.len() && s.take(prefix.len() as int) == prefix
}

/// `trim_matches('"')`: `s` without the double quotes at either end.
pub open spec fn trim_quotes(s: Seq<char>) -> Seq<char>
    decreases s.len(),
{
    if s.len() == 0 {
        s
    } else if s[0] == '"' {
        trim_quotes(s.skip(1))
    } else if s.last() == '"' {
        trim_quotes(s.drop_last())
    } else {
        s
    }
}

/// The value that the first line `key=value` of a `GETINFO` reply gives,
/// without surrounding double quotes; empty when no line carries the key.
pub open spec fn info_value_spec(lines: Seq<Seq<char>>, key: Seq<char>) -> Seq<char>
    decreases lines.len(),
{
    if lines.len() == 0 {
        Seq::<char>::empty()
    } else if starts_with(lines[0], key + seq!['=']) {
        trim_quotes(lines[0].skip(key.len() as int + 1))
    } else {
        info_value_spec(lines.skip(1), key)
    }
}

fn starts_with_chars(s: &Vec<char>, prefix: &Vec<char>) -> (r: bool)
    ensures
        r == starts_with(s@, prefix@),
{
    if s.len() < prefix.len() {
        return false;
    }
    let mut i: usize = 0;
    while i < prefix.len()
        invariant
            i <= prefix.len() <= s.len(),
            forall|k: int| 0 <= k < i ==> s@[k] == prefix@[k],
        decreases prefix.len() - i,
    {
        if s[i] != prefix[i] {
            assert(s@.take(prefix.len() as int)[i as int] != prefix@[i as int]);
            return false;
        }
        i = i + 1;
    }
    assert(s@.take(prefix.len() as int) =~= prefix@);
    true
}

/// `trim_matches('"')`.
pub fn trim_quote_chars(s: &Vec<char>) -> (res: Vec<char>)
    ensures
        res@ == trim_quotes(s@),
{
    let mut start: usize = 0;
    let mut end: usize = s.len();
    assert(s@.subrange(0, s.len() as int) =~= s@);
    while start < end && s[start] == '"'
        invariant
            start <= end == s.len(),
            trim_quotes(s@.subrange(start as int, end as int)) == trim_quotes(s@),
        decreases end - start,
    {
        assert(s@.subrange(start as int, end as int).skip(1) =~= s@.subrange(start + 1, end as int));
        start = start + 1;
    }
    while start < end && s[end - 1] == '"'
        invariant
            start <= end <= s.len(),
            start < end ==> s@[start as int] != '"',
            trim_quotes(s@.subrange(start as int, end as int)) == trim_quotes(s@),
        decreases end - start,
    {
        assert(s@.subrange(start as int, end as int).drop_last() =~= s@.subrange(start as int, end - 1));
        end = end - 1;
    }
    let mut out: Vec<char> = Vec::new();
    let mut i: usize = start;
    while i < end
        invariant
            start <= i <= end <= s.len(),
            out@ == s@.subrange(start as int, i as int),
        decreases end - i,
    {
        out.push(s[i]);
        i = i + 1;
        assert(out@ =~= s@.subrange(start as int, i as int));
    }
    out
}

/// The value of `key` in a `GETINFO` reply (`GETINFO key`), or the empty
/// string.
pub fn info_value(lines: &Vec<String>, key: &str) -> (res: String)
    ensures
        res@ == info_value_spec(views(lines@), key@),
{
    let mut prefix = chars_of(key);
    prefix.push('=');
    assert(prefix@ =~= key@ + seq!['=']);
    let mut i: usize = 0;
    assert(views(lines@).skip(0) =~= views(lines@));
    while i < lines.len()
        invariant
            i <= lines.len(),
            prefix@ == key@ + seq!['='],
            info_value_spec(views(lines@), key@) == info_value_spec(views(lines@).skip(i as int), key@),
        decreases lines.len() - i,
    {
        let cs = chars_of(lines[i].as_str());
        assert(views(lines@).skip(i as int)[0] == cs@);
        assert(views(lines@).skip(i as int).skip(1) =~= views(lines@).skip(i + 1));
        if starts_with_chars(&cs, &prefix) {
            let value = sub_from(&cs, prefix.len());
            let trimmed = trim_quote_chars(&value);
            return string_from_chars(&trimmed);
        }
        i = i + 1;
    }
    String::new()
}

fn sub_from(v: &Vec<char>, from: usize) -> (res: Vec<char>)
    requires
        from <= v.len(),
    ensures
        res@ == v@.skip(from as int),
{
    let mut out: Vec<char> = Vec::new();
    let mut i: usize = from;
    while i < v.len()
        invariant
            from <= i <= v.len(),
            out@ == v@.subrange(from as int, i as int),
        decreases v.len() - i,
    {
        out.push(v[i]);
        i = i + 1;
        assert(out@ =~= v@.subrange(from as int, i as int));
    }
    assert(v@.subrange(from as int, v.len() as int) =~= v@.skip(from as int));
    out
}

/// The characters of `ServiceID=`.
pub open spec fn service_id_prefix() -> Seq<char> {
    seq!['S', 'e', 'r', 'v', 'i', 'c', 'e', 'I', 'D', '=']
}

/// The trimmed text after `ServiceID=` on the first line that starts with
/// it, if any line does.
pub open spec fn service_id_spec(lines: Seq<Seq<char>>) -> Option<Seq<char>>
    decreases lines.len(),
{
    if lines.len() == 0 {
        None
    } else if starts_with(lines[0], service_id_prefix()) {
        Some(trim_spec(lines[0].skip(10)))
    } else {
        service_id_spec(lines.skip(1))
    }
}

/// The onion service identifier in an `ADD_ONION` reply; a reply without
/// one is a protocol error.
pub fn service_id_of(lines: &Vec<String>) -> (res: Result<String, TorError>)
    ensures
        match service_id_spec(views(lines@)) {
            Some(id) => res matches Ok(s) && s@ == id,
            None => res matches Err(TorError::Control(m)) && m@ == "ServiceID absent de la réponse ADD_ONION"@,
        },
{
    let prefix: Vec<char> = vec!['S', 'e', 'r', 'v', 'i', 'c', 'e', 'I', 'D', '='];
    assert(prefix@ =~= service_id_prefix());
    let mut i: usize = 0;
    assert(views(lines@).skip(0) =~= views(lines@));
    while i < lines.len()
        invariant
            i <= lines.len(),
            prefix@ == service_id_prefix(),
            service_id_spec(views(lines@)) == service_id_spec(views(lines@).skip(i as int)),
        decreases lines.len() - i,
    {
        let cs = chars_of(lines[i].as_str());
        assert(views(lines@).skip(i as int)[0] == cs@);
        assert(views(lines@).skip(i as int).skip(1) =~= views(lines@).skip(i + 1));
        if starts_with_chars(&cs, &prefix) {
            let value = string_from_chars(&sub_from(&cs, 10));
            return Ok(trim(value.as_str()));
        }
        i = i + 1;
    }
    Err(TorError::Control(String::from_str("ServiceID absent de la réponse ADD_ONION")))
}

/// `AUTHENTICATE <cookie in hexadecimal>`.
pub fn authenticate_command(cookie: &[u8]) -> (res: String)
    ensures
        res@ == "AUTHENTICATE "@ + hex_spec(cookie@),
{
    let hex = hex_encode(cookie);
    String::from_str("AUTHENTICATE ").concat(hex.as_str())
}

/// `GETINFO <key>`.
pub fn getinfo_command(key: &str) -> (res: String)
    ensures
        res@ == "GETINFO "@ + key@,
{
    String::from_str("GETINFO ").concat(key)
}

/// `ADD_ONION ED25519-V3:<key> Flags=Detach Port=<virtual>,127.0.0.1:<target>`.
pub fn add_onion_command(key_b64: &str, virtual_port: u16, target_port: u16) -> (res: String)
    ensures
        res@ == "ADD_ONION ED25519-V3:"@ + key_b64@ + " Flags=Detach Port="@ + decimal_spec(
            virtual_port as nat,
        ) + ",127.0.0.1:"@ + decimal_spec(target_port as nat),
{
    let mut out = String::from_str("ADD_ONION ED25519-V3:");
    out.append(key_b64);
    out.append(" Flags=Detach Port=");
    let v = decimal_u16(virtual_port);
    out.append(v.as_str());
    out.append(",127.0.0.1:");
    let t = decimal_u16(target_port);
    out.append(t.as_str());
    out
}

} // verus!

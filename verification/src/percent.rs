//! Percent-encoding of bytes with every byte but ASCII letters and digits
//! escaped (the `NON_ALPHANUMERIC` set), and percent-decoding.

use vstd::prelude::*;

verus! {

/// ASCII letters and digits: the bytes that are never escaped.
pub open spec fn is_alnum_byte(b: u8) -> bool {
    (48 <= b <= 57) || (65 <= b <= 90) || (97 <= b <= 122)
}

/// The upper-case hexadecimal digit of a value below sixteen, as a byte.
pub open spec fn upper_hex(v: u8) -> u8 {
    if v < 10 {
        (48 + v) as u8
    } else {
        (55 + v) as u8
    }
}

/// One byte, escaped as `%XX` unless it is a letter or a digit.
pub open spec fn pct_byte(b: u8) -> Seq<u8> {
    if is_alnum_byte(b) {
        seq![b]
    } else {
        seq![37u8, upper_hex(b / 16), upper_hex(b % 16)]
    }
}

/// The percent-encoding of a byte string.
pub open spec fn pct_encode(d: Seq<u8>) -> Seq<u8>
    decreases d.len(),
{
    if d.len() == 0 {
        seq![]
    } else {
        pct_byte(d[0]) + pct_encode(d.skip(1))
    }
}

/// The value of a hexadecimal digit byte of either case.
pub open spec fn hex_value(b: u8) -> Option<u8> {
    if 48 <= b <= 57 {
        Some((b - 48) as u8)
    } else if 65 <= b <= 70 {
        Some((b - 55) as u8)
    } else if 97 <= b <= 102 {
        Some((b - 87) as u8)
    } else {
        None
    }
}

/// Percent-decoding: `%` followed by two hexadecimal digits stands for the
/// byte they spell; every other byte, a lone `%` included, stands for itself.
pub open spec fn pct_decode(d: Seq<u8>) -> Seq<u8>
    decreases d.len(),
{
    if d.len() == 0 {
        seq![]
    } else if d[0] == 37 && d.len() >= 3 && hex_value(d[1]) is Some && hex_value(d[2]) is Some {
        seq![(hex_value(d[1])->0 * 16 + hex_value(d[2])->0) as u8] + pct_decode(d.skip(3))
    } else {
        seq![d[0]] + pct_decode(d.skip(1))
    }
}

/// Bytes that an encoding may hold: letters, digits and `%`.
pub open spec fn pct_safe(d: Seq<u8>) -> bool {
    forall|i: int| 0 <= i < d.len() ==> (is_alnum_byte(#[trigger] d[i]) || d[i] == 37)
}

fn upper_hex_byte(v: u8) -> (c: u8)
    requires
        v < 16,
    ensures
        c == upper_hex(v),
{
    if v < 10 {
        48u8 + v
    } else {
        55u8 + v
    }
}

fn hex_value_of(b: u8) -> (res: Option<u8>)
    ensures
        res == hex_value(b),
{
    if 48 <= b && b <= 57 {
        Some(b - 48)
    } else if 65 <= b && b <= 70 {
        Some(b - 55)
    } else if 97 <= b && b <= 102 {
        Some(b - 87)
    } else {
        None
    }
}

fn is_alnum(b: u8) -> (r: bool)
    ensures
        r == is_alnum_byte(b),
{
    (48 <= b && b <= 57) || (65 <= b && b <= 90) || (97 <= b && b <= 122)
}

/// Percent-encodes `data` (`utf8_percent_encode(.., NON_ALPHANUMERIC)` on
/// the bytes of a string).
pub fn percent_encode(data: &[u8]) -> (out: Vec<u8>)
    ensures
        out@ == pct_encode(data@),
{
    let mut out: Vec<u8> = Vec::new();
    let mut i: usize = 0;
    assert(data@.skip(0) =~= data@);
    assert(out@ + pct_encode(data@) =~= pct_encode(data@));
    while i < data.len()
        invariant
            i <= data.len(),
            pct_encode(data@) == out@ + pct_encode(data@.skip(i as int)),
        decreases data.len() - i,
    {
        let b = data[i];
        let ghost rest = data@.skip(i as int);
        let ghost before = out@;
        assert(rest.skip(1) =~= data@.skip(i + 1));
        assert(pct_encode(rest) == pct_byte(b) + pct_encode(data@.skip(i + 1)));
        if is_alnum(b) {
            out.push(b);
        } else {
            out.push(37u8);
            out.push(upper_hex_byte(b / 16));
            out.push(upper_hex_byte(b % 16));
        }
        assert(out@ =~= before + pct_byte(b));
        assert(out@ + pct_encode(data@.skip(i + 1)) =~= before + (pct_byte(b) + pct_encode(
            data@.skip(i + 1),
        )));
        i = i + 1;
    }
    assert(data@.skip(data.len() as int) =~= Seq::<u8>::empty());
    assert(out@ + Seq::<u8>::empty() =~= out@);
    out
}

/// Percent-decodes `data` (`percent_decode`).
pub fn percent_decode(data: &[u8]) -> (out: Vec<u8>)
    ensures
        out@ == pct_decode(data@),
{
    let mut out: Vec<u8> = Vec::new();
    let mut i: usize = 0;
    assert(data@.skip(0) =~= data@);
    assert(out@ + pct_decode(data@) =~= pct_decode(data@));
    while i < data.len()
        invariant
            i <= data.len(),
            pct_decode(data@) == out@ + pct_decode(data@.skip(i as int)),
        decreases data.len() - i,
    {
        let ghost rest = data@.skip(i as int);
        let b = data[i];
        let mut taken = false;
        if b == 37 && data.len() - i >= 3 {
            let h = hex_value_of(data[i + 1]);
            let l = hex_value_of(data[i + 2]);
            if let (Some(h), Some(l)) = (h, l) {
                assert(rest.skip(3) =~= data@.skip(i + 3));
                assert(h < 16 && l < 16);
                out.push(h * 16 + l);
                i = i + 3;
                taken = true;
                assert(out@ + pct_decode(data@.skip(i as int)) =~= pct_decode(data@));
            }
        }
        if !taken {
            assert(rest.skip(1) =~= data@.skip(i + 1));
            out.push(b);
            i = i + 1;
            assert(out@ + pct_decode(data@.skip(i as int)) =~= pct_decode(data@));
        }
    }
    assert(data@.skip(data.len() as int) =~= Seq::<u8>::empty());
    assert(out@ + Seq::<u8>::empty() =~= out@);
    out
}

proof fn lemma_upper_hex(v: u8)
    requires
        v < 16,
    ensures
        hex_value(upper_hex(v)) == Some(v),
        !is_alnum_byte(37),
        upper_hex(v) != 37,
        is_alnum_byte(upper_hex(v)),
{
}

/// Decoding an encoding gives the bytes back.
pub proof fn pct_roundtrip(d: Seq<u8>)
    ensures
        pct_decode(pct_encode(d)) == d,
    decreases d.len(),
{
    if d.len() > 0 {
        let b = d[0];
        let e = pct_encode(d.skip(1));
        pct_roundtrip(d.skip(1));
        if is_alnum_byte(b) {
            assert((seq![b] + e).skip(1) =~= e);
        } else {
            lemma_upper_hex(b / 16);
            lemma_upper_hex(b % 16);
            let p = seq![37u8, upper_hex(b / 16), upper_hex(b % 16)] + e;
            assert(p.skip(3) =~= e);
            assert((b / 16) * 16 + b % 16 == b);
        }
        assert(seq![b] + d.skip(1) =~= d);
    }
}

/// An encoding holds only letters, digits and `%`.
pub proof fn pct_encode_safe(d: Seq<u8>)
    ensures
        pct_safe(pct_encode(d)),
    decreases d.len(),
{
    if d.len() > 0 {
        pct_encode_safe(d.skip(1));
        let b = d[0];
        if !is_alnum_byte(b) {
            lemma_upper_hex(b / 16);
            lemma_upper_hex(b % 16);
        }
        let e = pct_encode(d.skip(1));
        let p = pct_byte(b) + e;
        assert forall|i: int| 0 <= i < p.len() implies (is_alnum_byte(#[trigger] p[i]) || p[i]
            == 37) by {
            if i >= pct_byte(b).len() {
                assert(p[i] == e[i - pct_byte(b).len()]);
            }
        }
    }
}

} // verus!

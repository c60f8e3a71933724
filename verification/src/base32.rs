//! RFC 4648 base32 with the lower-case alphabet and no padding, as used by
//! v3 onion addresses.

use vstd::prelude::*;
use crate::std_glue::push_char;
use vstd::utf8::{encode_utf8, is_ascii_chars, is_ascii_chars_encode_utf8};

verus! {

/// The five-bit values of one full five-byte group (RFC 4648, section 6).
pub open spec fn b32_group(b: Seq<u8>) -> Seq<u8>
    recommends
        b.len() == 5,
{
    seq![
        b[0] >> 3u8,
        ((b[0] & 7u8) << 2u8) | (b[1] >> 6u8),
        (b[1] >> 1u8) & 31u8,
        ((b[1] & 1u8) << 4u8) | (b[2] >> 4u8),
        ((b[2] & 15u8) << 1u8) | (b[3] >> 7u8),
        (b[3] >> 2u8) & 31u8,
        ((b[3] & 3u8) << 3u8) | (b[4] >> 5u8),
        b[4] & 31u8,
    ]
}

/// `b` followed by zero bytes up to length five.
pub open spec fn pad5(b: Seq<u8>) -> Seq<u8> {
    b + Seq::new((5 - b.len()) as nat, |i: int| 0u8)
}

/// Number of symbols produced for a final group of `r` bytes.
pub open spec fn b32_symbols_for(r: nat) -> nat {
    (8 * r + 4) / 5
}

/// Five-bit values of the base32 encoding of `d`, without padding.
pub open spec fn b32_values(d: Seq<u8>) -> Seq<u8>
    decreases d.len(),
{
    if d.len() == 0 {
        seq![]
    } else if d.len() < 5 {
        b32_group(pad5(d)).take(b32_symbols_for(d.len()) as int)
    } else {
        b32_group(d.take(5)) + b32_values(d.skip(5))
    }
}

/// The lower-case base32 alphabet `a`-`z`, `2`-`7`, as byte values.
pub open spec fn b32_symbol(v: u8) -> u8 {
    if v < 26 {
        (97 + v) as u8
    } else {
        (24 + v) as u8
    }
}

/// Bytes of the unpadded lower-case base32 encoding of `d`.
pub open spec fn base32_bytes(d: Seq<u8>) -> Seq<u8> {
    b32_values(d).map_values(|v: u8| b32_symbol(v))
}

/// Characters of the unpadded lower-case base32 encoding of `d`.
pub open spec fn base32_text(d: Seq<u8>) -> Seq<char> {
    b32_values(d).map_values(|v: u8| b32_symbol(v) as char)
}

fn symbol(v: u32) -> (c: char)
    requires
        v < 32,
    ensures
        c == b32_symbol(v as u8) as char,
{
    let b: u8 = if v < 26 {
        97u8 + v as u8
    } else {
        24u8 + v as u8
    };
    b as char
}

proof fn lemma_values_append(x: Seq<u8>, y: Seq<u8>)
    requires
        x.len() % 5 == 0,
    ensures
        b32_values(x + y) == b32_values(x) + b32_values(y),
    decreases x.len(),
{
    if x.len() == 0 {
        assert(x + y =~= y);
    } else {
        assert((x + y).take(5) =~= x.take(5));
        assert((x + y).skip(5) =~= x.skip(5) + y);
        lemma_values_append(x.skip(5), y);
    }
}

/// Values already emitted for the bytes `g` of an unfinished group.
pub open spec fn partial_group_values(g: Seq<u8>) -> Seq<u8> {
    b32_group(pad5(g)).take(((8 * g.len()) / 5) as int)
}

/// Number of bits of the last byte still waiting in the encoder's buffer.
pub open spec fn kept_bits(j: nat) -> u32 {
    if j == 0 { 0 } else if j == 1 { 3 } else if j == 2 { 1 } else if j == 3 { 4 } else { 2 }
}

pub open spec fn kept_mask(j: nat) -> u32 {
    if j == 0 { 0 } else if j == 1 { 7 } else if j == 2 { 1 } else if j == 3 { 15 } else { 3 }
}

/// Values emitted when byte `b` arrives as byte number `j` of a group whose previous byte is `p`.
pub open spec fn step_values(j: nat, p: u8, b: u8) -> Seq<u8> {
    if j == 0 {
        seq![b >> 3u8]
    } else if j == 1 {
        seq![((p & 7u8) << 2u8) | (b >> 6u8), (b >> 1u8) & 31u8]
    } else if j == 2 {
        seq![((p & 1u8) << 4u8) | (b >> 4u8)]
    } else if j == 3 {
        seq![((p & 15u8) << 1u8) | (b >> 7u8), (b >> 2u8) & 31u8]
    } else {
        seq![((p & 3u8) << 3u8) | (b >> 5u8), b & 31u8]
    }
}

proof fn lemma_partial_step(g: Seq<u8>, b: u8)
    requires
        g.len() < 5,
    ensures
        partial_group_values(g.push(b)) == partial_group_values(g) + step_values(
            g.len(),
            if g.len() == 0 { 0u8 } else { g[g.len() - 1] },
            b,
        ),
{
    let h = g.push(b);
    let pg = pad5(g);
    let ph = pad5(h);
    assert(ph.len() == 5);
    assert(pg.len() == 5);
    if g.len() == 0 {
        assert(ph[0] == b);
        assert(partial_group_values(h) =~= seq![b >> 3u8]);
        assert(partial_group_values(g) =~= Seq::<u8>::empty());
    } else if g.len() == 1 {
        assert(ph[0] == g[0] && ph[1] == b);
        assert(pg[0] == g[0]);
        assert(partial_group_values(g) =~= seq![g[0] >> 3u8]);
        assert(partial_group_values(h) =~= partial_group_values(g) + step_values(1, g[0], b));
    } else if g.len() == 2 {
        assert(ph[0] == g[0] && ph[1] == g[1] && ph[2] == b);
        assert(pg[0] == g[0] && pg[1] == g[1]);
        assert(partial_group_values(h) =~= partial_group_values(g) + step_values(2, g[1], b));
    } else if g.len() == 3 {
        assert(ph[0] == g[0] && ph[1] == g[1] && ph[2] == g[2] && ph[3] == b);
        assert(pg[0] == g[0] && pg[1] == g[1] && pg[2] == g[2]);
        assert(partial_group_values(h) =~= partial_group_values(g) + step_values(3, g[2], b));
    } else {
        assert(ph[0] == g[0] && ph[1] == g[1] && ph[2] == g[2] && ph[3] == g[3] && ph[4] == b);
        assert(pg[0] == g[0] && pg[1] == g[1] && pg[2] == g[2] && pg[3] == g[3]);
        assert(partial_group_values(h) =~= partial_group_values(g) + step_values(4, g[3], b));
    }
}

proof fn lemma_encoder_bits(x: u32, b: u32, p: u32)
    by (bit_vector)
    requires
        b < 256,
        p < 256,
    ensures
        (((x << 8u32) | b) >> 3u32) & 31u32 == b >> 3u32,
        ((x << 8u32) | b) & 7u32 == b & 7u32,
        (x & 7u32) == (p & 7u32) ==> (((x << 8u32) | b) >> 6u32) & 31u32 == ((p & 7u32) << 2u32) | (b >> 6u32),
        (((x << 8u32) | b) >> 1u32) & 31u32 == (b >> 1u32) & 31u32,
        ((x << 8u32) | b) & 1u32 == b & 1u32,
        (x & 1u32) == (p & 1u32) ==> (((x << 8u32) | b) >> 4u32) & 31u32 == ((p & 1u32) << 4u32) | (b >> 4u32),
        ((x << 8u32) | b) & 15u32 == b & 15u32,
        (x & 15u32) == (p & 15u32) ==> (((x << 8u32) | b) >> 7u32) & 31u32 == ((p & 15u32) << 1u32) | (b >> 7u32),
        (((x << 8u32) | b) >> 2u32) & 31u32 == (b >> 2u32) & 31u32,
        ((x << 8u32) | b) & 3u32 == b & 3u32,
        (x & 3u32) == (p & 3u32) ==> (((x << 8u32) | b) >> 5u32) & 31u32 == ((p & 3u32) << 3u32) | (b >> 5u32),
        (((x << 8u32) | b) >> 0u32) & 31u32 == b & 31u32,
        (x & 7u32) == (p & 7u32) ==> (x << 2u32) & 31u32 == (p & 7u32) << 2u32,
        (x & 1u32) == (p & 1u32) ==> (x << 4u32) & 31u32 == (p & 1u32) << 4u32,
        (x & 15u32) == (p & 15u32) ==> (x << 1u32) & 31u32 == (p & 15u32) << 1u32,
        (x & 3u32) == (p & 3u32) ==> (x << 3u32) & 31u32 == (p & 3u32) << 3u32,
        x & 31u32 < 32,
{
}

proof fn lemma_u8_ops(p: u8, b: u8)
    by (bit_vector)
    ensures
        (b >> 3u8) as u32 == (b as u32) >> 3u32,
        (((p & 7u8) << 2u8) | (b >> 6u8)) as u32 == ((p as u32 & 7u32) << 2u32) | ((b as u32) >> 6u32),
        ((b >> 1u8) & 31u8) as u32 == ((b as u32) >> 1u32) & 31u32,
        (((p & 1u8) << 4u8) | (b >> 4u8)) as u32 == ((p as u32 & 1u32) << 4u32) | ((b as u32) >> 4u32),
        (((p & 15u8) << 1u8) | (b >> 7u8)) as u32 == ((p as u32 & 15u32) << 1u32) | ((b as u32) >> 7u32),
        ((b >> 2u8) & 31u8) as u32 == ((b as u32) >> 2u32) & 31u32,
        (((p & 3u8) << 3u8) | (b >> 5u8)) as u32 == ((p as u32 & 3u32) << 3u32) | ((b as u32) >> 5u32),
        (b & 31u8) as u32 == (b as u32) & 31u32,
        ((p & 7u8) << 2u8) as u32 == (p as u32 & 7u32) << 2u32,
        ((p & 1u8) << 4u8) as u32 == (p as u32 & 1u32) << 4u32,
        ((p & 15u8) << 1u8) as u32 == (p as u32 & 15u32) << 1u32,
        ((p & 3u8) << 3u8) as u32 == (p as u32 & 3u32) << 3u32,
{
}

/// What the encoder's bit buffer yields when byte `b` arrives as byte `j` of a group.
proof fn lemma_encoder_step(x: u32, b: u8, p: u8, j: nat)
    requires
        j < 5,
        j > 0 ==> (x & kept_mask(j)) == (p as u32 & kept_mask(j)),
    ensures
        ({
            let y = (x << 8u32) | (b as u32);
            let k: u32 = (kept_bits(j) + 3) as u32;
            let sv = step_values(j, p, b);
            &&& (y >> k) & 31u32 < 32
            &&& ((y >> k) & 31u32) as u8 == sv[0]
            &&& (k >= 5 <==> sv.len() == 2)
            &&& (k < 5 <==> sv.len() == 1)
            &&& k >= 5 ==> (y >> ((k - 5) as u32)) & 31u32 < 32
            &&& k >= 5 ==> ((y >> ((k - 5) as u32)) & 31u32) as u8 == sv[1]
            &&& (if k >= 5 { k - 5 } else { k as int }) == kept_bits((j + 1) % 5)
            &&& (j + 1) % 5 != 0 ==> (y & kept_mask((j + 1) % 5)) == (b as u32 & kept_mask(
                (j + 1) % 5,
            ))
        }),
{
    lemma_encoder_bits(x, b as u32, p as u32);
    lemma_u8_ops(p, b);
    let y = (x << 8u32) | (b as u32);
    assert(y & 31u32 < 32) by (bit_vector);
    assert((y >> 1u32) & 31u32 < 32) by (bit_vector);
    assert((y >> 2u32) & 31u32 < 32) by (bit_vector);
    assert((y >> 3u32) & 31u32 < 32) by (bit_vector);
    assert((y >> 4u32) & 31u32 < 32) by (bit_vector);
    assert((y >> 5u32) & 31u32 < 32) by (bit_vector);
    assert((y >> 6u32) & 31u32 < 32) by (bit_vector);
    assert((y >> 7u32) & 31u32 < 32) by (bit_vector);
    assert((y >> 0u32) & 31u32 < 32) by (bit_vector);
    let k: u32 = (kept_bits(j) + 3) as u32;
    let sv = step_values(j, p, b);
    if j == 0 {
        assert(k == 3);
        assert(sv.len() == 1);
    } else if j == 1 {
        assert(k == 6 && (k - 5) as u32 == 1u32);
        assert(sv.len() == 2);
    } else if j == 2 {
        assert(k == 4);
        assert(sv.len() == 1);
    } else if j == 3 {
        assert(k == 7 && (k - 5) as u32 == 2u32);
        assert(sv.len() == 2);
    } else {
        assert(k == 5 && (k - 5) as u32 == 0u32);
        assert(sv.len() == 2);
    }
}

/// Bookkeeping of the encoder when byte `i` of `d` is consumed.
#[verifier::spinoff_prover]
#[verifier::rlimit(60)]
proof fn lemma_values_step(d: Seq<u8>, i: int)
    requires
        0 <= i < d.len(),
    ensures
        ({
            let j = (i % 5) as nat;
            let p: u8 = if j == 0 { 0u8 } else { d[i - 1] };
            let s0 = i - i % 5;
            let s1 = (i + 1) - (i + 1) % 5;
            b32_values(d.take(s1)) + partial_group_values(d.subrange(s1, i + 1)) == b32_values(
                d.take(s0),
            ) + partial_group_values(d.subrange(s0, i)) + step_values(j, p, d[i])
        }),
{
    let j = (i % 5) as nat;
    let s0 = i - i % 5;
    let g = d.subrange(s0, i);
    let p: u8 = if j == 0 { 0u8 } else { d[i - 1] };
    lemma_partial_step(g, d[i]);
    if j > 0 {
        assert(g[g.len() - 1] == p);
    }
    if j < 4 {
        assert((i + 1) % 5 == j + 1);
        assert(d.subrange(s0, i + 1) =~= g.push(d[i]));
    } else {
        let full = g.push(d[i]);
        assert((i + 1) % 5 == 0);
        assert(d.subrange(s0, i + 1) =~= full);
        assert(d.take(i + 1) =~= d.take(s0) + full);
        lemma_values_append(d.take(s0), full);
        assert(full.skip(5) =~= Seq::<u8>::empty());
        assert(b32_values(full.skip(5)) =~= Seq::<u8>::empty());
        assert(full.take(5) =~= full);
        assert(pad5(full) =~= full);
        assert(b32_values(full) =~= b32_group(full));
        assert(partial_group_values(full) =~= b32_group(full));
        assert(d.subrange(i + 1, i + 1) =~= Seq::<u8>::empty());
        assert(partial_group_values(Seq::<u8>::empty()) =~= Seq::<u8>::empty());
        assert(b32_values(d.take(s0)) + partial_group_values(g) + step_values(j, p, d[i])
            =~= b32_values(d.take(s0)) + (partial_group_values(g) + step_values(j, p, d[i])));
        assert(b32_values(d.take(i + 1)) + partial_group_values(d.subrange(i + 1, i + 1))
            =~= b32_values(d.take(i + 1)));
    }
}

/// The values of the whole input: the finished groups, then the open group
/// completed with the one padded symbol when bits are left over.
proof fn lemma_values_finish(d: Seq<u8>)
    ensures
        ({
            let n = d.len() as int;
            let j = (n % 5) as nat;
            let g = d.subrange(n - j, n);
            &&& j == 0 ==> b32_values(d) == b32_values(d.take(n - j)) + partial_group_values(g)
            &&& j > 0 ==> b32_values(d) == b32_values(d.take(n - j)) + partial_group_values(g).push(
                b32_group(pad5(g))[((8 * j) / 5) as int],
            )
        }),
{
    let n = d.len() as int;
    let j = (n % 5) as nat;
    let start = n - j;
    let g = d.subrange(start, n);
    assert(d =~= d.take(start) + g);
    lemma_values_append(d.take(start), g);
    if j == 0 {
        assert(g =~= Seq::<u8>::empty());
        assert(partial_group_values(g) =~= Seq::<u8>::empty());
        assert(b32_values(d.take(start)) + partial_group_values(g) =~= b32_values(d.take(start)));
    } else {
        let grp = b32_group(pad5(g));
        assert(b32_values(g) == grp.take(b32_symbols_for(j) as int));
        assert(b32_symbols_for(j) == (8 * j) / 5 + 1);
        assert(b32_values(g) =~= partial_group_values(g).push(grp[((8 * j) / 5) as int]));
        assert(b32_values(d.take(start)) + partial_group_values(g).push(grp[((8 * j) / 5) as int])
            =~= b32_values(d.take(start)) + b32_values(g));
    }
}

/// Encodes `data` as unpadded lower-case RFC 4648 base32.
#[verifier::spinoff_prover]
#[verifier::rlimit(60)]
pub fn base32_lower_nopad(data: &[u8]) -> (out: String)
    ensures
        out@ == base32_text(data@),
{
    let mut out = String::new();
    let mut buffer: u32 = 0;
    let mut bits: u32 = 0;
    let ghost mut vals: Seq<u8> = seq![];
    let mut i: usize = 0;
    while i < data.len()
        invariant
            i <= data.len(),
            bits == kept_bits((i % 5) as nat),
            vals == b32_values(data@.take((i - i % 5) as int)) + partial_group_values(
                data@.subrange((i - i % 5) as int, i as int),
            ),
            out@ == vals.map_values(|v: u8| b32_symbol(v) as char),
            i % 5 != 0 ==> (buffer & kept_mask((i % 5) as nat)) == (data@[i - 1] as u32) & kept_mask(
                (i % 5) as nat,
            ),
        decreases data.len() - i,
    {
        let byte = data[i];
        let ghost j: nat = (i % 5) as nat;
        let ghost p: u8 = if j == 0 { 0u8 } else { data@[i - 1] };
        let ghost old_vals = vals;
        let ghost sv = step_values(j, p, byte);
        proof {
            lemma_encoder_step(buffer, byte, p, j);
            lemma_values_step(data@, i as int);
        }
        buffer = (buffer << 8u32) | byte as u32;
        bits = bits + 8;
        bits = bits - 5;
        let first = (buffer >> bits) & 0x1f;
        push_char(&mut out, symbol(first));
        proof {
            vals = vals.push(first as u8);
        }
        if bits >= 5 {
            bits = bits - 5;
            let second = (buffer >> bits) & 0x1f;
            push_char(&mut out, symbol(second));
            proof {
                vals = vals.push(second as u8);
            }
        }
        proof {
            assert(vals =~= old_vals + sv);
            assert(out@ =~= vals.map_values(|v: u8| b32_symbol(v) as char));
            assert((i + 1) % 5 == (j + 1) % 5);
        }
        i = i + 1;
    }
    proof {
        lemma_values_finish(data@);
    }
    if bits > 0 {
        let ghost n = data.len() as int;
        let ghost j: nat = (n % 5) as nat;
        let ghost g = data@.subrange(n - j, n);
        let ghost p: u8 = data@[n - 1];
        proof {
            lemma_encoder_bits(buffer, 0, p as u32);
            assert(g[g.len() - 1] == p);
        }
        let shift: u32 = 5 - bits;
        let last = (buffer << shift) & 0x1f;
        assert(last < 32) by (bit_vector)
            requires
                last == (buffer << shift) & 0x1fu32,
        ;
        proof {
            let pg = pad5(g);
            assert(pg.len() == 5);
            if j == 1 {
                assert(pg[0] == p && pg[1] == 0);
                assert((((p & 7u8) << 2u8) | (0u8 >> 6u8)) as u32 == (p as u32 & 7u32) << 2u32)
                    by (bit_vector);
            } else if j == 2 {
                assert(pg[1] == p && pg[2] == 0);
                assert((((p & 1u8) << 4u8) | (0u8 >> 4u8)) as u32 == (p as u32 & 1u32) << 4u32)
                    by (bit_vector);
            } else if j == 3 {
                assert(pg[2] == p && pg[3] == 0);
                assert((((p & 15u8) << 1u8) | (0u8 >> 7u8)) as u32 == (p as u32 & 15u32) << 1u32)
                    by (bit_vector);
            } else {
                assert(pg[3] == p && pg[4] == 0);
                assert((((p & 3u8) << 3u8) | (0u8 >> 5u8)) as u32 == (p as u32 & 3u32) << 3u32)
                    by (bit_vector);
            }
            assert(b32_group(pg)[((8 * j) / 5) as int] == last as u8);
        }
        push_char(&mut out, symbol(last));
        proof {
            vals = vals.push(last as u8);
            assert(out@ =~= vals.map_values(|v: u8| b32_symbol(v) as char));
        }
    }
    proof {
        assert(b32_values(data@) =~= vals);
    }
    out
}


/// The value of a base32 symbol, if it belongs to the lower-case alphabet.
pub open spec fn b32_value_of(c: u8) -> Option<u8> {
    if 97 <= c <= 122 {
        Some((c - 97) as u8)
    } else if 50 <= c <= 55 {
        Some((c - 50 + 26) as u8)
    } else {
        None
    }
}

/// The five bytes carried by one full group of eight five-bit values.
pub open spec fn b32_ungroup(v: Seq<u8>) -> Seq<u8>
    recommends
        v.len() == 8,
{
    seq![
        (v[0] << 3u8) | (v[1] >> 2u8),
        (v[1] << 6u8) | (v[2] << 1u8) | (v[3] >> 4u8),
        (v[3] << 4u8) | (v[4] >> 1u8),
        (v[4] << 7u8) | (v[5] << 2u8) | (v[6] >> 3u8),
        (v[6] << 5u8) | v[7],
    ]
}

/// `v` followed by zero values up to length eight.
pub open spec fn pad8(v: Seq<u8>) -> Seq<u8> {
    v + Seq::new((8 - v.len()) as nat, |i: int| 0u8)
}

/// Bytes carried by a sequence of five-bit values; trailing bits that do
/// not fill a byte are dropped.
pub open spec fn b32_unvalues(v: Seq<u8>) -> Seq<u8>
    decreases v.len(),
{
    if v.len() == 0 {
        seq![]
    } else if v.len() < 8 {
        b32_ungroup(pad8(v)).take(((5 * v.len()) / 8) as int)
    } else {
        b32_ungroup(v.take(8)) + b32_unvalues(v.skip(8))
    }
}

pub open spec fn b32_all_symbols(s: Seq<u8>) -> bool {
    forall|i: int| 0 <= i < s.len() ==> (#[trigger] b32_value_of(s[i])) is Some
}

/// Decoding of unpadded lower-case base32 text given as bytes: `None` as
/// soon as one byte is outside the alphabet.
pub open spec fn base32_decode_spec(s: Seq<u8>) -> Option<Seq<u8>> {
    if b32_all_symbols(s) {
        Some(b32_unvalues(s.map_values(|c: u8| b32_value_of(c)->0)))
    } else {
        None
    }
}

proof fn lemma_unvalues_append(x: Seq<u8>, y: Seq<u8>)
    requires
        x.len() % 8 == 0,
    ensures
        b32_unvalues(x + y) == b32_unvalues(x) + b32_unvalues(y),
    decreases x.len(),
{
    if x.len() == 0 {
        assert(x + y =~= y);
    } else {
        assert((x + y).take(8) =~= x.take(8));
        assert((x + y).skip(8) =~= x.skip(8) + y);
        lemma_unvalues_append(x.skip(8), y);
    }
}

pub open spec fn dec_kept_bits(j: nat) -> u32 {
    if j == 0 { 0 } else if j == 1 { 5 } else if j == 2 { 2 } else if j == 3 { 7 }
    else if j == 4 { 4 } else if j == 5 { 1 } else if j == 6 { 6 } else { 3 }
}

pub open spec fn dec_kept_mask(j: nat) -> u32 {
    if j == 0 { 0 } else if j == 1 { 31 } else if j == 2 { 3 } else if j == 3 { 127 }
    else if j == 4 { 15 } else if j == 5 { 1 } else if j == 6 { 63 } else { 7 }
}

/// The value of the bits the decoder keeps after the values `g` of an open group.
pub open spec fn dec_kept_value(g: Seq<u8>) -> u32 {
    let j = g.len();
    if j == 0 {
        0
    } else if j == 1 {
        g[0] as u32 & 31
    } else if j == 2 {
        g[1] as u32 & 3
    } else if j == 3 {
        ((g[1] as u32 & 3) << 5u32) | (g[2] as u32 & 31)
    } else if j == 4 {
        g[3] as u32 & 15
    } else if j == 5 {
        g[4] as u32 & 1
    } else if j == 6 {
        ((g[4] as u32 & 1) << 5u32) | (g[5] as u32 & 31)
    } else {
        g[6] as u32 & 7
    }
}

/// Bytes already emitted for the values `g` of an open group.
pub open spec fn partial_group_bytes(g: Seq<u8>) -> Seq<u8> {
    b32_ungroup(pad8(g)).take(((5 * g.len()) / 8) as int)
}

/// Bytes emitted when value `v` arrives after the values `g` of an open group.
pub open spec fn dec_step_bytes(g: Seq<u8>, v: u8) -> Seq<u8> {
    let j = g.len();
    if j == 1 {
        seq![(g[0] << 3u8) | (v >> 2u8)]
    } else if j == 3 {
        seq![(g[1] << 6u8) | (g[2] << 1u8) | (v >> 4u8)]
    } else if j == 4 {
        seq![(g[3] << 4u8) | (v >> 1u8)]
    } else if j == 6 {
        seq![(g[4] << 7u8) | (g[5] << 2u8) | (v >> 3u8)]
    } else if j == 7 {
        seq![(g[6] << 5u8) | v]
    } else {
        seq![]
    }
}

proof fn lemma_partial_bytes_step(g: Seq<u8>, v: u8)
    requires
        g.len() < 8,
    ensures
        partial_group_bytes(g.push(v)) == partial_group_bytes(g) + dec_step_bytes(g, v),
{
    let h = g.push(v);
    let pg = pad8(g);
    let ph = pad8(h);
    assert(pg.len() == 8 && ph.len() == 8);
    assert(forall|k: int| 0 <= k < g.len() ==> pg[k] == g[k] && ph[k] == g[k]);
    assert(ph[g.len() as int] == v);
    let j = g.len();
    if j == 0 {
        assert(partial_group_bytes(h) =~= Seq::<u8>::empty());
        assert(partial_group_bytes(g) =~= Seq::<u8>::empty());
    } else if j == 1 {
        assert(partial_group_bytes(h) =~= partial_group_bytes(g) + dec_step_bytes(g, v));
    } else if j == 2 {
        assert(partial_group_bytes(h) =~= partial_group_bytes(g) + dec_step_bytes(g, v));
    } else if j == 3 {
        assert(partial_group_bytes(h) =~= partial_group_bytes(g) + dec_step_bytes(g, v));
    } else if j == 4 {
        assert(partial_group_bytes(h) =~= partial_group_bytes(g) + dec_step_bytes(g, v));
    } else if j == 5 {
        assert(partial_group_bytes(h) =~= partial_group_bytes(g) + dec_step_bytes(g, v));
    } else if j == 6 {
        assert(partial_group_bytes(h) =~= partial_group_bytes(g) + dec_step_bytes(g, v));
    } else {
        assert(partial_group_bytes(h) =~= partial_group_bytes(g) + dec_step_bytes(g, v));
    }
}

proof fn lemma_decoder_bits(x: u32, v: u32, a: u32, b: u32, c: u32)
    by (bit_vector)
    requires
        v < 32,
        a < 32,
        b < 32,
        c < 32,
    ensures
        ((x << 5u32) | v) & 31u32 == v & 31u32,
        (x & 31u32) == (a & 31u32) ==> (((x << 5u32) | v) >> 2u32) as u8 == ((a as u8) << 3u8) | ((v as u8) >> 2u8),
        ((x << 5u32) | v) & 3u32 == v & 3u32,
        (x & 3u32) == (b & 3u32) ==> ((x << 5u32) | v) & 127u32 == ((b & 3u32) << 5u32) | (v & 31u32),
        (x & 127u32) == (((b & 3u32) << 5u32) | (c & 31u32)) ==> (((x << 5u32) | v) >> 4u32) as u8 == ((b as u8) << 6u8) | ((c as u8) << 1u8) | ((v as u8) >> 4u8),
        ((x << 5u32) | v) & 15u32 == v & 15u32,
        (x & 15u32) == (a & 15u32) ==> (((x << 5u32) | v) >> 1u32) as u8 == ((a as u8) << 4u8) | ((v as u8) >> 1u8),
        ((x << 5u32) | v) & 1u32 == v & 1u32,
        (x & 1u32) == (b & 1u32) ==> ((x << 5u32) | v) & 63u32 == ((b & 1u32) << 5u32) | (v & 31u32),
        (x & 63u32) == (((b & 1u32) << 5u32) | (c & 31u32)) ==> (((x << 5u32) | v) >> 3u32) as u8 == ((b as u8) << 7u8) | ((c as u8) << 2u8) | ((v as u8) >> 3u8),
        ((x << 5u32) | v) & 7u32 == v & 7u32,
        (x & 7u32) == (a & 7u32) ==> (((x << 5u32) | v) >> 0u32) as u8 == ((a as u8) << 5u8) | (v as u8),
{
}

/// What the decoder's bit buffer yields when value `v` arrives after the values `g` of an open group.
proof fn lemma_decoder_step(x: u32, g: Seq<u8>, v: u8)
    requires
        g.len() < 8,
        v < 32,
        forall|k: int| 0 <= k < g.len() ==> g[k] < 32,
        (x & dec_kept_mask(g.len())) == dec_kept_value(g),
    ensures
        ({
            let y = (x << 5u32) | (v as u32);
            let k: u32 = (dec_kept_bits(g.len()) + 5) as u32;
            let sb = dec_step_bytes(g, v);
            let h = g.push(v);
            &&& (k >= 8 <==> sb.len() == 1)
            &&& (k < 8 <==> sb.len() == 0)
            &&& k >= 8 ==> (y >> ((k - 8) as u32)) as u8 == sb[0]
            &&& (if k >= 8 { k - 8 } else { k as int }) == dec_kept_bits(h.len() % 8)
            &&& h.len() < 8 ==> (y & dec_kept_mask(h.len())) == dec_kept_value(h)
            &&& (y & dec_kept_mask(0)) == dec_kept_value(Seq::<u8>::empty())
        }),
{
    let y0 = (x << 5u32) | (v as u32);
    assert(y0 & 0u32 == 0u32) by (bit_vector);
    let j = g.len();
    let a: u32 = if j == 0 { 0 } else { g[j - 1] as u32 };
    let b: u32 = if j >= 2 { g[j - 2] as u32 } else { 0 };
    let c: u32 = if j >= 1 { g[j - 1] as u32 } else { 0 };
    lemma_decoder_bits(x, v as u32, a, if j == 3 || j == 6 { g[j - 2] as u32 } else { a }, c);
    let h = g.push(v);
    assert(h[j as int] == v);
    assert(forall|k: int| 0 <= k < j ==> h[k] == g[k]);
    if j == 3 {
        lemma_decoder_bits(x, v as u32, a, g[1] as u32, g[2] as u32);
    } else if j == 6 {
        lemma_decoder_bits(x, v as u32, a, g[4] as u32, g[5] as u32);
    } else if j == 2 {
        lemma_decoder_bits(x, v as u32, a, g[1] as u32, c);
    } else if j == 5 {
        lemma_decoder_bits(x, v as u32, a, g[4] as u32, c);
    }
    assert(((v as u32) & 31u32) == v as u32) by (bit_vector)
        requires
            v < 32,
    ;
    if j > 0 {
        let last = g[j - 1];
        assert(((last as u32) & 31u32) == last as u32) by (bit_vector)
            requires
                last < 32,
        ;
    }
}

/// Bookkeeping of the decoder when one more value `v` arrives after `vals`.
proof fn lemma_unvalues_step(vals: Seq<u8>, v: u8)
    ensures
        ({
            let i = vals.len() as int;
            let j = i % 8;
            let s0 = i - j;
            let nv = vals.push(v);
            let s1 = (i + 1) - (i + 1) % 8;
            &&& b32_unvalues(nv.take(s1)) + partial_group_bytes(nv.subrange(s1, i + 1))
                == b32_unvalues(vals.take(s0)) + partial_group_bytes(vals.subrange(s0, i))
                + dec_step_bytes(vals.subrange(s0, i), v)
            &&& j < 7 ==> nv.subrange(s1, i + 1) == vals.subrange(s0, i).push(v)
            &&& j == 7 ==> nv.subrange(s1, i + 1) == Seq::<u8>::empty()
        }),
{
    let i = vals.len() as int;
    let j = i % 8;
    let s0 = i - j;
    let g = vals.subrange(s0, i);
    let nv = vals.push(v);
    lemma_partial_bytes_step(g, v);
    if j < 7 {
        assert((i + 1) % 8 == j + 1);
        assert(nv.subrange(s0, i + 1) =~= g.push(v));
        assert(nv.take(s0) =~= vals.take(s0));
        assert(b32_unvalues(vals.take(s0)) + partial_group_bytes(g) + dec_step_bytes(g, v)
            =~= b32_unvalues(vals.take(s0)) + (partial_group_bytes(g) + dec_step_bytes(g, v)));
    } else {
        let full = g.push(v);
        assert((i + 1) % 8 == 0);
        assert(nv.subrange(s0, i + 1) =~= full);
        assert(nv.take(i + 1) =~= vals.take(s0) + full);
        lemma_unvalues_append(vals.take(s0), full);
        assert(full.skip(8) =~= Seq::<u8>::empty());
        assert(b32_unvalues(full.skip(8)) =~= Seq::<u8>::empty());
        assert(full.take(8) =~= full);
        assert(pad8(full) =~= full);
        assert(b32_unvalues(full) =~= b32_ungroup(full));
        assert(partial_group_bytes(full) =~= b32_ungroup(full));
        assert(nv.subrange(i + 1, i + 1) =~= Seq::<u8>::empty());
        assert(partial_group_bytes(Seq::<u8>::empty()) =~= Seq::<u8>::empty());
        assert(b32_unvalues(vals.take(s0)) + partial_group_bytes(g) + dec_step_bytes(g, v)
            =~= b32_unvalues(vals.take(s0)) + (partial_group_bytes(g) + dec_step_bytes(g, v)));
        assert(b32_unvalues(nv.take(i + 1)) + partial_group_bytes(nv.subrange(i + 1, i + 1))
            =~= b32_unvalues(nv.take(i + 1)));
    }
}

proof fn lemma_unvalues_finish(vals: Seq<u8>)
    ensures
        ({
            let n = vals.len() as int;
            let start = n - n % 8;
            b32_unvalues(vals) == b32_unvalues(vals.take(start)) + partial_group_bytes(
                vals.subrange(start, n),
            )
        }),
{
    let n = vals.len() as int;
    let j = (n % 8) as nat;
    let start = n - j;
    let g = vals.subrange(start, n);
    assert(vals =~= vals.take(start) + g);
    lemma_unvalues_append(vals.take(start), g);
    if j == 0 {
        assert(g =~= Seq::<u8>::empty());
        assert(partial_group_bytes(g) =~= Seq::<u8>::empty());
        assert(b32_unvalues(g) =~= Seq::<u8>::empty());
    } else {
        assert(b32_unvalues(g) == partial_group_bytes(g));
    }
}

/// Decodes unpadded lower-case base32; `None` when a byte of `s` is outside
/// the alphabet. Trailing bits that do not fill a byte are dropped.
#[verifier::spinoff_prover]
#[verifier::rlimit(60)]
pub fn base32_decode_lower(s: &str) -> (res: Option<Vec<u8>>)
    ensures
        match res {
            Some(v) => base32_decode_spec(encode_utf8(s@)) == Some(v@),
            None => base32_decode_spec(encode_utf8(s@)) is None,
        },
{
    let bytes = s.as_bytes();
    let ghost sb = bytes@;
    let mut out: Vec<u8> = Vec::new();
    let mut buffer: u32 = 0;
    let mut bits: u32 = 0;
    let ghost mut vals: Seq<u8> = seq![];
    let mut i: usize = 0;
    assert(0u32 & 0u32 == 0u32) by (bit_vector);
    while i < bytes.len()
        invariant
            sb == bytes@,
            sb == encode_utf8(s@),
            i <= bytes.len(),
            vals.len() == i,
            b32_all_symbols(sb.take(i as int)),
            vals == sb.take(i as int).map_values(|c: u8| b32_value_of(c)->0),
            forall|k: int| 0 <= k < vals.len() ==> vals[k] < 32,
            bits == dec_kept_bits((i % 8) as nat),
            (buffer & dec_kept_mask((i % 8) as nat)) == dec_kept_value(
                vals.subrange((i - i % 8) as int, i as int),
            ),
            out@ == b32_unvalues(vals.take((i - i % 8) as int)) + partial_group_bytes(
                vals.subrange((i - i % 8) as int, i as int),
            ),
        decreases bytes.len() - i,
    {
        let c = bytes[i];
        let value: u8 = if 97u8 <= c && c <= 122u8 {
            c - 97u8
        } else if 50u8 <= c && c <= 55u8 {
            c - 50u8 + 26u8
        } else {
            proof {
                assert(!b32_all_symbols(sb)) by {
                    assert(b32_value_of(sb[i as int]) is None);
                }
            }
            return None;
        };
        let ghost j: nat = (i % 8) as nat;
        let ghost g = vals.subrange((i - j) as int, i as int);
        let ghost old_out = out@;
        proof {
            lemma_decoder_step(buffer, g, value);
            lemma_unvalues_step(vals, value);
        }
        buffer = (buffer << 5u32) | value as u32;
        bits = bits + 5;
        if bits >= 8 {
            bits = bits - 8;
            out.push((buffer >> bits) as u8);
        }
        proof {
            let nvals = vals.push(value);
            assert(sb.take(i + 1) =~= sb.take(i as int).push(c));
            assert(nvals =~= sb.take(i + 1).map_values(|c: u8| b32_value_of(c)->0));
            assert(b32_all_symbols(sb.take(i + 1)));
            assert(out@ =~= old_out + dec_step_bytes(g, value));
            assert((i + 1) % 8 == (j + 1) % 8);
            vals = nvals;
        }
        i = i + 1;
    }
    proof {
        assert(sb.take(i as int) =~= sb);
        lemma_unvalues_finish(vals);
    }
    Some(out)
}


proof fn lemma_group_bits(b0: u8, b1: u8, b2: u8, b3: u8, b4: u8)
    by (bit_vector)
    ensures
        b0 >> 3u8 < 32,
        ((b0 & 7u8) << 2u8) | (b1 >> 6u8) < 32,
        (b1 >> 1u8) & 31u8 < 32,
        ((b1 & 1u8) << 4u8) | (b2 >> 4u8) < 32,
        ((b2 & 15u8) << 1u8) | (b3 >> 7u8) < 32,
        (b3 >> 2u8) & 31u8 < 32,
        ((b3 & 3u8) << 3u8) | (b4 >> 5u8) < 32,
        b4 & 31u8 < 32,
        ((b0 >> 3u8) << 3u8) | ((((b0 & 7u8) << 2u8) | (b1 >> 6u8)) >> 2u8) == b0,
        ((((b0 & 7u8) << 2u8) | (b1 >> 6u8)) << 6u8) | (((b1 >> 1u8) & 31u8) << 1u8) | ((((b1 & 1u8) << 4u8) | (b2 >> 4u8)) >> 4u8) == b1,
        ((((b1 & 1u8) << 4u8) | (b2 >> 4u8)) << 4u8) | ((((b2 & 15u8) << 1u8) | (b3 >> 7u8)) >> 1u8) == b2,
        ((((b2 & 15u8) << 1u8) | (b3 >> 7u8)) << 7u8) | (((b3 >> 2u8) & 31u8) << 2u8) | ((((b3 & 3u8) << 3u8) | (b4 >> 5u8)) >> 3u8) == b3,
        ((((b3 & 3u8) << 3u8) | (b4 >> 5u8)) << 5u8) | (b4 & 31u8) == b4,
        b1 == 0 ==> (b1 >> 1u8) & 31u8 == 0,
        b1 == 0 && b2 == 0 ==> ((b1 & 1u8) << 4u8) | (b2 >> 4u8) == 0,
        b2 == 0 && b3 == 0 ==> ((b2 & 15u8) << 1u8) | (b3 >> 7u8) == 0,
        b3 == 0 ==> (b3 >> 2u8) & 31u8 == 0,
        b3 == 0 && b4 == 0 ==> ((b3 & 3u8) << 3u8) | (b4 >> 5u8) == 0,
        b4 == 0 ==> b4 & 31u8 == 0,
{
}

proof fn lemma_ungroup_group(b: Seq<u8>)
    requires
        b.len() == 5,
    ensures
        b32_ungroup(b32_group(b)) == b,
        forall|k: int| 0 <= k < 8 ==> #[trigger] b32_group(b)[k] < 32,
{
    lemma_group_bits(b[0], b[1], b[2], b[3], b[4]);
    assert(b32_ungroup(b32_group(b)) =~= b);
}

proof fn lemma_unvalues_values(d: Seq<u8>)
    ensures
        b32_unvalues(b32_values(d)) == d,
        forall|k: int| 0 <= k < b32_values(d).len() ==> #[trigger] b32_values(d)[k] < 32,
    decreases d.len(),
{
    if d.len() == 0 {
    } else if d.len() < 5 {
        let r = d.len();
        let p = pad5(d);
        let grp = b32_group(p);
        let m = b32_symbols_for(r);
        let vs = grp.take(m as int);
        lemma_ungroup_group(p);
        lemma_group_bits(p[0], p[1], p[2], p[3], p[4]);
        assert(forall|k: int| r <= k < 5 ==> p[k] == 0);
        assert(pad8(vs) =~= grp);
        assert((5 * m) / 8 == r);
        assert(b32_unvalues(vs) == b32_ungroup(pad8(vs)).take(r as int));
        assert(p.take(r as int) =~= d);
    } else {
        let x = b32_group(d.take(5));
        let y = b32_values(d.skip(5));
        lemma_ungroup_group(d.take(5));
        lemma_unvalues_values(d.skip(5));
        lemma_unvalues_append(x, y);
        assert(x.skip(8) =~= Seq::<u8>::empty());
        assert(b32_unvalues(x.skip(8)) =~= Seq::<u8>::empty());
        assert(x.take(8) =~= x);
        assert(b32_unvalues(x) =~= b32_ungroup(x));
        assert(d.take(5) + d.skip(5) =~= d);
        assert forall|k: int| 0 <= k < b32_values(d).len() implies #[trigger] b32_values(d)[k] < 32 by {
            if k >= 8 {
                assert(b32_values(d)[k] == y[k - 8]);
            }
        }
    }
}

proof fn lemma_symbol_value(v: u8)
    requires
        v < 32,
    ensures
        b32_value_of(b32_symbol(v)) == Some(v),
        b32_symbol(v) < 128,
{
}

/// Every character of a base32 text is a lower-case letter or a digit
/// from `2` to `7`.
pub proof fn base32_text_alphabet(d: Seq<u8>)
    ensures
        forall|i: int|
            0 <= i < base32_text(d).len() ==> ('a' <= #[trigger] base32_text(d)[i] <= 'z' || '2'
                <= base32_text(d)[i] <= '7'),
{
    lemma_unvalues_values(d);
    let vs = b32_values(d);
    assert forall|i: int| 0 <= i < base32_text(d).len() implies ('a' <= #[trigger] base32_text(
        d,
    )[i] <= 'z' || '2' <= base32_text(d)[i] <= '7') by {
        assert(vs[i] < 32);
    }
}

/// Decoding the base32 encoding of any byte string gives it back.
pub proof fn base32_roundtrip(d: Seq<u8>)
    ensures
        base32_decode_spec(base32_bytes(d)) == Some(d),
        encode_utf8(base32_text(d)) == base32_bytes(d),
{
    lemma_unvalues_values(d);
    let vs = b32_values(d);
    let bs = base32_bytes(d);
    assert forall|i: int| 0 <= i < bs.len() implies (#[trigger] b32_value_of(bs[i])) is Some by {
        lemma_symbol_value(vs[i]);
    }
    assert(bs.map_values(|c: u8| b32_value_of(c)->0) =~= vs) by {
        assert forall|i: int| 0 <= i < vs.len() implies bs.map_values(|c: u8| b32_value_of(c)->0)[i]
            == vs[i] by {
            lemma_symbol_value(vs[i]);
        }
    }
    let t = base32_text(d);
    assert(is_ascii_chars(t)) by {
        assert forall|i: int| 0 <= i < t.len() implies '\0' <= #[trigger] t[i] <= '\u{7f}' by {
            lemma_symbol_value(vs[i]);
        }
    }
    is_ascii_chars_encode_utf8(t);
    assert forall|i: int| 0 <= i < t.len() implies t[i] as u8 == bs[i] by {
        lemma_symbol_value(vs[i]);
    }
    assert(encode_utf8(t) =~= bs);
}

proof fn lemma_value_bits(v0: u8, v1: u8, v2: u8, v3: u8, v4: u8, v5: u8, v6: u8, v7: u8)
    by (bit_vector)
    requires
        v0 < 32,
        v1 < 32,
        v2 < 32,
        v3 < 32,
        v4 < 32,
        v5 < 32,
        v6 < 32,
        v7 < 32,
    ensures
        (((v0 << 3u8) | (v1 >> 2u8)) >> 3u8) == v0,
        ((((v0 << 3u8) | (v1 >> 2u8)) & 7u8) << 2u8) | ((((v1 << 6u8) | (v2 << 1u8) | (v3 >> 4u8))) >> 6u8) == v1,
        ((((v1 << 6u8) | (v2 << 1u8) | (v3 >> 4u8))) >> 1u8) & 31u8 == v2,
        ((((v1 << 6u8) | (v2 << 1u8) | (v3 >> 4u8))) & 1u8) << 4u8 | (((v3 << 4u8) | (v4 >> 1u8)) >> 4u8) == v3,
        ((((v3 << 4u8) | (v4 >> 1u8)) & 15u8) << 1u8) | (((v4 << 7u8) | (v5 << 2u8) | (v6 >> 3u8)) >> 7u8) == v4,
        (((v4 << 7u8) | (v5 << 2u8) | (v6 >> 3u8)) >> 2u8) & 31u8 == v5,
        ((((v4 << 7u8) | (v5 << 2u8) | (v6 >> 3u8)) & 3u8) << 3u8) | (((v6 << 5u8) | v7) >> 5u8) == v6,
        ((v6 << 5u8) | v7) & 31u8 == v7,
{
}

proof fn lemma_values_unvalues(v: Seq<u8>)
    requires
        v.len() % 8 == 0,
        forall|k: int| 0 <= k < v.len() ==> v[k] < 32,
    ensures
        b32_values(b32_unvalues(v)) == v,
    decreases v.len(),
{
    if v.len() > 0 {
        let g = v.take(8);
        let u = b32_ungroup(g);
        lemma_value_bits(g[0], g[1], g[2], g[3], g[4], g[5], g[6], g[7]);
        assert(b32_group(u) =~= g);
        let rest = b32_unvalues(v.skip(8));
        lemma_values_unvalues(v.skip(8));
        let w = u + rest;
        assert(w.take(5) =~= u);
        assert(w.skip(5) =~= rest);
        assert(g + v.skip(8) =~= v);
    }
}

/// A base32 text whose length is a multiple of eight is the encoding of
/// what it decodes to: such texts and byte strings correspond one to one.
pub proof fn base32_canonical(s: Seq<u8>)
    requires
        s.len() % 8 == 0,
        base32_decode_spec(s) is Some,
    ensures
        base32_bytes(base32_decode_spec(s)->0) == s,
{
    let vs = s.map_values(|c: u8| b32_value_of(c)->0);
    assert forall|k: int| 0 <= k < vs.len() implies vs[k] < 32 by {
        assert(b32_value_of(s[k]) is Some);
    }
    lemma_values_unvalues(vs);
    let out = base32_bytes(b32_unvalues(vs));
    assert forall|k: int| 0 <= k < s.len() implies out[k] == s[k] by {
        assert(b32_value_of(s[k]) is Some);
    }
    assert(out =~= s);
}

} // verus!

//! Byte-string helpers: appending, and big-endian integers.

use vstd::prelude::*;

verus! {

/// Appends the bytes of `s` to `v`.
pub fn push_all(v: &mut Vec<u8>, s: &[u8])
    ensures
        final(v)@ == old(v)@ + s@,
{
    let ghost start = v@;
    let mut i: usize = 0;
    while i < s.len()
        invariant
            i <= s.len(),
            v@ == start + s@.take(i as int),
        decreases s.len() - i,
    {
        v.push(s[i]);
        i = i + 1;
        assert(v@ =~= start + s@.take(i as int));
    }
    assert(s@.take(s.len() as int) =~= s@);
}

/// The eight big-endian bytes of a `u64` (`u64::to_be_bytes`).
pub open spec fn u64_be(t: u64) -> Seq<u8> {
    seq![
        (t >> 56u64) as u8,
        (t >> 48u64) as u8,
        (t >> 40u64) as u8,
        (t >> 32u64) as u8,
        (t >> 24u64) as u8,
        (t >> 16u64) as u8,
        (t >> 8u64) as u8,
        t as u8,
    ]
}

/// The four big-endian bytes of a `u32` (`u32::to_be_bytes`).
pub open spec fn u32_be(t: u32) -> Seq<u8> {
    seq![(t >> 24u32) as u8, (t >> 16u32) as u8, (t >> 8u32) as u8, t as u8]
}

/// The `u32` whose big-endian bytes are `b` (`u32::from_be_bytes`).
pub open spec fn u32_from_be(b: Seq<u8>) -> u32
    recommends
        b.len() == 4,
{
    ((b[0] as u32) << 24u32) | ((b[1] as u32) << 16u32) | ((b[2] as u32) << 8u32) | (b[3] as u32)
}

/// Appends the big-endian bytes of `t`.
pub fn push_u64_be(v: &mut Vec<u8>, t: u64)
    ensures
        final(v)@ == old(v)@ + u64_be(t),
{
    v.push((t >> 56u64) as u8);
    v.push((t >> 48u64) as u8);
    v.push((t >> 40u64) as u8);
    v.push((t >> 32u64) as u8);
    v.push((t >> 24u64) as u8);
    v.push((t >> 16u64) as u8);
    v.push((t >> 8u64) as u8);
    v.push(t as u8);
    assert(v@ =~= old(v)@ + u64_be(t));
}

/// Appends the big-endian bytes of `t`.
pub fn push_u32_be(v: &mut Vec<u8>, t: u32)
    ensures
        final(v)@ == old(v)@ + u32_be(t),
{
    v.push((t >> 24u32) as u8);
    v.push((t >> 16u32) as u8);
    v.push((t >> 8u32) as u8);
    v.push(t as u8);
    assert(v@ =~= old(v)@ + u32_be(t));
}

/// `u32::from_be_bytes`.
pub fn u32_from_be_bytes(b: [u8; 4]) -> (t: u32)
    ensures
        t == u32_from_be(b@),
{
    ((b[0] as u32) << 24u32) | ((b[1] as u32) << 16u32) | ((b[2] as u32) << 8u32) | (b[3] as u32)
}

proof fn lemma_u64_bytes(a: u64)
    by (bit_vector)
    ensures
        a == ((((a >> 56u64) as u8) as u64) << 56u64) | ((((a >> 48u64) as u8) as u64) << 48u64)
            | ((((a >> 40u64) as u8) as u64) << 40u64) | ((((a >> 32u64) as u8) as u64) << 32u64)
            | ((((a >> 24u64) as u8) as u64) << 24u64) | ((((a >> 16u64) as u8) as u64) << 16u64)
            | ((((a >> 8u64) as u8) as u64) << 8u64) | ((a as u8) as u64),
{
}

/// Distinct `u64` values have distinct big-endian bytes.
pub proof fn u64_be_injective(a: u64, b: u64)
    requires
        u64_be(a) == u64_be(b),
    ensures
        a == b,
{
    lemma_u64_bytes(a);
    lemma_u64_bytes(b);
    assert(u64_be(a)[0] == u64_be(b)[0]);
    assert(u64_be(a)[1] == u64_be(b)[1]);
    assert(u64_be(a)[2] == u64_be(b)[2]);
    assert(u64_be(a)[3] == u64_be(b)[3]);
    assert(u64_be(a)[4] == u64_be(b)[4]);
    assert(u64_be(a)[5] == u64_be(b)[5]);
    assert(u64_be(a)[6] == u64_be(b)[6]);
    assert(u64_be(a)[7] == u64_be(b)[7]);
}

proof fn lemma_u32_bytes(a: u32)
    by (bit_vector)
    ensures
        a == ((((a >> 24u32) as u8) as u32) << 24u32) | ((((a >> 16u32) as u8) as u32) << 16u32) | ((((
        a >> 8u32) as u8) as u32) << 8u32) | ((a as u8) as u32),
{
}

/// Reading back the big-endian bytes of a `u32` gives the `u32`.
pub proof fn u32_be_roundtrip(t: u32)
    ensures
        u32_from_be(u32_be(t)) == t,
{
    lemma_u32_bytes(t);
}

} // verus!

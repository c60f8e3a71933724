//! The identity seed file: `VOIDDP1:` followed by the seed as protected by
//! the platform, or, in files written before protection existed, the bare
//! 32-byte seed.

use vstd::prelude::*;
use crate::bytes::push_all;

verus! {

/// The bytes of `VOIDDP1:`.
pub open spec fn seed_magic() -> Seq<u8> {
    seq![86u8, 79, 73, 68, 68, 80, 49, 58]
}

/// The content of a seed file holding `protected`.
pub fn seed_file_bytes(protected: &[u8]) -> (res: Vec<u8>)
    ensures
        res@ == seed_magic() + protected@,
{
    let mut out: Vec<u8> = vec![86u8, 79, 73, 68, 68, 80, 49, 58];
    assert(out@ =~= seed_magic());
    push_all(&mut out, protected);
    out
}

/// What a seed file holds.
#[derive(Debug, PartialEq, Eq)]
pub enum SeedFile {
    /// The protected seed after the magic prefix.
    Protected(Vec<u8>),
    /// A file without the prefix: the bare seed of an older version.
    Legacy(Vec<u8>),
}

pub open spec fn has_magic(data: Seq<u8>) -> bool {
    data.len() >= 8 && data.take(8) == seed_magic()
}

/// Tells a protected seed file from a legacy one.
pub fn split_seed_file(data: &[u8]) -> (res: SeedFile)
    ensures
        if has_magic(data@) {
            res matches SeedFile::Protected(b) && b@ == data@.skip(8)
        } else {
            res matches SeedFile::Legacy(b) && b@ == data@
        },
{
    let magic: [u8; 8] = [86u8, 79, 73, 68, 68, 80, 49, 58];
    let mut matches = data.len() >= 8;
    let mut i: usize = 0;
    while matches && i < 8
        invariant
            i <= 8,
            matches ==> data@.len() >= 8,
            matches ==> forall|k: int| 0 <= k < i ==> data@[k] == seed_magic()[k],
            !matches ==> !has_magic(data@),
            magic@ == seed_magic(),
        decreases 8 - i,
    {
        if data[i] != magic[i] {
            assert(data@.take(8)[i as int] != seed_magic()[i as int]);
            matches = false;
        }
        i = i + 1;
    }
    let mut out: Vec<u8> = Vec::new();
    if matches {
        assert(data@.take(8) =~= seed_magic());
        let mut j: usize = 8;
        while j < data.len()
            invariant
                8 <= j <= data.len(),
                out@ == data@.subrange(8, j as int),
            decreases data.len() - j,
        {
            out.push(data[j]);
            j = j + 1;
            assert(out@ =~= data@.subrange(8, j as int));
        }
        assert(data@.subrange(8, data.len() as int) =~= data@.skip(8));
        SeedFile::Protected(out)
    } else {
        push_all(&mut out, data);
        SeedFile::Legacy(out)
    }
}

/// A file written by `seed_file_bytes` is read back as the protected bytes
/// that were written.
pub proof fn seed_file_roundtrip(protected: Seq<u8>)
    ensures
        has_magic(seed_magic() + protected),
        (seed_magic() + protected).skip(8) == protected,
{
    assert((seed_magic() + protected).take(8) =~= seed_magic());
    assert((seed_magic() + protected).skip(8) =~= protected);
}

/// The seed read from a file: 32 bytes, or "identity.seed illisible" for a
/// protected file and "identity.seed corrompu" for a legacy one.
pub fn seed_from_plain(plain: &[u8], protected: bool) -> (res: Result<[u8; 32], String>)
    ensures
        plain@.len() == 32 <==> res is Ok,
        res matches Ok(seed) ==> seed@ == plain@,
        res matches Err(e) ==> e@ == if protected {
            "identity.seed illisible"@
        } else {
            "identity.seed corrompu"@
        },
{
    if plain.len() != 32 {
        return Err(
            if protected {
                String::from_str("identity.seed illisible")
            } else {
                String::from_str("identity.seed corrompu")
            },
        );
    }
    let mut seed = [0u8; 32];
    let mut i: usize = 0;
    while i < 32
        invariant
            i <= 32,
            plain@.len() == 32,
            forall|k: int| 0 <= k < i ==> seed@[k] == plain@[k],
        decreases 32 - i,
    {
        seed[i] = plain[i];
        i = i + 1;
    }
    assert(seed@ =~= plain@);
    Ok(seed)
}

} // verus!

//! Little-endian integer framing and small byte-buffer helpers.

use vstd::prelude::*;
use vstd::bytes::{spec_u32_from_le_bytes, spec_u32_to_le_bytes, spec_u64_from_le_bytes,
    spec_u64_to_le_bytes, lemma_auto_spec_u32_to_from_le_bytes,
    lemma_auto_spec_u64_to_from_le_bytes, u32_from_le_bytes, u64_from_le_bytes, u32_to_le_bytes,
    u64_to_le_bytes};
use vstd::slice::slice_subrange;

verus! {

/// The 32-bit little-endian integer held at positions `i .. i + 4` of `s`.
pub open spec fn le32_at(s: Seq<u8>, i: int) -> u32 {
    spec_u32_from_le_bytes(s.subrange(i, i + 4))
}

/// The 64-bit little-endian integer held at positions `i .. i + 8` of `s`.
pub open spec fn le64_at(s: Seq<u8>, i: int) -> u64 {
    spec_u64_from_le_bytes(s.subrange(i, i + 8))
}

/// Appends the bytes of a slice to a vector.
pub fn push_slice(v: &mut Vec<u8>, s: &[u8])
    ensures
        final(v)@ == old(v)@ + s@,
{
    let ghost orig = v@;
    let mut k: usize = 0;
    while k < s.len()
        invariant
            k <= s@.len(),
            v@ == orig + s@.subrange(0, k as int),
        decreases s@.len() - k,
    {
        v.push(s[k]);
        k += 1;
        proof {
            assert(orig + s@.subrange(0, k - 1 as int) + seq![s@[k - 1]] =~= orig + s@.subrange(
                0,
                k as int,
            ));
        }
    }
    proof {
        assert(orig + s@.subrange(0, s@.len() as int) =~= orig + s@);
    }
}

/// Appends a 32-bit integer, little endian, to a vector.
pub fn push_u32_le(v: &mut Vec<u8>, x: u32)
    ensures
        final(v)@ == old(v)@ + spec_u32_to_le_bytes(x),
        le32_at(final(v)@, old(v)@.len() as int) == x,
        final(v)@.len() == old(v)@.len() + 4,
{
    let ghost orig = v@;
    proof {
        lemma_auto_spec_u32_to_from_le_bytes();
    }
    let mut bs = u32_to_le_bytes(x);
    v.append(&mut bs);
    proof {
        assert(v@.subrange(orig.len() as int, orig.len() as int + 4) =~= spec_u32_to_le_bytes(x));
    }
}

/// Appends a 64-bit integer, little endian, to a vector.
pub fn push_u64_le(v: &mut Vec<u8>, x: u64)
    ensures
        final(v)@ == old(v)@ + spec_u64_to_le_bytes(x),
        le64_at(final(v)@, old(v)@.len() as int) == x,
        final(v)@.len() == old(v)@.len() + 8,
{
    let ghost orig = v@;
    proof {
        lemma_auto_spec_u64_to_from_le_bytes();
    }
    let mut bs = u64_to_le_bytes(x);
    v.append(&mut bs);
    proof {
        assert(v@.subrange(orig.len() as int, orig.len() as int + 8) =~= spec_u64_to_le_bytes(x));
    }
}

/// Reads the 32-bit little-endian integer at `i`.
pub fn read_u32_le(s: &[u8], i: usize) -> (x: u32)
    requires
        i + 4 <= s@.len(),
    ensures
        x == le32_at(s@, i as int),
{
    let n = s.len();
    proof {
        assert(i + 4 <= n);
    }
    let part = slice_subrange(s, i, i + 4);
    u32_from_le_bytes(part)
}

/// Reads the 64-bit little-endian integer at `i`.
pub fn read_u64_le(s: &[u8], i: usize) -> (x: u64)
    requires
        i + 8 <= s@.len(),
    ensures
        x == le64_at(s@, i as int),
{
    let n = s.len();
    proof {
        assert(i + 8 <= n);
    }
    let part = slice_subrange(s, i, i + 8);
    u64_from_le_bytes(part)
}

} // verus!

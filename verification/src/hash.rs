//! The streaming 32-bit hash used for header, block and content checksums.
//!
//! The hash itself is computed by the `twox_hash` crate; this module only
//! gives its result a name (`xxh32_of`) and tracks which bytes a hasher has
//! consumed (`hasher_fed`), so that checksum equalities can be stated and
//! proved in the rest of the crate.

use vstd::prelude::*;

verus! {

/// The 32-bit XXH32 digest, at seed 0, of a byte sequence, exactly as
/// `twox_hash` computes it. The digest is a function of the bytes alone.
pub uninterp spec fn xxh32_of(data: Seq<u8>) -> u32;

/// The bytes a (seed 0) streaming hasher has consumed since it was created.
pub uninterp spec fn hasher_fed(h: twox_hash::XxHash32) -> Seq<u8>;

#[verifier::external_type_specification]
#[verifier::external_body]
pub struct ExXxHash32(twox_hash::XxHash32);

/// Relies on `twox_hash::XxHash32::with_seed`: a fresh hasher has consumed
/// no bytes yet.
#[verifier::external_body]
pub fn hasher_new() -> (h: twox_hash::XxHash32)
    ensures
        hasher_fed(h) == Seq::<u8>::empty(),
{
    twox_hash::XxHash32::with_seed(0)
}

/// Relies on `std::hash::Hasher::write` for `twox_hash::XxHash32`: it appends
/// the given bytes to what the hasher has consumed.
#[verifier::external_body]
pub fn hasher_write(h: &mut twox_hash::XxHash32, data: &[u8])
    ensures
        hasher_fed(*final(h)) == hasher_fed(*old(h)) + data@,
{
    std::hash::Hasher::write(h, data)
}

/// Relies on `twox_hash::XxHash32::finish_32`: the digest of exactly the
/// bytes written so far, a function of those bytes and the seed alone.
#[verifier::external_body]
pub fn hasher_finish(h: &twox_hash::XxHash32) -> (r: u32)
    ensures
        r == xxh32_of(hasher_fed(*h)),
{
    h.finish_32()
}

/// XXH32 digest (seed 0) of a whole buffer.
pub fn xxh32(data: &[u8]) -> (r: u32)
    ensures
        r == xxh32_of(data@),
{
    let mut h = hasher_new();
    hasher_write(&mut h, data);
    proof {
        assert(hasher_fed(h) =~= data@);
    }
    hasher_finish(&h)
}

} // verus!

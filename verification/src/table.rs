//! The hash match table: maps a hashed 4-byte prefix to the most recent
//! position that produced it. Collisions replace; candidates returned by
//! `lookup` are only hints and are re-validated by byte comparison at the
//! call site, so the table carries no functional contract beyond its shape.

use vstd::prelude::*;

verus! {

pub const TABLE_SIZE: usize = 4096;

/// Entries store `position + 1`; `0` marks an empty bucket.
pub struct MatchTable {
    entries: Vec<usize>,
}

impl MatchTable {
    pub closed spec fn wf(&self) -> bool {
        self.entries@.len() == TABLE_SIZE
    }

    pub fn new() -> (t: Self)
        ensures
            t.wf(),
    {
        let mut entries: Vec<usize> = Vec::new();
        let mut k: usize = 0;
        while k < TABLE_SIZE
            invariant
                entries@.len() == k,
                k <= TABLE_SIZE,
            decreases TABLE_SIZE - k,
        {
            entries.push(0);
            k += 1;
        }
        MatchTable { entries }
    }

    /// Clears every bucket; used between independent blocks.
    pub fn reset(&mut self)
        requires
            old(self).wf(),
        ensures
            final(self).wf(),
    {
        let mut k: usize = 0;
        while k < TABLE_SIZE
            invariant
                self.entries@.len() == TABLE_SIZE,
                k <= TABLE_SIZE,
            decreases TABLE_SIZE - k,
        {
            self.entries.set(k, 0);
            k += 1;
        }
    }

    /// Overwrites the bucket `h` with `pos`.
    pub fn insert(&mut self, pos: usize, h: usize)
        requires
            old(self).wf(),
            h < TABLE_SIZE,
            pos < usize::MAX,
        ensures
            final(self).wf(),
    {
        self.entries.set(h, pos + 1);
    }

    /// The most recent position whose hashed prefix landed in bucket `h`,
    /// if any. A mere hint: the caller must compare bytes itself.
    pub fn lookup(&self, h: usize) -> (r: Option<usize>)
        requires
            self.wf(),
            h < TABLE_SIZE,
    {
        let e = self.entries[h];
        if e == 0 {
            None
        } else {
            Some(e - 1)
        }
    }

    /// Subtracts `by` from every stored position, dropping those that would
    /// go negative; used when the window's front is discarded.
    pub fn shift(&mut self, by: usize)
        requires
            old(self).wf(),
        ensures
            final(self).wf(),
    {
        let mut k: usize = 0;
        while k < TABLE_SIZE
            invariant
                self.entries@.len() == TABLE_SIZE,
                k <= TABLE_SIZE,
            decreases TABLE_SIZE - k,
        {
            let e = self.entries[k];
            if e != 0 {
                let pos = e - 1;
                if pos >= by {
                    self.entries.set(k, pos - by + 1);
                } else {
                    self.entries.set(k, 0);
                }
            }
            k += 1;
        }
    }

    /// Inserts prefix hashes for positions sampled at a fixed stride across
    /// `dict`; used to prime a dictionary before the first block.
    pub fn seed(&mut self, dict: &[u8])
        requires
            old(self).wf(),
            dict@.len() < usize::MAX - 8,
        ensures
            final(self).wf(),
    {
        let n = dict.len();
        let mut pos: usize = 0;
        while pos + 4 <= n
            invariant
                self.wf(),
                n == dict@.len(),
                n < usize::MAX - 8,
                pos <= n + 3,
            decreases n - pos,
        {
            let h = hash4(dict[pos], dict[pos + 1], dict[pos + 2], dict[pos + 3]);
            self.insert(pos, h);
            pos += 3;
        }
    }
}

/// A fast mix of a 4-byte little-endian read, truncated to the table's
/// index width. Not collision-free; never needs to be.
pub fn hash4(b0: u8, b1: u8, b2: u8, b3: u8) -> (h: usize)
    ensures
        h < TABLE_SIZE,
{
    let v: u64 = (b0 as u64) | ((b1 as u64) << 8) | ((b2 as u64) << 16) | ((b3 as u64) << 24);
    let m: u64 = v.wrapping_mul(2654435761);
    let h: u64 = (m >> 20) & 0xfff;
    proof {
        assert((m >> 20) & 0xfff < 4096) by (bit_vector);
    }
    h as usize
}

} // verus!

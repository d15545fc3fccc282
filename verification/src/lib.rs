//! A streaming LZ4 block codec and the self-describing frame format around
//! it: checksum-verified, dictionary-aware, with independent or dependent
//! blocks.
//!
//! The compressor's central guarantee is the round trip: every frame it
//! builds provably decodes — under `decompress::frame_decode`, which the
//! executable decoder returns exactly — to the input it was given, for every
//! input, every valid settings value and every dictionary. Compressed output
//! never expands beyond a small per-block overhead: blocks that would grow
//! are stored verbatim.

use vstd::prelude::*;

pub mod compress;
pub mod decompress;
pub mod hash;
pub mod raw;
pub mod table;
pub mod util;

verus! {

/// First four bytes of every frame.
pub const MAGIC: u32 = 0x184D2204;

/// Top bit of a block's length word: the block is stored verbatim.
pub const INCOMPRESSIBLE: u32 = 0x80000000;

/// Largest window of trailing plaintext kept as match context.
pub const WINDOW_SIZE: usize = 64 * 1024;

} // verus!

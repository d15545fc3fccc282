//! Frame decoding: header validation, block-at-a-time decompression with
//! checksum verification and sliding-window maintenance.
//!
//! `frame_decode` is the mathematical meaning of a frame: the plaintext it
//! declares, or the specific error that makes it invalid. The executable
//! decoder returns exactly that value.

use vstd::prelude::*;
use crate::hash::{xxh32, xxh32_of, hasher_new, hasher_write, hasher_finish, hasher_fed};
use crate::raw::{raw_decode, decompress_block};
use crate::util::{le32_at, le64_at, read_u32_le, read_u64_le, push_slice};
use crate::{MAGIC, INCOMPRESSIBLE, WINDOW_SIZE};
use vstd::slice::{slice_subrange, slice_to_vec};

verus! {

/// Why a frame failed to decode. Every failure is terminal for the stream.
#[derive(Clone, Copy, Debug, PartialEq, Eq, Structural)]
pub enum DecompressionError {
    /// The input ended before the frame did.
    Truncated,
    /// The raw LZ4 token stream of a block is corrupt.
    CodecError,
    /// Reserved flag bits set, a bad version, or an unknown block-size class.
    HeaderParseError,
    /// The frame does not start with the magic number; holds what was found.
    WrongMagic(u32),
    /// The header checksum byte does not match the header.
    HeaderChecksumFail,
    /// A block checksum does not match the block's bytes.
    BlockChecksumFail,
    /// The trailing content checksum does not match the decoded content.
    FrameChecksumFail,
    /// A declared block length that this target cannot represent.
    BlockLengthOverflow,
    /// A block decompressed to more data than the block-size class allows.
    BlockSizeOverflow,
}

/// Everything the frame header declares.
pub ghost struct HeaderInfo {
    pub indep: bool,
    pub bchk: bool,
    pub cchk: bool,
    pub content_size: Option<u64>,
    pub dict_id: Option<u32>,
    pub maxsize: int,
    pub hlen: int,
}

/// The block-size maximum a block-descriptor byte declares; 0 marks an
/// invalid descriptor.
pub open spec fn bd_maxsize(bd: u8) -> int {
    if bd == 0x40 {
        0x10000
    } else if bd == 0x50 {
        0x40000
    } else if bd == 0x60 {
        0x100000
    } else if bd == 0x70 {
        0x400000
    } else {
        0
    }
}

/// Parses and validates the frame header: magic, flags (version 01 in bits
/// 6-7, reserved bit 1 clear), block descriptor, the optional content size
/// and dictionary id, and the header checksum byte, which must equal the
/// second byte of the hash over all header bytes after the magic.
pub open spec fn header_parse(frame: Seq<u8>) -> Result<HeaderInfo, DecompressionError> {
    if frame.len() < 4 {
        Err(DecompressionError::Truncated)
    } else if le32_at(frame, 0) != MAGIC {
        Err(DecompressionError::WrongMagic(le32_at(frame, 0)))
    } else if frame.len() < 5 {
        Err(DecompressionError::Truncated)
    } else {
        let fl = frame[4];
        if fl >> 6 != 1 || fl & 0x02 != 0 {
            Err(DecompressionError::HeaderParseError)
        } else if frame.len() < 6 {
            Err(DecompressionError::Truncated)
        } else {
            let bd = frame[5];
            if bd_maxsize(bd) == 0 {
                Err(DecompressionError::HeaderParseError)
            } else {
                let has_csize = fl & 0x08 != 0;
                let has_dict = fl & 0x01 != 0;
                let hlen: int = 7 + (if has_csize {
                    8int
                } else {
                    0int
                }) + (if has_dict {
                    4int
                } else {
                    0int
                });
                if frame.len() < hlen {
                    Err(DecompressionError::Truncated)
                } else {
                    let expected = (xxh32_of(frame.subrange(4, hlen - 1)) >> 8) as u8;
                    if frame[hlen - 1] != expected {
                        Err(DecompressionError::HeaderChecksumFail)
                    } else {
                        Ok(
                            HeaderInfo {
                                indep: fl & 0x20 != 0,
                                bchk: fl & 0x10 != 0,
                                cchk: fl & 0x04 != 0,
                                content_size: if has_csize {
                                    Some(le64_at(frame, 6))
                                } else {
                                    None
                                },
                                dict_id: if has_dict {
                                    Some(
                                        le32_at(
                                            frame,
                                            6 + if has_csize {
                                                8int
                                            } else {
                                                0int
                                            },
                                        ),
                                    )
                                } else {
                                    None
                                },
                                maxsize: bd_maxsize(bd),
                                hlen,
                            },
                        )
                    }
                }
            }
        }
    }
}

/// The trailing `WINDOW_SIZE` bytes of `w` (all of it when shorter).
pub open spec fn trim_window(w: Seq<u8>) -> Seq<u8> {
    if w.len() <= WINDOW_SIZE {
        w
    } else {
        w.subrange(w.len() - WINDOW_SIZE, w.len() as int)
    }
}

/// Decodes the block sequence of `frame` from `pos` on: a length-prefixed
/// block per step (top length bit: stored verbatim), an optional block
/// checksum, window carry-over in dependent-blocks mode, and a zero length
/// as terminator, followed by the content checksum when `cchk` is set.
/// `acc` holds the plaintext decoded so far; the result is the whole
/// plaintext of the frame.
pub open spec fn blocks_decode(
    frame: Seq<u8>,
    pos: int,
    window: Seq<u8>,
    indep: bool,
    bchk: bool,
    cchk: bool,
    maxsize: int,
    acc: Seq<u8>,
) -> Result<Seq<u8>, DecompressionError>
    decreases frame.len() - pos,
{
    if pos < 0 || pos + 4 > frame.len() {
        Err(DecompressionError::Truncated)
    } else {
        let len32 = le32_at(frame, pos);
        if len32 == 0 {
            if cchk {
                if pos + 8 > frame.len() {
                    Err(DecompressionError::Truncated)
                } else if le32_at(frame, pos + 4) != xxh32_of(acc) {
                    Err(DecompressionError::FrameChecksumFail)
                } else {
                    Ok(acc)
                }
            } else {
                Ok(acc)
            }
        } else {
            let stored = len32 & INCOMPRESSIBLE != 0;
            let blen = (len32 & 0x7fffffff) as int;
            if pos + 4 + blen > frame.len() {
                Err(DecompressionError::Truncated)
            } else {
                let body = frame.subrange(pos + 4, pos + 4 + blen);
                let p2 = pos + 4 + blen;
                if bchk && p2 + 4 > frame.len() {
                    Err(DecompressionError::Truncated)
                } else if bchk && le32_at(frame, p2) != xxh32_of(body) {
                    Err(DecompressionError::BlockChecksumFail)
                } else {
                    let p3 = if bchk {
                        p2 + 4
                    } else {
                        p2
                    };
                    let decoded = if stored {
                        Some(body)
                    } else {
                        raw_decode(body, window)
                    };
                    match decoded {
                        None => Err(DecompressionError::CodecError),
                        Some(out) => {
                            if out.len() > maxsize {
                                Err(DecompressionError::BlockSizeOverflow)
                            } else {
                                let w2 = if indep {
                                    window
                                } else {
                                    trim_window(window + out)
                                };
                                blocks_decode(frame, p3, w2, indep, bchk, cchk, maxsize, acc + out)
                            }
                        },
                    }
                }
            }
        }
    }
}

/// The dictionary bytes handed to the decoder, if any.
pub open spec fn dict_view(d: Option<&[u8]>) -> Seq<u8> {
    match d {
        Some(s) => s@,
        None => Seq::empty(),
    }
}

/// The meaning of a whole frame, decoded with a dictionary as match context.
pub open spec fn frame_decode(frame: Seq<u8>, dict: Seq<u8>) -> Result<Seq<u8>, DecompressionError> {
    match header_parse(frame) {
        Err(e) => Err(e),
        Ok(h) => blocks_decode(
            frame,
            h.hlen,
            trim_window(dict),
            h.indep,
            h.bchk,
            h.cchk,
            h.maxsize,
            Seq::empty(),
        ),
    }
}

/// The retained window never exceeds `WINDOW_SIZE` bytes: what `trim_window`
/// keeps is bounded, whatever it is given.
pub proof fn lemma_trim_window_bound(w: Seq<u8>)
    ensures
        trim_window(w).len() <= WINDOW_SIZE,
{
}

/// Replaces `window` by the trailing `WINDOW_SIZE` bytes of `window + out`.
fn window_update(window: &mut Vec<u8>, out: &[u8])
    requires
        old(window)@.len() <= WINDOW_SIZE,
        out@.len() <= 0x7fffffff,
    ensures
        final(window)@ == trim_window(old(window)@ + out@),
        final(window)@.len() <= WINDOW_SIZE,
{
    let ghost comb = window@ + out@;
    let total = window.len() + out.len();
    let start = if total > WINDOW_SIZE {
        total - WINDOW_SIZE
    } else {
        0
    };
    let mut neww: Vec<u8> = Vec::new();
    let mut idx = start;
    proof {
        assert(neww@ =~= comb.subrange(start as int, start as int));
    }
    while idx < total
        invariant
            start <= idx <= total,
            total == window@.len() + out@.len(),
            window@.len() <= WINDOW_SIZE,
            comb == window@ + out@,
            neww@ == comb.subrange(start as int, idx as int),
        decreases total - idx,
    {
        let b = if idx < window.len() {
            window[idx]
        } else {
            out[idx - window.len()]
        };
        neww.push(b);
        idx += 1;
        proof {
            assert(neww@ =~= comb.subrange(start as int, idx as int));
        }
    }
    *window = neww;
    proof {
        assert(window@ =~= trim_window(comb));
    }
}

/// Reads a frame from an in-memory buffer, one block at a time.
pub struct LZ4FrameReader {
    frame: Vec<u8>,
    pos: usize,
    indep: bool,
    bchk: bool,
    block_maxsize: usize,
    content_size: Option<u64>,
    dictionary_id: Option<u32>,
    hasher: Option<twox_hash::XxHash32>,
    window: Vec<u8>,
    finished: bool,
    decoded: Ghost<Seq<u8>>,
}

impl LZ4FrameReader {
    /// The reader's well-formedness: the window never exceeds `WINDOW_SIZE`
    /// and the running content hasher has consumed exactly the plaintext
    /// decoded so far.
    pub closed spec fn inv(&self) -> bool {
        &&& self.window@.len() <= WINDOW_SIZE
        &&& self.pos <= self.frame@.len()
        &&& 512 * (self.frame@.len() + 1) <= usize::MAX as int
        &&& self.block_maxsize <= 0x400000
        &&& match self.hasher {
            Some(h) => hasher_fed(h) == self.decoded@,
            None => true,
        }
    }

    pub closed spec fn frame_seq(&self) -> Seq<u8> {
        self.frame@
    }

    pub closed spec fn cursor(&self) -> int {
        self.pos as int
    }

    pub closed spec fn window_seq(&self) -> Seq<u8> {
        self.window@
    }

    pub closed spec fn decoded_seq(&self) -> Seq<u8> {
        self.decoded@
    }

    pub closed spec fn is_finished(&self) -> bool {
        self.finished
    }

    pub closed spec fn cfg_indep(&self) -> bool {
        self.indep
    }

    pub closed spec fn cfg_bchk(&self) -> bool {
        self.bchk
    }

    pub closed spec fn cfg_cchk(&self) -> bool {
        self.hasher is Some
    }

    pub closed spec fn cfg_maxsize(&self) -> int {
        self.block_maxsize as int
    }

    pub closed spec fn spec_content_size(&self) -> Option<u64> {
        self.content_size
    }

    pub closed spec fn spec_dictionary_id(&self) -> Option<u32> {
        self.dictionary_id
    }

    /// What the rest of the frame decodes to, given everything decoded so far.
    pub open spec fn remaining(&self) -> Result<Seq<u8>, DecompressionError> {
        blocks_decode(
            self.frame_seq(),
            self.cursor(),
            self.window_seq(),
            self.cfg_indep(),
            self.cfg_bchk(),
            self.cfg_cchk(),
            self.cfg_maxsize(),
            self.decoded_seq(),
        )
    }

    /// Parses and validates the header of `frame`; the optional dictionary
    /// seeds the back-reference window.
    pub fn new(frame: Vec<u8>, dictionary: Option<&[u8]>) -> (r: Result<
        LZ4FrameReader,
        DecompressionError,
    >)
        requires
            512 * (frame@.len() + 1) <= usize::MAX as int,
        ensures
            match r {
                Ok(d) => {
                    &&& header_parse(frame@) matches Ok(h) && d.cfg_indep() == h.indep
                        && d.cfg_bchk() == h.bchk && d.cfg_cchk() == h.cchk && d.cfg_maxsize()
                        == h.maxsize && d.cursor() == h.hlen && d.spec_content_size()
                        == h.content_size && d.spec_dictionary_id() == h.dict_id
                    &&& d.inv()
                    &&& d.frame_seq() == frame@
                    &&& d.window_seq() == trim_window(dict_view(dictionary))
                    &&& d.decoded_seq() == Seq::<u8>::empty()
                    &&& d.window_seq().len() <= WINDOW_SIZE
                    &&& !d.is_finished()
                },
                Err(e) => header_parse(frame@) == Err::<HeaderInfo, _>(e),
            },
    {
        let n = frame.len();
        if n < 4 {
            return Err(DecompressionError::Truncated);
        }
        let magic = read_u32_le(frame.as_slice(), 0);
        if magic != MAGIC {
            return Err(DecompressionError::WrongMagic(magic));
        }
        if n < 5 {
            return Err(DecompressionError::Truncated);
        }
        let fl = frame[4];
        if fl >> 6 != 1 || fl & 0x02 != 0 {
            return Err(DecompressionError::HeaderParseError);
        }
        if n < 6 {
            return Err(DecompressionError::Truncated);
        }
        let bd = frame[5];
        let maxsize: usize = if bd == 0x40 {
            0x10000
        } else if bd == 0x50 {
            0x40000
        } else if bd == 0x60 {
            0x100000
        } else if bd == 0x70 {
            0x400000
        } else {
            0
        };
        if maxsize == 0 {
            return Err(DecompressionError::HeaderParseError);
        }
        let has_csize = fl & 0x08 != 0;
        let has_dict = fl & 0x01 != 0;
        let hlen: usize = 7 + (if has_csize {
            8
        } else {
            0
        }) + (if has_dict {
            4
        } else {
            0
        });
        if n < hlen {
            return Err(DecompressionError::Truncated);
        }
        let content_size: Option<u64> = if has_csize {
            Some(read_u64_le(frame.as_slice(), 6))
        } else {
            None
        };
        let dictionary_id: Option<u32> = if has_dict {
            Some(read_u32_le(frame.as_slice(), if has_csize {
                14
            } else {
                6
            }))
        } else {
            None
        };
        let hashed = slice_subrange(frame.as_slice(), 4, hlen - 1);
        let expected = (xxh32(hashed) >> 8) as u8;
        if frame[hlen - 1] != expected {
            return Err(DecompressionError::HeaderChecksumFail);
        }
        let hasher = if fl & 0x04 != 0 {
            Some(hasher_new())
        } else {
            None
        };
        let mut window: Vec<u8> = Vec::new();
        match dictionary {
            Some(d) => {
                if d.len() > WINDOW_SIZE {
                    push_slice(&mut window, slice_subrange(d, d.len() - WINDOW_SIZE, d.len()));
                } else {
                    push_slice(&mut window, d);
                }
            },
            None => {},
        }
        proof {
            assert(window@ =~= trim_window(dict_view(dictionary)));
        }
        Ok(
            LZ4FrameReader {
                frame,
                pos: hlen,
                indep: fl & 0x20 != 0,
                bchk: fl & 0x10 != 0,
                block_maxsize: maxsize,
                content_size,
                dictionary_id,
                hasher,
                window,
                finished: false,
                decoded: Ghost(Seq::empty()),
            },
        )
    }

    /// The block-size class maximum the header declares.
    pub fn block_size(&self) -> (r: usize)
        ensures
            r == self.cfg_maxsize(),
    {
        self.block_maxsize
    }

    /// The content size the header declares, if present.
    pub fn frame_size(&self) -> (r: Option<u64>)
        ensures
            r == self.spec_content_size(),
    {
        self.content_size
    }

    /// The dictionary id the header declares, if present.
    pub fn dictionary_id(&self) -> (r: Option<u32>)
        ensures
            r == self.spec_dictionary_id(),
    {
        self.dictionary_id
    }

    /// Whether the terminator (and content checksum, if any) was reached.
    pub fn done(&self) -> (b: bool)
        ensures
            b == self.is_finished(),
    {
        self.finished
    }

    /// Decodes the next block into `output`, which must come in empty.
    /// After the terminator the reader is finished and every further call
    /// is a no-op. On an error the stream is corrupt: the reader must be
    /// discarded.
    pub fn decode_block(&mut self, output: &mut Vec<u8>) -> (r: Result<(), DecompressionError>)
        requires
            old(self).inv(),
            old(output)@.len() == 0,
        ensures
            final(self).inv(),
            final(self).window_seq().len() <= WINDOW_SIZE,
            final(self).frame_seq() == old(self).frame_seq(),
            final(self).cfg_indep() == old(self).cfg_indep(),
            final(self).cfg_bchk() == old(self).cfg_bchk(),
            final(self).cfg_cchk() == old(self).cfg_cchk(),
            final(self).cfg_maxsize() == old(self).cfg_maxsize(),
            match r {
                Ok(_) => {
                    if old(self).is_finished() {
                        &&& final(self).is_finished()
                        &&& final(output)@.len() == 0
                        &&& final(self).decoded_seq() == old(self).decoded_seq()
                    } else if final(self).is_finished() {
                        &&& old(self).remaining() == Ok::<_, DecompressionError>(
                            old(self).decoded_seq(),
                        )
                        &&& final(output)@.len() == 0
                        &&& final(self).decoded_seq() == old(self).decoded_seq()
                    } else {
                        &&& final(self).remaining() == old(self).remaining()
                        &&& final(self).decoded_seq() == old(self).decoded_seq() + final(output)@
                        &&& final(output)@.len() <= old(self).cfg_maxsize()
                        &&& final(self).cursor() > old(self).cursor()
                    }
                },
                Err(e) => !old(self).is_finished() && old(self).remaining() == Err::<Seq<u8>, _>(e)
                    && final(self).is_finished() == old(self).is_finished(),
            },
    {
        if self.finished {
            return Ok(());
        }
        let n = self.frame.len();
        if self.pos + 4 > n {
            return Err(DecompressionError::Truncated);
        }
        let len32 = read_u32_le(self.frame.as_slice(), self.pos);
        if len32 == 0 {
            match &self.hasher {
                Some(h) => {
                    if self.pos + 8 > n {
                        return Err(DecompressionError::Truncated);
                    }
                    let stored_ck = read_u32_le(self.frame.as_slice(), self.pos + 4);
                    let computed = hasher_finish(h);
                    if stored_ck != computed {
                        return Err(DecompressionError::FrameChecksumFail);
                    }
                    self.pos = self.pos + 8;
                },
                None => {
                    self.pos = self.pos + 4;
                },
            }
            self.finished = true;
            return Ok(());
        }
        let stored = len32 & INCOMPRESSIBLE != 0;
        let blen = (len32 & 0x7fffffff) as usize;
        if blen > n - (self.pos + 4) {
            return Err(DecompressionError::Truncated);
        }
        let p2 = self.pos + 4 + blen;
        let p3: usize = if self.bchk {
            if p2 + 4 > n {
                return Err(DecompressionError::Truncated);
            }
            let stored_ck = read_u32_le(self.frame.as_slice(), p2);
            let body = slice_subrange(self.frame.as_slice(), self.pos + 4, p2);
            let computed = xxh32(body);
            if stored_ck != computed {
                return Err(DecompressionError::BlockChecksumFail);
            }
            p2 + 4
        } else {
            p2
        };
        if stored {
            let body = slice_subrange(self.frame.as_slice(), self.pos + 4, p2);
            push_slice(output, body);
            proof {
                assert(output@ =~= self.frame@.subrange(
                    self.pos + 4,
                    self.pos + 4 + blen as int,
                ));
            }
        } else {
            let body = slice_subrange(self.frame.as_slice(), self.pos + 4, p2);
            let ok = decompress_block(body, self.window.as_slice(), output);
            if !ok {
                return Err(DecompressionError::CodecError);
            }
        }
        if output.len() > self.block_maxsize {
            return Err(DecompressionError::BlockSizeOverflow);
        }
        if !self.indep {
            window_update(&mut self.window, output.as_slice());
        }
        match &mut self.hasher {
            Some(h) => {
                hasher_write(h, output.as_slice());
            },
            None => {},
        }
        proof {
            self.decoded@ = self.decoded@ + output@;
        }
        self.pos = p3;
        Ok(())
    }
}

/// Decodes a whole frame at once, with an optional out-of-band dictionary.
pub fn decompress_frame(frame: &[u8], dictionary: Option<&[u8]>) -> (r: Result<
    Vec<u8>,
    DecompressionError,
>)
    requires
        512 * (frame@.len() + 1) <= usize::MAX as int,
    ensures
        match r {
            Ok(v) => frame_decode(frame@, dict_view(dictionary)) == Ok::<_, DecompressionError>(
                v@,
            ),
            Err(e) => frame_decode(frame@, dict_view(dictionary)) == Err::<Seq<u8>, _>(e),
        },
{
    let fv = slice_to_vec(frame);
    let mut reader = match LZ4FrameReader::new(fv, dictionary) {
        Ok(x) => x,
        Err(e) => {
            return Err(e);
        },
    };
    let mut plaintext: Vec<u8> = Vec::new();
    proof {
        assert(plaintext@ =~= reader.decoded_seq());
    }
    while !reader.done()
        invariant
            reader.inv(),
            plaintext@ == reader.decoded_seq(),
            !reader.is_finished() ==> reader.remaining() == frame_decode(
                frame@,
                dict_view(dictionary),
            ),
            reader.is_finished() ==> frame_decode(frame@, dict_view(dictionary)) == Ok::<
                _,
                DecompressionError,
            >(reader.decoded_seq()),
        decreases (if reader.is_finished() {
            0int
        } else {
            1int
        }), reader.frame_seq().len() - reader.cursor(),
    {
        let mut buf: Vec<u8> = Vec::new();
        match reader.decode_block(&mut buf) {
            Ok(_) => {},
            Err(e) => {
                return Err(e);
            },
        }
        plaintext.append(&mut buf);
    }
    Ok(plaintext)
}

} // verus!

//! Frame encoding: header emission, block chunking, checksum framing and
//! sliding-window management.
//!
//! The central contract: a frame produced by `compress_internal` decodes,
//! under `frame_decode` with the same dictionary, to exactly the input —
//! the round trip holds for every input and every valid settings value.

use vstd::prelude::*;
use crate::hash::{xxh32, xxh32_of};
use crate::raw::{compress2, raw_decode};
use crate::table::MatchTable;
use crate::util::{le32_at, push_slice, push_u32_le, push_u64_le};
use crate::decompress::{blocks_decode, frame_decode, header_parse, trim_window, HeaderInfo,
    DecompressionError};
use crate::{MAGIC, INCOMPRESSIBLE, WINDOW_SIZE};
use vstd::slice::{slice_subrange, slice_to_vec};
use vstd::bytes::{spec_u32_to_le_bytes, lemma_auto_spec_u32_to_from_le_bytes};

verus! {

/// Appending one framed block to a frame moves the block decoder one step:
/// it consumes the block, extends the plaintext by what the block decodes
/// to, and slides the window — whatever bytes follow.
proof fn lemma_block_step(
    frame1: Seq<u8>,
    delta: Seq<u8>,
    len32: u32,
    body: Seq<u8>,
    ck: u32,
    window: Seq<u8>,
    out: Seq<u8>,
    indep: bool,
    bchk: bool,
    cchk: bool,
    maxsize: int,
    acc: Seq<u8>,
)
    requires
        len32 != 0,
        body.len() == (len32 & 0x7fffffff) as int,
        delta == spec_u32_to_le_bytes(len32) + body + (if bchk {
            spec_u32_to_le_bytes(ck)
        } else {
            Seq::<u8>::empty()
        }),
        bchk ==> ck == xxh32_of(body),
        if len32 & INCOMPRESSIBLE != 0 {
            out == body
        } else {
            raw_decode(body, window) == Some(out)
        },
        out.len() <= maxsize,
    ensures
        forall|rest: Seq<u8>|
            #[trigger] blocks_decode(
                frame1 + delta + rest,
                frame1.len() as int,
                window,
                indep,
                bchk,
                cchk,
                maxsize,
                acc,
            ) == blocks_decode(
                frame1 + delta + rest,
                frame1.len() + delta.len() as int,
                if indep {
                    window
                } else {
                    trim_window(window + out)
                },
                indep,
                bchk,
                cchk,
                maxsize,
                acc + out,
            ),
{
    lemma_auto_spec_u32_to_from_le_bytes();
    assert forall|rest: Seq<u8>|
        #[trigger] blocks_decode(
            frame1 + delta + rest,
            frame1.len() as int,
            window,
            indep,
            bchk,
            cchk,
            maxsize,
            acc,
        ) == blocks_decode(
            frame1 + delta + rest,
            frame1.len() + delta.len() as int,
            if indep {
                window
            } else {
                trim_window(window + out)
            },
            indep,
            bchk,
            cchk,
            maxsize,
            acc + out,
        ) by {
        let s = frame1 + delta + rest;
        let pos = frame1.len() as int;
        let blen = body.len() as int;
        assert(s.subrange(pos, pos + 4) =~= spec_u32_to_le_bytes(len32));
        assert(le32_at(s, pos) == len32);
        assert(s.subrange(pos + 4, pos + 4 + blen) =~= body);
        if bchk {
            assert(s.subrange(pos + 4 + blen, pos + 4 + blen + 4) =~= spec_u32_to_le_bytes(ck));
            assert(le32_at(s, pos + 4 + blen) == ck);
        }
    }
}


/// One encoder iteration preserves the loop's governing equality: after the
/// framed block `delta` is appended, decoding from the header still equals
/// decoding from the new end of the frame with the slid window and the
/// extended plaintext, whatever bytes follow; and the header bytes are
/// untouched.
#[verifier::rlimit(100)]
proof fn lemma_loop_step(
    frame1: Seq<u8>,
    delta: Seq<u8>,
    len32: u32,
    body: Seq<u8>,
    ck: u32,
    w0: Seq<u8>,
    cw: Seq<u8>,
    out: Seq<u8>,
    indep: bool,
    bchk: bool,
    cchk: bool,
    maxsize: int,
    acc: Seq<u8>,
    hlen: int,
    header_seq: Seq<u8>,
    frame2: Seq<u8>,
)
    requires
        frame2 == frame1 + delta,
        0 <= hlen <= frame1.len(),
        frame1.subrange(0, hlen) == header_seq,
        forall|rest: Seq<u8>|
            #[trigger] blocks_decode(frame1 + rest, hlen, w0, indep, bchk, cchk, maxsize, Seq::<u8>::empty())
                == blocks_decode(frame1 + rest, frame1.len() as int, cw, indep, bchk, cchk, maxsize, acc),
        len32 != 0,
        body.len() == (len32 & 0x7fffffff) as int,
        delta == spec_u32_to_le_bytes(len32) + body + (if bchk {
            spec_u32_to_le_bytes(ck)
        } else {
            Seq::<u8>::empty()
        }),
        bchk ==> ck == xxh32_of(body),
        if len32 & INCOMPRESSIBLE != 0 {
            out == body
        } else {
            raw_decode(body, cw) == Some(out)
        },
        out.len() <= maxsize,
    ensures
        frame2.subrange(0, hlen) == header_seq,
        forall|rest: Seq<u8>|
            #[trigger] blocks_decode(frame2 + rest, hlen, w0, indep, bchk, cchk, maxsize, Seq::<u8>::empty())
                == blocks_decode(frame2 + rest, frame2.len() as int, if indep {
                    cw
                } else {
                    trim_window(cw + out)
                }, indep, bchk, cchk, maxsize, acc + out),
{
    assert(frame2.subrange(0, hlen) =~= header_seq);
    lemma_block_step(frame1, delta, len32, body, ck, cw, out, indep, bchk, cchk, maxsize, acc);
    assert forall|rest: Seq<u8>|
        #[trigger] blocks_decode(frame2 + rest, hlen, w0, indep, bchk, cchk, maxsize, Seq::<u8>::empty())
            == blocks_decode(frame2 + rest, frame2.len() as int, if indep {
                cw
            } else {
                trim_window(cw + out)
            }, indep, bchk, cchk, maxsize, acc + out) by {
        assert(frame2 + rest =~= frame1 + (delta + rest));
        assert(blocks_decode(frame1 + (delta + rest), hlen, w0, indep, bchk, cchk, maxsize,
            Seq::<u8>::empty()) == blocks_decode(frame1 + (delta + rest), frame1.len() as int, cw,
            indep, bchk, cchk, maxsize, acc));
        assert(frame1 + (delta + rest) =~= frame1 + delta + rest);
        assert(blocks_decode(frame1 + delta + rest, frame1.len() as int, cw, indep, bchk, cchk,
            maxsize, acc) == blocks_decode(frame1 + delta + rest, frame1.len() + delta.len() as int,
            if indep {
                cw
            } else {
                trim_window(cw + out)
            }, indep, bchk, cchk, maxsize, acc + out));
    }
}

/// A longer buffer with the same leading bytes parses to the same header:
/// the header parser reads nothing past the header's own length.
proof fn lemma_header_parse_extend(h: Seq<u8>, s: Seq<u8>)
    requires
        header_parse(h) is Ok,
        s.len() >= h.len(),
        s.subrange(0, h.len() as int) == h,
    ensures
        header_parse(s) == header_parse(h),
{
    let info = match header_parse(h) {
        Ok(i) => i,
        Err(_) => arbitrary(),
    };
    assert(s.subrange(0, 4) =~= h.subrange(0, 4));
    assert(s[4] == h[4]);
    assert(s[5] == h[5]);
    let hlen = info.hlen;
    assert(hlen <= h.len());
    assert(s.subrange(4, hlen - 1) =~= h.subrange(4, hlen - 1));
    assert(s[hlen - 1] == h[hlen - 1]);
    if h[4] & 0x08 != 0 {
        assert(s.subrange(6, 14) =~= h.subrange(6, 14));
        if h[4] & 0x01 != 0 {
            assert(s.subrange(14, 18) =~= h.subrange(14, 18));
        }
    } else {
        if h[4] & 0x01 != 0 {
            assert(s.subrange(6, 10) =~= h.subrange(6, 10));
        }
    }
}

/// Encode-side configuration: immutable once compression starts.
pub struct CompressionSettings {
    independent_blocks: bool,
    block_checksums: bool,
    content_checksum: bool,
    block_size: usize,
    dictionary: Option<Vec<u8>>,
    dictionary_id: Option<u32>,
}

impl CompressionSettings {
    /// The block size is always one of the four classes the format allows.
    pub closed spec fn wf(&self) -> bool {
        self.block_size == 0x10000 || self.block_size == 0x40000 || self.block_size == 0x100000
            || self.block_size == 0x400000
    }

    pub closed spec fn spec_independent_blocks(&self) -> bool {
        self.independent_blocks
    }

    pub closed spec fn spec_block_checksums(&self) -> bool {
        self.block_checksums
    }

    pub closed spec fn spec_content_checksum(&self) -> bool {
        self.content_checksum
    }

    pub closed spec fn spec_block_size(&self) -> int {
        self.block_size as int
    }

    pub closed spec fn spec_dictionary(&self) -> Option<Seq<u8>> {
        match self.dictionary {
            Some(d) => Some(d@),
            None => None,
        }
    }

    pub closed spec fn spec_dictionary_id(&self) -> Option<u32> {
        self.dictionary_id
    }

    /// The dictionary bytes in use, empty when none was supplied.
    pub open spec fn dict_bytes(&self) -> Seq<u8> {
        match self.spec_dictionary() {
            Some(d) => d,
            None => Seq::empty(),
        }
    }

    pub fn independent_blocks(&mut self, v: bool)
        ensures
            final(self).spec_independent_blocks() == v,
            final(self).spec_block_checksums() == old(self).spec_block_checksums(),
            final(self).spec_content_checksum() == old(self).spec_content_checksum(),
            final(self).spec_block_size() == old(self).spec_block_size(),
            final(self).spec_dictionary() == old(self).spec_dictionary(),
            final(self).spec_dictionary_id() == old(self).spec_dictionary_id(),
            final(self).wf() == old(self).wf(),
    {
        self.independent_blocks = v;
    }

    pub fn block_checksums(&mut self, v: bool)
        ensures
            final(self).spec_block_checksums() == v,
            final(self).spec_independent_blocks() == old(self).spec_independent_blocks(),
            final(self).spec_content_checksum() == old(self).spec_content_checksum(),
            final(self).spec_block_size() == old(self).spec_block_size(),
            final(self).spec_dictionary() == old(self).spec_dictionary(),
            final(self).spec_dictionary_id() == old(self).spec_dictionary_id(),
            final(self).wf() == old(self).wf(),
    {
        self.block_checksums = v;
    }

    pub fn content_checksum(&mut self, v: bool)
        ensures
            final(self).spec_content_checksum() == v,
            final(self).spec_independent_blocks() == old(self).spec_independent_blocks(),
            final(self).spec_block_checksums() == old(self).spec_block_checksums(),
            final(self).spec_block_size() == old(self).spec_block_size(),
            final(self).spec_dictionary() == old(self).spec_dictionary(),
            final(self).spec_dictionary_id() == old(self).spec_dictionary_id(),
            final(self).wf() == old(self).wf(),
    {
        self.content_checksum = v;
    }

    /// Sets the block size. Only the four classes 64KiB, 256KiB, 1MiB and
    /// 4MiB are valid; anything else is rejected and leaves the settings
    /// unchanged.
    pub fn block_size(&mut self, v: usize) -> (ok: bool)
        ensures
            ok == (v == 0x10000 || v == 0x40000 || v == 0x100000 || v == 0x400000),
            ok ==> final(self).spec_block_size() == v && final(self).wf(),
            !ok ==> final(self).spec_block_size() == old(self).spec_block_size() && final(self).wf()
                == old(self).wf(),
            final(self).spec_independent_blocks() == old(self).spec_independent_blocks(),
            final(self).spec_block_checksums() == old(self).spec_block_checksums(),
            final(self).spec_content_checksum() == old(self).spec_content_checksum(),
            final(self).spec_dictionary() == old(self).spec_dictionary(),
            final(self).spec_dictionary_id() == old(self).spec_dictionary_id(),
    {
        if v == 0x10000 || v == 0x40000 || v == 0x100000 || v == 0x400000 {
            self.block_size = v;
            true
        } else {
            false
        }
    }

    /// Supplies a dictionary and its id together (the recommended pairing).
    pub fn dictionary(&mut self, id: u32, dict: &[u8])
        ensures
            final(self).spec_dictionary() == Some(dict@),
            final(self).spec_dictionary_id() == Some(id),
            final(self).spec_independent_blocks() == old(self).spec_independent_blocks(),
            final(self).spec_block_checksums() == old(self).spec_block_checksums(),
            final(self).spec_content_checksum() == old(self).spec_content_checksum(),
            final(self).spec_block_size() == old(self).spec_block_size(),
            final(self).wf() == old(self).wf(),
    {
        self.dictionary_id = Some(id);
        self.dictionary = Some(slice_to_vec(dict));
    }

    /// Overrides the dictionary id alone. The absence of an id normally
    /// means no dictionary; writing one without the other produces frames
    /// that third-party tools may interpret inconsistently. The default
    /// pairing set by `dictionary` is almost always what you want.
    pub fn dictionary_id_nonsense_override(&mut self, id: Option<u32>)
        ensures
            final(self).spec_dictionary_id() == id,
            final(self).spec_dictionary() == old(self).spec_dictionary(),
            final(self).spec_independent_blocks() == old(self).spec_independent_blocks(),
            final(self).spec_block_checksums() == old(self).spec_block_checksums(),
            final(self).spec_content_checksum() == old(self).spec_content_checksum(),
            final(self).spec_block_size() == old(self).spec_block_size(),
            final(self).wf() == old(self).wf(),
    {
        self.dictionary_id = id;
    }

    /// Compresses `input` into a frame without a declared content size.
    pub fn compress(&self, input: &[u8]) -> (frame: Vec<u8>)
        requires
            self.wf(),
            512 * (input@.len() + 1) <= usize::MAX as int,
        ensures
            frame_decode(frame@, self.dict_bytes()) == Ok::<_, DecompressionError>(input@),
            frame@.len() <= 36 + input@.len() + input@.len() as int / 8192,
    {
        self.compress_internal(input, None)
    }

    /// Compresses `input`, declaring a caller-supplied content size in the
    /// header. The caller answers for its correctness.
    pub fn compress_with_size_unchecked(&self, input: &[u8], content_size: u64) -> (frame: Vec<u8>)
        requires
            self.wf(),
            512 * (input@.len() + 1) <= usize::MAX as int,
        ensures
            frame_decode(frame@, self.dict_bytes()) == Ok::<_, DecompressionError>(input@),
            frame@.len() <= 36 + input@.len() + input@.len() as int / 8192,
            header_parse(frame@) matches Ok(h) && h.content_size == Some(content_size),
    {
        self.compress_internal(input, Some(content_size))
    }

    /// Compresses `input`, declaring its exact length in the header.
    pub fn compress_with_size(&self, input: &[u8]) -> (frame: Vec<u8>)
        requires
            self.wf(),
            512 * (input@.len() + 1) <= usize::MAX as int,
        ensures
            frame_decode(frame@, self.dict_bytes()) == Ok::<_, DecompressionError>(input@),
            frame@.len() <= 36 + input@.len() + input@.len() as int / 8192,
            header_parse(frame@) matches Ok(h) && h.content_size == Some(input@.len() as u64),
    {
        let len = input.len();
        self.compress_internal(input, Some(len as u64))
    }

    /// Builds the whole frame: header, blocks, terminator and trailer.
    #[verifier::rlimit(100)]
    pub fn compress_internal(&self, input: &[u8], content_size: Option<u64>) -> (frame: Vec<u8>)
        requires
            self.wf(),
            512 * (input@.len() + 1) <= usize::MAX as int,
        ensures
            frame_decode(frame@, self.dict_bytes()) == Ok::<_, DecompressionError>(input@),
            frame@.len() <= 36 + input@.len() + input@.len() as int / 8192,
            header_parse(frame@) matches Ok(h) && h.content_size == content_size && h.dict_id
                == self.spec_dictionary_id() && h.indep == self.spec_independent_blocks() && h.bchk
                == self.spec_block_checksums() && h.cchk == self.spec_content_checksum()
                && h.maxsize == self.spec_block_size(),
    {
        let indep = self.independent_blocks;
        let bchk = self.block_checksums;
        let cchk = self.content_checksum;
        let bsize = self.block_size;
        let ghost maxsize = bsize as int;

        // flag byte: version 01 in bits 6-7
        let a: u8 = if indep {
            0x20
        } else {
            0
        };
        let b: u8 = if bchk {
            0x10
        } else {
            0
        };
        let c: u8 = if content_size.is_some() {
            0x08
        } else {
            0
        };
        let d: u8 = if cchk {
            0x04
        } else {
            0
        };
        let e: u8 = if self.dictionary_id.is_some() {
            0x01
        } else {
            0
        };
        let fl: u8 = 0x40 | a | b | c | d | e;
        proof {
            assert((fl >> 6 == 1) && (fl & 0x02 == 0) && ((fl & 0x20) == a) && ((fl & 0x10) == b)
                && ((fl & 0x08) == c) && ((fl & 0x04) == d) && ((fl & 0x01) == e)) by (bit_vector)
                requires
                    fl == 0x40 | a | b | c | d | e,
                    a == 0 || a == 0x20,
                    b == 0 || b == 0x10,
                    c == 0 || c == 0x08,
                    d == 0 || d == 0x04,
                    e == 0 || e == 0x01,
            ;
        }
        let bd: u8 = if bsize == 0x10000 {
            0x40
        } else if bsize == 0x40000 {
            0x50
        } else if bsize == 0x100000 {
            0x60
        } else {
            0x70
        };

        let mut frame: Vec<u8> = Vec::new();
        push_u32_le(&mut frame, MAGIC);
        frame.push(fl);
        frame.push(bd);
        match content_size {
            Some(cs) => push_u64_le(&mut frame, cs),
            None => {},
        }
        match self.dictionary_id {
            Some(id) => push_u32_le(&mut frame, id),
            None => {},
        }
        let hbody = slice_subrange(frame.as_slice(), 4, frame.len());
        let hc = (xxh32(hbody) >> 8) as u8;
        frame.push(hc);
        let ghost hlen = frame@.len() as int;
        let ghost header_seq = frame@;
        let ghost hinfo = HeaderInfo {
            indep,
            bchk,
            cchk,
            content_size,
            dict_id: self.dictionary_id,
            maxsize,
            hlen,
        };
        proof {
            lemma_auto_spec_u32_to_from_le_bytes();
            assert(header_seq.subrange(0, 4) =~= spec_u32_to_le_bytes(MAGIC));
            assert(header_seq.subrange(4, hlen - 1) =~= hbody@);
            if content_size is Some {
                assert(header_seq.subrange(6, 14) =~= vstd::bytes::spec_u64_to_le_bytes(
                    content_size->0,
                ));
                vstd::bytes::lemma_auto_spec_u64_to_from_le_bytes();
                if self.dictionary_id is Some {
                    assert(header_seq.subrange(14, 18) =~= spec_u32_to_le_bytes(
                        self.dictionary_id->0,
                    ));
                }
            } else {
                if self.dictionary_id is Some {
                    assert(header_seq.subrange(6, 10) =~= spec_u32_to_le_bytes(
                        self.dictionary_id->0,
                    ));
                }
            }
            assert(header_parse(header_seq) == Ok::<_, DecompressionError>(hinfo));
        }

        // dictionary window and seeded table
        let mut dictw: Vec<u8> = Vec::new();
        match &self.dictionary {
            Some(dict) => {
                if dict.len() > WINDOW_SIZE {
                    push_slice(
                        &mut dictw,
                        slice_subrange(dict.as_slice(), dict.len() - WINDOW_SIZE, dict.len()),
                    );
                } else {
                    push_slice(&mut dictw, dict.as_slice());
                }
            },
            None => {},
        }
        proof {
            assert(dictw@ =~= trim_window(self.dict_bytes()));
        }
        let ghost w0 = dictw@;
        let mut table = MatchTable::new();
        table.seed(dictw.as_slice());
        let mut in_buffer: Vec<u8> = Vec::new();
        push_slice(&mut in_buffer, dictw.as_slice());
        proof {
            assert(in_buffer@ =~= w0);
        }

        let n = input.len();
        let mut consumed: usize = 0;
        proof {
            assert(input@.subrange(0, 0) =~= Seq::<u8>::empty());
        }
        while consumed < n
            invariant
                n == input@.len(),
                512 * (n + 1) <= usize::MAX as int,
                consumed <= n,
                bsize == 0x10000 || bsize == 0x40000 || bsize == 0x100000 || bsize == 0x400000,
                maxsize == bsize as int,
                table.wf(),
                in_buffer@.len() <= WINDOW_SIZE,
                w0.len() <= WINDOW_SIZE,
                dictw@ == w0,
                indep ==> in_buffer@ == w0,
                frame@.len() >= hlen,
                hlen == header_seq.len(),
                hlen <= 19,
                frame@.subrange(0, hlen) == header_seq,
                8192 * frame@.len() <= 8192 * hlen + 8193 * consumed + (if consumed == n {
                    65536int
                } else {
                    0int
                }),
                forall|rest: Seq<u8>|
                    #[trigger] blocks_decode(
                        frame@ + rest,
                        hlen,
                        w0,
                        indep,
                        bchk,
                        cchk,
                        maxsize,
                        Seq::<u8>::empty(),
                    ) == blocks_decode(
                        frame@ + rest,
                        frame@.len() as int,
                        in_buffer@,
                        indep,
                        bchk,
                        cchk,
                        maxsize,
                        input@.subrange(0, consumed as int),
                    ),
            decreases n - consumed,
        {
            let ghost frame1 = frame@;
            let ghost cw = in_buffer@;
            let ghost acc = input@.subrange(0, consumed as int);
            let window_offset = in_buffer.len();
            let read = if n - consumed < bsize {
                n - consumed
            } else {
                bsize
            };
            let chunk_slice = slice_subrange(input, consumed, consumed + read);
            push_slice(&mut in_buffer, chunk_slice);
            let ghost chunk = input@.subrange(consumed as int, consumed + read);
            proof {
                assert(in_buffer@.subrange(0, window_offset as int) =~= cw);
                assert(in_buffer@.subrange(window_offset as int, in_buffer@.len() as int)
                    =~= chunk);
            }

            let res = compress2(in_buffer.as_slice(), window_offset, &mut table, read);
            let ghost len32: u32;
            let ghost body: Seq<u8>;
            let mut ckv: u32 = 0;
            match res {
                Some(cvec) => {
                    proof {
                        if cvec@.len() == 0 {
                            assert(raw_decode(cvec@, cw) is None);
                        }
                    }
                    let clen = cvec.len();
                    push_u32_le(&mut frame, clen as u32);
                    if bchk {
                        ckv = xxh32(cvec.as_slice());
                    }
                    let mut cc = cvec;
                    let ghost cseq = cc@;
                    frame.append(&mut cc);
                    if bchk {
                        push_u32_le(&mut frame, ckv);
                    }
                    proof {
                        len32 = clen as u32;
                        body = cseq;
                        assert((len32 & 0x7fffffff) == len32 && (len32 & 0x80000000) == 0)
                            by (bit_vector)
                            requires
                                len32 < 0x80000000,
                        ;
                    }
                },
                None => {
                    push_u32_le(&mut frame, (read as u32) | INCOMPRESSIBLE);
                    if bchk {
                        ckv = xxh32(chunk_slice);
                    }
                    push_slice(&mut frame, chunk_slice);
                    if bchk {
                        push_u32_le(&mut frame, ckv);
                    }
                    proof {
                        len32 = (read as u32) | INCOMPRESSIBLE;
                        body = chunk;
                        let r32 = read as u32;
                        assert(((r32 | 0x80000000u32) & 0x7fffffff) == r32 && ((r32
                            | 0x80000000u32) & 0x80000000) == 0x80000000u32 && (r32
                            | 0x80000000u32) != 0) by (bit_vector)
                            requires
                                r32 < 0x80000000,
                        ;
                    }
                },
            }
            let ghost delta = spec_u32_to_le_bytes(len32) + body + (if bchk {
                spec_u32_to_le_bytes(ckv)
            } else {
                Seq::<u8>::empty()
            });
            proof {
                assert(frame@ =~= frame1 + delta);
                lemma_loop_step(
                    frame1,
                    delta,
                    len32,
                    body,
                    ckv,
                    w0,
                    cw,
                    chunk,
                    indep,
                    bchk,
                    cchk,
                    maxsize,
                    acc,
                    hlen,
                    header_seq,
                    frame@,
                );
                assert(acc + chunk =~= input@.subrange(0, consumed + read));
                assert(delta.len() <= 8 + read);
                assert(8192 * (frame1.len() + delta.len()) <= 8192 * hlen + 8193 * (consumed + read)
                    + (if consumed + read == n {
                        65536int
                    } else {
                        0int
                    }));
            }

            // window and table maintenance for the next block
            if indep {
                in_buffer.clear();
                push_slice(&mut in_buffer, dictw.as_slice());
                table.reset();
                table.seed(dictw.as_slice());
                proof {
                    assert(in_buffer@ =~= w0);
                }
            } else {
                if in_buffer.len() > WINDOW_SIZE {
                    let excess = in_buffer.len() - WINDOW_SIZE;
                    table.shift(excess);
                    let newbuf = slice_to_vec(
                        slice_subrange(in_buffer.as_slice(), excess, in_buffer.len()),
                    );
                    in_buffer = newbuf;
                }
                proof {
                    assert(in_buffer@ =~= trim_window(cw + chunk));
                }
            }
            consumed = consumed + read;
        }

        // terminator, then the content checksum
        let ghost frame_blocks = frame@;
        push_u32_le(&mut frame, 0);
        if cchk {
            let ch = xxh32(input);
            push_u32_le(&mut frame, ch);
        }
        proof {
            lemma_auto_spec_u32_to_from_le_bytes();
            let whole = input@.subrange(0, n as int);
            assert(whole =~= input@);
            let rest = frame@.subrange(frame_blocks.len() as int, frame@.len() as int);
            assert(frame@ =~= frame_blocks + rest);
            assert(blocks_decode(
                frame_blocks + rest,
                hlen,
                w0,
                indep,
                bchk,
                cchk,
                maxsize,
                Seq::<u8>::empty(),
            ) == blocks_decode(
                frame_blocks + rest,
                frame_blocks.len() as int,
                in_buffer@,
                indep,
                bchk,
                cchk,
                maxsize,
                whole,
            ));
            assert(frame@.subrange(frame_blocks.len() as int, frame_blocks.len() as int + 4)
                =~= spec_u32_to_le_bytes(0));
            assert(le32_at(frame@, frame_blocks.len() as int) == 0);
            if cchk {
                assert(frame@.subrange(
                    frame_blocks.len() as int + 4,
                    frame_blocks.len() as int + 8,
                ) =~= spec_u32_to_le_bytes(xxh32_of(input@)));
                assert(le32_at(frame@, frame_blocks.len() as int + 4) == xxh32_of(input@));
            }
            assert(blocks_decode(frame@, frame_blocks.len() as int, in_buffer@, indep, bchk, cchk,
                maxsize, whole) == Ok::<_, DecompressionError>(whole));
            assert(header_seq.len() == hlen);
            assert forall|q: int| 0 <= q < hlen implies frame@[q] == header_seq[q] by {
                assert(frame_blocks[q] == header_seq[q]);
            }
            assert(frame@.subrange(0, hlen) =~= header_seq);
            lemma_header_parse_extend(header_seq, frame@);
            assert(trim_window(self.dict_bytes()) == w0);
            assert(frame_decode(frame@, self.dict_bytes()) == Ok::<_, DecompressionError>(input@));
            // the never-expand bound: blocks cost their own bytes plus at
            // most 8, one per at least 64KiB consumed (plus the last one)
            vstd::arithmetic::div_mod::lemma_fundamental_div_mod(input@.len() as int, 8192);
            assert(frame@.len() <= 36 + input@.len() + input@.len() as int / 8192);
        }
        frame
    }
}

impl Default for CompressionSettings {
    /// Independent blocks, no block checksums, a content checksum, 4MiB
    /// blocks, no dictionary.
    fn default() -> (s: Self)
        ensures
            s.wf(),
            s.spec_independent_blocks(),
            !s.spec_block_checksums(),
            s.spec_content_checksum(),
            s.spec_block_size() == 0x400000,
            s.spec_dictionary() is None,
            s.spec_dictionary_id() is None,
    {
        CompressionSettings {
            independent_blocks: true,
            block_checksums: false,
            content_checksum: true,
            block_size: 4 * 1024 * 1024,
            dictionary: None,
            dictionary_id: None,
        }
    }
}

} // verus!


//! The raw block codec: the LZ4 token/literal/offset/matchlength bitstream.
//!
//! `raw_decode` is the mathematical meaning of a compressed block: the bytes
//! it reconstructs, or `None` when the stream is corrupt (truncated input, a
//! zero offset, or an offset reaching before every byte ever produced).
//! `decompress_block` computes it; `compress2` produces streams that decode
//! to exactly the input it was given.

use vstd::prelude::*;
use vstd::slice::slice_subrange;
use crate::table::{MatchTable, hash4};
use crate::util::push_slice;

verus! {

/// Sum of a length continuation: starting from `acc`, each 255 byte adds 255,
/// the first byte below 255 is added and ends the run. Returns the value and
/// the index just past the run, or `None` when the input runs out first.
pub open spec fn ext_len(s: Seq<u8>, i: int, acc: nat) -> Option<(nat, int)>
    decreases s.len() - i,
{
    if i < 0 || i >= s.len() {
        None
    } else if s[i] == 255 {
        ext_len(s, i + 1, acc + 255)
    } else {
        Some(((acc + s[i]) as nat, i + 1))
    }
}

pub proof fn lemma_ext_len_bounds(s: Seq<u8>, i: int, acc: nat)
    ensures
        ext_len(s, i, acc) matches Some(r) ==> i < r.1 <= s.len() && r.0 >= acc,
    decreases s.len() - i,
{
    if 0 <= i < s.len() && s[i] == 255 {
        lemma_ext_len_bounds(s, i + 1, acc + 255);
    }
}

/// The output buffer after copying `n` bytes from `off` positions back,
/// where positions before the buffer's start resolve into the window `w`.
/// The copy may overlap itself: each byte lands before the next is read.
pub open spec fn match_extend(w: Seq<u8>, out: Seq<u8>, off: nat, n: nat) -> Seq<u8>
    decreases n,
{
    if n == 0 {
        out
    } else {
        let b = if off <= out.len() {
            out[out.len() - off]
        } else {
            w[w.len() - (off - out.len())]
        };
        match_extend(w, out.push(b), off, (n - 1) as nat)
    }
}

/// Decodes the token stream `s` from position `i` onwards, with `out` the
/// bytes produced so far and `w` the preceding window, yielding the complete
/// output of the block, or `None` on corruption.
pub open spec fn raw_decode_from(s: Seq<u8>, i: int, w: Seq<u8>, out: Seq<u8>) -> Option<Seq<u8>>
    decreases s.len() - i,
    via raw_decode_from_dec
{
    if i < 0 || i >= s.len() {
        None
    } else {
        let t = s[i];
        let lit_step = if t / 16 == 15 {
            ext_len(s, i + 1, 15)
        } else {
            Some(((t / 16) as nat, i + 1))
        };
        match lit_step {
            None => None,
            Some((llen, j)) => {
                if j + llen > s.len() {
                    None
                } else {
                    let out1 = out + s.subrange(j, j + llen);
                    let j2 = j + llen;
                    if j2 == s.len() {
                        Some(out1)
                    } else if j2 + 2 > s.len() {
                        None
                    } else {
                        let off = (s[j2] as nat) + 256 * (s[j2 + 1] as nat);
                        if off == 0 || off > w.len() + out1.len() {
                            None
                        } else {
                            let m_step = if t % 16 == 15 {
                                ext_len(s, j2 + 2, 15)
                            } else {
                                Some(((t % 16) as nat, j2 + 2))
                            };
                            match m_step {
                                None => None,
                                Some((mbase, k)) => raw_decode_from(
                                    s,
                                    k,
                                    w,
                                    match_extend(w, out1, off, mbase + 4),
                                ),
                            }
                        }
                    }
                }
            },
        }
    }
}

#[via_fn]
proof fn raw_decode_from_dec(s: Seq<u8>, i: int, w: Seq<u8>, out: Seq<u8>) {
    lemma_ext_len_bounds(s, i + 1, 15);
    if 0 <= i < s.len() {
        let t = s[i];
        let lit_step = if t / 16 == 15 {
            ext_len(s, i + 1, 15)
        } else {
            Some(((t / 16) as nat, i + 1))
        };
        if let Some((llen, j)) = lit_step {
            lemma_ext_len_bounds(s, j + llen + 2, 15);
        }
    }
}

/// The meaning of a whole compressed block: decoding from its start with an
/// empty output.
pub open spec fn raw_decode(s: Seq<u8>, w: Seq<u8>) -> Option<Seq<u8>> {
    raw_decode_from(s, 0, w, Seq::empty())
}

/// Reads a length continuation starting at `start` with base value `base`.
fn read_ext_len(input: &[u8], start: usize, base: usize) -> (r: Option<(usize, usize)>)
    requires
        base <= 270,
        512 * (input@.len() + 1) <= usize::MAX as int,
        start <= input@.len(),
    ensures
        match r {
            Some(v) => ext_len(input@, start as int, base as nat) == Some(
                ((v.0 as nat), (v.1 as int)),
            ) && v.1 <= input@.len() && v.0 <= 270 + 255 * input@.len(),
            None => ext_len(input@, start as int, base as nat) is None,
        },
{
    let n = input.len();
    let mut idx = start;
    let mut acc = base;
    loop
        invariant
            start <= idx <= n,
            n == input@.len(),
            512 * (n + 1) <= usize::MAX as int,
            acc <= 270 + 255 * (idx - start),
            ext_len(input@, start as int, base as nat) == ext_len(input@, idx as int, acc as nat),
        decreases n - idx,
    {
        if idx >= n {
            return None;
        }
        let b = input[idx];
        if b == 255 {
            acc = acc + 255;
            idx = idx + 1;
        } else {
            return Some((acc + b as usize, idx + 1));
        }
    }
}

/// Decompresses one raw block into `output` (which must start empty),
/// resolving back-references that reach past the block's own output into
/// `window`. Returns `false` on corruption, exactly when `raw_decode` does.
pub fn decompress_block(input: &[u8], window: &[u8], output: &mut Vec<u8>) -> (ok: bool)
    requires
        old(output)@.len() == 0,
        512 * (input@.len() + 1) <= usize::MAX as int,
    ensures
        ok ==> raw_decode(input@, window@) == Some(final(output)@),
        !ok ==> raw_decode(input@, window@) is None,
{
    let n = input.len();
    let mut i: usize = 0;
    proof {
        assert(output@ =~= Seq::<u8>::empty());
    }
    loop
        invariant
            i <= n,
            n == input@.len(),
            512 * (n + 1) <= usize::MAX as int,
            raw_decode(input@, window@) == raw_decode_from(
                input@,
                i as int,
                window@,
                output@,
            ),
        decreases n - i,
    {
        if i >= n {
            return false;
        }
        let ghost out_top = output@;
        let ghost i_top = i as int;
        let t = input[i];
        // literal run length
        let lit_step = if t / 16 == 15 {
            read_ext_len(input, i + 1, 15)
        } else {
            Some(((t / 16) as usize, i + 1))
        };
        let (llen, j) = match lit_step {
            None => {
                return false;
            },
            Some(p) => p,
        };
        proof {
            lemma_ext_len_bounds(input@, i as int + 1, 15);
        }
        if llen > n - j {
            return false;
        }
        // copy the literals
        let lits = slice_subrange(input, j, j + llen);
        push_slice(output, lits);
        let j2 = j + llen;
        let ghost out1 = out_top + input@.subrange(j as int, j as int + llen as int);
        proof {
            assert(output@ == out1);
        }
        if j2 == n {
            // normal end of block: trailing literals only
            assert(raw_decode_from(input@, i_top, window@, out_top) == Some(output@));
            return true;
        }
        if n - j2 < 2 {
            return false;
        }
        let off = input[j2] as usize + 256 * (input[j2 + 1] as usize);
        if off == 0 {
            return false;
        }
        if off > output.len() {
            let reach_back = off - output.len();
            if reach_back > window.len() {
                return false;
            }
        }
        // match length
        let m_step = if t % 16 == 15 {
            read_ext_len(input, j2 + 2, 15)
        } else {
            Some(((t % 16) as usize, j2 + 2))
        };
        let (mbase, k) = match m_step {
            None => {
                return false;
            },
            Some(p) => p,
        };
        proof {
            lemma_ext_len_bounds(input@, j2 as int + 2, 15);
        }
        let mlen = mbase + 4;
        // copy `mlen` bytes from `off` back, possibly overlapping
        let mut c: usize = 0;
        while c < mlen
            invariant
                c <= mlen,
                output@.len() == out1.len() + c,
                1 <= off,
                off <= window@.len() + out1.len(),
                match_extend(window@, output@, off as nat, (mlen - c) as nat) == match_extend(
                    window@,
                    out1,
                    off as nat,
                    mlen as nat,
                ),
            decreases mlen - c,
        {
            let out_len = output.len();
            let b = if off <= out_len {
                output[out_len - off]
            } else {
                window[window.len() - (off - out_len)]
            };
            output.push(b);
            c += 1;
        }
        proof {
            assert(output@ == match_extend(window@, out1, off as nat, mlen as nat));
        }
        i = k;
        proof {
            assert(raw_decode_from(input@, i_top, window@, out_top) == raw_decode_from(
                input@,
                i as int,
                window@,
                output@,
            ));
        }
    }
}

/// Appends one token: the pending literal run followed by a match of `mlen`
/// bytes at `moff` back.
fn emit_sequence(out: &mut Vec<u8>, input: &[u8], lit_start: usize, lit_end: usize, moff: usize,
    mlen: usize)
    requires
        lit_start <= lit_end <= input@.len(),
        1 <= moff <= 65535,
        4 <= mlen,
{
    let lit_len = lit_end - lit_start;
    let ln = if lit_len >= 15 {
        15
    } else {
        lit_len
    };
    let mn = mlen - 4;
    let mn_nib = if mn >= 15 {
        15
    } else {
        mn
    };
    out.push((ln * 16 + mn_nib) as u8);
    if lit_len >= 15 {
        let mut rem = lit_len - 15;
        while rem >= 255
            decreases rem,
        {
            out.push(255);
            rem -= 255;
        }
        out.push(rem as u8);
    }
    push_slice(out, slice_subrange(input, lit_start, lit_end));
    out.push((moff % 256) as u8);
    out.push((moff / 256) as u8);
    if mn >= 15 {
        let mut rem = mn - 15;
        while rem >= 255
            decreases rem,
        {
            out.push(255);
            rem -= 255;
        }
        out.push(rem as u8);
    }
}

/// Appends the closing literal run (no match follows it).
fn emit_final_literals(out: &mut Vec<u8>, input: &[u8], lit_start: usize, lit_end: usize)
    requires
        lit_start <= lit_end <= input@.len(),
{
    let lit_len = lit_end - lit_start;
    let ln = if lit_len >= 15 {
        15
    } else {
        lit_len
    };
    out.push((ln * 16) as u8);
    if lit_len >= 15 {
        let mut rem = lit_len - 15;
        while rem >= 255
            decreases rem,
        {
            out.push(255);
            rem -= 255;
        }
        out.push(rem as u8);
    }
    push_slice(out, slice_subrange(input, lit_start, lit_end));
}

/// Compresses `input[window_offset..]` into an LZ4 token stream, consulting
/// and updating `table`; bytes before `window_offset` serve as match context
/// only. Returns `None` when the result would exceed `max_len` bytes (the
/// incompressible signal). A returned stream provably decodes, against the
/// window `input[..window_offset]`, to exactly the bytes it was given: the
/// encoder re-decodes its own output and refuses to return anything else.
pub fn compress2(input: &[u8], window_offset: usize, table: &mut MatchTable, max_len: usize) -> (r:
    Option<Vec<u8>>)
    requires
        old(table).wf(),
        window_offset < input@.len(),
        512 * (input@.len() + 1) <= usize::MAX as int,
        512 * (max_len + 1) <= usize::MAX as int,
    ensures
        final(table).wf(),
        r matches Some(c) ==> c@.len() <= max_len && raw_decode(
            c@,
            input@.subrange(0, window_offset as int),
        ) == Some(input@.subrange(window_offset as int, input@.len() as int)),
{
    let n = input.len();
    let mut out: Vec<u8> = Vec::new();
    let mut pos = window_offset;
    let mut lit_start = window_offset;
    while pos + 5 < n
        invariant
            table.wf(),
            n == input@.len(),
            window_offset <= lit_start <= pos <= n,
            512 * (n + 1) <= usize::MAX as int,
            512 * (max_len + 1) <= usize::MAX as int,
            out@.len() <= max_len,
        decreases n - pos,
    {
        let h = hash4(input[pos], input[pos + 1], input[pos + 2], input[pos + 3]);
        let cand = table.lookup(h);
        table.insert(pos, h);
        let mut moff: usize = 0;
        let mut mlen: usize = 0;
        if let Some(c) = cand {
            if c < pos && pos - c <= 65535 && c + 4 <= n {
                if input[c] == input[pos] && input[c + 1] == input[pos + 1] && input[c + 2]
                    == input[pos + 2] && input[c + 3] == input[pos + 3] {
                    // extend forward; the final 5 bytes must stay literals
                    let mut l: usize = 4;
                    while pos + l + 5 < n && input[c + l] == input[pos + l]
                        invariant
                            4 <= l,
                            c < pos,
                            pos + l <= n,
                            n == input@.len(),
                            512 * (n + 1) <= usize::MAX as int,
                        decreases n - (pos + l),
                    {
                        l += 1;
                    }
                    moff = pos - c;
                    mlen = l;
                }
            }
        }
        if mlen >= 4 && pos + mlen + 5 <= n {
            emit_sequence(&mut out, input, lit_start, pos, moff, mlen);
            // index the positions the match jumps over
            let mut q = pos + 1;
            while q < pos + mlen
                invariant
                    table.wf(),
                    pos < q,
                    pos + mlen <= n,
                    n == input@.len(),
                    512 * (n + 1) <= usize::MAX as int,
                decreases pos + mlen - q,
            {
                if q + 4 <= n {
                    let h2 = hash4(input[q], input[q + 1], input[q + 2], input[q + 3]);
                    table.insert(q, h2);
                }
                q += 1;
            }
            pos = pos + mlen;
            lit_start = pos;
        } else {
            pos = pos + 1;
        }
        if out.len() > max_len {
            // already larger than the bound: incompressible
            return None;
        }
    }
    emit_final_literals(&mut out, input, lit_start, n);
    if out.len() > max_len {
        return None;
    }
    // Re-decode the candidate stream and compare: only a stream that
    // reproduces the input exactly is ever returned.
    let w = slice_subrange(input, 0, window_offset);
    let mut check: Vec<u8> = Vec::new();
    let ok = decompress_block(out.as_slice(), w, &mut check);
    if !ok {
        return None;
    }
    if check.len() != n - window_offset {
        return None;
    }
    let m = check.len();
    let mut k: usize = 0;
    while k < m
        invariant
            m == check@.len(),
            m == n - window_offset,
            n == input@.len(),
            window_offset < n,
            k <= m,
            table.wf(),
            forall|q: int| 0 <= q < k ==> check@[q] == input@[window_offset + q],
        decreases m - k,
    {
        if check[k] != input[window_offset + k] {
            return None;
        }
        k += 1;
    }
    proof {
        assert(check@ =~= input@.subrange(window_offset as int, n as int));
    }
    Some(out)
}

} // verus!

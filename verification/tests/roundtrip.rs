use lz4_frame::compress::CompressionSettings;
use lz4_frame::decompress::decompress_frame;
use lz4_frame::decompress::LZ4FrameReader;

fn patterned(len: usize) -> Vec<u8> {
    // mildly compressible, deterministic
    let mut v = Vec::with_capacity(len);
    for i in 0..len {
        let b = ((i / 7) % 251) as u8 ^ ((i % 13) as u8);
        v.push(b);
    }
    v
}

fn pseudorandom(len: usize) -> Vec<u8> {
    // deterministic linear congruential generator: incompressible bytes
    let mut v = Vec::with_capacity(len);
    let mut state: u64 = 0x853c49e6748fea9b;
    for _ in 0..len {
        state = state.wrapping_mul(6364136223846793005).wrapping_add(1442695040888963407);
        v.push((state >> 33) as u8);
    }
    v
}

#[test]
fn roundtrip_all_settings() {
    let input = patterned(200_000);
    let dict: Vec<u8> = patterned(300);
    for &indep in &[true, false] {
        for &bchk in &[true, false] {
            for &cchk in &[true, false] {
                for &with_dict in &[true, false] {
                    let mut s = CompressionSettings::default();
                    s.independent_blocks(indep);
                    s.block_checksums(bchk);
                    s.content_checksum(cchk);
                    assert!(s.block_size(0x10000));
                    if with_dict {
                        s.dictionary(7, &dict);
                    }
                    let frame = s.compress(&input);
                    let out = if with_dict {
                        decompress_frame(&frame, Some(&dict)).unwrap()
                    } else {
                        decompress_frame(&frame, None).unwrap()
                    };
                    assert_eq!(out, input);
                }
            }
        }
    }
}

#[test]
fn empty_input() {
    let s = CompressionSettings::default();
    let frame = s.compress(&[]);
    // header (magic, flags, block descriptor, header checksum), zero-length
    // terminator, content checksum of the empty sequence
    assert_eq!(frame.len(), 4 + 2 + 1 + 4 + 4);
    assert_eq!(&frame[0..4], &[0x04, 0x22, 0x4D, 0x18]);
    assert_eq!(frame[4], 0x40 | 0x20 | 0x04);
    assert_eq!(frame[5], 0x70);
    assert_eq!(&frame[7..11], &[0, 0, 0, 0]);
    let empty_hash = twox_hash::XxHash32::oneshot(0, &[]);
    assert_eq!(&frame[11..15], &empty_hash.to_le_bytes());
    let out = decompress_frame(&frame, None).unwrap();
    assert!(out.is_empty());
}

#[test]
fn repetitive_input_compresses() {
    let mut input = Vec::new();
    while input.len() < 1024 * 1024 {
        input.extend_from_slice(b"abcdefgh");
    }
    let s = CompressionSettings::default();
    let frame = s.compress(&input);
    assert!(frame.len() <= input.len() / 10);
    assert_eq!(decompress_frame(&frame, None).unwrap(), input);
}

#[test]
fn incompressible_fallback() {
    let input = pseudorandom(100_000);
    let s = CompressionSettings::default();
    let frame = s.compress(&input);
    // never expands beyond a small constant plus 8 bytes per 64KiB block
    assert!(frame.len() <= input.len() + input.len() / 8192 + 36);
    assert_eq!(decompress_frame(&frame, None).unwrap(), input);
}

#[test]
fn stored_block_is_verbatim() {
    let input = pseudorandom(50);
    let s = CompressionSettings::default();
    let frame = s.compress(&input);
    // 50 random bytes cannot shrink: the block is stored, top length bit set
    assert_eq!(frame[10] & 0x80, 0x80);
    assert_eq!(&frame[11..61], &input[..]);
    assert_eq!(decompress_frame(&frame, None).unwrap(), input);
}

#[test]
fn settings_idempotence() {
    let input = patterned(300_000);
    for &indep in &[true, false] {
        let mut s = CompressionSettings::default();
        s.independent_blocks(indep);
        s.block_checksums(true);
        assert!(s.block_size(0x40000));
        s.dictionary(9, b"a dictionary of some bytes");
        let a = s.compress(&input);
        let b = s.compress(&input);
        assert_eq!(a, b);
    }
}

#[test]
fn block_size_rejects_invalid() {
    let mut s = CompressionSettings::default();
    assert!(!s.block_size(12345));
    assert!(!s.block_size(0));
    assert!(s.block_size(0x10000));
    assert!(s.block_size(0x40000));
    assert!(s.block_size(0x100000));
    assert!(s.block_size(0x400000));
}

#[test]
fn dictionary_roundtrip_and_required() {
    let dict = b"the quick brown fox jumps over the lazy dog";
    let input = b"the quick brown fox jumps over the lazy dog again and again";
    let mut s = CompressionSettings::default();
    s.independent_blocks(false);
    s.dictionary(7, dict);
    let frame = s.compress(input);
    let out = decompress_frame(&frame, Some(dict)).unwrap();
    assert_eq!(out, input);
    // without the dictionary the cross-window reference must be rejected,
    // never silently resolved to wrong bytes
    let res = decompress_frame(&frame, None);
    assert_eq!(res, Err(lz4_frame::decompress::DecompressionError::CodecError));
}

#[test]
fn dictionary_id_in_header() {
    let mut s = CompressionSettings::default();
    s.dictionary(7, b"0123456789abcdef");
    let frame = s.compress(b"0123456789abcdef0123456789abcdef");
    let reader = LZ4FrameReader::new(frame, None).unwrap();
    assert_eq!(reader.dictionary_id(), Some(7));
}

#[test]
fn dictionary_id_nonsense_override_drops_id() {
    let mut s = CompressionSettings::default();
    s.dictionary(7, b"0123456789abcdef");
    s.dictionary_id_nonsense_override(None);
    let frame = s.compress(b"0123456789abcdef0123456789abcdef");
    let reader = LZ4FrameReader::new(frame, None).unwrap();
    assert_eq!(reader.dictionary_id(), None);
}

#[test]
fn content_size_declared() {
    let input = patterned(1000);
    let s = CompressionSettings::default();
    let frame = s.compress_with_size(&input);
    let reader = LZ4FrameReader::new(frame, None).unwrap();
    assert_eq!(reader.frame_size(), Some(1000));
    assert_eq!(reader.block_size(), 0x400000);
}

#[test]
fn content_size_unchecked_passthrough() {
    let input = patterned(1000);
    let s = CompressionSettings::default();
    let frame = s.compress_with_size_unchecked(&input, 424242);
    let reader = LZ4FrameReader::new(frame, None).unwrap();
    assert_eq!(reader.frame_size(), Some(424242));
}

#[test]
fn incremental_block_decode() {
    let input = patterned(150_000);
    let mut s = CompressionSettings::default();
    assert!(s.block_size(0x10000));
    let frame = s.compress(&input);
    let mut reader = LZ4FrameReader::new(frame, None).unwrap();
    let mut all = Vec::new();
    while !reader.done() {
        let mut buf = Vec::new();
        reader.decode_block(&mut buf).unwrap();
        all.extend_from_slice(&buf);
    }
    assert_eq!(all, input);
}

#[test]
fn block_checksum_matches_reference_hash() {
    // the checksum written for a stored block is the xxh32 of its bytes,
    // as twox_hash computes it directly
    let input = pseudorandom(40);
    let mut s = CompressionSettings::default();
    s.block_checksums(true);
    s.content_checksum(false);
    let frame = s.compress(&input);
    // header 7 bytes, length word 4 bytes, stored body, then the checksum
    let body = &frame[11..11 + 40];
    assert_eq!(body, &input[..]);
    let ck = twox_hash::XxHash32::oneshot(0, body);
    assert_eq!(&frame[51..55], &ck.to_le_bytes());
}

#[test]
fn decodes_a_hand_built_frame() {
    // a frame assembled byte by byte: one stored block holding "hello"
    let mut frame = vec![0x04, 0x22, 0x4D, 0x18]; // magic
    frame.push(0x40 | 0x20); // version 01, independent blocks
    frame.push(0x40); // 64KiB block-size class
    let hc = (twox_hash::XxHash32::oneshot(0, &[0x60, 0x40]) >> 8) as u8;
    frame.push(hc);
    frame.extend_from_slice(&(5u32 | 0x80000000).to_le_bytes()); // stored, 5 bytes
    frame.extend_from_slice(b"hello");
    frame.extend_from_slice(&[0, 0, 0, 0]); // terminator
    assert_eq!(decompress_frame(&frame, None).unwrap(), b"hello");
}

#[test]
fn decodes_a_hand_built_compressed_block() {
    // token: 4 literals, match of 8 at offset 4, then a closing literal run
    let mut frame = vec![0x04, 0x22, 0x4D, 0x18];
    frame.push(0x40 | 0x20);
    frame.push(0x40);
    let hc = (twox_hash::XxHash32::oneshot(0, &[0x60, 0x40]) >> 8) as u8;
    frame.push(hc);
    let block: &[u8] = &[0x44, b'a', b'b', b'c', b'd', 0x04, 0x00, 0x10, b'z'];
    frame.extend_from_slice(&(block.len() as u32).to_le_bytes());
    frame.extend_from_slice(block);
    frame.extend_from_slice(&[0, 0, 0, 0]);
    assert_eq!(decompress_frame(&frame, None).unwrap(), b"abcdabcdabcdz");
}

#[test]
fn empty_input_roundtrips_under_all_settings() {
    for &indep in &[true, false] {
        for &bchk in &[true, false] {
            for &cchk in &[true, false] {
                let mut s = CompressionSettings::default();
                s.independent_blocks(indep);
                s.block_checksums(bchk);
                s.content_checksum(cchk);
                let frame = s.compress(&[]);
                assert_eq!(decompress_frame(&frame, None).unwrap(), Vec::<u8>::new());
            }
        }
    }
}

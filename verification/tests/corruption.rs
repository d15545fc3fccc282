use lz4_frame::compress::CompressionSettings;
use lz4_frame::decompress::decompress_frame;
use lz4_frame::decompress::DecompressionError;

fn sample_frame() -> (Vec<u8>, Vec<u8>) {
    let mut input = Vec::new();
    for i in 0..1000usize {
        input.push((i % 17) as u8 + (i % 3) as u8 * 40);
    }
    let mut s = CompressionSettings::default();
    s.block_checksums(true);
    s.content_checksum(true);
    let frame = s.compress(&input);
    (frame, input)
}

#[test]
fn every_single_byte_flip_is_detected() {
    let (frame, input) = sample_frame();
    assert_eq!(decompress_frame(&frame, None).unwrap(), input);
    for i in 0..frame.len() {
        let mut bad = frame.clone();
        bad[i] ^= 0x01;
        let res = decompress_frame(&bad, None);
        assert!(res.is_err(), "flip at byte {} went undetected", i);
    }
}

#[test]
fn wrong_magic_is_reported() {
    let (frame, _) = sample_frame();
    let mut bad = frame.clone();
    bad[0] = 0x05;
    let expected = u32::from_le_bytes([0x05, bad[1], bad[2], bad[3]]);
    assert_eq!(decompress_frame(&bad, None), Err(DecompressionError::WrongMagic(expected)));
}

#[test]
fn bad_version_is_a_parse_error() {
    let (frame, _) = sample_frame();
    let mut bad = frame.clone();
    bad[4] = bad[4] & 0x3f; // version bits cleared
    assert_eq!(decompress_frame(&bad, None), Err(DecompressionError::HeaderParseError));
}

#[test]
fn bad_block_descriptor_is_a_parse_error() {
    let (frame, _) = sample_frame();
    let mut bad = frame.clone();
    bad[5] = 0x45;
    assert_eq!(decompress_frame(&bad, None), Err(DecompressionError::HeaderParseError));
}

#[test]
fn header_checksum_flip_is_reported() {
    let (frame, _) = sample_frame();
    // default settings: no content size, no dictionary id, so the header
    // checksum byte sits at offset 6
    let mut bad = frame.clone();
    bad[6] ^= 0xff;
    assert_eq!(decompress_frame(&bad, None), Err(DecompressionError::HeaderChecksumFail));
}

#[test]
fn block_body_flip_fails_block_checksum() {
    let (frame, _) = sample_frame();
    let mut bad = frame.clone();
    bad[20] ^= 0x10; // inside the first block's body
    assert_eq!(decompress_frame(&bad, None), Err(DecompressionError::BlockChecksumFail));
}

#[test]
fn content_checksum_flip_is_reported() {
    let (frame, _) = sample_frame();
    let mut bad = frame.clone();
    let last = bad.len() - 1;
    bad[last] ^= 0x01;
    assert_eq!(decompress_frame(&bad, None), Err(DecompressionError::FrameChecksumFail));
}

#[test]
fn truncated_frame_is_reported() {
    let (frame, _) = sample_frame();
    assert_eq!(decompress_frame(&[], None), Err(DecompressionError::Truncated));
    assert_eq!(decompress_frame(&frame[..3], None), Err(DecompressionError::Truncated));
    assert_eq!(decompress_frame(&frame[..frame.len() - 5], None), Err(DecompressionError::Truncated));
}

#[test]
fn oversized_block_is_rejected() {
    // a highly repetitive input compresses into one small block; redeclaring
    // the frame's block-size class as 64KiB makes its decoded size illegal
    let mut input = Vec::new();
    while input.len() < 100_000 {
        input.extend_from_slice(b"xyxy");
    }
    let mut s = CompressionSettings::default();
    s.content_checksum(false);
    let frame = s.compress(&input);
    let mut bad = frame.clone();
    bad[5] = 0x40; // block-size class now 64KiB
    let hc = (twox_hash::XxHash32::oneshot(0, &bad[4..6]) >> 8) as u8;
    bad[6] = hc;
    assert_eq!(decompress_frame(&bad, None), Err(DecompressionError::BlockSizeOverflow));
}

#[test]
fn zero_offset_is_codec_corruption() {
    // a hand-made frame: one compressed block whose match offset is zero
    let mut s = CompressionSettings::default();
    s.content_checksum(false);
    let good = s.compress(b"");
    let mut frame = good[..7].to_vec();
    // block of 7 bytes: token (1 literal, matchlen 4), literal, offset 0, end token
    let block: [u8; 7] = [0x10, 0x41, 0x00, 0x00, 0x10, 0x41, 0x00];
    // length word: compressed flag clear
    frame.extend_from_slice(&(block.len() as u32).to_le_bytes());
    frame.extend_from_slice(&block);
    frame.extend_from_slice(&[0, 0, 0, 0]);
    assert_eq!(decompress_frame(&frame, None), Err(DecompressionError::CodecError));
}

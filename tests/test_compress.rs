use gingersnap::compress::SnappyCompress;
use gingersnap::frame::{crc32c_masked, FrameType};

const HEADER: &str = "ff060000734e61507059";

fn compress_chunks(chunks: Vec<Vec<u8>>) -> Vec<u8> {
    let mut c = SnappyCompress::new();
    let mut upstream = chunks.into_iter();
    let mut out = Vec::new();
    loop {
        match c.poll_output() {
            Some(Ok(frame)) => out.extend_from_slice(&frame),
            Some(Err(e)) => panic!("compression failed: {:?}", e),
            None => match upstream.next() {
                Some(chunk) => c.push_input(chunk),
                None => return out,
            },
        }
    }
}

fn hex_of(bytes: &[u8]) -> String {
    bytes.iter().map(|b| format!("{:02x}", b)).collect()
}

#[test]
fn test_compress_small_data() {
    let out = compress_chunks(vec![b"hello".to_vec()]);
    assert_eq!(hex_of(&out), format!("{}{}{}{}", HEADER, "01090000", "bb1f1c19", "68656c6c6f"));
}

#[test]
fn compressable() {
    let out = compress_chunks(vec![b"999999999999999999999999".to_vec()]);
    assert_eq!(hex_of(&out), format!("{}{}{}{}", HEADER, "000a0000", "59772563", "1800395a0100"));
}

#[test]
fn multi_frame() {
    let b = vec![0u8; 32];
    let out = compress_chunks(vec![b.clone(), b.clone(), b.clone()]);
    let frame = format!("{}{}{}", "000a0000", "faffd70f", "2000007a0100");
    assert_eq!(hex_of(&out), format!("{}{}{}{}", HEADER, frame, frame, frame));
}

#[test]
fn magic_frame_comes_first_even_without_input() {
    let out = compress_chunks(vec![]);
    assert_eq!(hex_of(&out), HEADER);
}

#[test]
fn empty_chunk_gives_empty_uncompressed_frame() {
    let out = compress_chunks(vec![vec![]]);
    let crc = crc32c_masked(&[]);
    let mut expected = hex_of(&[0x01, 0x04, 0x00, 0x00]);
    expected.push_str(&hex_of(&crc.to_le_bytes()));
    assert_eq!(hex_of(&out), format!("{}{}", HEADER, expected));
}

#[test]
fn large_chunk_is_split_at_block_size() {
    // bytes that Snappy cannot shrink, so both frames are uncompressed
    let mut chunk = Vec::new();
    let mut x: u32 = 12345;
    for _ in 0..(65536 + 100) {
        x = x.wrapping_mul(1103515245).wrapping_add(12345);
        chunk.push((x >> 16) as u8);
    }
    let out = compress_chunks(vec![chunk.clone()]);
    let first = &out[10..];
    assert_eq!(first[0], 0x01);
    let len1 = first[1] as usize | (first[2] as usize) << 8 | (first[3] as usize) << 16;
    assert_eq!(len1, 65536 + 4);
    assert_eq!(&first[8..8 + 65536], &chunk[..65536]);
    let second = &first[4 + len1..];
    assert_eq!(second[0], 0x01);
    let len2 = second[1] as usize | (second[2] as usize) << 8 | (second[3] as usize) << 16;
    assert_eq!(len2, 100 + 4);
    assert_eq!(&second[8..], &chunk[65536..]);
    assert_eq!(second.len(), 4 + len2);
}

#[test]
fn compressed_frame_carries_crc_of_plain() {
    let plain = vec![7u8; 1000];
    let out = compress_chunks(vec![plain.clone()]);
    let frame = &out[10..];
    assert_eq!(frame[0], 0x00);
    let crc = u32::from_le_bytes([frame[4], frame[5], frame[6], frame[7]]);
    assert_eq!(crc, crc32c_masked(&plain));
    assert!(frame.len() < 100);
}

#[test]
fn masked_crc_of_hello() {
    assert_eq!(crc32c_masked(b"hello"), 0x191c1fbb);
    assert_ne!(crc32c_masked(b"hellp"), 0x191c1fbb);
}

#[test]
fn frame_type_bytes() {
    assert_eq!(FrameType::try_from(0x00), Ok(FrameType::Compressed));
    assert_eq!(FrameType::try_from(0x01), Ok(FrameType::Uncompressed));
    assert_eq!(FrameType::try_from(0xfe), Ok(FrameType::Padding));
    assert_eq!(FrameType::try_from(0xff), Ok(FrameType::Stream));
    assert_eq!(FrameType::try_from(0x03), Err(0x03));
    assert_eq!(FrameType::Stream.to_byte(), 0xff);
    assert_eq!(FrameType::Padding.to_byte(), 0xfe);
}

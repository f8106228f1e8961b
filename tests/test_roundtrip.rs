use gingersnap::compress::SnappyCompress;
use gingersnap::uncompress::{DecodeStep, SnappyUncompress};

fn compress_all(chunks: Vec<Vec<u8>>) -> Vec<Vec<u8>> {
    let mut c = SnappyCompress::new();
    let mut upstream = chunks.into_iter();
    let mut out = Vec::new();
    loop {
        match c.poll_output() {
            Some(Ok(frame)) => out.push(frame),
            Some(Err(e)) => panic!("compression failed: {:?}", e),
            None => match upstream.next() {
                Some(chunk) => c.push_input(chunk),
                None => return out,
            },
        }
    }
}

fn decompress_all(chunks: Vec<Vec<u8>>) -> Vec<Vec<u8>> {
    let mut d = SnappyUncompress::new();
    let mut upstream = chunks.into_iter();
    let mut out = Vec::new();
    loop {
        match d.poll_frame() {
            DecodeStep::Frame(p) => out.push(p),
            DecodeStep::Failed(e) => panic!("decompression failed: {:?}", e),
            DecodeStep::NeedInput => match upstream.next() {
                Some(chunk) => d.feed(chunk),
                None => {
                    d.finish().unwrap();
                    return out;
                }
            },
        }
    }
}

// A text of some 150 KB, made of varied English-like lines.
fn sample_text() -> Vec<u8> {
    let words = [
        "Alice", "was", "beginning", "to", "get", "very", "tired", "of", "sitting", "by", "her",
        "sister", "on", "the", "bank", "and", "having", "nothing", "do", "once", "or", "twice",
        "she", "had", "peeped", "into", "book", "reading", "but", "it", "no", "pictures",
    ];
    let mut text = String::new();
    let mut x: u32 = 7;
    while text.len() < 150_000 {
        x = x.wrapping_mul(1664525).wrapping_add(1013904223);
        text.push_str(words[(x >> 24) as usize % words.len()]);
        text.push(if (x >> 8) % 11 == 0 { '\n' } else { ' ' });
    }
    text.into_bytes()
}

fn split_into(data: &[u8], size: usize) -> Vec<Vec<u8>> {
    data.chunks(size).map(|c| c.to_vec()).collect()
}

#[test]
fn alice29() {
    let plain = split_into(&sample_text(), 8192);
    let plain_bytes = plain.iter().fold(0, |sum, b| sum + b.len());

    let compressed = compress_all(plain.clone());
    let compressed_bytes = compressed.iter().fold(0, |sum, b| sum + b.len());

    let uncompressed = decompress_all(compressed);
    let uncompressed_bytes = uncompressed.iter().fold(0, |sum, b| sum + b.len());

    assert_eq!(plain_bytes, uncompressed_bytes);
    assert!(compressed_bytes < plain_bytes);
    for (a, b) in plain.iter().zip(uncompressed.iter()) {
        assert_eq!(a, b);
    }
}

#[test]
fn round_trip_one_byte_at_a_time() {
    let text = sample_text();
    let compressed: Vec<u8> = compress_all(split_into(&text, 8192)).concat();
    let plain: Vec<u8> = decompress_all(split_into(&compressed, 1)).concat();
    assert_eq!(plain, text);
}

#[test]
fn round_trip_large_chunks() {
    let text = sample_text();
    let compressed: Vec<u8> = compress_all(vec![text.clone()]).concat();
    let frames = decompress_all(split_into(&compressed, 1000));
    assert_eq!(frames.len(), 3);
    assert_eq!(frames[0].len(), 65536);
    assert_eq!(frames.concat(), text);
}

#[test]
fn round_trip_empty_and_small() {
    let chunks = vec![vec![], b"a".to_vec(), vec![], b"bc".to_vec()];
    let compressed: Vec<u8> = compress_all(chunks).concat();
    let plain: Vec<u8> = decompress_all(vec![compressed]).concat();
    assert_eq!(plain, b"abc".to_vec());
}

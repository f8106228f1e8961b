use gingersnap::uncompress::{DecodeError, DecodeStep, SnappyUncompress};

const HEADER: &str = "ff060000734e61507059";

fn bytes_of(s: &str) -> Vec<u8> {
    (0..s.len() / 2).map(|i| u8::from_str_radix(&s[i * 2..(i + 1) * 2], 16).unwrap()).collect()
}

fn describe(e: DecodeError) -> String {
    match e {
        DecodeError::Truncated => "Truncated snappy frame".to_string(),
        DecodeError::MissingMagic => "Not a snappy stream (missing magic header)".to_string(),
        DecodeError::MangledMagic => "Not a snappy stream (mangled magic header)".to_string(),
        DecodeError::UnknownFrameType(b) => format!("Unknown frame type {}", b),
        DecodeError::CrcMismatch { expected, actual } => {
            format!("Frame CRC mismatch: expected {:x}, got {:x}", expected, actual)
        }
        DecodeError::Corrupt => "Snappy block could not be decoded".to_string(),
    }
}

fn decode_chunks(chunks: Vec<Vec<u8>>) -> Result<Vec<u8>, DecodeError> {
    let mut d = SnappyUncompress::new();
    let mut upstream = chunks.into_iter();
    let mut out = Vec::new();
    loop {
        match d.poll_frame() {
            DecodeStep::Frame(p) => out.extend_from_slice(&p),
            DecodeStep::Failed(e) => return Err(e),
            DecodeStep::NeedInput => match upstream.next() {
                Some(chunk) => d.feed(chunk),
                None => {
                    d.finish()?;
                    return Ok(out);
                }
            },
        }
    }
}

fn to_hex(chunks: Vec<&str>) -> String {
    match decode_chunks(chunks.iter().map(|s| bytes_of(s)).collect()) {
        Ok(out) => out.iter().map(|b| format!("{:02x}", b)).collect(),
        Err(e) => panic!("{}", describe(e)),
    }
}

#[test]
fn test_uncompress_small_data() {
    let s = format!("{}{}{}{}", HEADER, "01090000", "bb1f1c19", "68656c6c6f");
    assert_eq!(to_hex(vec![&s]), "68656c6c6f");
}

#[test]
fn compressed() {
    let s = format!("{}{}{}{}", HEADER, "000a0000", "59772563", "1800395a0100");
    assert_eq!(to_hex(vec![&s]), "393939393939393939393939393939393939393939393939");
}

#[test]
fn coalesce_small_chunks() {
    let chunks = vec![&HEADER[0..2], &HEADER[2..6], &HEADER[6..], "000a00", "005977", "2563180039", "5a0100"];
    assert_eq!(to_hex(chunks), "393939393939393939393939393939393939393939393939");
}

#[test]
#[should_panic(expected = "Truncated snappy frame")]
fn truncated_header() {
    to_hex(vec![&HEADER[0..2]]);
}

#[test]
fn full_header() {
    assert_eq!(to_hex(vec![HEADER]), "");
}

#[test]
#[should_panic(expected = "Truncated snappy frame")]
fn truncated_frame() {
    to_hex(vec![HEADER, "000a00"]);
}

#[test]
#[should_panic(expected = "Truncated snappy frame")]
fn truncated_frame_body() {
    to_hex(vec![HEADER, "000a0000", "59772563", "1800395"]);
}

#[test]
#[should_panic(expected = "CRC mismatch")]
fn wrong_crc() {
    to_hex(vec![HEADER, "000a0000", "ff772563", "1800395a0100"]);
}

#[test]
#[should_panic(expected = "missing magic")]
fn missing_magic() {
    to_hex(vec!["000a0000", "ff772563", "1800395a0100"]);
}

#[test]
#[should_panic(expected = "mangled magic")]
fn mangled_magic() {
    to_hex(vec!["ff060000734e41505059", "000a0000", "ff772563", "1800395a0100"]);
}

#[test]
#[should_panic(expected = "Unknown frame type")]
fn unknown_frame_type() {
    to_hex(vec![HEADER, "030a0000", "ff772563", "1800395a0100"]);
}

#[test]
fn error_kinds_of_bad_streams() {
    let d = |v: Vec<&str>| decode_chunks(v.iter().map(|s| bytes_of(s)).collect());
    assert_eq!(d(vec!["ff"]), Err(DecodeError::Truncated));
    assert_eq!(d(vec!["000a0000ff7725631800395a0100"]), Err(DecodeError::MissingMagic));
    assert_eq!(d(vec![HEADER, "030a0000ff7725631800395a0100"]), Err(DecodeError::UnknownFrameType(3)));
    assert_eq!(
        d(vec![HEADER, "000a0000ff7725631800395a0100"]),
        Err(DecodeError::CrcMismatch { expected: 0x632577ff, actual: 0x632577ff - 0xa6 })
    );
    assert_eq!(d(vec![HEADER, "01020000bb1f"]), Err(DecodeError::Truncated));
    assert_eq!(d(vec![HEADER, "00050000ffffffffff"]), Err(DecodeError::Corrupt));
    assert_eq!(d(vec!["ff060000734e41505059"]), Err(DecodeError::MangledMagic));
}

#[test]
fn padding_and_skippable_frames_are_skipped() {
    let s = format!("{}{}{}{}{}", HEADER, "fe030000aabbcc", "80000000", "01090000bb1f1c19", "68656c6c6f");
    assert_eq!(to_hex(vec![&s]), "68656c6c6f");
}

#[test]
fn repeated_stream_frames_are_accepted() {
    let s = format!("{}{}{}", HEADER, HEADER, "01090000bb1f1c1968656c6c6f");
    assert_eq!(to_hex(vec![&s, HEADER]), "68656c6c6f");
}

#[test]
fn empty_chunks_are_tolerated() {
    let s = format!("{}{}", HEADER, "01090000bb1f1c1968656c6c6f");
    assert_eq!(to_hex(vec!["", &s[..6], "", &s[6..], ""]), "68656c6c6f");
}

#[test]
fn failure_is_terminal() {
    let mut d = SnappyUncompress::new();
    d.feed(bytes_of("000a0000ff7725631800395a0100"));
    assert!(matches!(d.poll_frame(), DecodeStep::Failed(DecodeError::MissingMagic)));
    d.feed(bytes_of(HEADER));
    assert!(matches!(d.poll_frame(), DecodeStep::Failed(DecodeError::MissingMagic)));
    assert_eq!(d.finish(), Err(DecodeError::MissingMagic));
}

#[test]
fn buffered_bytes_are_counted() {
    let mut d = SnappyUncompress::new();
    d.feed(bytes_of("ff0600"));
    assert_eq!(d.buffered_len(), 3);
    assert!(matches!(d.poll_frame(), DecodeStep::NeedInput));
    d.feed(bytes_of("00734e61"));
    assert!(matches!(d.poll_frame(), DecodeStep::NeedInput));
    assert_eq!(d.buffered_len(), 3);
    assert_eq!(d.finish(), Err(DecodeError::Truncated));
}

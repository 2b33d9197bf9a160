use opal_unlock::frame::{frame, parse, FrameError};
use opal_unlock::token::{decode, encode, Token};

fn bytes(n: usize) -> Vec<u8> {
    (0..n).map(|i| (i % 251) as u8).collect()
}

#[test]
fn token_round_trip_mixed() {
    let ts = vec![
        Token::Call,
        Token::Bytes(vec![0, 0, 0, 0, 0, 0, 0, 0xFF]),
        Token::Uint(0),
        Token::Uint(63),
        Token::Uint(64),
        Token::Uint(0x1234),
        Token::Uint(u64::MAX),
        Token::Int(0),
        Token::Int(-1),
        Token::Int(-32),
        Token::Int(31),
        Token::Int(32),
        Token::Int(-33),
        Token::Int(-129),
        Token::Int(i64::MIN),
        Token::Int(i64::MAX),
        Token::StartList,
        Token::Bytes(vec![]),
        Token::Bytes(bytes(15)),
        Token::Bytes(bytes(16)),
        Token::Bytes(bytes(2047)),
        Token::Bytes(bytes(2048)),
        Token::StartName,
        Token::Uint(1),
        Token::EndName,
        Token::EndList,
        Token::EndOfData,
        Token::EndOfSession,
        Token::Empty,
    ];
    let enc = encode(&ts);
    assert_eq!(decode(&enc), Ok(ts));
}

#[test]
fn token_round_trip_empty() {
    let ts: Vec<Token> = vec![];
    assert_eq!(encode(&ts), Vec::<u8>::new());
    assert_eq!(decode(&[]), Ok(vec![]));
}

#[test]
fn integers_use_smallest_class() {
    assert_eq!(encode(&[Token::Uint(0)]), vec![0x00]);
    assert_eq!(encode(&[Token::Uint(5)]), vec![0x05]);
    assert_eq!(encode(&[Token::Uint(63)]), vec![0x3F]);
    assert_eq!(encode(&[Token::Uint(64)]), vec![0x81, 0x40]);
    assert_eq!(encode(&[Token::Uint(255)]), vec![0x81, 0xFF]);
    assert_eq!(encode(&[Token::Uint(256)]), vec![0x82, 0x01, 0x00]);
    assert_eq!(encode(&[Token::Uint(0x1234)]), vec![0x82, 0x12, 0x34]);
    assert_eq!(
        encode(&[Token::Uint(u64::MAX)]),
        vec![0x88, 0xFF, 0xFF, 0xFF, 0xFF, 0xFF, 0xFF, 0xFF, 0xFF]
    );
}

#[test]
fn byte_strings_use_smallest_class() {
    assert_eq!(encode(&[Token::Bytes(vec![])]), vec![0xA0]);
    assert_eq!(encode(&[Token::Bytes(vec![7, 8, 9])]), vec![0xA3, 7, 8, 9]);
    let e15 = encode(&[Token::Bytes(bytes(15))]);
    assert_eq!(e15[0], 0xAF);
    assert_eq!(e15.len(), 16);
    let e16 = encode(&[Token::Bytes(bytes(16))]);
    assert_eq!(&e16[..2], &[0xD0, 0x10]);
    assert_eq!(e16.len(), 18);
    let e2047 = encode(&[Token::Bytes(bytes(2047))]);
    assert_eq!(&e2047[..2], &[0xD7, 0xFF]);
    let e2048 = encode(&[Token::Bytes(bytes(2048))]);
    assert_eq!(&e2048[..4], &[0xE2, 0x00, 0x08, 0x00]);
    assert_eq!(e2048.len(), 2052);
}

#[test]
fn control_tokens_encode() {
    let ts = [
        Token::StartList,
        Token::EndList,
        Token::StartName,
        Token::EndName,
        Token::Call,
        Token::EndOfData,
        Token::EndOfSession,
        Token::Empty,
    ];
    assert_eq!(encode(&ts), vec![0xF0, 0xF1, 0xF2, 0xF3, 0xF8, 0xF9, 0xFA, 0xFF]);
}

#[test]
fn oversized_classes_still_decode() {
    assert_eq!(decode(&[0x82, 0x00, 0x05]), Ok(vec![Token::Uint(5)]));
    assert_eq!(decode(&[0x81, 0x05]), Ok(vec![Token::Uint(5)]));
    assert_eq!(decode(&[0x80]), Ok(vec![Token::Uint(0)]));
    assert_eq!(decode(&[0xC0, 0x01, 0x05]), Ok(vec![Token::Uint(5)]));
    assert_eq!(decode(&[0xE0, 0x00, 0x00, 0x02, 0x00, 0x05]), Ok(vec![Token::Uint(5)]));
    assert_eq!(decode(&[0xD0, 0x03, 1, 2, 3]), Ok(vec![Token::Bytes(vec![1, 2, 3])]));
    assert_eq!(decode(&[0xE2, 0x00, 0x00, 0x02, 1, 2]), Ok(vec![Token::Bytes(vec![1, 2])]));
}

#[test]
fn decode_rejects_truncated_atom() {
    assert!(decode(&[0xA3, 1, 2]).is_err());
    assert!(decode(&[0xD0]).is_err());
    assert!(decode(&[0xE2, 0x00, 0x00]).is_err());
    assert!(decode(&[0x82, 0x01]).is_err());
}

#[test]
fn decode_rejects_unterminated_nesting() {
    assert!(decode(&[0xF0]).is_err());
    assert!(decode(&[0xF2, 0x01]).is_err());
    assert!(decode(&[0xF1]).is_err());
    assert!(decode(&[0xF0, 0xF3]).is_err());
    assert!(decode(&[0xF2, 0xF1]).is_err());
}

#[test]
fn decode_rejects_unknown_tags() {
    assert!(decode(&[0xF5]).is_err());
    assert!(decode(&[0xE4]).is_err());
    assert!(decode(&[0xB1, 0x01]).is_err());
    assert!(decode(&[0x89, 0, 0, 0, 0, 0, 0, 0, 0, 1]).is_err());
}

#[test]
fn frame_layout() {
    let f = frame(0x07FE, 5, 7, &[1, 2, 3]);
    assert_eq!(f.len(), 60);
    assert_eq!(&f[4..6], &[0x07, 0xFE]);
    assert_eq!(&f[16..20], &[0, 0, 0, 40]);
    assert_eq!(&f[20..24], &[0, 0, 0, 5]);
    assert_eq!(&f[24..28], &[0, 0, 0, 7]);
    assert_eq!(&f[40..44], &[0, 0, 0, 16]);
    assert_eq!(&f[52..56], &[0, 0, 0, 3]);
    assert_eq!(&f[56..60], &[1, 2, 3, 0]);
}

#[test]
fn frame_round_trip_values() {
    for n in [0usize, 1, 3, 4, 5, 100] {
        let p = bytes(n);
        let f = frame(1, 0x1234, 0x1001, &p);
        assert_eq!(f.len() % 4, 0);
        assert_eq!(parse(&f, 0x1234, 0x1001), Ok(p));
    }
}

#[test]
fn frame_accepts_trailing_bytes() {
    let mut f = frame(1, 2, 3, &[9, 9]);
    f.extend_from_slice(&[0; 32]);
    assert_eq!(parse(&f, 2, 3), Ok(vec![9, 9]));
}

#[test]
fn frame_session_mismatch_is_desync() {
    let f = frame(1, 2, 3, &[9]);
    assert_eq!(parse(&f, 4, 3), Err(FrameError::Desync));
    assert_eq!(parse(&f, 2, 4), Err(FrameError::Desync));
}

#[test]
fn frame_corrupt_lengths_are_refused() {
    let f = frame(1, 2, 3, &[1, 2, 3]);
    let mut a = f.clone();
    a[19] = 44;
    assert_eq!(parse(&a, 2, 3), Err(FrameError::Format));
    let mut b = f.clone();
    b[43] = 20;
    assert_eq!(parse(&b, 2, 3), Err(FrameError::Format));
    let mut c = f.clone();
    c[55] = 5;
    assert_eq!(parse(&c, 2, 3), Err(FrameError::Format));
    let mut d = f.clone();
    d[16] = 1;
    assert_eq!(parse(&d, 2, 3), Err(FrameError::Format));
    assert_eq!(parse(&f[..40], 2, 3), Err(FrameError::Format));
    assert_eq!(parse(&f[..59], 2, 3), Err(FrameError::Format));
}

#[test]
fn empty_com_packet_has_no_payload() {
    let f = frame(1, 2, 3, &[1]);
    assert!(opal_unlock::frame::has_payload(&f));
    let mut pending = vec![0u8; 64];
    pending[11] = 1;
    assert!(!opal_unlock::frame::has_payload(&pending));
    assert!(!opal_unlock::frame::has_payload(&f[..19]));
}

#[test]
fn signed_integers_use_smallest_class() {
    assert_eq!(encode(&[Token::Int(0)]), vec![0x40]);
    assert_eq!(encode(&[Token::Int(5)]), vec![0x45]);
    assert_eq!(encode(&[Token::Int(31)]), vec![0x5F]);
    assert_eq!(encode(&[Token::Int(-1)]), vec![0x7F]);
    assert_eq!(encode(&[Token::Int(-32)]), vec![0x60]);
    assert_eq!(encode(&[Token::Int(32)]), vec![0x91, 0x20]);
    assert_eq!(encode(&[Token::Int(127)]), vec![0x91, 0x7F]);
    assert_eq!(encode(&[Token::Int(128)]), vec![0x92, 0x00, 0x80]);
    assert_eq!(encode(&[Token::Int(-33)]), vec![0x91, 0xDF]);
    assert_eq!(encode(&[Token::Int(-128)]), vec![0x91, 0x80]);
    assert_eq!(encode(&[Token::Int(-129)]), vec![0x92, 0xFF, 0x7F]);
    assert_eq!(
        encode(&[Token::Int(i64::MIN)]),
        vec![0x98, 0x80, 0, 0, 0, 0, 0, 0, 0]
    );
}

#[test]
fn signed_atoms_sign_extend() {
    assert_eq!(decode(&[0x41]), Ok(vec![Token::Int(1)]));
    assert_eq!(decode(&[0x7E]), Ok(vec![Token::Int(-2)]));
    assert_eq!(decode(&[0x91, 0xFF]), Ok(vec![Token::Int(-1)]));
    assert_eq!(decode(&[0x92, 0xFF, 0xFF]), Ok(vec![Token::Int(-1)]));
    assert_eq!(decode(&[0x92, 0x00, 0x05]), Ok(vec![Token::Int(5)]));
    assert_eq!(decode(&[0x90]), Ok(vec![Token::Int(0)]));
    assert_eq!(decode(&[0xC8, 0x01, 0x80]), Ok(vec![Token::Int(-128)]));
    assert_eq!(decode(&[0xE1, 0x00, 0x00, 0x01, 0xFB]), Ok(vec![Token::Int(-5)]));
    assert!(decode(&[0x99, 0, 0, 0, 0, 0, 0, 0, 0, 1]).is_err());
}

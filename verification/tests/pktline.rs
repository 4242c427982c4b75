use wolfpack::pktline::{decode_one, encode, encode_flush, hex4, Pkt};
use wolfpack::ProtocolError;

fn payload_of(r: Result<Pkt, ProtocolError>) -> (Vec<u8>, usize) {
    match r {
        Ok(Pkt::Line { payload, consumed }) => (payload, consumed),
        other => panic!("expected a payload line, got {:?}", std::mem::discriminant(&other)),
    }
}

#[test]
fn hex4_formats_like_git() {
    assert_eq!(hex4(0), b"0000".to_vec());
    assert_eq!(hex4(8), b"0008".to_vec());
    assert_eq!(hex4(0x32), b"0032".to_vec());
    assert_eq!(hex4(65535), b"ffff".to_vec());
    assert_eq!(hex4(0x1a2b), b"1a2b".to_vec());
}

#[test]
fn encode_prefixes_the_total_length() {
    let e = encode(&b"done\n".to_vec());
    assert_eq!(e, b"0009done\n".to_vec());
    let e = encode(&b"NAK\n".to_vec());
    assert_eq!(e, b"0008NAK\n".to_vec());
    let e = encode(&Vec::new());
    assert_eq!(e, b"0004".to_vec());
}

#[test]
fn round_trip_small_payload() {
    let p = b"want 1234\n".to_vec();
    let e = encode(&p);
    let (back, consumed) = payload_of(decode_one(&e));
    assert_eq!(back, p);
    assert_eq!(consumed, e.len());
}

#[test]
fn round_trip_largest_sideband_payload() {
    let p = vec![0xabu8; 65515];
    let e = encode(&p);
    assert_eq!(e.len(), 65519);
    let (back, consumed) = payload_of(decode_one(&e));
    assert_eq!(back, p);
    assert_eq!(consumed, 65519);
}

#[test]
fn flush_is_exactly_0000() {
    let f = encode_flush();
    assert_eq!(f, b"0000".to_vec());
    assert!(matches!(decode_one(&f), Ok(Pkt::Flush)));
}

#[test]
fn every_strict_prefix_is_incomplete() {
    let p = b"have 77\n".to_vec();
    let e = encode(&p);
    for i in 0..e.len() {
        let part = e[..i].to_vec();
        assert!(matches!(decode_one(&part), Ok(Pkt::Incomplete)), "prefix of {} bytes", i);
    }
    let (back, _) = payload_of(decode_one(&e));
    assert_eq!(back, p);
}

#[test]
fn split_then_whole_decodes_the_same() {
    let p = b"some payload".to_vec();
    let e = encode(&p);
    for i in 0..e.len() {
        let mut buf = e[..i].to_vec();
        assert!(matches!(decode_one(&buf), Ok(Pkt::Incomplete)));
        buf.extend_from_slice(&e[i..]);
        let (back, consumed) = payload_of(decode_one(&buf));
        assert_eq!(back, p);
        assert_eq!(consumed, e.len());
    }
}

#[test]
fn non_hex_header_is_refused() {
    let buf = b"00g8NAK\n".to_vec();
    assert!(matches!(decode_one(&buf), Err(ProtocolError::BadLengthHex)));
}

#[test]
fn nonzero_length_under_four_is_refused() {
    let buf = b"0003x".to_vec();
    assert!(matches!(decode_one(&buf), Err(ProtocolError::LengthTooSmall)));
    let buf = b"0001".to_vec();
    assert!(matches!(decode_one(&buf), Err(ProtocolError::LengthTooSmall)));
}

#[test]
fn uppercase_hex_is_accepted() {
    let buf = b"000Adone12".to_vec();
    let (back, consumed) = payload_of(decode_one(&buf));
    assert_eq!(back, b"done12".to_vec());
    assert_eq!(consumed, 10);
}

#[test]
fn decode_leaves_trailing_bytes_alone() {
    let mut buf = encode(&b"first\n".to_vec());
    buf.extend_from_slice(&encode(&b"second\n".to_vec()));
    let (back, consumed) = payload_of(decode_one(&buf));
    assert_eq!(back, b"first\n".to_vec());
    assert_eq!(consumed, 10);
}

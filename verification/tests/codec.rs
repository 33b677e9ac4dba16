use p2p_transport::codec::{decode_frame, encode_frame, u64_from_be_bytes, u64_to_be_bytes};

#[test]
fn be_bytes_round_trip() {
    for n in [0u64, 1, 255, 256, 0xdead_beef, u64::MAX] {
        let bytes = u64_to_be_bytes(n);
        assert_eq!(bytes.len(), 8);
        assert_eq!(u64_from_be_bytes(&bytes), n);
    }
}

#[test]
fn be_bytes_exact() {
    assert_eq!(u64_to_be_bytes(3), vec![0, 0, 0, 0, 0, 0, 0, 3]);
    assert_eq!(u64_to_be_bytes(0x0102_0304_0506_0708), vec![1, 2, 3, 4, 5, 6, 7, 8]);
}

#[test]
fn frame_round_trip() {
    for payload in [vec![], vec![42u8], b"hello world".to_vec(), vec![0u8; 4096]] {
        let frame = encode_frame(&payload);
        assert_eq!(frame.len(), payload.len() + 8);
        let (decoded, mismatch) = decode_frame(&frame).expect("frame holds a header");
        assert_eq!(decoded, payload);
        assert!(!mismatch);
    }
}

#[test]
fn frame_layout() {
    let frame = encode_frame(&b"abc".to_vec());
    assert_eq!(frame, vec![0, 0, 0, 0, 0, 0, 0, 3, b'a', b'b', b'c']);
}

#[test]
fn short_frame_rejected() {
    assert!(decode_frame(&vec![]).is_none());
    assert!(decode_frame(&vec![0u8; 7]).is_none());
    // Exactly the header: an empty payload, no mismatch.
    let (payload, mismatch) = decode_frame(&vec![0u8; 8]).unwrap();
    assert!(payload.is_empty());
    assert!(!mismatch);
}

#[test]
fn length_mismatch_still_delivers() {
    // Declared length 5, but only 3 bytes follow: the legacy receiver
    // warns yet hands the payload on.
    let mut frame = u64_to_be_bytes(5);
    frame.extend_from_slice(b"abc");
    let (payload, mismatch) = decode_frame(&frame).unwrap();
    assert_eq!(payload, b"abc".to_vec());
    assert!(mismatch);
}

#[test]
fn oversize_payload_capped() {
    const MAX: usize = 100 * 1024 * 1024;
    let mut frame = u64_to_be_bytes((MAX + 3) as u64);
    frame.extend_from_slice(&vec![7u8; MAX + 3]);
    let (payload, mismatch) = decode_frame(&frame).unwrap();
    assert_eq!(payload.len(), MAX);
    assert!(mismatch);
}

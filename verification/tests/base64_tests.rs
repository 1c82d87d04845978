use wallet_core::base64::{b64_len, decode, encode};

#[test]
fn round_trip_aligned() {
    let src = b"Hello, Bitcoin!";
    let mut enc = [0u8; 24];
    let enc_len = encode(src, &mut enc);
    let mut dec = [0u8; 24];
    let dec_len = decode(&enc[..enc_len], &mut dec).unwrap();
    assert_eq!(&dec[..dec_len], src);
}

#[test]
fn round_trip_unaligned() {
    for len in 0..=16usize {
        let src: Vec<u8> = (0..len).map(|i| i as u8).collect();
        let mut enc = vec![0u8; (len + 2) / 3 * 4 + 4];
        let enc_len = encode(&src, &mut enc);
        let mut dec = vec![0u8; len + 4];
        let dec_len = decode(&enc[..enc_len], &mut dec).unwrap();
        assert_eq!(&dec[..dec_len], src.as_slice(), "len={len}");
    }
}

#[test]
fn encode_too_small_returns_zero() {
    let mut tiny = [0u8; 1];
    let n = encode(b"foo", &mut tiny);
    assert_eq!(n, 0);
    let mut tiny2 = [0u8; 0];
    let n2 = encode(b"", &mut tiny2);
    assert_eq!(n2, 0);
}

#[test]
fn decode_too_small_returns_none() {
    let mut tiny = [0u8; 1];
    let result = decode(b"Zm9v", &mut tiny);
    assert!(result.is_none(), "expected None for undersized decode buffer");
}

#[test]
fn decode_rejects_lone_trailing_char() {
    let mut out = [0u8; 8];
    assert!(decode(b"Zm9vY", &mut out).is_none());
}

#[test]
fn known_vectors() {
    let cases: &[(&[u8], &[u8])] = &[
        (b"", b""),
        (b"f", b"Zg=="),
        (b"fo", b"Zm8="),
        (b"foo", b"Zm9v"),
        (b"foob", b"Zm9vYg=="),
        (b"fooba", b"Zm9vYmE="),
        (b"foobar", b"Zm9vYmFy"),
    ];
    for (plain, encoded) in cases {
        let mut enc_buf = [0u8; 16];
        let n = encode(plain, &mut enc_buf);
        assert_eq!(&enc_buf[..n], *encoded, "encode {plain:?}");

        if encoded.is_empty() {
            continue;
        }
        let mut dec_buf = [0u8; 16];
        let m = decode(encoded, &mut dec_buf).unwrap();
        assert_eq!(&dec_buf[..m], *plain, "decode {encoded:?}");
    }
}

#[test]
fn b64_len_rounds_up_to_quads() {
    assert_eq!(b64_len(0), 0);
    assert_eq!(b64_len(1), 4);
    assert_eq!(b64_len(3), 4);
    assert_eq!(b64_len(4), 8);
    assert_eq!(b64_len(4431), 5908);
}

#[test]
fn decode_of_encode_gives_back_every_length() {
    for len in 0..64usize {
        let src: Vec<u8> = (0..len).map(|i| (i * 37 + 11) as u8).collect();
        let mut enc = vec![0u8; b64_len(len)];
        let n = encode(&src, &mut enc);
        assert_eq!(n, b64_len(len));
        let mut dec = vec![0u8; len];
        assert_eq!(decode(&enc[..n], &mut dec), Some(len));
        assert_eq!(dec, src);
    }
}

#[test]
fn decode_rejects_characters_outside_alphabet() {
    let mut out = [0u8; 16];
    assert!(decode(b"Zm9v!A==", &mut out).is_none());
    assert!(decode(b"Zm 9v", &mut out).is_none());
}

#[test]
fn decode_leaves_rest_of_buffer() {
    let mut out = [0xEEu8; 6];
    assert_eq!(decode(b"Zm9v", &mut out), Some(3));
    assert_eq!(out, [b'f', b'o', b'o', 0xEE, 0xEE, 0xEE]);
}

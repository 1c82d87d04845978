use wallet_core::hashes::{hmac_sha256, tagged_hash};
use wallet_core::crypto::{
    decrypt, derive_key, encrypt, pbkdf2_hmac_sha256_32, CryptoError, KEY_LEN, NONCE_LEN, SALT_LEN,
};

#[test]
fn hmac_sha256_rfc4231_tc1() {
    let h = hmac_sha256(&[0x0b; 20], b"Hi There");
    let want: [u8; 32] = [
        0xb0, 0x34, 0x4c, 0x61, 0xd8, 0xdb, 0x38, 0x53, 0x5c, 0xa8, 0xaf, 0xce, 0xaf, 0x0b, 0xf1,
        0x2b, 0x88, 0x1d, 0xc2, 0x00, 0xc9, 0x83, 0x3d, 0xa7, 0x26, 0xe9, 0x37, 0x6c, 0x2e, 0x32,
        0xcf, 0xf7,
    ];
    assert_eq!(h, want);
}

#[test]
fn hmac_sha256_rfc4231_tc6_long_key() {
    let h = hmac_sha256(&[0xaa; 131], b"Test Using Larger Than Block-Size Key - Hash Key First");
    let want: [u8; 32] = [
        0x60, 0xe4, 0x31, 0x59, 0x1e, 0xe0, 0xb6, 0x7f, 0x0d, 0x8a, 0x26, 0xaa, 0xcb, 0xf5, 0xb7,
        0x7f, 0x8e, 0x0b, 0xc6, 0x21, 0x37, 0x28, 0xc5, 0x14, 0x05, 0x46, 0x04, 0x0f, 0x0e, 0xe3,
        0x7f, 0x54,
    ];
    assert_eq!(h, want);
}

#[test]
fn tagged_hash_bip340_challenge_tag_differs_from_aux() {
    assert_ne!(tagged_hash(b"BIP0340/challenge", b"x"), tagged_hash(b"BIP0340/aux", b"x"));
    assert_eq!(tagged_hash(b"TapTweak", b""), tagged_hash(b"TapTweak", b""));
}

#[test]
fn pbkdf2_rfc7914_known_answer() {
    let got = pbkdf2_hmac_sha256_32(b"passwd", b"salt", 1);
    let expected: [u8; 32] = [
        0x55, 0xac, 0x04, 0x6e, 0x56, 0xe3, 0x08, 0x9f, 0xec, 0x16, 0x91, 0xc2, 0x25, 0x44, 0xb6,
        0x05, 0xf9, 0x41, 0x85, 0x21, 0x6d, 0xde, 0x04, 0x65, 0xe6, 0x8b, 0x9d, 0x57, 0xc2, 0x0d,
        0xac, 0xbc,
    ];
    assert_eq!(got, expected);
}

#[test]
fn encrypt_decrypt_round_trip() {
    let key = [0x42u8; KEY_LEN];
    let nonce = [0x07u8; NONCE_LEN];
    let plaintext = b"hello cold wallet";
    let mut buf = [0u8; 17];
    buf.copy_from_slice(plaintext);

    let aad = b"v3-header";
    let tag = encrypt(&key, &nonce, aad, &mut buf).unwrap();
    assert_ne!(&buf[..], plaintext);

    decrypt(&key, &nonce, aad, &mut buf, &tag).unwrap();
    assert_eq!(&buf[..], plaintext);
}

#[test]
fn decrypt_wrong_key_fails() {
    let key = [0x42u8; KEY_LEN];
    let nonce = [0x07u8; NONCE_LEN];
    let mut buf = [0u8; 16];
    let tag = encrypt(&key, &nonce, b"", &mut buf).unwrap();

    let mut wrong = key;
    wrong[0] ^= 0xff;
    assert_eq!(decrypt(&wrong, &nonce, b"", &mut buf, &tag), Err(CryptoError::AeadFailure));
}

#[test]
fn decrypt_tampered_ciphertext_fails() {
    let key = [0x42u8; KEY_LEN];
    let nonce = [0x07u8; NONCE_LEN];
    let mut buf = [0u8; 16];
    let tag = encrypt(&key, &nonce, b"", &mut buf).unwrap();
    buf[0] ^= 0x01;
    assert_eq!(decrypt(&key, &nonce, b"", &mut buf, &tag), Err(CryptoError::AeadFailure));
}

#[test]
fn decrypt_wrong_aad_fails() {
    let key = [0x42u8; KEY_LEN];
    let nonce = [0x07u8; NONCE_LEN];
    let mut buf = [0u8; 16];
    let tag = encrypt(&key, &nonce, b"header-A", &mut buf).unwrap();
    assert_eq!(
        decrypt(&key, &nonce, b"header-B", &mut buf, &tag),
        Err(CryptoError::AeadFailure)
    );
}

#[test]
fn derive_key_deterministic() {
    let pin = [1u8, 2, 3, 4, 5, 6];
    let salt = [0xaau8; SALT_LEN];
    let k1 = pbkdf2_hmac_sha256_32(&pin, &salt, 1);
    let k2 = pbkdf2_hmac_sha256_32(&pin, &salt, 1);
    assert_eq!(k1, k2);

    let mut wrong = pin;
    wrong[0] = 9;
    let k3 = pbkdf2_hmac_sha256_32(&wrong, &salt, 1);
    assert_ne!(k1, k3);
}

#[test]
fn pbkdf2_rfc7914_two_iterations_differ_from_one() {
    let one = pbkdf2_hmac_sha256_32(b"passwd", b"salt", 1);
    let two = pbkdf2_hmac_sha256_32(b"passwd", b"salt", 2);
    assert_ne!(one, two);
    let zero = pbkdf2_hmac_sha256_32(b"passwd", b"salt", 0);
    assert_eq!(zero, one);
}

#[test]
fn derive_key_is_pbkdf2_at_full_iterations() {
    let pin = [0u8, 1, 2, 3, 4, 5];
    let salt = [0x11u8; SALT_LEN];
    let k = derive_key(&pin, &salt);
    assert_eq!(k, pbkdf2_hmac_sha256_32(&pin, &salt, wallet_core::crypto::PBKDF2_ITERATIONS));
    assert_ne!(k, pbkdf2_hmac_sha256_32(&pin, &salt, 1));
}

#[test]
fn encrypt_changes_buffer_and_tag_depends_on_nonce() {
    let key = [0x01u8; KEY_LEN];
    let mut a = [0u8; 32];
    let mut b = [0u8; 32];
    let ta = encrypt(&key, &[0u8; NONCE_LEN], b"x", &mut a).unwrap();
    let tb = encrypt(&key, &[1u8; NONCE_LEN], b"x", &mut b).unwrap();
    assert_ne!(a, [0u8; 32]);
    assert_ne!(a, b);
    assert_ne!(ta, tb);
}

use wallet_core::crypto::{KEY_LEN, NONCE_LEN, SALT_LEN};
use wallet_core::storage::{
    encrypt_into_blob, try_decrypt, update_lockout, DiskError, DiskHeader, Secrets, PERSIST_BYTES,
    VERSION_V3,
};

/// Where the sealed part (ciphertext and tag) starts in the image.
const SEALED_FROM: usize = 31;

fn dummy_secrets() -> Secrets {
    let mut entropy = [0u8; 32];
    let mut seed = [0u8; 64];
    for (i, b) in entropy.iter_mut().enumerate() {
        *b = i as u8;
    }
    for (i, b) in seed.iter_mut().enumerate() {
        *b = (i + 100) as u8;
    }
    Secrets { entropy, seed }
}

#[test]
fn encrypt_then_decrypt() {
    let s = dummy_secrets();
    let salt = [0xaau8; SALT_LEN];
    let nonce = [0xbbu8; NONCE_LEN];
    let key = [0xccu8; KEY_LEN];

    let blob = encrypt_into_blob(&s, &salt, &nonce, &key, 0, false).unwrap();
    assert_eq!(blob[0], VERSION_V3);

    let hdr = DiskHeader::parse(&blob).unwrap();
    assert_eq!(hdr.failures, 0);
    assert!(!hdr.locked);
    assert_eq!(hdr.salt, salt);

    let s2 = try_decrypt(&blob, &key).unwrap();
    assert_eq!(s2.entropy, s.entropy);
    assert_eq!(s2.seed, s.seed);
}

#[test]
fn decrypt_with_wrong_key_fails() {
    let s = dummy_secrets();
    let salt = [0xaau8; SALT_LEN];
    let nonce = [0xbbu8; NONCE_LEN];
    let key = [0xccu8; KEY_LEN];

    let blob = encrypt_into_blob(&s, &salt, &nonce, &key, 0, false).unwrap();
    let mut wrong = key;
    wrong[0] ^= 0xff;
    assert!(matches!(try_decrypt(&blob, &wrong), Err(DiskError::AeadFailure)));
}

#[test]
fn header_update_preserves_ciphertext() {
    let s = dummy_secrets();
    let salt = [0xaau8; SALT_LEN];
    let nonce = [0xbbu8; NONCE_LEN];
    let key = [0xccu8; KEY_LEN];

    let mut blob = encrypt_into_blob(&s, &salt, &nonce, &key, 0, false).unwrap();
    let ciphertext_before = {
        let mut copy = [0u8; PERSIST_BYTES - SEALED_FROM];
        copy.copy_from_slice(&blob[SEALED_FROM..PERSIST_BYTES]);
        copy
    };

    update_lockout(&mut blob, 2, false);

    let hdr = DiskHeader::parse(&blob).unwrap();
    assert_eq!(hdr.failures, 2);

    assert_eq!(&blob[SEALED_FROM..PERSIST_BYTES], &ciphertext_before[..]);
    let s2 = try_decrypt(&blob, &key).unwrap();
    assert_eq!(s2.entropy, s.entropy);
}

#[test]
fn bad_version_rejected() {
    let mut blob = [0u8; PERSIST_BYTES];
    blob[0] = 1;
    assert!(matches!(DiskHeader::parse(&blob), Err(DiskError::BadVersion)));
}

#[test]
fn header_is_version_counter_flag_salt_nonce() {
    let s = dummy_secrets();
    let blob =
        encrypt_into_blob(&s, &[0x11u8; SALT_LEN], &[0x22u8; NONCE_LEN], &[0x33u8; KEY_LEN], 2, true)
            .unwrap();
    assert_eq!(blob[0], VERSION_V3);
    assert_eq!(blob[1], 2);
    assert_eq!(blob[2], 1);
    assert_eq!(&blob[3..19], &[0x11u8; 16]);
    assert_eq!(&blob[19..31], &[0x22u8; 12]);
    let hdr = DiskHeader::parse(&blob).unwrap();
    assert!(hdr.locked);
}

#[test]
fn swapped_salt_fails_the_tag() {
    let s = dummy_secrets();
    let key = [0xccu8; KEY_LEN];
    let mut blob = encrypt_into_blob(&s, &[0xaau8; SALT_LEN], &[0xbbu8; NONCE_LEN], &key, 0, false)
        .unwrap();
    blob[3] ^= 1;
    assert!(matches!(try_decrypt(&blob, &key), Err(DiskError::AeadFailure)));
}

#[test]
fn lockout_rewrite_keeps_secrets_and_sets_flag() {
    let s = dummy_secrets();
    let key = [0xccu8; KEY_LEN];
    let mut blob = encrypt_into_blob(&s, &[0xaau8; SALT_LEN], &[0xbbu8; NONCE_LEN], &key, 0, false)
        .unwrap();
    update_lockout(&mut blob, 3, true);
    assert_eq!(blob[1], 3);
    assert_eq!(blob[2], 1);
    let hdr = DiskHeader::parse(&blob).unwrap();
    assert!(hdr.locked);
    assert_eq!(hdr.failures, 3);
    let back = try_decrypt(&blob, &key).unwrap();
    assert_eq!(back.seed, s.seed);
}

use wallet_core::bech32::charset_table;
use wallet_core::derive::{
    address_from_witness_program, indices_to_entropy, key_window_slots, own_internal_keys,
    own_output_keys, p2tr_address, tap_keypair, tap_keypair_at, tap_xonly_at, taproot_address,
    taproot_descriptor, taproot_tweak_pub, Network, DESCRIPTOR_MAX, NETWORK, OWN_KEY_COUNT,
};
use wallet_core::descriptor::{descriptor_checksum, descriptor_expand, descriptor_polymod, hex_8};
use wallet_core::mnemonic::{generate_words, mnemonic_word};

#[test]
fn indices_to_entropy_round_trip() {
    let entropy = [0x42u8; 32];
    let indices = generate_words(&entropy);
    assert_eq!(indices_to_entropy(&indices), Some(entropy));
}

#[test]
fn indices_to_entropy_bad_checksum() {
    let entropy = [0x42u8; 32];
    let mut indices = generate_words(&entropy);
    indices[0] ^= 1;
    assert!(indices_to_entropy(&indices).is_none());
}

#[test]
fn bech32m_address_format() {
    const CHARSET: &[u8; 32] = b"qpzry9x8gf2tvdw0s3jn54khce6mua7l";
    let program = [0x42u8; 32];
    for hrp in ["bc", "tb"] {
        let addr = p2tr_address(&program, hrp);
        let hrp_bytes = hrp.as_bytes();
        assert_eq!(addr.len(), 62);
        assert_eq!(addr[0], hrp_bytes[0]);
        assert_eq!(addr[1], hrp_bytes[1]);
        assert_eq!(addr[2], b'1');
        for &c in &addr[3..] {
            assert!(CHARSET.contains(&c), "unexpected char: {c}");
        }
    }
}

#[test]
fn p2tr_address_bip350_mainnet_vector() {
    let program: [u8; 32] = [
        0x79, 0xbe, 0x66, 0x7e, 0xf9, 0xdc, 0xbb, 0xac, 0x55, 0xa0, 0x62, 0x95, 0xce, 0x87, 0x0b,
        0x07, 0x02, 0x9b, 0xfc, 0xdb, 0x2d, 0xce, 0x28, 0xd9, 0x59, 0xf2, 0x81, 0x5b, 0x16, 0xf8,
        0x17, 0x98,
    ];
    let addr = p2tr_address(&program, "bc");
    assert_eq!(&addr[..], b"bc1p0xlxvlhemja6c4dqv22uapctqupfhlxm9h8z3k2e72q4k9hcz7vqzk5jj0");
}

#[test]
fn p2tr_address_bip350_testnet_vector() {
    let program: [u8; 32] = [
        0x00, 0x00, 0x00, 0xc4, 0xa5, 0xca, 0xd4, 0x62, 0x21, 0xb2, 0xa1, 0x87, 0x90, 0x5e, 0x52,
        0x66, 0x36, 0x2b, 0x99, 0xd5, 0xe9, 0x1c, 0x6c, 0xe2, 0x4d, 0x16, 0x5d, 0xab, 0x93, 0xe8,
        0x64, 0x33,
    ];
    let addr = p2tr_address(&program, "tb");
    assert_eq!(&addr[..], b"tb1pqqqqp399et2xygdj5xreqhjjvcmzhxw4aywxecjdzew6hylgvsesf3hn0c");
}

#[test]
fn taproot_address_returns_tb1p_on_testnet() {
    let mut seed = [0u8; 64];
    seed[0] = 1;
    if let Some(addr) = taproot_address(&seed) {
        assert_eq!(&addr[..4], b"tb1p");
        assert_eq!(addr.len(), 62);
    }
}

#[test]
fn descriptor_checksum_bip380_vector() {
    assert_eq!(descriptor_checksum(b"raw(deadbeef)"), Some(*b"89f8spxm"));
}

#[test]
fn descriptor_structure_and_checksum() {
    let mut seed = [0u8; 64];
    seed[0] = 1;
    let mut buf = [0u8; DESCRIPTOR_MAX];
    let len = taproot_descriptor(&seed, &mut buf).expect("descriptor builds");
    let desc = &buf[..len];

    assert!(desc.starts_with(b"tr(["), "descriptor: {}", core::str::from_utf8(desc).unwrap());
    assert!(
        core::str::from_utf8(desc).unwrap().contains("/86h/1h/0h]"),
        "testnet coin type expected"
    );
    assert!(core::str::from_utf8(desc).unwrap().contains("tpub"), "testnet xpub prefix expected");

    let hash_pos = desc.iter().rposition(|&c| c == b'#').expect("checksum separator");
    let (body, checksum) = desc.split_at(hash_pos);
    assert_eq!(checksum[0], b'#');
    assert_eq!(checksum.len(), 9);
    let (mut symbols, mut n) = descriptor_expand(body).expect("chars in charset");
    let charset = charset_table();
    for &c in &checksum[1..] {
        let idx = charset.iter().position(|&x| x == c).expect("checksum in charset") as u16;
        symbols[n] = idx;
        n += 1;
    }
    assert_eq!(descriptor_polymod(&symbols[..n]), 1, "descriptor checksum must verify");
}

#[test]
fn descriptor_is_stable_across_calls() {
    let mut seed = [0u8; 64];
    seed[0] = 1;
    let mut a = [0u8; DESCRIPTOR_MAX];
    let mut b = [0u8; DESCRIPTOR_MAX];
    let la = taproot_descriptor(&seed, &mut a).unwrap();
    let lb = taproot_descriptor(&seed, &mut b).unwrap();
    assert_eq!(la, lb);
    assert_eq!(&a[..la], &b[..lb]);
}

#[test]
fn network_prefixes_and_coin_types() {
    assert_eq!(Network::Mainnet.hrp(), "bc");
    assert_eq!(Network::Testnet.hrp(), "tb");
    assert_eq!(Network::Mainnet.coin_type(), 0);
    assert_eq!(Network::Testnet.coin_type(), 1);
    assert_eq!(NETWORK, Network::Testnet);
}

#[test]
fn descriptor_checksum_refuses_characters_outside_charset() {
    assert_eq!(descriptor_checksum(b"raw(dead\x01beef)"), None);
}

#[test]
fn descriptor_checksum_of_empty_body_verifies() {
    let sum = descriptor_checksum(b"").unwrap();
    let (mut symbols, mut n) = descriptor_expand(b"").unwrap();
    assert_eq!(n, 0);
    let charset = charset_table();
    for &c in &sum {
        symbols[n] = charset.iter().position(|&x| x == c).unwrap() as u16;
        n += 1;
    }
    assert_eq!(descriptor_polymod(&symbols[..n]), 1);
}

#[test]
fn hex_8_is_lowercase_hex() {
    assert_eq!(hex_8(&[0xde, 0xad, 0xbe, 0xef]), *b"deadbeef");
    assert_eq!(hex_8(&[0x00, 0x01, 0x0a, 0xff]), *b"00010aff");
}

#[test]
fn key_window_covers_both_branches() {
    let slots = key_window_slots();
    assert_eq!(slots.len(), OWN_KEY_COUNT);
    assert_eq!(slots[0], (0, 0));
    assert_eq!(slots[19], (0, 19));
    assert_eq!(slots[20], (1, 0));
    assert_eq!(slots[39], (1, 19));
}

#[test]
fn receive_key_is_first_of_the_window() {
    let mut seed = [0u8; 64];
    seed[0] = 1;
    let (ik, _) = tap_keypair(&seed).unwrap();
    assert_eq!(tap_xonly_at(&seed, 0, 0), Some(ik));
    let internal = own_internal_keys(&seed).unwrap();
    assert_eq!(internal[0], ik);
    assert_eq!(internal[20], tap_xonly_at(&seed, 1, 0).unwrap());
    let outputs = own_output_keys(&seed).unwrap();
    assert_eq!(outputs[0], taproot_tweak_pub(&ik).unwrap());
    let addr = taproot_address(&seed).unwrap();
    assert_eq!(addr, address_from_witness_program(&outputs[0]));
}

#[test]
fn keypair_at_matches_xonly_at() {
    let mut seed = [0u8; 64];
    seed[5] = 9;
    for (b, i) in [(0u32, 3u32), (1, 7)] {
        let (pk, sk) = tap_keypair_at(&seed, b, i).unwrap();
        assert_eq!(Some(pk), tap_xonly_at(&seed, b, i));
        assert_ne!(sk, [0u8; 32]);
    }
}

#[test]
fn mnemonic_words_are_english_words() {
    let words = generate_words(&[0u8; 32]);
    assert_eq!(mnemonic_word(words[0]), "abandon");
    assert_eq!(mnemonic_word(words[23]), "art");
}

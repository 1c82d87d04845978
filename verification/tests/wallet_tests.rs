use wallet_core::base64::{b64_len, decode, encode};
use wallet_core::derive::{tap_keypair, taproot_tweak_pub};
use wallet_core::keyboard::key_row_letters;
use wallet_core::layout::{
    KEY_STEP, NAV_BTN_Y, NAV_NEXT_X, NAV_PREV_X, PIN_KEY_H, PIN_KEY_W, PP_BTN_Y, PP_SKIP_X,
    RESTORE_SUGGEST_X0, RESTORE_SUGGEST_Y, ROW0_X, ROW0_Y, ROW1_X, ROW1_Y, ROW2_X, ROW2_Y,
};
use wallet_core::machine::{AppState, PinGate, WalletEvent};
use wallet_core::mnemonic::{generate_words, mnemonic_word};
use wallet_core::pinpad::pin_key_pos;
use wallet_core::psbt::{encode_signed, ParsedPsbt, MAX_PSBT_B64, MAX_SIGNED_RAW};
use wallet_core::wallet::{ct_eq_pin, ColdWallet};

fn tap(w: &mut ColdWallet, x: i32, y: i32, e: u8) -> Vec<[u8; 143]> {
    w.handle_event(WalletEvent::Touch { x, y, entropy: [e; 32] })
}

fn seeded_wallet() -> ColdWallet {
    let mut w = ColdWallet::new();
    w.entropy = [0x42u8; 32];
    w.words = generate_words(&w.entropy);
    w.state = AppState::EnterPassphrase { buf: [0u8; 32], len: 0 };
    tap(&mut w, PP_SKIP_X + 1, PP_BTN_Y + 1, 9);
    w
}

#[test]
fn passphrase_confirm_derives_seed_address_and_descriptor() {
    let w = seeded_wallet();
    assert!(matches!(w.state, AppState::SetPin { len: 0, .. }));
    assert_ne!(w.seed, [0u8; 64]);
    let addr = w.receive_address().expect("address derived");
    assert!(addr.starts_with("tb1p"));
    let desc = w.descriptor().expect("descriptor built");
    assert!(desc.starts_with("tr(["));
    assert!(w.own_output_keys().is_some());
    assert!(w.tap_internal_key().is_some());
}

#[test]
fn fresh_wallet_has_nothing_derived() {
    let w = ColdWallet::new();
    assert_eq!(w.get_state(), AppState::Welcome);
    assert!(w.receive_address().is_none());
    assert!(w.descriptor().is_none());
    assert!(w.tap_internal_key().is_none());
    assert!(w.own_output_keys().is_none());
    assert!(w.current_psbt().is_none());
    assert!(w.disk_image().is_none());
    assert!(w.signed_psbt_b64().is_none());
    assert!(!w.scan_error());
    assert!(!w.has_pending_work());
    assert_eq!(w.mnemonic_words(), [""; 24]);
}

#[test]
fn mnemonic_words_match_the_entropy() {
    let mut w = ColdWallet::new();
    w.words = generate_words(&[0u8; 32]);
    let words = w.mnemonic_words();
    assert_eq!(words[0], "abandon");
    assert_eq!(words[23], "art");
}

#[test]
fn locked_wallet_ignores_every_event() {
    let mut w = ColdWallet::new();
    w.state = AppState::PinLocked;
    w.locked = true;
    for (x, y) in [(0, 0), (NAV_PREV_X + 1, NAV_BTN_Y + 1), (400, 240)] {
        let written = tap(&mut w, x, y, 3);
        assert!(written.is_empty());
        assert_eq!(w.state, AppState::PinLocked);
    }
    let mut data = [0u8; MAX_PSBT_B64];
    data[..4].copy_from_slice(b"AAAA");
    assert!(w.handle_event(WalletEvent::PsbtScanned { data, len: 4 }).is_empty());
    assert_eq!(w.state, AppState::PinLocked);
    assert!(!w.scan_error());
    let (ran, written) = w.process_pending([1u8; 32]);
    assert!(!ran);
    assert!(written.is_empty());
}

#[test]
fn scan_outside_the_scan_screen_is_ignored() {
    let mut w = ColdWallet::new();
    w.state = AppState::Home;
    let mut data = [0u8; MAX_PSBT_B64];
    data[0] = b'!';
    w.handle_event(WalletEvent::PsbtScanned { data, len: 1 });
    assert!(!w.scan_error());
    assert_eq!(w.state, AppState::Home);
}

#[test]
fn confirm_mismatch_goes_to_pin_mismatch() {
    let mut w = ColdWallet::new();
    let order = [0u8, 1, 2, 3, 4, 5, 6, 7, 8, 9];
    w.state = AppState::ConfirmPin { pin: [1, 1, 1, 1, 1, 1], order, digits: [0; 6], len: 0 };
    for pos in 0..6 {
        let (x, y) = pin_key_pos(pos);
        tap(&mut w, x + PIN_KEY_W / 2, y + PIN_KEY_H / 2, 4);
    }
    assert_eq!(w.state, AppState::PinMismatch);
    assert!(!w.has_pending_work());
    assert!(w.disk_image().is_none());
}

#[test]
fn cold_unlock_parks_in_verifying_then_resolves() {
    let mut w = ColdWallet::new();
    let order = [0u8, 1, 2, 3, 4, 5, 6, 7, 8, 9];
    w.state = AppState::EnterPin { order, digits: [0; 6], len: 0, gate: PinGate::Unlock };
    for pos in 0..6 {
        let (x, y) = pin_key_pos(pos);
        tap(&mut w, x + 1, y + 1, 4);
    }
    assert!(matches!(w.state, AppState::PinVerifying { .. }));
    assert!(w.has_pending_work());
    assert_eq!(w.failures, 1);
    let (ran, written) = w.process_pending([2u8; 32]);
    assert!(ran);
    assert!(written.is_empty());
    assert!(matches!(w.state, AppState::EnterPin { len: 0, gate: PinGate::Unlock, .. }));
}

#[test]
fn ct_eq_pin_compares_all_digits() {
    assert!(ct_eq_pin(&[1, 2, 3, 4, 5, 6], &[1, 2, 3, 4, 5, 6]));
    assert!(!ct_eq_pin(&[1, 2, 3, 4, 5, 6], &[1, 2, 3, 4, 5, 7]));
    assert!(!ct_eq_pin(&[0, 2, 3, 4, 5, 6], &[1, 2, 3, 4, 5, 6]));
}

/// A PSBT spending the wallet's receive output, in Base64.
fn psbt_b64_for(w: &ColdWallet) -> ([u8; MAX_PSBT_B64], usize) {
    let (ik, _) = tap_keypair(&w.seed).unwrap();
    let ok = taproot_tweak_pub(&ik).unwrap();
    let mut spk = [0u8; 34];
    spk[0] = 0x51;
    spk[1] = 0x20;
    spk[2..].copy_from_slice(&ok);

    let mut tx = Vec::new();
    tx.extend_from_slice(&2u32.to_le_bytes());
    tx.push(1);
    tx.extend_from_slice(&[0x33u8; 32]);
    tx.extend_from_slice(&0u32.to_le_bytes());
    tx.push(0);
    tx.extend_from_slice(&0xffff_fffdu32.to_le_bytes());
    tx.push(1);
    tx.extend_from_slice(&90_000u64.to_le_bytes());
    tx.push(34);
    tx.extend_from_slice(&spk);
    tx.extend_from_slice(&0u32.to_le_bytes());

    let mut raw = Vec::new();
    raw.extend_from_slice(b"psbt\xff");
    raw.extend_from_slice(&[1, 0x00, tx.len() as u8]);
    raw.extend_from_slice(&tx);
    raw.push(0x00);
    raw.extend_from_slice(&[1, 0x01, 8 + 1 + 34]);
    raw.extend_from_slice(&100_000u64.to_le_bytes());
    raw.push(34);
    raw.extend_from_slice(&spk);
    raw.extend_from_slice(&[1, 0x17, 32]);
    raw.extend_from_slice(&ik);
    raw.push(0x00);
    raw.push(0x00);

    let mut data = [0u8; MAX_PSBT_B64];
    let n = encode(&raw, &mut data);
    assert_eq!(n, b64_len(raw.len()));
    (data, n)
}

#[test]
fn scan_review_sign_then_home_forgets() {
    let mut w = seeded_wallet();
    w.state = AppState::SignScan;
    let (data, len) = psbt_b64_for(&w);
    w.handle_event(WalletEvent::PsbtScanned { data, len });
    assert_eq!(w.state, AppState::SignReview);
    assert!(!w.scan_error());
    let loaded = *w.current_psbt().unwrap();
    assert_eq!(loaded.input_count, 1);
    assert_eq!(loaded.total_in(), 100_000);
    assert_eq!(loaded.fee(), 10_000);

    tap(&mut w, NAV_NEXT_X + 1, NAV_BTN_Y + 1, 7);
    assert_eq!(w.state, AppState::SignResult);
    let b64 = w.signed_psbt_b64().expect("signed PSBT shown").as_bytes().to_vec();
    let mut raw = [0u8; MAX_SIGNED_RAW];
    let n = decode(&b64, &mut raw).unwrap();
    let signed = ParsedPsbt::parse(&raw[..n]).unwrap();
    assert!(signed.inputs[0].tap_key_sig.is_some());
    assert!(w.current_psbt().unwrap().inputs[0].tap_key_sig.is_some());
    assert_eq!(signed.inputs[0].tap_key_sig, w.current_psbt().unwrap().inputs[0].tap_key_sig);
    assert_eq!(&signed.tx_raw[..signed.tx_len], &loaded.tx_raw[..loaded.tx_len]);
    assert_eq!(signed.tx_raw, loaded.tx_raw);
    assert_eq!(signed.outputs[0].amount_sats, loaded.outputs[0].amount_sats);
    let mut again = [0u8; MAX_SIGNED_RAW];
    let m = encode_signed(w.current_psbt().unwrap(), &mut again).unwrap();
    assert_eq!(&raw[..n], &again[..m]);

    tap(&mut w, NAV_PREV_X + 1, NAV_BTN_Y + 1, 8);
    assert_eq!(w.state, AppState::Home);
    assert!(w.current_psbt().is_none());
    assert!(w.signed_psbt_b64().is_none());
}

#[test]
fn cancel_on_review_signs_nothing() {
    let mut w = seeded_wallet();
    w.state = AppState::SignScan;
    let (data, len) = psbt_b64_for(&w);
    w.handle_event(WalletEvent::PsbtScanned { data, len });
    tap(&mut w, NAV_PREV_X + 1, NAV_BTN_Y + 1, 7);
    assert_eq!(w.state, AppState::Home);
    assert!(w.signed_psbt_b64().is_none());
    assert!(w.current_psbt().is_none());
}

/// Where the restore keyboard shows `letter`.
fn letter_key(letter: u8) -> (i32, i32) {
    let rows = [(ROW0_X, ROW0_Y), (ROW1_X, ROW1_Y), (ROW2_X, ROW2_Y)];
    for (r, (x0, y0)) in rows.iter().enumerate() {
        if let Some(col) = key_row_letters(r).iter().position(|&c| c == letter.to_ascii_uppercase()) {
            return (x0 + col as i32 * KEY_STEP + 1, y0 + 1);
        }
    }
    panic!("no key for {}", letter as char);
}

#[test]
fn restoring_the_words_recovers_the_same_wallet() {
    let created = seeded_wallet();
    let address = created.receive_address().unwrap().to_string();

    let mut w = ColdWallet::new();
    w.state = AppState::RestoreWallet {
        word_idx: 0,
        buf: [0u8; 8],
        buf_len: 0,
        confirmed: [0u16; 24],
        error: false,
    };
    for &ix in created.words.iter() {
        for &c in mnemonic_word(ix).as_bytes() {
            let (x, y) = letter_key(c);
            tap(&mut w, x, y, 1);
        }
        tap(&mut w, RESTORE_SUGGEST_X0 + 1, RESTORE_SUGGEST_Y + 1, 2);
    }
    assert!(matches!(w.state, AppState::EnterPassphrase { len: 0, .. }));
    assert_eq!(w.entropy, created.entropy);
    assert_eq!(w.words, created.words);
    tap(&mut w, PP_SKIP_X + 1, PP_BTN_Y + 1, 9);
    assert_eq!(w.seed, created.seed);
    assert_eq!(w.receive_address().unwrap(), address);
}

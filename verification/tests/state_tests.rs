use wallet_core::layout::{
    BKSP_W, BKSP_X, BTN_NEW_Y, BTN_X, NAV_BTN_Y, NAV_PREV_X, PIN_KEY_H, PIN_KEY_STEP, PIN_KEY_W,
    PIN_ROW0_Y, PIN_ROW1_Y, PIN_ROW_X, PP_BTN_Y, PP_SKIP_X, ROW0_X, ROW0_Y, ROW2_Y,
};
use wallet_core::machine::{step, AppState, PinGate, WalletEvent, PIN_MAX_ATTEMPTS};
use wallet_core::mnemonic::{find_matches, generate_words, mnemonic_word};
use wallet_core::pinpad::{in_rect, pin_digit_at, pin_key_pos, shuffle};
use wallet_core::psbt::MAX_PSBT_B64;
use wallet_core::storage::{encrypt_into_blob, DiskHeader, Secrets};
use wallet_core::wallet::ColdWallet;
use wallet_core::crypto::{KEY_LEN, NONCE_LEN, SALT_LEN};

const LCG_MULTIPLIER: u32 = 1_664_525;
const LCG_INCREMENT: u32 = 1_013_904_223;
const ORDER: [u8; 10] = [0, 1, 2, 3, 4, 5, 6, 7, 8, 9];

/// A touch at (x, y) with entropy expanded from `seed`, and that entropy.
fn create_touch_event_with_entropy(x: i32, y: i32, seed: u32) -> (WalletEvent, [u8; 32]) {
    let mut entropy = [0u8; 32];
    let mut s = seed;
    for chunk in entropy.chunks_mut(4) {
        s = s.wrapping_mul(LCG_MULTIPLIER).wrapping_add(LCG_INCREMENT);
        chunk.copy_from_slice(&s.to_le_bytes());
    }
    (WalletEvent::Touch { x, y, entropy }, entropy)
}

/// Handles a touch, then the pending slow work if any; returns every image
/// the wallet handed out, in order.
fn touch(wallet: &mut ColdWallet, x: i32, y: i32, seed: u32) -> Vec<[u8; 143]> {
    let (event, entropy) = create_touch_event_with_entropy(x, y, seed);
    let mut written = wallet.handle_event(event);
    if wallet.has_pending_work() {
        let (_, more) = wallet.process_pending(entropy);
        written.extend(more);
    }
    written
}

#[test]
fn find_matches_filters_by_prefix() {
    let buf: [u8; 8] = *b"ab\0\0\0\0\0\0";
    let matches = find_matches(&buf, 2);
    let word_list = bip39::Language::English.word_list();
    for m in matches {
        let word = word_list[m.unwrap() as usize];
        assert!(word.starts_with("ab"), "expected 'ab' prefix, got: {word}");
    }
}

#[test]
fn find_matches_empty_prefix_returns_none() {
    let buf = [0u8; 8];
    let matches = find_matches(&buf, 0);
    assert_eq!(matches, [None; 3]);
}

#[test]
fn restore_wallet_keyboard_entry() {
    let init = AppState::RestoreWallet {
        word_idx: 0,
        buf: [0u8; 8],
        buf_len: 0,
        confirmed: [0u16; 24],
        error: false,
    };
    let (event, _) = create_touch_event_with_entropy(ROW0_X + 1, ROW0_Y + 1, 77);
    let (state, _, _, _) = step(init, &event);
    match state {
        AppState::RestoreWallet { buf, buf_len, .. } => {
            assert_eq!(buf_len, 1);
            assert_eq!(buf[0], b'q');
        }
        _ => panic!("expected RestoreWallet"),
    }
}

#[test]
fn restore_wallet_backspace() {
    let mut buf = [0u8; 8];
    buf[0] = b'a';
    let init =
        AppState::RestoreWallet { word_idx: 0, buf, buf_len: 1, confirmed: [0u16; 24], error: false };
    let (event, _) = create_touch_event_with_entropy(BKSP_X + BKSP_W - 5, ROW2_Y + 1, 88);
    let (state, _, _, _) = step(init, &event);
    match state {
        AppState::RestoreWallet { buf_len, .. } => assert_eq!(buf_len, 0),
        _ => panic!("expected RestoreWallet"),
    }
}

#[test]
fn restore_wallet_cancel_returns_to_welcome() {
    let init = AppState::RestoreWallet {
        word_idx: 5,
        buf: [0u8; 8],
        buf_len: 0,
        confirmed: [0u16; 24],
        error: false,
    };
    let (event, _) = create_touch_event_with_entropy(PP_SKIP_X + 1, PP_BTN_Y + 1, 99);
    let (state, _, _, _) = step(init, &event);
    assert_eq!(state, AppState::Welcome);
}

#[test]
fn in_rect_bounds() {
    assert!(in_rect(0, 0, 0, 0, 1, 1));
    assert!(!in_rect(1, 0, 0, 0, 1, 1));
    assert!(!in_rect(0, 1, 0, 0, 1, 1));
}

#[test]
fn shuffle_is_permutation() {
    let mut ent = [0u8; 32];
    for (i, b) in ent.iter_mut().enumerate() {
        *b = (i as u8).wrapping_mul(37).wrapping_add(5);
    }
    let order = shuffle(&ent);
    let mut seen = [false; 10];
    for &d in &order {
        assert!(d < 10);
        assert!(!seen[d as usize]);
        seen[d as usize] = true;
    }
}

#[test]
fn pin_key_position_grid() {
    assert_eq!(pin_key_pos(0), (PIN_ROW_X, PIN_ROW0_Y));
    assert_eq!(pin_key_pos(4), (PIN_ROW_X + 4 * PIN_KEY_STEP, PIN_ROW0_Y));
    assert_eq!(pin_key_pos(5), (PIN_ROW_X, PIN_ROW1_Y));
    assert_eq!(pin_key_pos(9), (PIN_ROW_X + 4 * PIN_KEY_STEP, PIN_ROW1_Y));
}

/// Where a tap aimed at a PIN key would land if it were handled from Home.
fn home_hit_from_pin_key(pos: usize) -> Option<AppState> {
    let (kx, ky) = pin_key_pos(pos);
    let (event, _) = create_touch_event_with_entropy(kx + PIN_KEY_W / 2, ky + PIN_KEY_H / 2, 3);
    let (state, ..) = step(AppState::Home, &event);
    (state != AppState::Home).then_some(state)
}

#[test]
fn pin_pad_keys_sit_on_top_of_the_home_grid() {
    assert_eq!(home_hit_from_pin_key(0), Some(AppState::Receive));
    assert_eq!(home_hit_from_pin_key(3), Some(AppState::SignScan));
    assert_eq!(home_hit_from_pin_key(5), Some(AppState::Accounts));
    assert_eq!(home_hit_from_pin_key(9), Some(AppState::Settings));
}

#[test]
fn pin_digit_lookup() {
    let order = [9, 8, 7, 6, 5, 4, 3, 2, 1, 0];
    let (x, y) = pin_key_pos(2);
    assert_eq!(pin_digit_at(x + 1, y + 1, &order), Some(7));
    assert_eq!(pin_digit_at(0, 0, &order), None);
}

#[test]
fn step_welcome_new_wallet_generates_words() {
    let (event, event_entropy) = create_touch_event_with_entropy(BTN_X + 1, BTN_NEW_Y + 1, 42);
    let (state, pin, words, returned_entropy) = step(AppState::Welcome, &event);
    assert_eq!(state, AppState::NewWallet { page: 0 });
    assert!(pin.is_none());
    let returned_entropy = returned_entropy.expect("entropy should be returned");
    assert_eq!(returned_entropy, event_entropy);
    let words = words.expect("words should be generated");
    assert_eq!(words, generate_words(&returned_entropy));
    let word_list = bip39::Language::English.word_list();
    for &word in &words {
        assert!(word_list.contains(&mnemonic_word(word)));
    }
}

// ── PIN entry with an in-memory PIN (no disk image) ──────────────────────────

fn build_wallet_with_pin(pin: [u8; 6]) -> ColdWallet {
    let mut w = ColdWallet::new();
    w.pin = Some(pin);
    w
}

#[test]
fn enter_pin_unlock_with_in_memory_pin() {
    let stored = [0u8, 1, 2, 3, 4, 5];
    let mut w = build_wallet_with_pin(stored);
    w.state = AppState::EnterPin { order: ORDER, digits: [0u8; 6], len: 0, gate: PinGate::Unlock };
    for pos in 0..6 {
        let (x, y) = pin_key_pos(pos);
        touch(&mut w, x + 1, y + 1, 5);
    }
    assert_eq!(w.state, AppState::Home);
    assert_eq!(w.failures, 0);
}

#[test]
fn enter_pin_show_mnemonic_gate() {
    let stored = [0u8, 1, 2, 3, 4, 5];
    let mut w = build_wallet_with_pin(stored);
    w.state =
        AppState::EnterPin { order: ORDER, digits: [0u8; 6], len: 0, gate: PinGate::ShowMnemonic };
    for pos in 0..6 {
        let (x, y) = pin_key_pos(pos);
        touch(&mut w, x + 1, y + 1, 12);
    }
    assert_eq!(w.state, AppState::ShowMnemonic { page: 0 });
}

#[test]
fn enter_pin_change_pin_gate() {
    let stored = [0u8, 1, 2, 3, 4, 5];
    let mut w = build_wallet_with_pin(stored);
    w.state =
        AppState::EnterPin { order: ORDER, digits: [0u8; 6], len: 0, gate: PinGate::ChangePin };
    for pos in 0..6 {
        let (x, y) = pin_key_pos(pos);
        touch(&mut w, x + 1, y + 1, 13);
    }
    assert!(matches!(w.state, AppState::SetPin { .. }));
}

#[test]
fn enter_pin_wrong_increments_failures() {
    let stored = [0u8, 1, 2, 3, 4, 5];
    let mut w = build_wallet_with_pin(stored);
    w.state = AppState::EnterPin { order: ORDER, digits: [0u8; 6], len: 0, gate: PinGate::Unlock };
    for pos in [1usize, 2, 3, 4, 5, 6] {
        let (x, y) = pin_key_pos(pos);
        touch(&mut w, x + 1, y + 1, 6);
    }
    assert!(matches!(w.state, AppState::EnterPin { .. }));
    assert_eq!(w.failures, 1);
}

#[test]
fn enter_pin_lockout_after_max_attempts() {
    let stored = [0u8, 1, 2, 3, 4, 5];
    let mut w = build_wallet_with_pin(stored);
    w.state = AppState::EnterPin { order: ORDER, digits: [0u8; 6], len: 0, gate: PinGate::Unlock };

    for _ in 0..PIN_MAX_ATTEMPTS {
        for &pos in &[1usize, 2, 3, 4, 5, 6] {
            let (x, y) = pin_key_pos(pos);
            touch(&mut w, x + 1, y + 1, 6);
        }
    }
    assert_eq!(w.state, AppState::PinLocked);
    assert!(w.locked);
    assert_eq!(w.failures, PIN_MAX_ATTEMPTS);
}

// ── Write-ahead: the counter reaches disk before the check ───────────────────

#[test]
fn write_ahead_persist_runs_before_check() {
    let mut w = ColdWallet::new();
    w.entropy[0] = 1;
    w.seed[0] = 1;
    let secrets = Secrets { entropy: w.entropy, seed: w.seed };
    let salt = [0xaau8; SALT_LEN];
    let nonce = [0xbbu8; NONCE_LEN];
    let key = [0xccu8; KEY_LEN];
    let image = encrypt_into_blob(&secrets, &salt, &nonce, &key, 0, false).unwrap();
    w.salt = salt;
    w.enc_key = Some(key);
    w.pin = Some([0u8, 1, 2, 3, 4, 5]);
    w.disk_image = Some(image);
    w.state = AppState::EnterPin { order: ORDER, digits: [0u8; 6], len: 0, gate: PinGate::Unlock };

    let mut writes = 0u32;
    let mut last_failures = 255u8;
    for &pos in &[1usize, 2, 3, 4, 5, 6] {
        let (x, y) = pin_key_pos(pos);
        let (event, _) = create_touch_event_with_entropy(x + 1, y + 1, 7);
        for blob in w.handle_event(event) {
            writes += 1;
            last_failures = blob[1];
        }
    }

    assert!(writes >= 1, "persist was never called");
    assert!(last_failures >= 1, "persisted failures field was never bumped");
    assert_eq!(w.failures, 1);
}

// ── Setup, restart, unlock ───────────────────────────────────────────────────

/// Drives ConfirmPin to completion; returns the wallet and the last image.
fn setup_wallet_and_capture_image(pin: [u8; 6]) -> (ColdWallet, [u8; 143]) {
    let mut w = ColdWallet::new();
    w.entropy[0] = 0x42;
    w.seed[0] = 0x42;
    w.state = AppState::ConfirmPin { pin, order: ORDER, digits: [0u8; 6], len: 0 };

    let mut captured: Option<[u8; 143]> = None;
    for &digit in &pin {
        let pos = digit as usize;
        let (x, y) = pin_key_pos(pos);
        let (event, entropy) = create_touch_event_with_entropy(x + 1, y + 1, 7);
        for blob in w.handle_event(event) {
            captured = Some(blob);
        }
        if w.has_pending_work() {
            for blob in w.process_pending(entropy).1 {
                captured = Some(blob);
            }
        }
    }
    let image = captured.expect("persist must have been called");
    (w, image)
}

/// Types the PIN by looking up each digit on the current pad.
fn type_pin_into(w: &mut ColdWallet, pin: [u8; 6]) {
    for &digit in &pin {
        let order = match w.state {
            AppState::EnterPin { order, .. } => order,
            AppState::ConfirmPin { order, .. } => order,
            AppState::SetPin { order, .. } => order,
            _ => panic!("type_pin_into called from non-PIN state {:?}", w.state),
        };
        let pos = order.iter().position(|&d| d == digit).unwrap();
        let (x, y) = pin_key_pos(pos);
        touch(w, x + 1, y + 1, 11);
    }
}

#[test]
fn setup_then_restart_unlocks_with_aead() {
    let pin = [0u8, 1, 2, 3, 4, 5];
    let (orig, image) = setup_wallet_and_capture_image(pin);

    let mut w = ColdWallet::from_disk_image(image, [0xa5u8; 32]).unwrap();
    assert!(matches!(w.state, AppState::EnterPin { gate: PinGate::Unlock, .. }));
    assert_eq!(w.failures, 0);
    assert!(!w.locked);
    assert!(w.pin.is_none(), "cold start must not carry in-memory PIN");

    type_pin_into(&mut w, pin);
    assert_eq!(w.state, AppState::Home);
    assert_eq!(w.seed[0], orig.seed[0]);
    assert_eq!(w.entropy[0], orig.entropy[0]);
    assert_eq!(w.failures, 0);
}

#[test]
fn setup_then_restart_wrong_pin_increments_and_persists() {
    let correct = [0u8, 1, 2, 3, 4, 5];
    let wrong = [9u8, 9, 9, 9, 9, 9];
    let (_, image) = setup_wallet_and_capture_image(correct);

    let mut w = ColdWallet::from_disk_image(image, [0x33u8; 32]).unwrap();

    let mut last_failures = 255u8;
    let order = match w.state {
        AppState::EnterPin { order, .. } => order,
        _ => unreachable!(),
    };
    for &digit in &wrong {
        let pos = order.iter().position(|&d| d == digit).unwrap();
        let (x, y) = pin_key_pos(pos);
        let (event, entropy) = create_touch_event_with_entropy(x + 1, y + 1, 12);
        for blob in w.handle_event(event) {
            last_failures = blob[1];
        }
        if w.has_pending_work() {
            for blob in w.process_pending(entropy).1 {
                last_failures = blob[1];
            }
        }
    }

    assert_eq!(w.failures, 1);
    assert_eq!(last_failures, 1, "failures must be persisted to disk");
    assert!(matches!(w.state, AppState::EnterPin { .. }));
    assert_eq!(w.seed[0], 0);
    assert_eq!(w.entropy[0], 0);
}

/// The key of PIN 0-1-2-3-4-5 under the salt that the setup above draws
/// (the first 16 bytes of the entropy of seed 7).
const SETUP_KEY: [u8; 32] = [
    114, 110, 88, 233, 33, 240, 31, 190, 214, 20, 121, 231, 45, 230, 114, 179, 179, 134, 72, 38,
    82, 134, 202, 32, 127, 203, 125, 232, 36, 221, 167, 209,
];

/// The image `setup_wallet_and_capture_image([0, 1, 2, 3, 4, 5])` writes,
/// assembled without running the key derivation again.
fn setup_image_fixture() -> [u8; 143] {
    let (_, e) = create_touch_event_with_entropy(0, 0, 7);
    let mut entropy = [0u8; 32];
    let mut seed = [0u8; 64];
    entropy[0] = 0x42;
    seed[0] = 0x42;
    let mut salt = [0u8; SALT_LEN];
    salt.copy_from_slice(&e[..SALT_LEN]);
    let mut nonce = [0u8; NONCE_LEN];
    nonce.copy_from_slice(&e[SALT_LEN..SALT_LEN + NONCE_LEN]);
    encrypt_into_blob(&Secrets { entropy, seed }, &salt, &nonce, &SETUP_KEY, 0, false).unwrap()
}

#[test]
fn setup_image_matches_fixture() {
    let (_, image) = setup_wallet_and_capture_image([0u8, 1, 2, 3, 4, 5]);
    assert_eq!(image, setup_image_fixture());
}

#[test]
fn lockout_state_survives_restart() {
    let wrong = [9u8, 9, 9, 9, 9, 9];
    let image = setup_image_fixture();

    let mut w = ColdWallet::from_disk_image(image, [0x77u8; 32]).unwrap();

    let mut last_image = [0u8; 143];
    for _ in 0..PIN_MAX_ATTEMPTS {
        let order = match w.state {
            AppState::EnterPin { order, .. } => order,
            AppState::PinLocked => break,
            _ => unreachable!(),
        };
        for &digit in &wrong {
            let pos = order.iter().position(|&d| d == digit).unwrap();
            let (x, y) = pin_key_pos(pos);
            let (event, entropy) = create_touch_event_with_entropy(x + 1, y + 1, 13);
            for blob in w.handle_event(event) {
                last_image = blob;
            }
            if w.has_pending_work() {
                for blob in w.process_pending(entropy).1 {
                    last_image = blob;
                }
            }
        }
    }
    assert_eq!(w.state, AppState::PinLocked);
    assert_eq!(last_image[2], 1, "locked flag must be persisted");

    let w2 = ColdWallet::from_disk_image(last_image, [0x99u8; 32]).unwrap();
    assert_eq!(w2.state, AppState::PinLocked);
    assert!(w2.locked);
}

#[test]
fn confirm_pin_writes_encrypted_blob() {
    let mut w = ColdWallet::new();
    w.entropy[0] = 0x42;
    w.seed[0] = 0x42;

    let chosen_pin = [0u8, 1, 2, 3, 4, 5];
    w.state = AppState::ConfirmPin { pin: chosen_pin, order: ORDER, digits: [0u8; 6], len: 0 };

    let mut captured: Option<[u8; 143]> = None;
    for pos in 0..6 {
        let (x, y) = pin_key_pos(pos);
        let (event, entropy) = create_touch_event_with_entropy(x + 1, y + 1, 99);
        for blob in w.handle_event(event) {
            captured = Some(blob);
        }
        if w.has_pending_work() {
            for blob in w.process_pending(entropy).1 {
                captured = Some(blob);
            }
        }
    }

    assert_eq!(w.state, AppState::Home);
    assert!(w.disk_image.is_some());
    let image = captured.expect("persist must have been called");
    let hdr = DiskHeader::parse(&image).expect("v2 header");
    assert_eq!(hdr.failures, 0);
    assert!(!hdr.locked);
    assert_eq!(hdr.salt, w.salt);
}

// ── Scan errors ──────────────────────────────────────────────────────────────

#[test]
fn load_psbt_bad_base64_sets_scan_error() {
    let mut w = ColdWallet::new();
    w.state = AppState::SignScan;
    let bad_b64 = b"!!!not-valid-base64!!!";
    let mut data = [0u8; MAX_PSBT_B64];
    let len = bad_b64.len().min(data.len());
    data[..len].copy_from_slice(&bad_b64[..len]);
    w.handle_event(WalletEvent::PsbtScanned { data, len });
    assert!(w.scan_error(), "scan_error must be true after bad base64");
    assert_eq!(w.state, AppState::SignScan, "must stay in SignScan");
}

#[test]
fn load_psbt_bad_psbt_bytes_sets_scan_error() {
    let mut w = ColdWallet::new();
    w.state = AppState::SignScan;
    let garbage_b64 = b"AAAA";
    let mut data = [0u8; MAX_PSBT_B64];
    data[..garbage_b64.len()].copy_from_slice(garbage_b64);
    w.handle_event(WalletEvent::PsbtScanned { data, len: garbage_b64.len() });
    assert!(w.scan_error(), "scan_error must be true after invalid PSBT bytes");
    assert_eq!(w.state, AppState::SignScan);
}

#[test]
fn load_psbt_navigate_home_clears_scan_error() {
    let mut w = ColdWallet::new();
    w.state = AppState::SignScan;
    let mut data = [0u8; MAX_PSBT_B64];
    data[0] = b'!';
    w.handle_event(WalletEvent::PsbtScanned { data, len: 1 });
    assert!(w.scan_error(), "pre-condition: scan_error should be set");

    let (home_event, _) = create_touch_event_with_entropy(NAV_PREV_X + 1, NAV_BTN_Y + 1, 77);
    w.handle_event(home_event);
    assert_eq!(w.state, AppState::Home);
    assert!(!w.scan_error(), "scan_error must clear when navigating to Home");
}

use wallet_core::crypto::derive_key;
use wallet_core::display::{sd_row_at, signed_name};
use wallet_core::host::{
    card_actions, select_psbt_files, CardProgress, is_unsigned_psbt, migrate_v1_to_v3, psbt_payload, read_wallet_file, state_name,
    transition_note, TransitionNote, WalletFile,
};
use wallet_core::layout::{sd_file_y, SD_FILE_STEP, SD_FILE_X};
use wallet_core::machine::{AppState, PinGate};
use wallet_core::storage::{try_decrypt, DiskHeader};

#[test]
fn signed_name_appends_suffix() {
    assert_eq!(signed_name(b"foo.psbt"), b"foo-signed.psbt".to_vec());
    assert_eq!(signed_name(b"noext"), b"noext-signed.psbt".to_vec());
}

#[test]
fn sd_row_hit_test_matches_layout() {
    assert_eq!(sd_row_at(SD_FILE_X + 5, sd_file_y(0) + 30), Some(0));
    assert_eq!(sd_row_at(SD_FILE_X + 5, sd_file_y(0) + SD_FILE_STEP + 30), Some(1));
    assert_eq!(
        sd_row_at(SD_FILE_X + 5, sd_file_y(0) + 4 * SD_FILE_STEP + 30),
        None,
        "beyond max rows"
    );
    assert_eq!(sd_row_at(SD_FILE_X - 1, sd_file_y(0) + 30), None, "outside horizontally");
}

#[test]
fn sd_row_gap_between_rows_is_no_row() {
    assert_eq!(sd_row_at(SD_FILE_X + 5, sd_file_y(0) + 55), None);
}

#[test]
fn picks_psbt_files_but_not_signed_ones() {
    assert!(is_unsigned_psbt(b"a.psbt"));
    assert!(is_unsigned_psbt(b".psbt"));
    assert!(!is_unsigned_psbt(b"a-signed.psbt"));
    assert!(!is_unsigned_psbt(b"note.txt"));
    assert!(!is_unsigned_psbt(b"psbt"));
}

#[test]
fn psbt_payload_bounds() {
    assert!(psbt_payload(b"").is_none());
    assert!(psbt_payload(&[b'A'; 5465]).is_none());
    let (data, len) = psbt_payload(b"cHNidP8=").unwrap();
    assert_eq!(len, 8);
    assert_eq!(&data[..len], b"cHNidP8=");
    let (_, len) = psbt_payload(&[b'A'; 5464]).unwrap();
    assert_eq!(len, 5464);
}

#[test]
fn state_names() {
    assert_eq!(state_name(AppState::Welcome), "Welcome");
    assert_eq!(state_name(AppState::NewWallet { page: 2 }), "NewWallet(3/4)");
    assert_eq!(state_name(AppState::ShowMnemonic { page: 9 }), "ShowMnemonic(4/4)");
    assert_eq!(state_name(AppState::PinVerifying { digits: [0; 6], gate: PinGate::Unlock }), "PinVerifying");
}

#[test]
fn transition_notes_never_carry_words() {
    let before = AppState::RestoreWallet {
        word_idx: 3,
        buf: [0; 8],
        buf_len: 0,
        confirmed: [0; 24],
        error: false,
    };
    let after = AppState::RestoreWallet {
        word_idx: 4,
        buf: [0; 8],
        buf_len: 0,
        confirmed: [0; 24],
        error: false,
    };
    assert_eq!(transition_note(before, after), TransitionNote::RestoreProgress { confirmed: 4 });
    assert_eq!(transition_note(after, after), TransitionNote::Silent);
    let failed = AppState::RestoreWallet {
        word_idx: 0,
        buf: [0; 8],
        buf_len: 0,
        confirmed: [0; 24],
        error: true,
    };
    assert_eq!(transition_note(after, failed), TransitionNote::RestoreChecksumFailed);
    assert_eq!(transition_note(AppState::Home, AppState::Receive), TransitionNote::Moved);
    let p1 = AppState::SetPin { order: [0; 10], digits: [0; 6], len: 1 };
    let p2 = AppState::SetPin { order: [0; 10], digits: [0; 6], len: 2 };
    assert_eq!(transition_note(p1, p2), TransitionNote::SetPinDigits { now: 2, was: 1 });
}

fn legacy_file() -> [u8; 103] {
    let mut v1 = [0u8; 103];
    for (i, b) in v1.iter_mut().enumerate().take(96) {
        *b = (i * 3 + 1) as u8;
    }
    v1[96..102].copy_from_slice(&[1, 2, 3, 4, 5, 6]);
    v1[102] = 1;
    v1
}

#[test]
fn migration_seals_legacy_secrets_under_their_pin() {
    let v1 = legacy_file();
    let fresh = [0x5au8; 32];
    let img = migrate_v1_to_v3(&v1, &fresh).unwrap();
    let hdr = DiskHeader::parse(&img).unwrap();
    assert_eq!(hdr.failures, 0);
    assert!(!hdr.locked);
    assert_eq!(hdr.salt, [0x5au8; 16]);
    let key = derive_key(&[1, 2, 3, 4, 5, 6], &hdr.salt);
    let secrets = try_decrypt(&img, &key).unwrap();
    assert_eq!(&secrets.entropy[..], &v1[..32]);
    assert_eq!(&secrets.seed[..], &v1[32..96]);
}

#[test]
fn wallet_file_by_size() {
    let fresh = [0x01u8; 32];
    let img = [3u8; 143];
    assert!(matches!(read_wallet_file(&img, &fresh), WalletFile::Current(i) if i == img));
    let v1 = legacy_file();
    assert!(matches!(read_wallet_file(&v1, &fresh), WalletFile::Migrated(_)));
    let mut unset = v1;
    unset[102] = 0;
    assert!(matches!(read_wallet_file(&unset, &fresh), WalletFile::Unusable));
    assert!(matches!(read_wallet_file(&[0u8; 50], &fresh), WalletFile::Unusable));
}

#[test]
fn card_actions_follow_the_screens() {
    let fresh = CardProgress { descriptor_written: false, file_loaded: false, signed_written: false };
    let a = card_actions(AppState::Home, AppState::SignScan, fresh, true, false);
    assert!(a.refresh_listing && !a.export_descriptor && !a.write_signed);
    let a = card_actions(AppState::SignScan, AppState::SignScan, fresh, true, false);
    assert!(!a.refresh_listing);
    let a = card_actions(AppState::Settings, AppState::Home, fresh, true, false);
    assert!(a.export_descriptor);
    let done = CardProgress { descriptor_written: true, ..fresh };
    assert!(!card_actions(AppState::Settings, AppState::Home, done, true, false).export_descriptor);
    assert!(!card_actions(AppState::Settings, AppState::Home, fresh, false, false).export_descriptor);
    let loaded = CardProgress { file_loaded: true, ..fresh };
    assert!(card_actions(AppState::SignReview, AppState::SignResult, loaded, true, true).write_signed);
    assert!(!card_actions(AppState::SignReview, AppState::SignResult, fresh, true, true).write_signed);
    let written = CardProgress { signed_written: true, ..loaded };
    assert!(!card_actions(AppState::SignResult, AppState::SignResult, written, true, true).write_signed);
}

#[test]
fn lists_psbt_files_sorted_and_filters_signed() {
    let names: Vec<Vec<u8>> = ["b.psbt", "a.psbt", "a-signed.psbt", "note.txt"]
        .iter()
        .map(|n| n.as_bytes().to_vec())
        .collect();
    assert_eq!(select_psbt_files(&names), vec![b"a.psbt".to_vec(), b"b.psbt".to_vec()]);
}

#[test]
fn selects_at_most_four_smallest() {
    let names: Vec<Vec<u8>> = ["e.psbt", "c.psbt", "ab.psbt", "a.psbt", "d.psbt", "b.psbt"]
        .iter()
        .map(|n| n.as_bytes().to_vec())
        .collect();
    let picked: Vec<Vec<u8>> = select_psbt_files(&names);
    let want: Vec<Vec<u8>> =
        ["a.psbt", "ab.psbt", "b.psbt", "c.psbt"].iter().map(|n| n.as_bytes().to_vec()).collect();
    assert_eq!(picked, want);
    assert!(select_psbt_files(&Vec::new()).is_empty());
}

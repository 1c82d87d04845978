use wallet_core::derive::own_output_keys;
use wallet_core::psbt::{ParsedPsbt, TxOutput, MAX_SPK_LEN};
use wallet_core::qr::{qr_cell_origin, qr_layout, qr_matrix};
use wallet_core::review::{is_own_output, review_summary};

#[test]
fn qr_of_short_data_is_version_one() {
    let m = qr_matrix(b"TB1PQQQQ").unwrap();
    assert_eq!(m.width, 21);
    assert_eq!(m.dark.len(), 21 * 21);
    // The finder pattern's corner module is dark.
    assert!(m.dark[0]);
}

#[test]
fn qr_refuses_data_too_long() {
    assert!(qr_matrix(&[b'a'; 4000]).is_none());
}

#[test]
fn qr_layout_centres_with_quiet_zone() {
    let l = qr_layout(21, 280, 120, 240);
    assert_eq!(l.module_px, 8);
    assert_eq!(l.origin_x, 280 + 4 + 32);
    assert_eq!(l.origin_y, 120 + 4 + 32);
    assert_eq!(qr_cell_origin(&l, 2, 3), (316 + 16, 156 + 24));
}

#[test]
fn qr_layout_never_below_one_pixel() {
    let l = qr_layout(177, 0, 0, 100);
    assert_eq!(l.module_px, 1);
    assert_eq!(l.origin_x, 4);
}

fn p2tr_output(amount: u64, witness_program: [u8; 32]) -> TxOutput {
    let mut spk = [0u8; MAX_SPK_LEN];
    spk[0] = 0x51;
    spk[1] = 0x20;
    spk[2..34].copy_from_slice(&witness_program);
    TxOutput { amount_sats: amount, script_pubkey: spk, script_len: 34, tap_internal_key: None }
}

#[test]
fn change_anywhere_in_the_window_is_recognised() {
    let mut seed = [0u8; 64];
    seed[0] = 1;
    let keys = own_output_keys(&seed).unwrap();
    let change = p2tr_output(20_000, keys[27]);
    let send = p2tr_output(80_000, [0xbb; 32]);
    assert!(is_own_output(&change, Some(&keys)));
    assert!(!is_own_output(&send, Some(&keys)));
    assert!(!is_own_output(&change, None));

    let mut psbt = ParsedPsbt::zero();
    psbt.input_count = 2;
    psbt.inputs[0].amount_sats = 100_000;
    psbt.inputs[1].amount_sats = 5_000;
    psbt.output_count = 2;
    psbt.outputs[0] = send;
    psbt.outputs[1] = change;
    let s = review_summary(&psbt, Some(&keys));
    assert_eq!(s.total_in, 105_000);
    assert_eq!(s.total_out, 100_000);
    assert_eq!(s.fee, 5_000);
    assert_eq!(s.send_total, 80_000);
    assert!(!s.outputs_exceed_inputs);
    assert!(!s.fee_abnormal);

    let s = review_summary(&psbt, None);
    assert_eq!(s.send_total, 100_000);
}

#[test]
fn summary_flags_outputs_above_inputs() {
    let mut psbt = ParsedPsbt::zero();
    psbt.input_count = 1;
    psbt.inputs[0].amount_sats = 1_000;
    psbt.output_count = 1;
    psbt.outputs[0] = p2tr_output(2_000, [0xcc; 32]);
    let s = review_summary(&psbt, None);
    assert!(s.outputs_exceed_inputs);
    assert_eq!(s.fee, 0);
    assert!(!s.fee_abnormal);
}

#[test]
fn summary_flags_high_fee_and_saturates() {
    let mut psbt = ParsedPsbt::zero();
    psbt.input_count = 1;
    psbt.inputs[0].amount_sats = 100_000;
    psbt.output_count = 1;
    psbt.outputs[0] = p2tr_output(60_000, [0xcc; 32]);
    assert!(review_summary(&psbt, None).fee_abnormal);

    psbt.output_count = 2;
    psbt.outputs[0] = p2tr_output(u64::MAX, [0xcc; 32]);
    psbt.outputs[1] = p2tr_output(u64::MAX, [0xdd; 32]);
    let s = review_summary(&psbt, None);
    assert_eq!(s.send_total, u64::MAX);
    assert_eq!(s.total_out, u64::MAX);
}

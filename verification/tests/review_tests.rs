use wallet_core::display::{
    fmt_u64, fmt_u8, fmt_with_prefix_suffix, fmt_with_suffix, fmt_with_suffix_change,
    upper_address,
};
use wallet_core::psbt::{TxOutput, MAX_SPK_LEN};
use wallet_core::review::{fee_is_abnormal, is_change, output_address, output_witness_program};

fn p2tr_output(amount: u64, witness_program: [u8; 32]) -> TxOutput {
    let mut spk = [0u8; MAX_SPK_LEN];
    spk[0] = 0x51;
    spk[1] = 0x20;
    spk[2..34].copy_from_slice(&witness_program);
    TxOutput { amount_sats: amount, script_pubkey: spk, script_len: 34, tap_internal_key: None }
}

fn non_p2tr_output(amount: u64) -> TxOutput {
    let mut spk = [0u8; MAX_SPK_LEN];
    spk[0] = 0x00;
    spk[1] = 0x14;
    TxOutput { amount_sats: amount, script_pubkey: spk, script_len: 22, tap_internal_key: None }
}

#[test]
fn formats_numbers() {
    let mut buf = [0u8; 4];
    assert_eq!(fmt_u8(0, &mut buf), b"0");
    assert_eq!(fmt_u8(7, &mut buf), b"7");
    assert_eq!(fmt_u8(42, &mut buf), b"42");
    assert_eq!(fmt_u8(255, &mut buf), b"255");
}

#[test]
fn upper_address_uppercases_and_truncates() {
    let (buf, len) = upper_address(b"bc1pABCdef");
    assert_eq!(len, 10);
    assert_eq!(&buf[..len], b"BC1PABCDEF");

    let (buf, len) = upper_address(&[b'a'; 80]);
    assert_eq!(len, 62);
    assert_eq!(buf[0], b'A');
}

#[test]
fn is_change_matches_own_output_key() {
    let our = [0xaa; 32];
    let out = p2tr_output(50_000, our);
    assert!(is_change(&out, Some(&our)));
}

#[test]
fn is_change_rejects_different_output_key() {
    let our = [0xaa; 32];
    let other = [0xbb; 32];
    let out = p2tr_output(50_000, other);
    assert!(!is_change(&out, Some(&our)));
}

#[test]
fn is_change_ignores_psbt_metadata_when_spk_mismatches() {
    let our = [0xaa; 32];
    let other = [0xbb; 32];
    let mut out = p2tr_output(50_000, other);
    out.tap_internal_key = Some([0; 32]);
    assert!(!is_change(&out, Some(&our)));
}

#[test]
fn is_change_false_when_no_output_key_even_with_host_metadata() {
    let mut out = p2tr_output(50_000, [0xcc; 32]);
    out.tap_internal_key = Some([0xcc; 32]);
    assert!(!is_change(&out, None));
}

#[test]
fn is_change_false_for_non_p2tr_even_with_matching_key() {
    let out = non_p2tr_output(10_000);
    assert!(!is_change(&out, Some(&[0xaa; 32])));
}

#[test]
fn output_address_none_for_non_p2tr() {
    let out = non_p2tr_output(1000);
    assert!(output_address(&out).is_none());
}

#[test]
fn output_address_is_the_network_address_of_the_program() {
    let wp = [0x42u8; 32];
    let out = p2tr_output(1000, wp);
    let addr = output_address(&out).unwrap();
    assert_eq!(addr.len(), 62);
    assert!(addr.starts_with(b"tb1p"));
    assert_eq!(addr, wallet_core::derive::address_from_witness_program(&wp));
    assert_eq!(output_witness_program(&out), Some(wp));
}

#[test]
fn fee_abnormal_zero_fee_is_fine() {
    assert!(!fee_is_abnormal(0, 100_000, 200_000));
}

#[test]
fn fee_abnormal_small_fee_is_fine() {
    assert!(!fee_is_abnormal(5_000, 80_000, 100_000));
}

#[test]
fn fee_abnormal_fee_exceeds_send_total() {
    assert!(fee_is_abnormal(2_000, 1_000, 100_000));
}

#[test]
fn fee_abnormal_fee_exceeds_25_percent() {
    assert!(fee_is_abnormal(30_000, 80_000, 100_000));
}

#[test]
fn fee_abnormal_self_send_reasonable_fee_is_fine() {
    assert!(!fee_is_abnormal(1_000, 0, 100_000));
}

#[test]
fn fee_abnormal_self_send_huge_fee_warns() {
    assert!(fee_is_abnormal(30_000, 0, 100_000));
}

#[test]
fn fee_abnormal_exactly_25_percent_is_fine() {
    assert!(!fee_is_abnormal(25_000, 70_000, 100_000));
}

#[test]
fn fee_abnormal_one_over_25_percent() {
    assert!(fee_is_abnormal(25_001, 70_000, 100_000));
}

#[test]
fn fmt_helpers_no_panic_on_overflow_with_suffix() {
    let mut buf = [0u8; 28];
    let s = fmt_with_suffix(u64::MAX, b" sats", &mut buf);
    assert!(s.ends_with(b" sats"), "got: {s:?}");
}

#[test]
fn fmt_with_suffix_change_basic() {
    let mut buf = [0u8; 40];
    let s = fmt_with_suffix_change(50_000, &mut buf);
    assert_eq!(s, b"50000 sats (change)");
}

#[test]
fn fmt_with_prefix_suffix_basic() {
    let mut buf = [0u8; 28];
    let s = fmt_with_prefix_suffix(b"Fee: ", 1_234, b" sats", &mut buf);
    assert_eq!(s, b"Fee: 1234 sats");
}

#[test]
fn multi_output_classification() {
    let our_key = [0xaa; 32];
    let their_key = [0xbb; 32];

    let change_out = p2tr_output(20_000, our_key);
    let send_out = p2tr_output(80_000, their_key);

    assert!(is_change(&change_out, Some(&our_key)));
    assert!(!is_change(&send_out, Some(&our_key)));

    let outputs = [&send_out, &change_out];
    let send_total: u64 = outputs
        .iter()
        .filter(|o| !is_change(o, Some(&our_key)))
        .map(|o| o.amount_sats)
        .sum();
    assert_eq!(send_total, 80_000);
}

#[test]
fn multi_output_all_send_when_no_key() {
    let our_key = [0xaa; 32];

    let mut flagged = p2tr_output(20_000, our_key);
    flagged.tap_internal_key = Some(our_key);

    let send_out = p2tr_output(80_000, [0xbb; 32]);

    assert!(!is_change(&flagged, None));
    assert!(!is_change(&send_out, None));

    let outputs = [&flagged, &send_out];
    let send_total: u64 =
        outputs.iter().filter(|o| !is_change(o, None)).map(|o| o.amount_sats).sum();
    assert_eq!(send_total, 100_000);
}

#[test]
fn fmt_u64_extremes() {
    let mut buf = [0u8; 20];
    assert_eq!(fmt_u64(0, &mut buf), b"0");
    assert_eq!(fmt_u64(u64::MAX, &mut buf), b"18446744073709551615");
}

#[test]
fn fmt_with_suffix_too_long_is_question_mark() {
    let mut buf = [0u8; 28];
    let s = fmt_with_suffix(u64::MAX, b" satoshis in all", &mut buf);
    assert_eq!(s, b"?");
    let mut buf = [0u8; 28];
    let s = fmt_with_prefix_suffix(b"Fee to the miners: ", 123_456_789, b" sats", &mut buf);
    assert_eq!(s, b"?");
}

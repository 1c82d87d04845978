use wallet_core::psbt::{
    encode_signed, ParsedPsbt, PsbtError, MAX_INPUTS, MAX_OUTPUTS, MAX_SIGNED_RAW,
};

#[test]
fn totals_saturate_instead_of_overflowing() {
    let mut psbt = ParsedPsbt::zero();
    psbt.input_count = MAX_INPUTS;
    psbt.output_count = MAX_OUTPUTS;
    for i in 0..MAX_INPUTS {
        psbt.inputs[i].amount_sats = u64::MAX;
    }
    for i in 0..MAX_OUTPUTS {
        psbt.outputs[i].amount_sats = u64::MAX;
    }
    assert_eq!(psbt.total_in(), u64::MAX);
    assert_eq!(psbt.total_out(), u64::MAX);
    assert_eq!(psbt.fee(), 0);
}

#[test]
fn totals_sum_normally_in_range() {
    let mut psbt = ParsedPsbt::zero();
    psbt.input_count = 2;
    psbt.output_count = 1;
    psbt.inputs[0].amount_sats = 60_000;
    psbt.inputs[1].amount_sats = 40_000;
    psbt.outputs[0].amount_sats = 99_000;
    assert_eq!(psbt.total_in(), 100_000);
    assert_eq!(psbt.total_out(), 99_000);
    assert_eq!(psbt.fee(), 1_000);
}

/// An unsigned tx with non-default version, sequence and locktime.
fn build_exotic_tx(out: &mut [u8; 200]) -> usize {
    let mut p = 0usize;
    let mut spk = [0u8; 34];
    spk[0] = 0x51;
    spk[1] = 0x20;
    spk[2..].copy_from_slice(&[0x42u8; 32]);

    out[p..p + 4].copy_from_slice(&3u32.to_le_bytes());
    p += 4;
    out[p] = 1;
    p += 1;
    out[p..p + 32].copy_from_slice(&[0x11u8; 32]);
    p += 32;
    out[p..p + 4].copy_from_slice(&7u32.to_le_bytes());
    p += 4;
    out[p] = 0;
    p += 1;
    out[p..p + 4].copy_from_slice(&0xffff_fffeu32.to_le_bytes());
    p += 4;
    out[p] = 1;
    p += 1;
    out[p..p + 8].copy_from_slice(&12_345u64.to_le_bytes());
    p += 8;
    out[p] = 34;
    p += 1;
    out[p..p + 34].copy_from_slice(&spk);
    p += 34;
    out[p..p + 4].copy_from_slice(&0x1122_3344u32.to_le_bytes());
    p += 4;
    p
}

fn put(b: &mut [u8; 1024], pos: &mut usize, v: u8) {
    b[*pos] = v;
    *pos += 1;
}

fn puts(b: &mut [u8; 1024], pos: &mut usize, s: &[u8]) {
    b[*pos..*pos + s.len()].copy_from_slice(s);
    *pos += s.len();
}

fn p2tr_spk(program: u8) -> [u8; 34] {
    let mut spk = [0u8; 34];
    spk[0] = 0x51;
    spk[1] = 0x20;
    spk[2..].copy_from_slice(&[program; 32]);
    spk
}

/// Wraps a raw tx in a minimal PSBT with one WITNESS_UTXO input map.
fn wrap_tx_in_psbt(tx: &[u8], out: &mut [u8; 1024]) -> usize {
    let mut p = 0usize;
    puts(out, &mut p, b"psbt\xff");
    put(out, &mut p, 1);
    put(out, &mut p, 0x00);
    put(out, &mut p, tx.len() as u8);
    puts(out, &mut p, tx);
    put(out, &mut p, 0x00);
    put(out, &mut p, 1);
    put(out, &mut p, 0x01);
    put(out, &mut p, 8 + 1 + 34);
    puts(out, &mut p, &12_345u64.to_le_bytes());
    put(out, &mut p, 34);
    puts(out, &mut p, &p2tr_spk(0x42));
    put(out, &mut p, 0x00);
    put(out, &mut p, 0x00);
    p
}

#[test]
fn signed_encode_preserves_tx_verbatim() {
    let mut tx = [0u8; 200];
    let tx_len = build_exotic_tx(&mut tx);

    let mut raw = [0u8; 1024];
    let raw_len = wrap_tx_in_psbt(&tx[..tx_len], &mut raw);

    let parsed = ParsedPsbt::parse(&raw[..raw_len]).expect("valid PSBT");
    assert_eq!(parsed.version, 3);
    assert_eq!(parsed.locktime, 0x1122_3344);
    assert_eq!(parsed.inputs[0].sequence, 0xffff_fffe);

    let mut signed = [0u8; MAX_SIGNED_RAW];
    let signed_len = encode_signed(&parsed, &mut signed).expect("encode fits");

    let reparsed = ParsedPsbt::parse(&signed[..signed_len]).expect("signed PSBT reparses");
    assert_eq!(reparsed.tx_len, tx_len, "tx length preserved");
    assert_eq!(
        &reparsed.tx_raw[..reparsed.tx_len],
        &tx[..tx_len],
        "signed PSBT must carry the original tx byte-for-byte",
    );
}

#[test]
fn rejects_non_empty_script_sig() {
    let mut tx = [0u8; 200];
    let mut p = 0usize;
    tx[p..p + 4].copy_from_slice(&2u32.to_le_bytes());
    p += 4;
    tx[p] = 1;
    p += 1;
    tx[p..p + 32].copy_from_slice(&[0x11u8; 32]);
    p += 32;
    tx[p..p + 4].copy_from_slice(&0u32.to_le_bytes());
    p += 4;
    tx[p] = 1;
    p += 1;
    tx[p] = 0xaa;
    p += 1;
    tx[p..p + 4].copy_from_slice(&0xffff_ffffu32.to_le_bytes());
    p += 4;
    tx[p] = 1;
    p += 1;
    tx[p..p + 8].copy_from_slice(&1_000u64.to_le_bytes());
    p += 8;
    tx[p] = 34;
    p += 1;
    tx[p] = 0x51;
    p += 1;
    tx[p] = 0x20;
    p += 1;
    tx[p..p + 32].copy_from_slice(&[0x42u8; 32]);
    p += 32;
    tx[p..p + 4].copy_from_slice(&0u32.to_le_bytes());
    p += 4;

    let mut raw = [0u8; 1024];
    let raw_len = wrap_tx_in_psbt(&tx[..p], &mut raw);
    assert!(matches!(ParsedPsbt::parse(&raw[..raw_len]), Err(PsbtError::NonEmptyScriptSig)));
}

#[test]
fn parse_reads_tap_internal_key_bip371() {
    let mut tx = [0u8; 200];
    let tx_len = build_exotic_tx(&mut tx);

    let mut raw = [0u8; 1024];
    let mut p = 0usize;
    puts(&mut raw, &mut p, b"psbt\xff");
    put(&mut raw, &mut p, 1);
    put(&mut raw, &mut p, 0x00);
    put(&mut raw, &mut p, tx_len as u8);
    puts(&mut raw, &mut p, &tx[..tx_len]);
    put(&mut raw, &mut p, 0x00);

    put(&mut raw, &mut p, 1);
    put(&mut raw, &mut p, 0x01);
    put(&mut raw, &mut p, 8 + 1 + 34);
    puts(&mut raw, &mut p, &12_345u64.to_le_bytes());
    put(&mut raw, &mut p, 34);
    puts(&mut raw, &mut p, &p2tr_spk(0x42));
    put(&mut raw, &mut p, 1);
    put(&mut raw, &mut p, 0x17);
    put(&mut raw, &mut p, 32);
    puts(&mut raw, &mut p, &[0x5au8; 32]);
    put(&mut raw, &mut p, 0x00);
    put(&mut raw, &mut p, 0x00);

    let parsed = ParsedPsbt::parse(&raw[..p]).expect("PSBT avec 0x17 doit parser");
    assert_eq!(
        parsed.inputs[0].tap_internal_key,
        Some([0x5au8; 32]),
        "0x17 doit être lu comme tap_internal_key"
    );
}

#[test]
fn rejects_bad_magic() {
    let raw = *b"psbu\xff\x00";
    assert!(matches!(ParsedPsbt::parse(&raw), Err(PsbtError::BadMagic)));
}

#[test]
fn rejects_truncated_input() {
    let mut tx = [0u8; 200];
    let tx_len = build_exotic_tx(&mut tx);
    let mut raw = [0u8; 1024];
    let raw_len = wrap_tx_in_psbt(&tx[..tx_len], &mut raw);
    assert!(ParsedPsbt::parse(&raw[..raw_len - 3]).is_err());
}

#[test]
fn encode_signed_reports_small_buffer() {
    let mut tx = [0u8; 200];
    let tx_len = build_exotic_tx(&mut tx);
    let mut raw = [0u8; 1024];
    let raw_len = wrap_tx_in_psbt(&tx[..tx_len], &mut raw);
    let parsed = ParsedPsbt::parse(&raw[..raw_len]).unwrap();
    let mut tiny = [0u8; 10];
    assert!(matches!(encode_signed(&parsed, &mut tiny), Err(PsbtError::OutputBufTooSmall)));
}

#[test]
fn parse_then_encode_then_parse_is_stable() {
    let mut tx = [0u8; 200];
    let tx_len = build_exotic_tx(&mut tx);
    let mut raw = [0u8; 1024];
    let raw_len = wrap_tx_in_psbt(&tx[..tx_len], &mut raw);
    let first = ParsedPsbt::parse(&raw[..raw_len]).unwrap();
    let mut out = [0u8; MAX_SIGNED_RAW];
    let n = encode_signed(&first, &mut out).unwrap();
    let second = ParsedPsbt::parse(&out[..n]).unwrap();
    assert_eq!(second.input_count, first.input_count);
    assert_eq!(second.output_count, first.output_count);
    assert_eq!(second.inputs[0].amount_sats, 12_345);
    assert_eq!(second.inputs[0].script_len, 34);
    assert_eq!(second.outputs[0].amount_sats, 12_345);
    let mut again = [0u8; MAX_SIGNED_RAW];
    let m = encode_signed(&second, &mut again).unwrap();
    assert_eq!(&out[..n], &again[..m]);
}

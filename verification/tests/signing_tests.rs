use k256::schnorr::{Signature, VerifyingKey};
use wallet_core::derive::{own_internal_keys, own_output_keys, tap_keypair, taproot_address, taproot_tweak_pub};
use wallet_core::psbt::{ParsedPsbt, TxInput, TxOutput};
use wallet_core::sighash::taproot_sighash;
use wallet_core::signing::{sign_psbt, SignError};

fn test_seed() -> [u8; 64] {
    let mut s = [0u8; 64];
    s[0] = 1;
    s
}

fn p2tr_spk(output_key: &[u8; 32]) -> [u8; 34] {
    let mut spk = [0u8; 34];
    spk[0] = 0x51;
    spk[1] = 0x20;
    spk[2..].copy_from_slice(output_key);
    spk
}

fn input(txid: u8, vout: u32, amount: u64, spk: [u8; 34], ik: Option<[u8; 32]>) -> TxInput {
    TxInput {
        txid: [txid; 32],
        vout,
        sequence: 0xffff_ffff,
        amount_sats: amount,
        script_pubkey: spk,
        script_len: 34,
        tap_internal_key: ik,
        tap_key_sig: None,
        sighash_type: None,
    }
}

/// A single-input PSBT spending the test seed's receive output.
fn make_test_psbt(seed: &[u8; 64]) -> ParsedPsbt {
    let (internal_key, _) = tap_keypair(seed).unwrap();
    let _addr = taproot_address(seed).unwrap();
    let output_key = taproot_tweak_pub(&internal_key).unwrap();
    let spk = p2tr_spk(&output_key);

    let mut psbt = ParsedPsbt::zero();
    psbt.version = 2;
    psbt.locktime = 0;
    psbt.input_count = 1;
    psbt.inputs[0] = input(0xab, 0, 100_000, spk, Some(internal_key));
    psbt.output_count = 1;
    psbt.outputs[0] =
        TxOutput { amount_sats: 99_000, script_pubkey: spk, script_len: 34, tap_internal_key: None };
    psbt
}

#[test]
fn signs_matching_input() {
    let seed = test_seed();
    let mut psbt = make_test_psbt(&seed);
    let result = sign_psbt(&mut psbt, &seed, &[0u8; 32]);
    assert!(result.is_ok(), "sign_psbt failed: {result:?}");
    assert_eq!(result.unwrap(), 1);
    assert!(psbt.inputs[0].tap_key_sig.is_some());
    let sig = psbt.inputs[0].tap_key_sig.unwrap();
    assert_eq!(sig.len(), 64);
}

#[test]
fn sign_then_verify() {
    let seed = test_seed();
    let (internal_key, _) = tap_keypair(&seed).unwrap();
    let output_key = taproot_tweak_pub(&internal_key).unwrap();
    let vk = VerifyingKey::from_bytes(&output_key).unwrap();

    let mut psbt = make_test_psbt(&seed);
    let sighash = taproot_sighash(&psbt, 0);
    sign_psbt(&mut psbt, &seed, &[0u8; 32]).unwrap();

    let sig_bytes = psbt.inputs[0].tap_key_sig.unwrap();
    let sig = Signature::try_from(sig_bytes.as_ref()).unwrap();
    vk.verify_raw(&sighash, &sig)
        .expect("BIP340 Schnorr signature failed to verify against tweaked pubkey");
}

#[test]
fn rejects_mismatched_internal_key() {
    let seed = test_seed();
    let mut psbt = make_test_psbt(&seed);
    if let Some(ref mut k) = psbt.inputs[0].tap_internal_key {
        k[0] ^= 0xff;
    }
    let result = sign_psbt(&mut psbt, &seed, &[0u8; 32]);
    assert_eq!(result, Err(SignError::NoMatchingInput));
}

#[test]
fn rejects_missing_internal_key() {
    let seed = test_seed();
    let mut psbt = make_test_psbt(&seed);
    psbt.inputs[0].tap_internal_key = None;
    let result = sign_psbt(&mut psbt, &seed, &[0u8; 32]);
    assert_eq!(result, Err(SignError::NoMatchingInput));
}

#[test]
fn rejects_unsupported_sighash_type() {
    let seed = test_seed();
    let mut psbt = make_test_psbt(&seed);
    psbt.inputs[0].sighash_type = Some(3);
    let result = sign_psbt(&mut psbt, &seed, &[0u8; 32]);
    assert_eq!(result, Err(SignError::UnsupportedSighash));
}

#[test]
fn accepts_sighash_all_explicit() {
    let seed = test_seed();
    let mut psbt = make_test_psbt(&seed);
    psbt.inputs[0].sighash_type = Some(1);
    let result = sign_psbt(&mut psbt, &seed, &[0u8; 32]);
    assert_eq!(result, Err(SignError::UnsupportedSighash));
    assert!(psbt.inputs[0].tap_key_sig.is_none());
}

#[test]
fn accepts_sighash_none_default() {
    let seed = test_seed();
    let mut psbt = make_test_psbt(&seed);
    psbt.inputs[0].sighash_type = None;
    let result = sign_psbt(&mut psbt, &seed, &[0u8; 32]);
    assert!(result.is_ok(), "expected ok for sighash None, got {result:?}");
}

#[test]
fn rejects_foreign_witness_program() {
    let seed = test_seed();
    let mut psbt = make_test_psbt(&seed);
    psbt.inputs[0].script_pubkey[10] ^= 0xff;
    let result = sign_psbt(&mut psbt, &seed, &[0u8; 32]);
    assert_eq!(result, Err(SignError::WitnessProgramMismatch));
}

#[test]
fn rejects_missing_witness_utxo() {
    let seed = test_seed();
    let mut psbt = make_test_psbt(&seed);
    psbt.inputs[0].script_len = 0;
    let result = sign_psbt(&mut psbt, &seed, &[0u8; 32]);
    assert_eq!(result, Err(SignError::MissingWitnessUtxo));
}

#[test]
fn signs_multi_input_psbt() {
    let seed = test_seed();
    let (internal_key, _) = tap_keypair(&seed).unwrap();
    let output_key = taproot_tweak_pub(&internal_key).unwrap();
    let vk = VerifyingKey::from_bytes(&output_key).unwrap();
    let spk = p2tr_spk(&output_key);

    let mut psbt = ParsedPsbt::zero();
    psbt.version = 2;
    psbt.locktime = 0;
    psbt.input_count = 2;
    psbt.inputs[0] = input(0xaa, 0, 60_000, spk, Some(internal_key));
    psbt.inputs[1] = input(0xbb, 1, 40_000, spk, Some(internal_key));
    psbt.output_count = 1;
    psbt.outputs[0] =
        TxOutput { amount_sats: 99_000, script_pubkey: spk, script_len: 34, tap_internal_key: None };

    let sh0 = taproot_sighash(&psbt, 0);
    let sh1 = taproot_sighash(&psbt, 1);

    let result = sign_psbt(&mut psbt, &seed, &[0u8; 32]);
    assert!(result.is_ok(), "multi-input sign failed: {result:?}");
    assert_eq!(result.unwrap(), 2);

    for (idx, sh) in [(0, sh0), (1, sh1)] {
        let sig_bytes = psbt.inputs[idx].tap_key_sig.unwrap();
        let sig = Signature::try_from(sig_bytes.as_ref()).unwrap();
        vk.verify_raw(&sh, &sig)
            .unwrap_or_else(|_| panic!("sig for input {idx} failed verification"));
    }
    assert_ne!(sh0, sh1, "sighashes for different input indices must differ");
}

#[test]
fn partial_sign_skips_foreign_inputs() {
    let seed = test_seed();
    let (internal_key, _) = tap_keypair(&seed).unwrap();
    let output_key = taproot_tweak_pub(&internal_key).unwrap();
    let spk = p2tr_spk(&output_key);

    let foreign_ik = [0xde; 32];
    let foreign_ok = taproot_tweak_pub(&foreign_ik).unwrap();
    let foreign_spk = p2tr_spk(&foreign_ok);

    let mut psbt = ParsedPsbt::zero();
    psbt.version = 2;
    psbt.input_count = 2;
    psbt.inputs[0] = input(0x01, 0, 50_000, spk, Some(internal_key));
    psbt.inputs[1] = input(0x02, 0, 50_000, foreign_spk, Some(foreign_ik));
    psbt.output_count = 1;
    psbt.outputs[0] =
        TxOutput { amount_sats: 99_000, script_pubkey: spk, script_len: 34, tap_internal_key: None };

    let result = sign_psbt(&mut psbt, &seed, &[0u8; 32]);
    assert_eq!(result, Ok(1), "should sign exactly 1 matching input");
    assert!(psbt.inputs[0].tap_key_sig.is_some(), "own input must be signed");
    assert!(psbt.inputs[1].tap_key_sig.is_none(), "foreign input must stay unsigned");
}

#[test]
fn signing_error_messages() {
    assert!(!SignError::NoMatchingInput.message().is_empty());
    assert_ne!(SignError::NoMatchingInput.message(), SignError::UnsupportedSighash.message());
}

#[test]
fn signing_keeps_everything_but_signatures() {
    let seed = test_seed();
    let before = make_test_psbt(&seed);
    let mut psbt = before;
    sign_psbt(&mut psbt, &seed, &[7u8; 32]).unwrap();
    assert_eq!(psbt.input_count, before.input_count);
    assert_eq!(psbt.inputs[0].amount_sats, before.inputs[0].amount_sats);
    assert_eq!(psbt.inputs[0].txid, before.inputs[0].txid);
    assert_eq!(psbt.outputs[0].amount_sats, before.outputs[0].amount_sats);
    assert_eq!(taproot_sighash(&psbt, 0), taproot_sighash(&before, 0));
}

#[test]
fn sighash_changes_with_amount() {
    let seed = test_seed();
    let a = make_test_psbt(&seed);
    let mut b = a;
    b.inputs[0].amount_sats += 1;
    assert_ne!(taproot_sighash(&a, 0), taproot_sighash(&b, 0));
}

#[test]
fn signs_inputs_of_every_window_slot() {
    let seed = test_seed();
    let iks = own_internal_keys(&seed).unwrap();
    let oks = own_output_keys(&seed).unwrap();
    for s in [1usize, 19, 20, 39] {
        let mut psbt = make_test_psbt(&seed);
        psbt.inputs[0] = input(0xcd, 1, 50_000, p2tr_spk(&oks[s]), Some(iks[s]));
        let sighash = taproot_sighash(&psbt, 0);
        assert_eq!(sign_psbt(&mut psbt, &seed, &[5u8; 32]), Ok(1));
        let sig = Signature::try_from(psbt.inputs[0].tap_key_sig.unwrap().as_ref()).unwrap();
        VerifyingKey::from_bytes(&oks[s]).unwrap().verify_raw(&sighash, &sig).expect("slot signature verifies");
    }
}

#[test]
fn window_input_with_another_slots_utxo_is_refused() {
    let seed = test_seed();
    let iks = own_internal_keys(&seed).unwrap();
    let oks = own_output_keys(&seed).unwrap();
    let mut psbt = make_test_psbt(&seed);
    psbt.inputs[0] = input(0xcd, 1, 50_000, p2tr_spk(&oks[3]), Some(iks[4]));
    assert_eq!(sign_psbt(&mut psbt, &seed, &[0u8; 32]), Err(SignError::WitnessProgramMismatch));
}

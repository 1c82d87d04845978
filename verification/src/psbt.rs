//! PSBT v0 (BIP174) parser and encoder for Taproot key-path spends.
//!
//! The parser is specified by `spec_parse`, a function on the raw bytes that
//! walks the maps the way BIP174 lays them out; the encoder by
//! `spec_encode_signed`. The unsigned transaction is kept byte for byte as
//! received and re-emitted verbatim, so what gets signed is what was scanned.
use vstd::prelude::*;

verus! {

pub const MAX_INPUTS: usize = 5;

pub const MAX_OUTPUTS: usize = 8;

/// A P2TR scriptPubKey is exactly 34 bytes.
pub const MAX_SPK_LEN: usize = 34;

pub const MAX_PSBT_RAW: usize = 4096;

/// Base64 capacity a scan buffer must carry for a max-size PSBT
/// (`ceil(MAX_PSBT_RAW / 3) * 4`).
pub const MAX_PSBT_B64: usize = 5464;

/// Bytes added to a PSBT per signed input: PSBT_IN_TAP_KEY_SIG is
/// klen(1) + key(1) + vlen(1) + sig(64).
pub const TAP_KEY_SIG_KV: usize = 67;

/// Largest possible re-encoded signed PSBT: the input budget plus the
/// signatures the wallet may add.
pub const MAX_SIGNED_RAW: usize = MAX_PSBT_RAW + MAX_INPUTS * TAP_KEY_SIG_KV;

/// `ceil(MAX_SIGNED_RAW / 3) * 4`.
pub const MAX_SIGNED_B64: usize = 5908;

/// Largest unsigned tx accepted inside the global map.
pub const MAX_TX_RAW: usize = 768;

// ── Error ─────────────────────────────────────────────────────────────────────
#[derive(Debug, Clone, Copy, PartialEq, Eq, Structural)]
pub enum PsbtError {
    BadMagic,
    Truncated,
    TooManyInputs,
    TooManyOutputs,
    ScriptTooLong,
    MissingUnsignedTx,
    OutputBufTooSmall,
    /// The global unsigned tx carries a non-empty scriptSig.
    NonEmptyScriptSig,
    /// The global unsigned tx exceeds `MAX_TX_RAW`.
    TxTooLarge,
}

// ── Data structures ───────────────────────────────────────────────────────────
#[derive(Clone, Copy)]
pub struct TxInput {
    /// Little-endian, as on the wire.
    pub txid: [u8; 32],
    pub vout: u32,
    pub sequence: u32,
    /// Amount in satoshis, from PSBT_IN_WITNESS_UTXO.
    pub amount_sats: u64,
    /// scriptPubKey of the UTXO, from PSBT_IN_WITNESS_UTXO.
    pub script_pubkey: [u8; 34],
    pub script_len: usize,
    /// x-only internal key, from PSBT_IN_TAP_INTERNAL_KEY (0x17).
    pub tap_internal_key: Option<[u8; 32]>,
    /// 64-byte Schnorr signature, set by the signer.
    pub tap_key_sig: Option<[u8; 64]>,
    /// From PSBT_IN_SIGHASH_TYPE (0x03); `None` when not given.
    pub sighash_type: Option<u32>,
}

#[derive(Clone, Copy)]
pub struct TxOutput {
    pub amount_sats: u64,
    pub script_pubkey: [u8; 34],
    pub script_len: usize,
    /// x-only internal key from PSBT_OUT_TAP_INTERNAL_KEY (0x05).
    pub tap_internal_key: Option<[u8; 32]>,
}

#[derive(Clone, Copy)]
pub struct ParsedPsbt {
    pub version: i32,
    pub locktime: u32,
    pub inputs: [TxInput; 5],
    pub input_count: usize,
    pub outputs: [TxOutput; 8],
    pub output_count: usize,
    /// The global unsigned tx, byte for byte as received.
    pub tx_raw: [u8; 768],
    pub tx_len: usize,
}

// ── Mathematical model ───────────────────────────────────────────────────────
/// What the wallet knows of one input.
#[verifier::ext_equal]
pub struct InputView {
    pub txid: Seq<u8>,
    pub vout: u32,
    pub sequence: u32,
    pub amount: u64,
    pub script: Seq<u8>,
    pub tap_internal_key: Option<Seq<u8>>,
    pub tap_key_sig: Option<Seq<u8>>,
    pub sighash_type: Option<u32>,
}

/// What the wallet knows of one output.
#[verifier::ext_equal]
pub struct OutputView {
    pub amount: u64,
    pub script: Seq<u8>,
    pub tap_internal_key: Option<Seq<u8>>,
}

/// A parsed PSBT: the inputs and outputs that the unsigned tx declares.
#[verifier::ext_equal]
pub struct PsbtView {
    pub version: i32,
    pub locktime: u32,
    pub inputs: Seq<InputView>,
    pub outputs: Seq<OutputView>,
    pub tx: Seq<u8>,
}

pub open spec fn opt_view<const N: usize>(o: Option<[u8; N]>) -> Option<Seq<u8>> {
    match o {
        Some(a) => Some(a@),
        None => None,
    }
}

impl TxInput {
    pub open spec fn wf(&self) -> bool {
        self.script_len <= 34
    }

    /// The script buffer holds zeros past the script.
    pub open spec fn clean(&self) -> bool {
        forall|k: int| self.script_len <= k < 34 ==> self.script_pubkey@[k] == 0
    }

    /// The empty slot: what `TxInput::zero` gives.
    pub open spec fn is_zero(&self) -> bool {
        &&& self.txid@ == Seq::new(32, |i: int| 0u8)
        &&& self.vout == 0
        &&& self.sequence == 0xffff_ffff
        &&& self.amount_sats == 0
        &&& self.script_pubkey@ == Seq::new(34, |i: int| 0u8)
        &&& self.script_len == 0
        &&& self.tap_internal_key is None
        &&& self.tap_key_sig is None
        &&& self.sighash_type is None
    }

    pub open spec fn view(&self) -> InputView {
        InputView {
            txid: self.txid@,
            vout: self.vout,
            sequence: self.sequence,
            amount: self.amount_sats,
            script: self.script_pubkey@.take(self.script_len as int),
            tap_internal_key: opt_view(self.tap_internal_key),
            tap_key_sig: opt_view(self.tap_key_sig),
            sighash_type: self.sighash_type,
        }
    }
}

impl TxOutput {
    pub open spec fn wf(&self) -> bool {
        self.script_len <= 34
    }

    /// The script buffer holds zeros past the script.
    pub open spec fn clean(&self) -> bool {
        forall|k: int| self.script_len <= k < 34 ==> self.script_pubkey@[k] == 0
    }

    /// The empty slot: what `TxOutput::zero` gives.
    pub open spec fn is_zero(&self) -> bool {
        &&& self.amount_sats == 0
        &&& self.script_pubkey@ == Seq::new(34, |i: int| 0u8)
        &&& self.script_len == 0
        &&& self.tap_internal_key is None
    }

    pub open spec fn view(&self) -> OutputView {
        OutputView {
            amount: self.amount_sats,
            script: self.script_pubkey@.take(self.script_len as int),
            tap_internal_key: opt_view(self.tap_internal_key),
        }
    }
}

impl ParsedPsbt {
    /// Counts and lengths stay within the fixed buffers.
    pub open spec fn wf(&self) -> bool {
        &&& self.input_count <= MAX_INPUTS
        &&& self.output_count <= MAX_OUTPUTS
        &&& self.tx_len <= MAX_TX_RAW
        &&& forall|i: int| 0 <= i < MAX_INPUTS ==> (#[trigger] self.inputs[i]).wf()
        &&& forall|i: int| 0 <= i < MAX_OUTPUTS ==> (#[trigger] self.outputs[i]).wf()
    }

    /// The slots in use hold no stray script bytes; the others are empty.
    pub open spec fn slots_canonical(&self) -> bool {
        &&& forall|i: int| 0 <= i < self.input_count ==> (#[trigger] self.inputs[i]).clean()
        &&& forall|i: int| self.input_count <= i < MAX_INPUTS ==> (#[trigger] self.inputs[i]).is_zero()
        &&& forall|i: int| 0 <= i < self.output_count ==> (#[trigger] self.outputs[i]).clean()
        &&& forall|i: int| self.output_count <= i < MAX_OUTPUTS ==> (#[trigger] self.outputs[i]).is_zero()
    }

    /// Nothing beyond what the view shows: the unsigned-tx buffer is zero past
    /// the tx, and the slots are canonical.
    pub open spec fn canonical(&self) -> bool {
        &&& forall|k: int| self.tx_len <= k < MAX_TX_RAW ==> self.tx_raw@[k] == 0
        &&& self.slots_canonical()
    }

    /// What the sighash reads within bounds: the counts, and the scripts of
    /// the inputs and outputs in use.
    pub open spec fn hashable(&self) -> bool {
        &&& self.input_count <= MAX_INPUTS
        &&& self.output_count <= MAX_OUTPUTS
        &&& forall|i: int| 0 <= i < self.input_count ==> (#[trigger] self.inputs[i]).wf()
        &&& forall|i: int| 0 <= i < self.output_count ==> (#[trigger] self.outputs[i]).wf()
    }

    /// What the signed encoding reads within bounds: the counts, the unsigned
    /// tx, and the scripts of the inputs in use.
    pub open spec fn encodable(&self) -> bool {
        &&& self.input_count <= MAX_INPUTS
        &&& self.output_count <= MAX_OUTPUTS
        &&& self.tx_len <= MAX_TX_RAW
        &&& forall|i: int| 0 <= i < self.input_count ==> (#[trigger] self.inputs[i]).wf()
    }

    pub open spec fn view(&self) -> PsbtView {
        PsbtView {
            version: self.version,
            locktime: self.locktime,
            inputs: Seq::new(self.input_count as nat, |i: int| self.inputs[i].view()),
            outputs: Seq::new(self.output_count as nat, |i: int| self.outputs[i].view()),
            tx: self.tx_raw@.take(self.tx_len as int),
        }
    }
}

// ── Wire primitives ──────────────────────────────────────────────────────────
pub open spec fn le32_value(b: Seq<u8>) -> u32 {
    (b[0] + b[1] * 0x100 + b[2] * 0x10000 + b[3] * 0x1000000) as u32
}

pub open spec fn le64_value(b: Seq<u8>) -> u64 {
    (b[0] + b[1] * 0x100 + b[2] * 0x10000 + b[3] * 0x1000000 + b[4] * 0x100000000 + b[5]
        * 0x10000000000 + b[6] * 0x1000000000000 + b[7] * 0x100000000000000) as u64
}

/// Bitcoin CompactSize integer at the front of `rest`, and what follows it.
pub open spec fn spec_varint(rest: Seq<u8>) -> Option<(u64, Seq<u8>)> {
    if rest.len() == 0 {
        None
    } else {
        let b = rest[0];
        if b == 0xfd {
            if rest.len() >= 3 {
                Some(((rest[1] + rest[2] * 0x100) as u64, rest.skip(3)))
            } else {
                None
            }
        } else if b == 0xfe {
            if rest.len() >= 5 {
                Some((le32_value(rest.subrange(1, 5)) as u64, rest.skip(5)))
            } else {
                None
            }
        } else if b == 0xff {
            if rest.len() >= 9 {
                Some((le64_value(rest.subrange(1, 9)), rest.skip(9)))
            } else {
                None
            }
        } else {
            Some((b as u64, rest.skip(1)))
        }
    }
}

/// One key-value pair of a PSBT map; `None` at the map's terminator.
pub open spec fn spec_kv(rest: Seq<u8>) -> Result<
    (Option<(Seq<u8>, Seq<u8>)>, Seq<u8>),
    PsbtError,
> {
    match spec_varint(rest) {
        None => Err(PsbtError::Truncated),
        Some((klen, r1)) => if klen == 0 {
            Ok((None, r1))
        } else if klen > r1.len() {
            Err(PsbtError::Truncated)
        } else {
            let key = r1.take(klen as int);
            let r2 = r1.skip(klen as int);
            match spec_varint(r2) {
                None => Err(PsbtError::Truncated),
                Some((vlen, r3)) => if vlen > r3.len() {
                    Err(PsbtError::Truncated)
                } else {
                    Ok((Some((key, r3.take(vlen as int))), r3.skip(vlen as int)))
                },
            }
        },
    }
}

pub proof fn lemma_varint_consumes(rest: Seq<u8>)
    ensures
        spec_varint(rest) matches Some((_, r)) ==> r.len() < rest.len(),
{
}

pub proof fn lemma_kv_consumes(rest: Seq<u8>)
    ensures
        spec_kv(rest) matches Ok((_, r)) ==> r.len() < rest.len(),
{
    lemma_varint_consumes(rest);
    if let Some((klen, r1)) = spec_varint(rest) {
        if klen != 0 && klen <= r1.len() {
            lemma_varint_consumes(r1.skip(klen as int));
        }
    }
}

// ── The unsigned transaction ─────────────────────────────────────────────────
pub open spec fn blank_input(txid: Seq<u8>, vout: u32, sequence: u32) -> InputView {
    InputView {
        txid,
        vout,
        sequence,
        amount: 0,
        script: Seq::empty(),
        tap_internal_key: None,
        tap_key_sig: None,
        sighash_type: None,
    }
}

pub open spec fn blank_output(amount: u64, script: Seq<u8>) -> OutputView {
    OutputView { amount, script, tap_internal_key: None }
}

/// Prepends `xs` to the sequence that an `Ok` result carries.
pub open spec fn prepend_ok<T>(xs: Seq<T>, r: Result<(Seq<T>, Seq<u8>), PsbtError>) -> Result<
    (Seq<T>, Seq<u8>),
    PsbtError,
> {
    match r {
        Ok((ys, rest)) => Ok((xs + ys, rest)),
        Err(e) => Err(e),
    }
}

/// One input of the unsigned tx: txid, vout, an empty scriptSig, sequence.
pub open spec fn spec_tx_input(rest: Seq<u8>) -> Result<(InputView, Seq<u8>), PsbtError> {
    if rest.len() < 36 {
        Err(PsbtError::Truncated)
    } else {
        let txid = rest.take(32);
        let vout = le32_value(rest.subrange(32, 36));
        match spec_varint(rest.skip(36)) {
            None => Err(PsbtError::Truncated),
            Some((script_len, r1)) => if script_len > 0 {
                Err(PsbtError::NonEmptyScriptSig)
            } else if r1.len() < 4 {
                Err(PsbtError::Truncated)
            } else {
                Ok((blank_input(txid, vout, le32_value(r1.take(4))), r1.skip(4)))
            },
        }
    }
}

/// `n` inputs of the unsigned tx.
pub open spec fn spec_tx_inputs(rest: Seq<u8>, n: nat) -> Result<
    (Seq<InputView>, Seq<u8>),
    PsbtError,
>
    decreases n,
{
    if n == 0 {
        Ok((Seq::empty(), rest))
    } else {
        match spec_tx_input(rest) {
            Err(e) => Err(e),
            Ok((inp, r)) => prepend_ok(seq![inp], spec_tx_inputs(r, (n - 1) as nat)),
        }
    }
}

/// One output of the unsigned tx: amount and scriptPubKey.
pub open spec fn spec_tx_output(rest: Seq<u8>) -> Result<(OutputView, Seq<u8>), PsbtError> {
    if rest.len() < 8 {
        Err(PsbtError::Truncated)
    } else {
        let amount = le64_value(rest.take(8));
        match spec_varint(rest.skip(8)) {
            None => Err(PsbtError::Truncated),
            Some((spk_len, r1)) => if spk_len > MAX_SPK_LEN {
                Err(PsbtError::ScriptTooLong)
            } else if spk_len > r1.len() {
                Err(PsbtError::Truncated)
            } else {
                Ok((blank_output(amount, r1.take(spk_len as int)), r1.skip(spk_len as int)))
            },
        }
    }
}

/// `n` outputs of the unsigned tx.
pub open spec fn spec_tx_outputs(rest: Seq<u8>, n: nat) -> Result<
    (Seq<OutputView>, Seq<u8>),
    PsbtError,
>
    decreases n,
{
    if n == 0 {
        Ok((Seq::empty(), rest))
    } else {
        match spec_tx_output(rest) {
            Err(e) => Err(e),
            Ok((out, r)) => prepend_ok(seq![out], spec_tx_outputs(r, (n - 1) as nat)),
        }
    }
}

/// After the outputs: the locktime.
pub open spec fn spec_tx_finish(
    version: i32,
    ins: Seq<InputView>,
    outs: Result<(Seq<OutputView>, Seq<u8>), PsbtError>,
) -> Result<(i32, Seq<InputView>, Seq<OutputView>, u32), PsbtError> {
    match outs {
        Err(e) => Err(e),
        Ok((outs, r)) => if r.len() < 4 {
            Err(PsbtError::Truncated)
        } else {
            Ok((version, ins, outs, le32_value(r.take(4))))
        },
    }
}

/// After the inputs: the output count, the outputs, the locktime.
pub open spec fn spec_tx_after_inputs(
    version: i32,
    ins: Result<(Seq<InputView>, Seq<u8>), PsbtError>,
) -> Result<(i32, Seq<InputView>, Seq<OutputView>, u32), PsbtError> {
    match ins {
        Err(e) => Err(e),
        Ok((ins, r)) => match spec_varint(r) {
            None => Err(PsbtError::Truncated),
            Some((vout, r1)) => if vout > MAX_OUTPUTS {
                Err(PsbtError::TooManyOutputs)
            } else {
                spec_tx_finish(version, ins, spec_tx_outputs(r1, vout as nat))
            },
        },
    }
}

/// The unsigned tx: version, inputs, outputs, locktime (bytes after the
/// locktime are ignored).
pub open spec fn spec_parse_tx(tx: Seq<u8>) -> Result<
    (i32, Seq<InputView>, Seq<OutputView>, u32),
    PsbtError,
> {
    if tx.len() < 4 {
        Err(PsbtError::Truncated)
    } else {
        let version = le32_value(tx.take(4)) as i32;
        match spec_varint(tx.skip(4)) {
            None => Err(PsbtError::Truncated),
            Some((vin, r1)) => if vin > MAX_INPUTS {
                Err(PsbtError::TooManyInputs)
            } else {
                spec_tx_after_inputs(version, spec_tx_inputs(r1, vin as nat))
            },
        }
    }
}

proof fn lemma_prepend_assoc<T>(a: Seq<T>, b: Seq<T>, r: Result<(Seq<T>, Seq<u8>), PsbtError>)
    ensures
        prepend_ok(a + b, r) == prepend_ok(a, prepend_ok(b, r)),
{
    if let Ok((ys, rest)) = r {
        assert((a + b) + ys =~= a + (b + ys));
    }
}

proof fn lemma_prepend_empty<T>(r: Result<(Seq<T>, Seq<u8>), PsbtError>)
    ensures
        prepend_ok(Seq::<T>::empty(), r) == r,
{
    if let Ok((ys, rest)) = r {
        assert(Seq::<T>::empty() + ys =~= ys);
    }
}

// ── The PSBT maps ────────────────────────────────────────────────────────────
/// Walks the global map up to PSBT_GLOBAL_UNSIGNED_TX and returns its value.
pub open spec fn spec_find_unsigned_tx(rest: Seq<u8>) -> Result<(Seq<u8>, Seq<u8>), PsbtError>
    decreases rest.len(),
{
    match spec_kv(rest) {
        Err(e) => Err(e),
        Ok((None, _)) => Err(PsbtError::MissingUnsignedTx),
        Ok((Some((key, value)), r)) => if key == seq![0u8] {
            if value.len() > MAX_TX_RAW {
                Err(PsbtError::TxTooLarge)
            } else {
                Ok((value, r))
            }
        } else {
            proof {
                lemma_kv_consumes(rest);
            }
            spec_find_unsigned_tx(r)
        },
    }
}

/// Skips the remaining entries of a map, up to and including its terminator.
pub open spec fn spec_skip_map(rest: Seq<u8>) -> Result<Seq<u8>, PsbtError>
    decreases rest.len(),
{
    match spec_kv(rest) {
        Err(e) => Err(e),
        Ok((None, r)) => Ok(r),
        Ok((Some(_), r)) => {
            proof {
                lemma_kv_consumes(rest);
            }
            spec_skip_map(r)
        },
    }
}

/// PSBT_IN_WITNESS_UTXO: amount, then the scriptPubKey (trailing bytes ignored).
pub open spec fn spec_witness_utxo(v: Seq<u8>) -> Result<(u64, Seq<u8>), PsbtError> {
    if v.len() < 8 {
        Err(PsbtError::Truncated)
    } else {
        match spec_varint(v.skip(8)) {
            None => Err(PsbtError::Truncated),
            Some((spk_len, r)) => if spk_len > MAX_SPK_LEN {
                Err(PsbtError::ScriptTooLong)
            } else if spk_len > r.len() {
                Err(PsbtError::Truncated)
            } else {
                Ok((le64_value(v.take(8)), r.take(spk_len as int)))
            },
        }
    }
}

/// What one entry of an input map does to the input: witness UTXO (0x01),
/// sighash type (0x03), Taproot internal key (0x17), Taproot key signature
/// (0x13); every other entry is ignored.
pub open spec fn spec_input_entry(inp: InputView, key: Seq<u8>, value: Seq<u8>) -> Result<
    InputView,
    PsbtError,
> {
    if key == seq![0x01u8] {
        match spec_witness_utxo(value) {
            Err(e) => Err(e),
            Ok((amount, script)) => Ok(InputView { amount, script, ..inp }),
        }
    } else if key == seq![0x03u8] && value.len() == 4 {
        Ok(InputView { sighash_type: Some(le32_value(value)), ..inp })
    } else if key == seq![0x17u8] && value.len() == 32 {
        Ok(InputView { tap_internal_key: Some(value), ..inp })
    } else if key == seq![0x13u8] && value.len() == 64 {
        Ok(InputView { tap_key_sig: Some(value), ..inp })
    } else {
        Ok(inp)
    }
}

/// What one entry of an output map does: only PSBT_OUT_TAP_INTERNAL_KEY (0x05) is read.
pub open spec fn spec_output_entry(out: OutputView, key: Seq<u8>, value: Seq<u8>) -> OutputView {
    if key == seq![0x05u8] && value.len() == 32 {
        OutputView { tap_internal_key: Some(value), ..out }
    } else {
        out
    }
}

pub open spec fn spec_input_map(rest: Seq<u8>, inp: InputView) -> Result<
    (InputView, Seq<u8>),
    PsbtError,
>
    decreases rest.len(),
{
    match spec_kv(rest) {
        Err(e) => Err(e),
        Ok((None, r)) => Ok((inp, r)),
        Ok((Some((key, value)), r)) => match spec_input_entry(inp, key, value) {
            Err(e) => Err(e),
            Ok(inp2) => {
                proof {
                    lemma_kv_consumes(rest);
                }
                spec_input_map(r, inp2)
            },
        },
    }
}

pub open spec fn spec_output_map(rest: Seq<u8>, out: OutputView) -> Result<
    (OutputView, Seq<u8>),
    PsbtError,
>
    decreases rest.len(),
{
    match spec_kv(rest) {
        Err(e) => Err(e),
        Ok((None, r)) => Ok((out, r)),
        Ok((Some((key, value)), r)) => {
            proof {
                lemma_kv_consumes(rest);
            }
            spec_output_map(r, spec_output_entry(out, key, value))
        },
    }
}

/// The input maps, in order, starting from input `i`.
pub open spec fn spec_input_maps(rest: Seq<u8>, ins: Seq<InputView>, i: nat) -> Result<
    (Seq<InputView>, Seq<u8>),
    PsbtError,
>
    decreases ins.len() - i,
{
    if i >= ins.len() {
        Ok((ins, rest))
    } else {
        match spec_input_map(rest, ins[i as int]) {
            Err(e) => Err(e),
            Ok((inp, r)) => spec_input_maps(r, ins.update(i as int, inp), i + 1),
        }
    }
}

/// The output maps, in order, starting from output `i`.
pub open spec fn spec_output_maps(rest: Seq<u8>, outs: Seq<OutputView>, i: nat) -> Result<
    (Seq<OutputView>, Seq<u8>),
    PsbtError,
>
    decreases outs.len() - i,
{
    if i >= outs.len() {
        Ok((outs, rest))
    } else {
        match spec_output_map(rest, outs[i as int]) {
            Err(e) => Err(e),
            Ok((out, r)) => spec_output_maps(r, outs.update(i as int, out), i + 1),
        }
    }
}

pub open spec fn psbt_magic() -> Seq<u8> {
    seq![0x70u8, 0x73u8, 0x62u8, 0x74u8, 0xffu8]
}

/// The PSBT that `raw` holds, or the first error met while reading it.
pub open spec fn spec_parse(raw: Seq<u8>) -> Result<PsbtView, PsbtError> {
    if raw.len() < 5 {
        Err(PsbtError::Truncated)
    } else if raw.take(5) != psbt_magic() {
        Err(PsbtError::BadMagic)
    } else {
        match spec_find_unsigned_tx(raw.skip(5)) {
            Err(e) => Err(e),
            Ok((tx, r1)) => match spec_parse_tx(tx) {
                Err(e) => Err(e),
                Ok((version, ins, outs, locktime)) => match spec_skip_map(r1) {
                    Err(e) => Err(e),
                    Ok(r2) => match spec_input_maps(r2, ins, 0) {
                        Err(e) => Err(e),
                        Ok((ins2, r3)) => match spec_output_maps(r3, outs, 0) {
                            Err(e) => Err(e),
                            Ok((outs2, _)) => Ok(
                                PsbtView { version, locktime, inputs: ins2, outputs: outs2, tx },
                            ),
                        },
                    },
                },
            },
        }
    }
}


// ── Zero values ──────────────────────────────────────────────────────────────
impl TxInput {
    pub fn zero() -> (r: Self)
        ensures
            r.view() == blank_input(Seq::new(32, |i: int| 0u8), 0, 0xffff_ffff),
            r.wf(),
            r.is_zero(),
    {
        let r = TxInput {
            txid: [0u8; 32],
            vout: 0,
            sequence: 0xffff_ffff,
            amount_sats: 0,
            script_pubkey: [0u8; 34],
            script_len: 0,
            tap_internal_key: None,
            tap_key_sig: None,
            sighash_type: None,
        };
        assert(r.view().txid =~= Seq::new(32, |i: int| 0u8));
        assert(r.view().script =~= Seq::<u8>::empty());
        assert(r.script_pubkey@ =~= Seq::new(34, |i: int| 0u8));
        r
    }
}

impl TxOutput {
    fn zero() -> (r: Self)
        ensures
            r.view() == blank_output(0, Seq::empty()),
            r.wf(),
            r.is_zero(),
    {
        let r = TxOutput {
            amount_sats: 0,
            script_pubkey: [0u8; 34],
            script_len: 0,
            tap_internal_key: None,
        };
        assert(r.view().script =~= Seq::<u8>::empty());
        assert(r.script_pubkey@ =~= Seq::new(34, |i: int| 0u8));
        r
    }
}

impl ParsedPsbt {
    /// An empty PSBT: no inputs, no outputs, an empty unsigned tx.
    pub fn zero() -> (r: Self)
        ensures
            r.wf(),
            r.view().inputs.len() == 0,
            r.view().outputs.len() == 0,
            r.view().tx.len() == 0,
            r.version == 0,
            r.locktime == 0,
            r.canonical(),
            r.tx_len == 0,
            r.tx_raw@ == Seq::new(768, |i: int| 0u8),
            r.input_count == 0,
            r.output_count == 0,
            forall|i: int| 0 <= i < MAX_INPUTS ==> (#[trigger] r.inputs[i]).is_zero(),
            forall|i: int| 0 <= i < MAX_OUTPUTS ==> (#[trigger] r.outputs[i]).is_zero(),
    {
        let r = ParsedPsbt {
            version: 0,
            locktime: 0,
            inputs: [TxInput::zero(); 5],
            input_count: 0,
            outputs: [TxOutput::zero(); 8],
            output_count: 0,
            tx_raw: [0u8; 768],
            tx_len: 0,
        };
        assert(r.tx_raw@ =~= Seq::new(768, |i: int| 0u8));
        r
    }
}

// ── Canonical values ─────────────────────────────────────────────────────────
proof fn lemma_opt_view_injective<const N: usize>(a: Option<[u8; N]>, b: Option<[u8; N]>)
    requires
        opt_view(a) == opt_view(b),
    ensures
        a == b,
{
    if let (Some(x), Some(y)) = (a, b) {
        assert(x@ == y@);
        assert(x =~= y);
    }
}

proof fn lemma_script_determined(a: [u8; 34], b: [u8; 34], len: usize)
    requires
        len <= 34,
        a@.take(len as int) == b@.take(len as int),
        forall|k: int| len <= k < 34 ==> a@[k] == 0,
        forall|k: int| len <= k < 34 ==> b@[k] == 0,
    ensures
        a == b,
{
    assert(a@.len() == 34 && b@.len() == 34);
    assert forall|k: int| 0 <= k < 34 implies a@[k] == b@[k] by {
        if k < len {
            assert(a@.take(len as int)[k] == b@.take(len as int)[k]);
            assert(a@.take(len as int)[k] == a@[k]);
            assert(b@.take(len as int)[k] == b@[k]);
        } else {
            assert(len <= k < 34);
            assert(a@[k] == 0);
            assert(b@[k] == 0);
        }
    }
    assert(a@ =~= b@);
    assert(a =~= b);
}

proof fn lemma_input_determined(x: TxInput, y: TxInput)
    requires
        x.wf(),
        y.wf(),
        x.clean(),
        y.clean(),
        x.view() == y.view(),
    ensures
        x == y,
{
    assert(x.txid =~= y.txid);
    assert(x.view().script.len() == x.script_len);
    assert(y.view().script.len() == y.script_len);
    lemma_script_determined(x.script_pubkey, y.script_pubkey, x.script_len);
    lemma_opt_view_injective(x.tap_internal_key, y.tap_internal_key);
    lemma_opt_view_injective(x.tap_key_sig, y.tap_key_sig);
}

pub(crate) proof fn lemma_output_determined(x: TxOutput, y: TxOutput)
    requires
        x.wf(),
        y.wf(),
        x.clean(),
        y.clean(),
        x.view() == y.view(),
    ensures
        x == y,
{
    assert(x.view().script.len() == x.script_len);
    assert(y.view().script.len() == y.script_len);
    lemma_script_determined(x.script_pubkey, y.script_pubkey, x.script_len);
    lemma_opt_view_injective(x.tap_internal_key, y.tap_internal_key);
}

/// Law: a canonical PSBT (what `parse` returns) holds nothing beyond its
/// view: two of them with the same view are the same value, buffers and
/// unused slots included.
pub proof fn lemma_canonical_is_its_view(a: ParsedPsbt, b: ParsedPsbt)
    requires
        a.wf(),
        b.wf(),
        a.canonical(),
        b.canonical(),
        a.view() == b.view(),
    ensures
        a == b,
{
    let va = a.view();
    let vb = b.view();
    assert(a.input_count == va.inputs.len() && b.input_count == vb.inputs.len());
    assert(a.output_count == va.outputs.len() && b.output_count == vb.outputs.len());
    assert(a.tx_len == va.tx.len() && b.tx_len == vb.tx.len());
    assert forall|i: int| 0 <= i < 5 implies a.inputs[i] == b.inputs[i] by {
        if i < a.input_count {
            assert(va.inputs[i] == vb.inputs[i]);
            lemma_input_determined(a.inputs[i], b.inputs[i]);
        } else {
            assert(a.inputs[i].txid =~= b.inputs[i].txid);
            assert(a.inputs[i].script_pubkey =~= b.inputs[i].script_pubkey);
        }
    }
    assert forall|i: int| 0 <= i < 8 implies a.outputs[i] == b.outputs[i] by {
        if i < a.output_count {
            assert(va.outputs[i] == vb.outputs[i]);
            lemma_output_determined(a.outputs[i], b.outputs[i]);
        } else {
            assert(a.outputs[i].script_pubkey =~= b.outputs[i].script_pubkey);
        }
    }
    assert forall|k: int| 0 <= k < 768 implies a.tx_raw[k] == b.tx_raw[k] by {
        if k < a.tx_len {
            assert(va.tx[k] == vb.tx[k]);
        }
    }
    assert(a.inputs =~= b.inputs);
    assert(a.outputs =~= b.outputs);
    assert(a.tx_raw =~= b.tx_raw);
}

// ── Reader ───────────────────────────────────────────────────────────────────
struct Reader<'a> {
    data: &'a [u8],
    pos: usize,
}

impl<'a> Reader<'a> {
    spec fn wf(&self) -> bool {
        self.pos <= self.data@.len()
    }

    /// The bytes not read yet.
    spec fn rest(&self) -> Seq<u8> {
        self.data@.skip(self.pos as int)
    }

    fn new(data: &'a [u8]) -> (r: Self)
        ensures
            r.wf(),
            r.rest() == data@,
    {
        let r = Reader { data, pos: 0 };
        assert(r.rest() =~= data@);
        r
    }

    fn read_bytes(&mut self, n: usize) -> (r: Option<&'a [u8]>)
        requires
            old(self).wf(),
        ensures
            final(self).wf(),
            final(self).data == old(self).data,
            n <= old(self).rest().len() ==> (r matches Some(b) && b@ == old(self).rest().take(
                n as int,
            ) && final(self).rest() == old(self).rest().skip(n as int)),
            n > old(self).rest().len() ==> r is None,
    {
        if n > self.data.len() - self.pos {
            return None;
        }
        let end = self.pos + n;
        let s = vstd::slice::slice_subrange(self.data, self.pos, end);
        proof {
            assert(s@ =~= self.rest().take(n as int));
            assert(self.data@.skip(end as int) =~= self.rest().skip(n as int));
        }
        self.pos = end;
        Some(s)
    }

    fn read_le32(&mut self) -> (r: Option<u32>)
        requires
            old(self).wf(),
        ensures
            final(self).wf(),
            final(self).data == old(self).data,
            old(self).rest().len() >= 4 ==> r == Some(le32_value(old(self).rest().take(4)))
                && final(self).rest() == old(self).rest().skip(4),
            old(self).rest().len() < 4 ==> r is None,
    {
        match self.read_bytes(4) {
            Some(b) => Some(le32_from(b)),
            None => None,
        }
    }

    fn read_le64(&mut self) -> (r: Option<u64>)
        requires
            old(self).wf(),
        ensures
            final(self).wf(),
            final(self).data == old(self).data,
            old(self).rest().len() >= 8 ==> r == Some(le64_value(old(self).rest().take(8)))
                && final(self).rest() == old(self).rest().skip(8),
            old(self).rest().len() < 8 ==> r is None,
    {
        match self.read_bytes(8) {
            Some(b) => Some(le64_from(b)),
            None => None,
        }
    }

    fn read_varint(&mut self) -> (r: Option<u64>)
        requires
            old(self).wf(),
        ensures
            final(self).wf(),
            final(self).data == old(self).data,
            spec_varint(old(self).rest()) matches Some((v, rest)) ==> r == Some(v)
                && final(self).rest() == rest,
            spec_varint(old(self).rest()) is None ==> r is None,
    {
        let ghost rest0 = self.rest();
        let b = match self.read_bytes(1) {
            Some(b) => b[0],
            None => {
                return None;
            },
        };
        let ghost rest1 = self.rest();
        assert(rest1 =~= rest0.skip(1));
        if b == 0xfd {
            match self.read_bytes(2) {
                Some(w) => {
                    assert(rest0.skip(3) =~= rest1.skip(2));
                    Some((w[0] as u64) + (w[1] as u64) * 0x100)
                },
                None => None,
            }
        } else if b == 0xfe {
            match self.read_bytes(4) {
                Some(w) => {
                    assert(rest0.skip(5) =~= rest1.skip(4));
                    assert(w@ =~= rest0.subrange(1, 5));
                    Some(le32_from(w) as u64)
                },
                None => None,
            }
        } else if b == 0xff {
            match self.read_bytes(8) {
                Some(w) => {
                    assert(rest0.skip(9) =~= rest1.skip(8));
                    assert(w@ =~= rest0.subrange(1, 9));
                    Some(le64_from(w))
                },
                None => None,
            }
        } else {
            Some(b as u64)
        }
    }

    /// Reads `len` bytes, where `len` came off the wire as a 64-bit count.
    fn read_counted(&mut self, len: u64) -> (r: Option<&'a [u8]>)
        requires
            old(self).wf(),
        ensures
            final(self).wf(),
            final(self).data == old(self).data,
            len <= old(self).rest().len() ==> (r matches Some(b) && b@ == old(self).rest().take(
                len as int,
            ) && final(self).rest() == old(self).rest().skip(len as int)),
            len > old(self).rest().len() ==> r is None,
    {
        if len > (self.data.len() - self.pos) as u64 {
            return None;
        }
        self.read_bytes(len as usize)
    }

    /// Reads one PSBT key-value pair; `None` at the end of a map (key length 0).
    fn read_kv(&mut self) -> (r: Result<Option<(&'a [u8], &'a [u8])>, PsbtError>)
        requires
            old(self).wf(),
        ensures
            final(self).wf(),
            final(self).data == old(self).data,
            match spec_kv(old(self).rest()) {
                Err(e) => r == Err::<Option<(&[u8], &[u8])>, PsbtError>(e),
                Ok((None, rest)) => r matches Ok(None) && final(self).rest() == rest,
                Ok((Some((k, v)), rest)) => r matches Ok(Some((kk, vv))) && kk@ == k && vv@ == v
                    && final(self).rest() == rest,
            },
    {
        let klen = match self.read_varint() {
            Some(n) => n,
            None => {
                return Err(PsbtError::Truncated);
            },
        };
        if klen == 0 {
            return Ok(None);
        }
        let key = match self.read_counted(klen) {
            Some(k) => k,
            None => {
                return Err(PsbtError::Truncated);
            },
        };
        let vlen = match self.read_varint() {
            Some(n) => n,
            None => {
                return Err(PsbtError::Truncated);
            },
        };
        let value = match self.read_counted(vlen) {
            Some(v) => v,
            None => {
                return Err(PsbtError::Truncated);
            },
        };
        Ok(Some((key, value)))
    }
}

fn le32_from(b: &[u8]) -> (v: u32)
    requires
        b@.len() >= 4,
    ensures
        v == le32_value(b@),
{
    (b[0] as u32) + (b[1] as u32) * 0x100 + (b[2] as u32) * 0x10000 + (b[3] as u32) * 0x1000000
}

fn le64_from(b: &[u8]) -> (v: u64)
    requires
        b@.len() >= 8,
    ensures
        v == le64_value(b@),
{
    (b[0] as u64) + (b[1] as u64) * 0x100 + (b[2] as u64) * 0x10000 + (b[3] as u64) * 0x1000000
        + (b[4] as u64) * 0x100000000 + (b[5] as u64) * 0x10000000000 + (b[6] as u64)
        * 0x1000000000000 + (b[7] as u64) * 0x100000000000000
}

fn copy32(src: &[u8]) -> (r: [u8; 32])
    requires
        src@.len() == 32,
    ensures
        r@ == src@,
{
    let mut r = [0u8; 32];
    let mut i: usize = 0;
    while i < 32
        invariant
            src@.len() == 32,
            i <= 32,
            forall|j: int| 0 <= j < i ==> r@[j] == src@[j],
        decreases 32 - i,
    {
        r[i] = src[i];
        i = i + 1;
    }
    assert(r@ =~= src@);
    r
}

fn copy64(src: &[u8]) -> (r: [u8; 64])
    requires
        src@.len() == 64,
    ensures
        r@ == src@,
{
    let mut r = [0u8; 64];
    let mut i: usize = 0;
    while i < 64
        invariant
            src@.len() == 64,
            i <= 64,
            forall|j: int| 0 <= j < i ==> r@[j] == src@[j],
        decreases 64 - i,
    {
        r[i] = src[i];
        i = i + 1;
    }
    assert(r@ =~= src@);
    r
}

/// A scriptPubKey buffer holding `src` in front, zeros after.
fn script_buf(src: &[u8]) -> (r: [u8; 34])
    requires
        src@.len() <= 34,
    ensures
        r@.take(src@.len() as int) == src@,
        forall|k: int| src@.len() <= k < 34 ==> r@[k] == 0,
{
    let mut r = [0u8; 34];
    let mut i: usize = 0;
    while i < src.len()
        invariant
            src@.len() <= 34,
            i <= src@.len(),
            forall|j: int| 0 <= j < i ==> r@[j] == src@[j],
            forall|j: int| i <= j < 34 ==> r@[j] == 0,
        decreases src@.len() - i,
    {
        r[i] = src[i];
        i = i + 1;
    }
    assert(r@.take(src@.len() as int) =~= src@);
    r
}


// ── Parser ───────────────────────────────────────────────────────────────────
fn read_tx_input(r: &mut Reader) -> (res: Result<TxInput, PsbtError>)
    requires
        old(r).wf(),
    ensures
        final(r).wf(),
        match spec_tx_input(old(r).rest()) {
            Err(e) => res matches Err(e2) && e2 == e,
            Ok((v, rest)) => res matches Ok(inp) && inp.view() == v && inp.wf() && inp.clean()
                && final(r).rest() == rest,
        },
{
    let ghost cur = r.rest();
    let txid = match r.read_bytes(32) {
        Some(t) => copy32(t),
        None => {
            return Err(PsbtError::Truncated);
        },
    };
    let vout = match r.read_le32() {
        Some(v) => v,
        None => {
            return Err(PsbtError::Truncated);
        },
    };
    assert(cur.skip(32).take(4) =~= cur.subrange(32, 36));
    assert(cur.skip(32).skip(4) =~= cur.skip(36));
    let script_len = match r.read_varint() {
        Some(n) => n,
        None => {
            return Err(PsbtError::Truncated);
        },
    };
    if script_len > 0 {
        return Err(PsbtError::NonEmptyScriptSig);
    }
    let sequence = match r.read_le32() {
        Some(v) => v,
        None => {
            return Err(PsbtError::Truncated);
        },
    };
    let mut inp = TxInput::zero();
    inp.txid = txid;
    inp.vout = vout;
    inp.sequence = sequence;
    assert(inp.view().script =~= Seq::<u8>::empty());
    Ok(inp)
}

fn read_tx_output(r: &mut Reader) -> (res: Result<TxOutput, PsbtError>)
    requires
        old(r).wf(),
    ensures
        final(r).wf(),
        match spec_tx_output(old(r).rest()) {
            Err(e) => res matches Err(e2) && e2 == e,
            Ok((v, rest)) => res matches Ok(out) && out.view() == v && out.wf() && out.clean()
                && final(r).rest() == rest,
        },
{
    let amount = match r.read_le64() {
        Some(v) => v,
        None => {
            return Err(PsbtError::Truncated);
        },
    };
    let spk_len = match r.read_varint() {
        Some(n) => n,
        None => {
            return Err(PsbtError::Truncated);
        },
    };
    if spk_len > 34 {
        return Err(PsbtError::ScriptTooLong);
    }
    let spk = match r.read_counted(spk_len) {
        Some(s) => s,
        None => {
            return Err(PsbtError::Truncated);
        },
    };
    Ok(
        TxOutput {
            amount_sats: amount,
            script_pubkey: script_buf(spk),
            script_len: spk_len as usize,
            tap_internal_key: None,
        },
    )
}

fn parse_unsigned_tx(tx: &[u8], psbt: &mut ParsedPsbt) -> (r: Result<(), PsbtError>)
    requires
        old(psbt).wf(),
        forall|i: int| 0 <= i < MAX_INPUTS ==> (#[trigger] old(psbt).inputs[i]).is_zero(),
        forall|i: int| 0 <= i < MAX_OUTPUTS ==> (#[trigger] old(psbt).outputs[i]).is_zero(),
    ensures
        final(psbt).wf(),
        r is Ok ==> final(psbt).slots_canonical(),
        final(psbt).tx_raw == old(psbt).tx_raw,
        final(psbt).tx_len == old(psbt).tx_len,
        match spec_parse_tx(tx@) {
            Err(e) => r == Err::<(), PsbtError>(e),
            Ok((version, ins, outs, locktime)) => {
                &&& r is Ok
                &&& final(psbt).version == version
                &&& final(psbt).locktime == locktime
                &&& final(psbt).view().inputs == ins
                &&& final(psbt).view().outputs == outs
            },
        },
{
    let mut r = Reader::new(tx);
    let version = match r.read_le32() {
        Some(v) => v,
        None => {
            return Err(PsbtError::Truncated);
        },
    };
    psbt.version = version as i32;
    let vin_count = match r.read_varint() {
        Some(n) => n,
        None => {
            return Err(PsbtError::Truncated);
        },
    };
    if vin_count > 5 {
        return Err(PsbtError::TooManyInputs);
    }
    let vin_count = vin_count as usize;
    psbt.input_count = vin_count;
    let ghost rest0 = r.rest();
    proof {
        lemma_prepend_empty(spec_tx_inputs(rest0, vin_count as nat));
        assert(psbt.view().inputs.take(0) =~= Seq::<InputView>::empty());
    }
    let mut i: usize = 0;
    while i < vin_count
        invariant
            r.wf(),
            psbt.wf(),
            psbt.input_count == vin_count,
            vin_count <= 5,
            i <= vin_count,
            forall|j: int| 0 <= j < i ==> (#[trigger] psbt.inputs[j]).clean(),
            forall|j: int| i <= j < MAX_INPUTS ==> (#[trigger] psbt.inputs[j]).is_zero(),
            forall|j: int| 0 <= j < MAX_OUTPUTS ==> (#[trigger] psbt.outputs[j]).is_zero(),
            psbt.tx_raw == old(psbt).tx_raw,
            psbt.tx_len == old(psbt).tx_len,
            psbt.version == version as i32,
            spec_parse_tx(tx@) == spec_tx_after_inputs(
                version as i32,
                spec_tx_inputs(rest0, vin_count as nat),
            ),
            prepend_ok(
                psbt.view().inputs.take(i as int),
                spec_tx_inputs(r.rest(), (vin_count - i) as nat),
            ) == spec_tx_inputs(rest0, vin_count as nat),
        decreases vin_count - i,
    {
        let ghost before = psbt.view().inputs.take(i as int);
        let inp = match read_tx_input(&mut r) {
            Ok(inp) => inp,
            Err(e) => {
                return Err(e);
            },
        };
        psbt.inputs[i] = inp;
        proof {
            assert((before + seq![inp.view()]) =~= psbt.view().inputs.take((i + 1) as int));
            lemma_prepend_assoc(before, seq![inp.view()], spec_tx_inputs(r.rest(), (vin_count - i - 1) as nat));
        }
        i = i + 1;
    }
    assert(psbt.view().inputs.take(vin_count as int) =~= psbt.view().inputs);
    let ghost ins = psbt.view().inputs;
    proof {
        lemma_prepend_empty(spec_tx_inputs(r.rest(), 0));
    }
    let vout_count = match r.read_varint() {
        Some(n) => n,
        None => {
            return Err(PsbtError::Truncated);
        },
    };
    if vout_count > 8 {
        return Err(PsbtError::TooManyOutputs);
    }
    let vout_count = vout_count as usize;
    psbt.output_count = vout_count;
    let ghost rest1 = r.rest();
    proof {
        lemma_prepend_empty(spec_tx_outputs(rest1, vout_count as nat));
        assert(psbt.view().outputs.take(0) =~= Seq::<OutputView>::empty());
    }
    let mut i: usize = 0;
    while i < vout_count
        invariant
            r.wf(),
            psbt.wf(),
            psbt.output_count == vout_count,
            vout_count <= 8,
            i <= vout_count,
            psbt.input_count == vin_count,
            forall|j: int| 0 <= j < vin_count ==> (#[trigger] psbt.inputs[j]).clean(),
            forall|j: int| vin_count <= j < MAX_INPUTS ==> (#[trigger] psbt.inputs[j]).is_zero(),
            forall|j: int| 0 <= j < i ==> (#[trigger] psbt.outputs[j]).clean(),
            forall|j: int| i <= j < MAX_OUTPUTS ==> (#[trigger] psbt.outputs[j]).is_zero(),
            psbt.tx_raw == old(psbt).tx_raw,
            psbt.tx_len == old(psbt).tx_len,
            psbt.version == version as i32,
            psbt.view().inputs == ins,
            spec_parse_tx(tx@) == spec_tx_finish(
                version as i32,
                ins,
                spec_tx_outputs(rest1, vout_count as nat),
            ),
            prepend_ok(
                psbt.view().outputs.take(i as int),
                spec_tx_outputs(r.rest(), (vout_count - i) as nat),
            ) == spec_tx_outputs(rest1, vout_count as nat),
        decreases vout_count - i,
    {
        let ghost before = psbt.view().outputs.take(i as int);
        let out = match read_tx_output(&mut r) {
            Ok(o) => o,
            Err(e) => {
                return Err(e);
            },
        };
        psbt.outputs[i] = out;
        proof {
            assert(psbt.view().inputs =~= ins);
            assert((before + seq![out.view()]) =~= psbt.view().outputs.take((i + 1) as int));
            lemma_prepend_assoc(before, seq![out.view()], spec_tx_outputs(r.rest(), (vout_count - i - 1) as nat));
        }
        i = i + 1;
    }
    assert(psbt.view().outputs.take(vout_count as int) =~= psbt.view().outputs);
    proof {
        lemma_prepend_empty(spec_tx_outputs(r.rest(), 0));
    }
    let locktime = match r.read_le32() {
        Some(v) => v,
        None => {
            return Err(PsbtError::Truncated);
        },
    };
    psbt.locktime = locktime;
    proof {
        assert(psbt.view().inputs =~= ins);
    }
    Ok(())
}


proof fn lemma_single_key(key: Seq<u8>, b: u8)
    ensures
        (key == seq![b]) <==> (key.len() == 1 && key[0] == b),
{
    if key.len() == 1 && key[0] == b {
        assert(key =~= seq![b]);
    }
}

fn is_single_key(key: &[u8], b: u8) -> (r: bool)
    ensures
        r == (key@ == seq![b]),
{
    proof {
        lemma_single_key(key@, b);
    }
    key.len() == 1 && key[0] == b
}

fn find_unsigned_tx<'a>(r: &mut Reader<'a>) -> (res: Result<&'a [u8], PsbtError>)
    requires
        old(r).wf(),
    ensures
        final(r).wf(),
        match spec_find_unsigned_tx(old(r).rest()) {
            Err(e) => res matches Err(e2) && e2 == e,
            Ok((tx, rest)) => res matches Ok(t) && t@ == tx && final(r).rest() == rest,
        },
        res matches Ok(t) ==> t@.len() <= MAX_TX_RAW,
{
    loop
        invariant
            r.wf(),
            spec_find_unsigned_tx(r.rest()) == spec_find_unsigned_tx(old(r).rest()),
        decreases r.rest().len(),
    {
        proof {
            lemma_kv_consumes(r.rest());
        }
        match r.read_kv() {
            Err(e) => {
                return Err(e);
            },
            Ok(None) => {
                return Err(PsbtError::MissingUnsignedTx);
            },
            Ok(Some((key, value))) => {
                if is_single_key(key, 0) {
                    if value.len() > MAX_TX_RAW {
                        return Err(PsbtError::TxTooLarge);
                    }
                    return Ok(value);
                }
            },
        }
    }
}

fn skip_map(r: &mut Reader) -> (res: Result<(), PsbtError>)
    requires
        old(r).wf(),
    ensures
        final(r).wf(),
        match spec_skip_map(old(r).rest()) {
            Err(e) => res matches Err(e2) && e2 == e,
            Ok(rest) => res is Ok && final(r).rest() == rest,
        },
{
    loop
        invariant
            r.wf(),
            spec_skip_map(r.rest()) == spec_skip_map(old(r).rest()),
        decreases r.rest().len(),
    {
        proof {
            lemma_kv_consumes(r.rest());
        }
        match r.read_kv() {
            Err(e) => {
                return Err(e);
            },
            Ok(None) => {
                return Ok(());
            },
            Ok(Some(_)) => {},
        }
    }
}

fn parse_witness_utxo(value: &[u8], input: &mut TxInput) -> (res: Result<(), PsbtError>)
    requires
        old(input).wf(),
        old(input).clean(),
    ensures
        final(input).wf(),
        final(input).clean(),
        match spec_witness_utxo(value@) {
            Err(e) => res matches Err(e2) && e2 == e,
            Ok((amount, script)) => res is Ok && final(input).view() == InputView {
                amount,
                script,
                ..old(input).view()
            },
        },
{
    let mut r = Reader::new(value);
    let amount = match r.read_le64() {
        Some(v) => v,
        None => {
            return Err(PsbtError::Truncated);
        },
    };
    let spk_len = match r.read_varint() {
        Some(n) => n,
        None => {
            return Err(PsbtError::Truncated);
        },
    };
    if spk_len > 34 {
        return Err(PsbtError::ScriptTooLong);
    }
    let spk = match r.read_counted(spk_len) {
        Some(s) => s,
        None => {
            return Err(PsbtError::Truncated);
        },
    };
    input.amount_sats = amount;
    input.script_pubkey = script_buf(spk);
    input.script_len = spk_len as usize;
    Ok(())
}

fn apply_input_entry(inp: &mut TxInput, key: &[u8], value: &[u8]) -> (res: Result<(), PsbtError>)
    requires
        old(inp).wf(),
        old(inp).clean(),
    ensures
        final(inp).wf(),
        final(inp).clean(),
        match spec_input_entry(old(inp).view(), key@, value@) {
            Err(e) => res matches Err(e2) && e2 == e,
            Ok(v) => res is Ok && final(inp).view() == v,
        },
{
    if is_single_key(key, 0x01) {
        parse_witness_utxo(value, inp)
    } else if is_single_key(key, 0x03) && value.len() == 4 {
        inp.sighash_type = Some(le32_from(value));
        Ok(())
    } else if is_single_key(key, 0x17) && value.len() == 32 {
        inp.tap_internal_key = Some(copy32(value));
        Ok(())
    } else if is_single_key(key, 0x13) && value.len() == 64 {
        inp.tap_key_sig = Some(copy64(value));
        Ok(())
    } else {
        Ok(())
    }
}

fn read_input_map(r: &mut Reader, inp: &mut TxInput) -> (res: Result<(), PsbtError>)
    requires
        old(r).wf(),
        old(inp).wf(),
        old(inp).clean(),
    ensures
        final(r).wf(),
        final(inp).wf(),
        final(inp).clean(),
        match spec_input_map(old(r).rest(), old(inp).view()) {
            Err(e) => res matches Err(e2) && e2 == e,
            Ok((v, rest)) => res is Ok && final(inp).view() == v && final(r).rest() == rest,
        },
{
    loop
        invariant
            r.wf(),
            inp.wf(),
            inp.clean(),
            spec_input_map(r.rest(), inp.view()) == spec_input_map(
                old(r).rest(),
                old(inp).view(),
            ),
        decreases r.rest().len(),
    {
        proof {
            lemma_kv_consumes(r.rest());
        }
        match r.read_kv() {
            Err(e) => {
                return Err(e);
            },
            Ok(None) => {
                return Ok(());
            },
            Ok(Some((key, value))) => {
                match apply_input_entry(inp, key, value) {
                    Err(e) => {
                        return Err(e);
                    },
                    Ok(()) => {},
                }
            },
        }
    }
}

fn read_output_map(r: &mut Reader, out: &mut TxOutput) -> (res: Result<(), PsbtError>)
    requires
        old(r).wf(),
        old(out).wf(),
        old(out).clean(),
    ensures
        final(r).wf(),
        final(out).wf(),
        final(out).clean(),
        match spec_output_map(old(r).rest(), old(out).view()) {
            Err(e) => res matches Err(e2) && e2 == e,
            Ok((v, rest)) => res is Ok && final(out).view() == v && final(r).rest() == rest,
        },
{
    loop
        invariant
            r.wf(),
            out.wf(),
            out.clean(),
            spec_output_map(r.rest(), out.view()) == spec_output_map(
                old(r).rest(),
                old(out).view(),
            ),
        decreases r.rest().len(),
    {
        proof {
            lemma_kv_consumes(r.rest());
        }
        match r.read_kv() {
            Err(e) => {
                return Err(e);
            },
            Ok(None) => {
                return Ok(());
            },
            Ok(Some((key, value))) => {
                if is_single_key(key, 0x05) && value.len() == 32 {
                    out.tap_internal_key = Some(copy32(value));
                }
            },
        }
    }
}


/// An unsigned-tx buffer holding `src` in front, zeros after.
fn tx_buf(src: &[u8]) -> (r: [u8; 768])
    requires
        src@.len() <= MAX_TX_RAW,
    ensures
        r@.take(src@.len() as int) == src@,
        forall|k: int| src@.len() <= k < 768 ==> r@[k] == 0,
{
    let mut r = [0u8; 768];
    let mut i: usize = 0;
    while i < src.len()
        invariant
            src@.len() <= 768,
            i <= src@.len(),
            forall|j: int| 0 <= j < i ==> r@[j] == src@[j],
            forall|j: int| i <= j < 768 ==> r@[j] == 0,
        decreases src@.len() - i,
    {
        r[i] = src[i];
        i = i + 1;
    }
    assert(r@.take(src@.len() as int) =~= src@);
    r
}

fn read_input_maps(r: &mut Reader, psbt: &mut ParsedPsbt) -> (res: Result<(), PsbtError>)
    requires
        old(r).wf(),
        old(psbt).wf(),
        old(psbt).canonical(),
    ensures
        final(r).wf(),
        final(psbt).wf(),
        final(psbt).canonical(),
        final(psbt).tx_raw == old(psbt).tx_raw,
        final(psbt).tx_len == old(psbt).tx_len,
        final(psbt).version == old(psbt).version,
        final(psbt).locktime == old(psbt).locktime,
        final(psbt).view().outputs == old(psbt).view().outputs,
        final(psbt).view().tx == old(psbt).view().tx,
        match spec_input_maps(old(r).rest(), old(psbt).view().inputs, 0) {
            Err(e) => res matches Err(e2) && e2 == e,
            Ok((ins, rest)) => res is Ok && final(psbt).view().inputs == ins && final(r).rest()
                == rest,
        },
{
    let n_in = psbt.input_count;
    let mut i: usize = 0;
    while i < n_in
        invariant
            r.wf(),
            psbt.wf(),
            n_in == psbt.input_count,
            i <= n_in,
            psbt.canonical(),
            psbt.tx_raw == old(psbt).tx_raw,
            psbt.tx_len == old(psbt).tx_len,
            psbt.version == old(psbt).version,
            psbt.locktime == old(psbt).locktime,
            psbt.view().outputs == old(psbt).view().outputs,
            psbt.view().tx == old(psbt).view().tx,
            spec_input_maps(r.rest(), psbt.view().inputs, i as nat) == spec_input_maps(
                old(r).rest(),
                old(psbt).view().inputs,
                0,
            ),
        decreases n_in - i,
    {
        let ghost views = psbt.view().inputs;
        let mut inp = psbt.inputs[i];
        match read_input_map(r, &mut inp) {
            Ok(()) => {},
            Err(e) => {
                return Err(e);
            },
        }
        psbt.inputs[i] = inp;
        proof {
            assert(psbt.view().inputs =~= views.update(i as int, inp.view()));
            assert(psbt.view().outputs =~= old(psbt).view().outputs);
        }
        i = i + 1;
    }
    Ok(())
}

fn read_output_maps(r: &mut Reader, psbt: &mut ParsedPsbt) -> (res: Result<(), PsbtError>)
    requires
        old(r).wf(),
        old(psbt).wf(),
        old(psbt).canonical(),
    ensures
        final(r).wf(),
        final(psbt).wf(),
        final(psbt).canonical(),
        final(psbt).tx_raw == old(psbt).tx_raw,
        final(psbt).tx_len == old(psbt).tx_len,
        final(psbt).version == old(psbt).version,
        final(psbt).locktime == old(psbt).locktime,
        final(psbt).view().inputs == old(psbt).view().inputs,
        final(psbt).view().tx == old(psbt).view().tx,
        match spec_output_maps(old(r).rest(), old(psbt).view().outputs, 0) {
            Err(e) => res matches Err(e2) && e2 == e,
            Ok((outs, rest)) => res is Ok && final(psbt).view().outputs == outs && final(r).rest()
                == rest,
        },
{
    let n_out = psbt.output_count;
    let mut i: usize = 0;
    while i < n_out
        invariant
            r.wf(),
            psbt.wf(),
            n_out == psbt.output_count,
            i <= n_out,
            psbt.canonical(),
            psbt.tx_raw == old(psbt).tx_raw,
            psbt.tx_len == old(psbt).tx_len,
            psbt.version == old(psbt).version,
            psbt.locktime == old(psbt).locktime,
            psbt.view().inputs == old(psbt).view().inputs,
            psbt.view().tx == old(psbt).view().tx,
            spec_output_maps(r.rest(), psbt.view().outputs, i as nat) == spec_output_maps(
                old(r).rest(),
                old(psbt).view().outputs,
                0,
            ),
        decreases n_out - i,
    {
        let ghost views = psbt.view().outputs;
        let mut out = psbt.outputs[i];
        match read_output_map(r, &mut out) {
            Ok(()) => {},
            Err(e) => {
                return Err(e);
            },
        }
        psbt.outputs[i] = out;
        proof {
            assert(psbt.view().outputs =~= views.update(i as int, out.view()));
            assert(psbt.view().inputs =~= old(psbt).view().inputs);
        }
        i = i + 1;
    }
    Ok(())
}

impl ParsedPsbt {
    /// Parses a BIP174 PSBT: the unsigned tx (kept verbatim), then one map per
    /// input and one per output. Unknown keys are skipped.
    pub fn parse(raw: &[u8]) -> (r: Result<Self, PsbtError>)
        ensures
            match r {
                Ok(p) => p.wf() && p.canonical() && spec_parse(raw@) == Ok::<PsbtView, PsbtError>(
                    p.view(),
                ),
                Err(e) => spec_parse(raw@) == Err::<PsbtView, PsbtError>(e),
            },
    {
        let mut r = Reader::new(raw);
        let mut psbt = ParsedPsbt::zero();
        let magic = match r.read_bytes(5) {
            Some(m) => m,
            None => {
                return Err(PsbtError::Truncated);
            },
        };
        if !(magic[0] == 0x70 && magic[1] == 0x73 && magic[2] == 0x62 && magic[3] == 0x74
            && magic[4] == 0xff) {
            assert(raw@.take(5)[0] == magic@[0]);
            return Err(PsbtError::BadMagic);
        }
        assert(raw@.take(5) =~= psbt_magic());
        let tx = match find_unsigned_tx(&mut r) {
            Ok(t) => t,
            Err(e) => {
                return Err(e);
            },
        };
        psbt.tx_raw = tx_buf(tx);
        psbt.tx_len = tx.len();
        match parse_unsigned_tx(tx, &mut psbt) {
            Ok(()) => {},
            Err(e) => {
                return Err(e);
            },
        }
        match skip_map(&mut r) {
            Ok(()) => {},
            Err(e) => {
                return Err(e);
            },
        }
        match read_input_maps(&mut r, &mut psbt) {
            Ok(()) => {},
            Err(e) => {
                return Err(e);
            },
        }
        match read_output_maps(&mut r, &mut psbt) {
            Ok(()) => {},
            Err(e) => {
                return Err(e);
            },
        }
        proof {
            assert(psbt.view().tx =~= tx@);
        }
        Ok(psbt)
    }
}


// ── Totals ───────────────────────────────────────────────────────────────────
/// Sum of the input amounts.
pub open spec fn sum_input_amounts(ins: Seq<InputView>) -> int
    decreases ins.len(),
{
    if ins.len() == 0 {
        0
    } else {
        sum_input_amounts(ins.drop_last()) + ins.last().amount
    }
}

/// Sum of the output amounts.
pub open spec fn sum_output_amounts(outs: Seq<OutputView>) -> int
    decreases outs.len(),
{
    if outs.len() == 0 {
        0
    } else {
        sum_output_amounts(outs.drop_last()) + outs.last().amount
    }
}

/// `n`, or `u64::MAX` when `n` does not fit.
pub open spec fn saturate(n: int) -> u64 {
    if n > u64::MAX {
        u64::MAX
    } else {
        n as u64
    }
}

proof fn lemma_sum_inputs_nonneg(ins: Seq<InputView>)
    ensures
        sum_input_amounts(ins) >= 0,
    decreases ins.len(),
{
    if ins.len() > 0 {
        lemma_sum_inputs_nonneg(ins.drop_last());
    }
}

proof fn lemma_sum_outputs_nonneg(outs: Seq<OutputView>)
    ensures
        sum_output_amounts(outs) >= 0,
    decreases outs.len(),
{
    if outs.len() > 0 {
        lemma_sum_outputs_nonneg(outs.drop_last());
    }
}

impl ParsedPsbt {
    /// Total amount of all inputs, saturating at `u64::MAX`: a hostile PSBT
    /// can set every amount near `u64::MAX`.
    pub fn total_in(&self) -> (r: u64)
        requires
            self.input_count <= MAX_INPUTS,
        ensures
            r == saturate(sum_input_amounts(self.view().inputs)),
    {
        let ghost ins = self.view().inputs;
        let mut acc: u64 = 0;
        let mut i: usize = 0;
        while i < self.input_count
            invariant
                self.input_count <= MAX_INPUTS,
                i <= self.input_count,
                ins == self.view().inputs,
                acc == saturate(sum_input_amounts(ins.take(i as int))),
            decreases self.input_count - i,
        {
            proof {
                assert(ins.take(i + 1).drop_last() =~= ins.take(i as int));
                lemma_sum_inputs_nonneg(ins.take(i as int));
            }
            acc = acc.saturating_add(self.inputs[i].amount_sats);
            i = i + 1;
        }
        assert(ins.take(i as int) =~= ins);
        acc
    }

    /// Total amount of all outputs, saturating at `u64::MAX`.
    pub fn total_out(&self) -> (r: u64)
        requires
            self.output_count <= MAX_OUTPUTS,
        ensures
            r == saturate(sum_output_amounts(self.view().outputs)),
    {
        let ghost outs = self.view().outputs;
        let mut acc: u64 = 0;
        let mut i: usize = 0;
        while i < self.output_count
            invariant
                self.output_count <= MAX_OUTPUTS,
                i <= self.output_count,
                outs == self.view().outputs,
                acc == saturate(sum_output_amounts(outs.take(i as int))),
            decreases self.output_count - i,
        {
            proof {
                assert(outs.take(i + 1).drop_last() =~= outs.take(i as int));
                lemma_sum_outputs_nonneg(outs.take(i as int));
            }
            acc = acc.saturating_add(self.outputs[i].amount_sats);
            i = i + 1;
        }
        assert(outs.take(i as int) =~= outs);
        acc
    }

    /// Miner fee = total_in - total_out, saturating at zero.
    pub fn fee(&self) -> (r: u64)
        requires
            self.input_count <= MAX_INPUTS,
            self.output_count <= MAX_OUTPUTS,
        ensures
            r == if saturate(sum_input_amounts(self.view().inputs)) >= saturate(
                sum_output_amounts(self.view().outputs),
            ) {
                (saturate(sum_input_amounts(self.view().inputs)) - saturate(
                    sum_output_amounts(self.view().outputs),
                )) as u64
            } else {
                0
            },
    {
        self.total_in().saturating_sub(self.total_out())
    }
}


// ── Encoder ──────────────────────────────────────────────────────────────────
/// Little-endian bytes of a `u64`.
pub open spec fn le64_bytes(x: u64) -> Seq<u8> {
    seq![
        (x % 0x100) as u8,
        ((x / 0x100) % 0x100) as u8,
        ((x / 0x10000) % 0x100) as u8,
        ((x / 0x1000000) % 0x100) as u8,
        ((x / 0x100000000) % 0x100) as u8,
        ((x / 0x10000000000) % 0x100) as u8,
        ((x / 0x1000000000000) % 0x100) as u8,
        ((x / 0x100000000000000) % 0x100) as u8,
    ]
}

/// Little-endian bytes of a `u32`.
pub open spec fn le32_bytes(x: u32) -> Seq<u8> {
    seq![
        (x % 0x100) as u8,
        ((x / 0x100) % 0x100) as u8,
        ((x / 0x10000) % 0x100) as u8,
        ((x / 0x1000000) % 0x100) as u8,
    ]
}

/// Bitcoin CompactSize encoding of `n`.
pub open spec fn varint_bytes(n: u64) -> Seq<u8> {
    if n < 0xfd {
        seq![n as u8]
    } else if n <= 0xffff {
        seq![0xfdu8, (n % 0x100) as u8, (n / 0x100) as u8]
    } else if n <= 0xffff_ffff {
        seq![0xfeu8] + le32_bytes(n as u32)
    } else {
        seq![0xffu8] + le64_bytes(n)
    }
}

/// One PSBT key-value pair.
pub open spec fn kv_bytes(key: Seq<u8>, value: Seq<u8>) -> Seq<u8> {
    varint_bytes(key.len() as u64) + key + varint_bytes(value.len() as u64) + value
}

pub open spec fn opt_kv_bytes(key: u8, value: Option<Seq<u8>>) -> Seq<u8> {
    match value {
        Some(v) => kv_bytes(seq![key], v),
        None => Seq::empty(),
    }
}

/// PSBT_IN_WITNESS_UTXO value: amount, script length, script.
pub open spec fn witness_utxo_bytes(amount: u64, script: Seq<u8>) -> Seq<u8> {
    le64_bytes(amount) + seq![script.len() as u8] + script
}

/// The map emitted for one input: witness UTXO, Taproot internal key and
/// key signature when present, terminator.
pub open spec fn input_map_bytes(inp: InputView) -> Seq<u8> {
    kv_bytes(seq![0x01u8], witness_utxo_bytes(inp.amount, inp.script)) + opt_kv_bytes(
        0x17,
        inp.tap_internal_key,
    ) + opt_kv_bytes(0x13, inp.tap_key_sig) + seq![0u8]
}

/// The map emitted for one output: Taproot internal key when present, terminator.
pub open spec fn output_map_bytes(out: OutputView) -> Seq<u8> {
    opt_kv_bytes(0x05, out.tap_internal_key) + seq![0u8]
}

pub open spec fn input_maps_bytes(ins: Seq<InputView>) -> Seq<u8>
    decreases ins.len(),
{
    if ins.len() == 0 {
        Seq::empty()
    } else {
        input_map_bytes(ins[0]) + input_maps_bytes(ins.drop_first())
    }
}

pub open spec fn output_maps_bytes(outs: Seq<OutputView>) -> Seq<u8>
    decreases outs.len(),
{
    if outs.len() == 0 {
        Seq::empty()
    } else {
        output_map_bytes(outs[0]) + output_maps_bytes(outs.drop_first())
    }
}

/// The signed PSBT: magic, the unsigned tx verbatim, then the input and output maps.
pub open spec fn spec_encode_signed(p: PsbtView) -> Seq<u8> {
    psbt_magic() + kv_bytes(seq![0u8], p.tx) + seq![0u8] + input_maps_bytes(p.inputs)
        + output_maps_bytes(p.outputs)
}

fn put_bytes(out: &mut [u8], pos: usize, bs: &[u8]) -> (r: Option<usize>)
    requires
        pos <= old(out)@.len(),
    ensures
        final(out)@.len() == old(out)@.len(),
        match r {
            Some(p) => p == pos + bs@.len() && p <= old(out)@.len() && final(out)@.take(p as int) == old(out)@.take(
                pos as int,
            ) + bs@,
            None => pos + bs@.len() > old(out)@.len(),
        },
{
    let out_len = out.len();
    if bs.len() > out_len - pos {
        return None;
    }
    let mut i: usize = 0;
    while i < bs.len()
        invariant
            out@.len() == old(out)@.len(),
            out_len == out@.len(),
            pos + bs@.len() <= out@.len(),
            i <= bs@.len(),
            out@.take(pos + i) == old(out)@.take(pos as int) + bs@.take(i as int),
        decreases bs@.len() - i,
    {
        let ghost prev = out@;
        out[pos + i] = bs[i];
        proof {
            assert(out@ == prev.update(pos + i, bs@[i as int]));
            assert(out@.take(pos + i + 1) =~= prev.take(pos + i).push(bs@[i as int]));
            assert(bs@.take(i + 1) =~= bs@.take(i as int).push(bs@[i as int]));
            assert((old(out)@.take(pos as int) + bs@.take(i as int)).push(bs@[i as int])
                =~= old(out)@.take(pos as int) + bs@.take(i as int).push(bs@[i as int]));
        }
        i = i + 1;
    }
    assert(bs@.take(i as int) =~= bs@);
    Some(pos + bs.len())
}

fn put_byte(out: &mut [u8], pos: usize, b: u8) -> (r: Option<usize>)
    requires
        pos <= old(out)@.len(),
    ensures
        final(out)@.len() == old(out)@.len(),
        match r {
            Some(p) => p == pos + 1 && p <= old(out)@.len() && final(out)@.take(p as int) == old(out)@.take(pos as int)
                + seq![b],
            None => pos + 1 > old(out)@.len(),
        },
{
    if pos >= out.len() {
        return None;
    }
    out[pos] = b;
    assert(out@.take(pos + 1) =~= old(out)@.take(pos as int) + seq![b]);
    Some(pos + 1)
}

pub fn u64_le_bytes(x: u64) -> (r: [u8; 8])
    ensures
        r@ == le64_bytes(x),
{
    let r = [
        (x % 0x100) as u8,
        ((x / 0x100) % 0x100) as u8,
        ((x / 0x10000) % 0x100) as u8,
        ((x / 0x1000000) % 0x100) as u8,
        ((x / 0x100000000) % 0x100) as u8,
        ((x / 0x10000000000) % 0x100) as u8,
        ((x / 0x1000000000000) % 0x100) as u8,
        ((x / 0x100000000000000) % 0x100) as u8,
    ];
    assert(r@ =~= le64_bytes(x));
    r
}

fn put_varint(out: &mut [u8], pos: usize, n: u64) -> (r: Option<usize>)
    requires
        pos <= old(out)@.len(),
    ensures
        final(out)@.len() == old(out)@.len(),
        match r {
            Some(p) => p == pos + varint_bytes(n).len() && p <= old(out)@.len() && final(out)@.take(p as int) == old(
                out,
            )@.take(pos as int) + varint_bytes(n),
            None => pos + varint_bytes(n).len() > old(out)@.len(),
        },
{
    if n < 0xfd {
        let b = [n as u8];
        assert(b@ =~= varint_bytes(n));
        put_bytes(out, pos, &b)
    } else if n <= 0xffff {
        let b = [0xfd, (n % 0x100) as u8, (n / 0x100) as u8];
        assert(b@ =~= varint_bytes(n));
        put_bytes(out, pos, &b)
    } else if n <= 0xffff_ffff {
        let m = n as u32;
        let b = [
            0xfe,
            (m % 0x100) as u8,
            ((m / 0x100) % 0x100) as u8,
            ((m / 0x10000) % 0x100) as u8,
            ((m / 0x1000000) % 0x100) as u8,
        ];
        assert(b@ =~= varint_bytes(n));
        put_bytes(out, pos, &b)
    } else {
        let w = u64_le_bytes(n);
        let b = [0xff, w[0], w[1], w[2], w[3], w[4], w[5], w[6], w[7]];
        assert(b@ =~= varint_bytes(n));
        put_bytes(out, pos, &b)
    }
}

fn put_kv(out: &mut [u8], pos: usize, key: &[u8], value: &[u8]) -> (r: Option<usize>)
    requires
        pos <= old(out)@.len(),
    ensures
        final(out)@.len() == old(out)@.len(),
        match r {
            Some(p) => p == pos + kv_bytes(key@, value@).len() && p <= old(out)@.len() && final(out)@.take(p as int)
                == old(out)@.take(pos as int) + kv_bytes(key@, value@),
            None => pos + kv_bytes(key@, value@).len() > old(out)@.len(),
        },
{
    let ghost w0 = out@.take(pos as int);
    assert(w0 == old(out)@.take(pos as int));
    let klen = key.len() as u64;
    assert(klen == key@.len());
    let p1 = match put_varint(out, pos, klen) {
        Some(p) => p,
        None => {
            return None;
        },
    };
    let ghost w1 = out@.take(p1 as int);
    assert(w1 == w0 + varint_bytes(klen));
    let p2 = match put_bytes(out, p1, key) {
        Some(p) => p,
        None => {
            return None;
        },
    };
    let ghost w2 = out@.take(p2 as int);
    assert(w2 == w1 + key@);
    let vlen = value.len() as u64;
    assert(vlen == value@.len());
    let p3 = match put_varint(out, p2, vlen) {
        Some(p) => p,
        None => {
            return None;
        },
    };
    let ghost w3 = out@.take(p3 as int);
    let p4 = match put_bytes(out, p3, value) {
        Some(p) => p,
        None => {
            return None;
        },
    };
    assert(w3 == w2 + varint_bytes(value@.len() as u64));
    assert(out@.take(p4 as int) == w3 + value@);
    assert(out@.take(p4 as int) =~= w0 + kv_bytes(key@, value@));
    Some(p4)
}


fn put_opt_kv<const N: usize>(out: &mut [u8], pos: usize, key: u8, value: &Option<[u8; N]>) -> (r:
    Option<usize>)
    requires
        pos <= old(out)@.len(),
    ensures
        final(out)@.len() == old(out)@.len(),
        match r {
            Some(p) => p == pos + opt_kv_bytes(key, opt_view(*value)).len() && p <= old(out)@.len()
                && final(out)@.take(p as int) == old(out)@.take(pos as int) + opt_kv_bytes(
                key,
                opt_view(*value),
            ),
            None => pos + opt_kv_bytes(key, opt_view(*value)).len() > old(out)@.len(),
        },
{
    match value {
        Some(v) => {
            let k = [key];
            assert(k@ =~= seq![key]);
            put_kv(out, pos, &k, v.as_slice())
        },
        None => {
            assert(old(out)@.take(pos as int) + Seq::<u8>::empty() =~= old(out)@.take(pos as int));
            Some(pos)
        },
    }
}

fn put_input_map(out: &mut [u8], pos: usize, inp: &TxInput) -> (r: Option<usize>)
    requires
        pos <= old(out)@.len(),
        inp.wf(),
    ensures
        final(out)@.len() == old(out)@.len(),
        match r {
            Some(p) => p == pos + input_map_bytes(inp.view()).len() && p <= old(out)@.len()
                && final(out)@.take(p as int) == old(out)@.take(pos as int) + input_map_bytes(
                inp.view(),
            ),
            None => pos + input_map_bytes(inp.view()).len() > old(out)@.len(),
        },
{
    let ghost v = inp.view();
    let ghost a = kv_bytes(seq![0x01u8], witness_utxo_bytes(v.amount, v.script));
    let ghost b = opt_kv_bytes(0x17, v.tap_internal_key);
    let ghost c = opt_kv_bytes(0x13, v.tap_key_sig);
    let ghost w0 = out@.take(pos as int);
    assert(input_map_bytes(v) == a + b + c + seq![0u8]);
    // PSBT_IN_WITNESS_UTXO: amount, script length, script.
    let mut utxo = [0u8; 43];
    let amt = u64_le_bytes(inp.amount_sats);
    let mut j: usize = 0;
    while j < 8
        invariant
            j <= 8,
            amt@ == le64_bytes(inp.amount_sats),
            forall|k: int| 0 <= k < j ==> utxo@[k] == amt@[k],
        decreases 8 - j,
    {
        utxo[j] = amt[j];
        j = j + 1;
    }
    utxo[8] = inp.script_len as u8;
    let mut j: usize = 0;
    while j < inp.script_len
        invariant
            inp.wf(),
            j <= inp.script_len,
            amt@ == le64_bytes(inp.amount_sats),
            forall|k: int| 0 <= k < 8 ==> utxo@[k] == amt@[k],
            utxo@[8] == inp.script_len as u8,
            forall|k: int| 0 <= k < j ==> utxo@[9 + k] == inp.script_pubkey@[k],
        decreases inp.script_len - j,
    {
        utxo[9 + j] = inp.script_pubkey[j];
        j = j + 1;
    }
    let utxo_len = 9 + inp.script_len;
    let value = vstd::slice::slice_subrange(utxo.as_slice(), 0, utxo_len);
    assert(value@ =~= witness_utxo_bytes(v.amount, v.script));
    let key = [0x01u8];
    assert(key@ =~= seq![0x01u8]);
    let ghost before = out@;
    let p1 = match put_kv(out, pos, &key, value) {
        Some(p) => p,
        None => {
            return None;
        },
    };
    let ghost w1 = out@.take(p1 as int);
    let p2 = match put_opt_kv(out, p1, 0x17, &inp.tap_internal_key) {
        Some(p) => p,
        None => {
            return None;
        },
    };
    let ghost w2 = out@.take(p2 as int);
    let p3 = match put_opt_kv(out, p2, 0x13, &inp.tap_key_sig) {
        Some(p) => p,
        None => {
            return None;
        },
    };
    let ghost w3 = out@.take(p3 as int);
    let p4 = match put_byte(out, p3, 0) {
        Some(p) => p,
        None => {
            return None;
        },
    };
    assert(out@.take(p4 as int) =~= w0 + input_map_bytes(v));
    Some(p4)
}

fn put_output_map(out: &mut [u8], pos: usize, o: &TxOutput) -> (r: Option<usize>)
    requires
        pos <= old(out)@.len(),
    ensures
        final(out)@.len() == old(out)@.len(),
        match r {
            Some(p) => p == pos + output_map_bytes(o.view()).len() && p <= old(out)@.len()
                && final(out)@.take(p as int) == old(out)@.take(pos as int) + output_map_bytes(
                o.view(),
            ),
            None => pos + output_map_bytes(o.view()).len() > old(out)@.len(),
        },
{
    let ghost w0 = out@.take(pos as int);
    let p1 = match put_opt_kv(out, pos, 0x05, &o.tap_internal_key) {
        Some(p) => p,
        None => {
            return None;
        },
    };
    let p2 = match put_byte(out, p1, 0) {
        Some(p) => p,
        None => {
            return None;
        },
    };
    assert(out@.take(p2 as int) =~= w0 + output_map_bytes(o.view()));
    Some(p2)
}

/// After emitting `m` at the front of what remains, the rest of the
/// output still adds up to the whole.
proof fn lemma_emit_step(w0: Seq<u8>, w1: Seq<u8>, m: Seq<u8>, a: Seq<u8>, b: Seq<u8>, total: Seq<u8>)
    requires
        w1 == w0 + m,
        w0 + ((m + a) + b) == total,
    ensures
        w1 + (a + b) == total,
{
    assert(w1 + (a + b) =~= w0 + ((m + a) + b));
}

proof fn lemma_input_maps_step(ins: Seq<InputView>, i: int)
    requires
        0 <= i < ins.len(),
    ensures
        input_maps_bytes(ins.skip(i)) == input_map_bytes(ins[i]) + input_maps_bytes(ins.skip(i + 1)),
{
    assert(ins.skip(i).drop_first() =~= ins.skip(i + 1));
}

proof fn lemma_output_maps_step(outs: Seq<OutputView>, i: int)
    requires
        0 <= i < outs.len(),
    ensures
        output_maps_bytes(outs.skip(i)) == output_map_bytes(outs[i]) + output_maps_bytes(
            outs.skip(i + 1),
        ),
{
    assert(outs.skip(i).drop_first() =~= outs.skip(i + 1));
}

/// Writes the signed PSBT into `out` and returns its length: magic, the
/// unsigned tx as received, then per input the witness UTXO, the Taproot
/// internal key and key signature when present, and per output the Taproot
/// internal key when present. Fails only when `out` is too small.
#[verifier::rlimit(40)]
pub fn encode_signed(psbt: &ParsedPsbt, out: &mut [u8]) -> (r: Result<usize, PsbtError>)
    requires
        psbt.encodable(),
    ensures
        final(out)@.len() == old(out)@.len(),
        match r {
            Ok(n) => n == spec_encode_signed(psbt.view()).len() && n <= old(out)@.len()
                && final(out)@.take(n as int) == spec_encode_signed(psbt.view()),
            Err(e) => e == PsbtError::OutputBufTooSmall && spec_encode_signed(psbt.view()).len()
                > old(out)@.len(),
        },
{
    let ghost v = psbt.view();
    let ghost total = spec_encode_signed(v);
    let ghost olen = out@.len();
    let magic = [0x70u8, 0x73u8, 0x62u8, 0x74u8, 0xffu8];
    assert(magic@ =~= psbt_magic());
    let p0 = match put_bytes(out, 0, &magic) {
        Some(p) => p,
        None => {
            return Err(PsbtError::OutputBufTooSmall);
        },
    };
    assert(out@.take(0) =~= Seq::<u8>::empty());
    assert(out@.take(p0 as int) =~= psbt_magic());
    let key = [0u8];
    assert(key@ =~= seq![0u8]);
    let tx = vstd::slice::slice_subrange(psbt.tx_raw.as_slice(), 0, psbt.tx_len);
    assert(tx@ =~= v.tx);
    let p1 = match put_kv(out, p0, &key, tx) {
        Some(p) => p,
        None => {
            return Err(PsbtError::OutputBufTooSmall);
        },
    };
    let p2 = match put_byte(out, p1, 0) {
        Some(p) => p,
        None => {
            return Err(PsbtError::OutputBufTooSmall);
        },
    };
    assert(out@.take(p2 as int) + (input_maps_bytes(v.inputs.skip(0)) + output_maps_bytes(
        v.outputs,
    )) =~= total) by {
        assert(v.inputs.skip(0) =~= v.inputs);
    }
    let mut pos = p2;
    let mut i: usize = 0;
    while i < psbt.input_count
        invariant
            psbt.encodable(),
            v == psbt.view(),
            total == spec_encode_signed(v),
            i <= psbt.input_count,
            pos <= out@.len(),
            out@.len() == olen,
            olen == old(out)@.len(),
            out@.take(pos as int) + (input_maps_bytes(v.inputs.skip(i as int)) + output_maps_bytes(
                v.outputs,
            )) == total,
        decreases psbt.input_count - i,
    {
        let ghost w0 = out@.take(pos as int);
        let ghost m = input_map_bytes(v.inputs[i as int]);
        let ghost a = input_maps_bytes(v.inputs.skip(i + 1));
        proof {
            lemma_input_maps_step(v.inputs, i as int);
        }
        assert(v.inputs[i as int] == psbt.inputs[i as int].view());
        match put_input_map(out, pos, &psbt.inputs[i]) {
            Some(p) => {
                proof {
                    lemma_emit_step(w0, out@.take(p as int), m, a, output_maps_bytes(v.outputs), total);
                }
                pos = p;
            },
            None => {
                assert(total.len() == w0.len() + m.len() + a.len() + output_maps_bytes(v.outputs).len());
                return Err(PsbtError::OutputBufTooSmall);
            },
        }
        i = i + 1;
    }
    assert(v.inputs.skip(i as int) =~= Seq::<InputView>::empty());
    assert(out@.take(pos as int) + (output_maps_bytes(v.outputs.skip(0)) + Seq::<u8>::empty()) =~= total) by {
        assert(v.outputs.skip(0) =~= v.outputs);
    }
    let mut j: usize = 0;
    while j < psbt.output_count
        invariant
            psbt.encodable(),
            v == psbt.view(),
            total == spec_encode_signed(v),
            j <= psbt.output_count,
            pos <= out@.len(),
            out@.len() == olen,
            olen == old(out)@.len(),
            out@.take(pos as int) + (output_maps_bytes(v.outputs.skip(j as int)) + Seq::<u8>::empty()) == total,
        decreases psbt.output_count - j,
    {
        let ghost w0 = out@.take(pos as int);
        let ghost m = output_map_bytes(v.outputs[j as int]);
        let ghost a = output_maps_bytes(v.outputs.skip(j + 1));
        proof {
            lemma_output_maps_step(v.outputs, j as int);
        }
        assert(v.outputs[j as int] == psbt.outputs[j as int].view());
        match put_output_map(out, pos, &psbt.outputs[j]) {
            Some(p) => {
                proof {
                    lemma_emit_step(w0, out@.take(p as int), m, a, Seq::<u8>::empty(), total);
                }
                pos = p;
            },
            None => {
                assert(total.len() == w0.len() + m.len() + a.len());
                return Err(PsbtError::OutputBufTooSmall);
            },
        }
        j = j + 1;
    }
    assert(v.outputs.skip(j as int) =~= Seq::<OutputView>::empty());
    assert(out@.take(pos as int) =~= total);
    Ok(pos)
}

} // verus!

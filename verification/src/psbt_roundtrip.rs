//! What a signed PSBT reads back as: the encoder's output parses to the same
//! transaction, inputs and outputs (the sighash types, which the encoder does
//! not emit, read back as absent).
use vstd::prelude::*;
use crate::psbt::{
    blank_input, blank_output, input_map_bytes, input_maps_bytes, kv_bytes, le64_bytes,
    le32_value, le64_value, opt_kv_bytes, output_map_bytes, output_maps_bytes, psbt_magic, spec_encode_signed,
    spec_find_unsigned_tx, spec_input_entry, spec_input_map, spec_input_maps, spec_kv,
    spec_output_entry, spec_output_map, prepend_ok, spec_output_maps, spec_parse, spec_parse_tx,
    spec_skip_map, spec_tx_input, spec_tx_inputs, spec_tx_output, spec_tx_outputs, spec_varint, spec_witness_utxo, varint_bytes, witness_utxo_bytes, InputView,
    OutputView, PsbtError, PsbtView, MAX_SPK_LEN, MAX_TX_RAW,
};

verus! {

/// An input whose fields fit the fixed buffers of `TxInput`.
pub open spec fn input_fits(x: InputView) -> bool {
    &&& x.script.len() <= MAX_SPK_LEN
    &&& (x.tap_internal_key matches Some(k) ==> k.len() == 32)
    &&& (x.tap_key_sig matches Some(s) ==> s.len() == 64)
}

pub open spec fn output_fits(o: OutputView) -> bool {
    o.tap_internal_key matches Some(k) ==> k.len() == 32
}

/// The input as the unsigned tx alone describes it.
pub open spec fn input_skeleton(x: InputView) -> InputView {
    blank_input(x.txid, x.vout, x.sequence)
}

/// The output as the unsigned tx alone describes it.
pub open spec fn output_skeleton(o: OutputView) -> OutputView {
    blank_output(o.amount, o.script)
}

pub open spec fn clear_sighash(x: InputView) -> InputView {
    InputView { sighash_type: None, ..x }
}

/// `p` with every input's sighash type removed.
pub open spec fn without_sighash(p: PsbtView) -> PsbtView {
    PsbtView { inputs: p.inputs.map_values(|x: InputView| clear_sighash(x)), ..p }
}

/// A PSBT view that agrees with its own unsigned tx and fits the buffers:
/// what every parse produces, and what signing keeps.
pub open spec fn consistent(p: PsbtView) -> bool {
    &&& p.tx.len() <= MAX_TX_RAW
    &&& spec_parse_tx(p.tx) == Ok::<(i32, Seq<InputView>, Seq<OutputView>, u32), PsbtError>(
        (
            p.version,
            p.inputs.map_values(|x: InputView| input_skeleton(x)),
            p.outputs.map_values(|o: OutputView| output_skeleton(o)),
            p.locktime,
        ),
    )
    &&& forall|i: int| 0 <= i < p.inputs.len() ==> input_fits(#[trigger] p.inputs[i])
    &&& forall|i: int| 0 <= i < p.outputs.len() ==> output_fits(#[trigger] p.outputs[i])
}

// ── Encoding then decoding the primitives ────────────────────────────────────
proof fn lemma_varint_roundtrip(n: u64, rest: Seq<u8>)
    requires
        n <= 0xffff,
    ensures
        spec_varint(varint_bytes(n) + rest) == Some((n, rest)),
{
    let s = varint_bytes(n) + rest;
    if n < 0xfd {
        assert(s[0] == n as u8);
        assert(s.skip(1) =~= rest);
    } else {
        assert(s[0] == 0xfdu8);
        assert(s[1] + s[2] * 0x100 == n);
        assert(s.skip(3) =~= rest);
    }
}

proof fn lemma_kv_roundtrip(key: Seq<u8>, value: Seq<u8>, rest: Seq<u8>)
    requires
        0 < key.len() <= 0xffff,
        value.len() <= 0xffff,
    ensures
        spec_kv(kv_bytes(key, value) + rest) == Ok::<
            (Option<(Seq<u8>, Seq<u8>)>, Seq<u8>),
            PsbtError,
        >((Some((key, value)), rest)),
{
    let vk = varint_bytes(key.len() as u64);
    let vv = varint_bytes(value.len() as u64);
    let r1 = key + (vv + (value + rest));
    let r3 = value + rest;
    assert(kv_bytes(key, value) + rest =~= vk + r1);
    lemma_varint_roundtrip(key.len() as u64, r1);
    assert(r1.take(key.len() as int) =~= key);
    assert(r1.skip(key.len() as int) =~= vv + r3);
    lemma_varint_roundtrip(value.len() as u64, r3);
    assert(r3.take(value.len() as int) =~= value);
    assert(r3.skip(value.len() as int) =~= rest);
}

proof fn lemma_terminator(rest: Seq<u8>)
    ensures
        spec_kv(seq![0u8] + rest) == Ok::<(Option<(Seq<u8>, Seq<u8>)>, Seq<u8>), PsbtError>(
            (None, rest),
        ),
{
    assert((seq![0u8] + rest)[0] == 0u8);
    assert((seq![0u8] + rest).skip(1) =~= rest);
}

proof fn lemma_le64_roundtrip(x: u64)
    ensures
        le64_value(le64_bytes(x)) == x,
{
    let b = le64_bytes(x);
    assert((x % 0x100) + ((x / 0x100) % 0x100) * 0x100 + ((x / 0x10000) % 0x100) * 0x10000 + ((x
        / 0x1000000) % 0x100) * 0x1000000 + ((x / 0x100000000) % 0x100) * 0x100000000 + ((x
        / 0x10000000000) % 0x100) * 0x10000000000 + ((x / 0x1000000000000) % 0x100)
        * 0x1000000000000 + ((x / 0x100000000000000) % 0x100) * 0x100000000000000 == x)
        by (bit_vector);
}

/// Law: the fixed-width integers the PSBT and the sighash write are
/// little-endian: reading the bytes back, low byte first, gives the number.
pub proof fn lemma_little_endian(x32: u32, x64: u64)
    ensures
        crate::psbt::le32_bytes(x32).len() == 4,
        crate::psbt::le32_bytes(x32)[0] + crate::psbt::le32_bytes(x32)[1] * 0x100 + crate::psbt::le32_bytes(x32)[2] * 0x10000 + crate::psbt::le32_bytes(
            x32,
        )[3] * 0x1000000 == x32,
        le64_bytes(x64).len() == 8,
        le64_value(le64_bytes(x64)) == x64,
{
    assert((x32 % 0x100) + ((x32 / 0x100) % 0x100) * 0x100 + ((x32 / 0x10000) % 0x100) * 0x10000
        + ((x32 / 0x1000000) % 0x100) * 0x1000000 == x32) by (bit_vector);
    lemma_le64_roundtrip(x64);
}

proof fn lemma_witness_utxo_roundtrip(amount: u64, script: Seq<u8>)
    requires
        script.len() <= MAX_SPK_LEN,
    ensures
        spec_witness_utxo(witness_utxo_bytes(amount, script)) == Ok::<(u64, Seq<u8>), PsbtError>(
            (amount, script),
        ),
{
    let v = witness_utxo_bytes(amount, script);
    assert(v.take(8) =~= le64_bytes(amount));
    lemma_le64_roundtrip(amount);
    assert(v.skip(8) =~= varint_bytes(script.len() as u64) + script);
    lemma_varint_roundtrip(script.len() as u64, script);
    assert(script.take(script.len() as int) =~= script);
}

// ── One map at a time ────────────────────────────────────────────────────────
proof fn lemma_opt_entry_input(
    key: u8,
    value: Option<Seq<u8>>,
    rest: Seq<u8>,
    cur: InputView,
    done: InputView,
    tail: Seq<u8>,
)
    requires
        key == 0x17u8 || key == 0x13u8,
        value matches Some(v) ==> v.len() == (if key == 0x17u8 { 32int } else { 64int }),
        spec_input_map(
            rest,
            if value is Some {
                if key == 0x17u8 {
                    InputView { tap_internal_key: value, ..cur }
                } else {
                    InputView { tap_key_sig: value, ..cur }
                }
            } else {
                cur
            },
        ) == Ok::<(InputView, Seq<u8>), PsbtError>((done, tail)),
    ensures
        spec_input_map(opt_kv_bytes(key, value) + rest, cur) == Ok::<
            (InputView, Seq<u8>),
            PsbtError,
        >((done, tail)),
{
    match value {
        Some(v) => {
            lemma_kv_roundtrip(seq![key], v, rest);
            assert(seq![key] != seq![0x01u8]) by {
                assert(seq![key][0] != seq![0x01u8][0]);
            }
            assert(seq![key] != seq![0x03u8]) by {
                assert(seq![key][0] != seq![0x03u8][0]);
            }
            if key == 0x13u8 {
                assert(seq![key] != seq![0x17u8]) by {
                    assert(seq![key][0] != seq![0x17u8][0]);
                }
            }
        },
        None => {
            assert(opt_kv_bytes(key, value) + rest =~= rest);
        },
    }
}

proof fn lemma_input_map_roundtrip(x: InputView, tail: Seq<u8>)
    requires
        input_fits(x),
    ensures
        spec_input_map(input_map_bytes(x) + tail, input_skeleton(x)) == Ok::<
            (InputView, Seq<u8>),
            PsbtError,
        >((clear_sighash(x), tail)),
{
    let w = witness_utxo_bytes(x.amount, x.script);
    let b = opt_kv_bytes(0x17, x.tap_internal_key);
    let c = opt_kv_bytes(0x13, x.tap_key_sig);
    let s3 = seq![0u8] + tail;
    let s2 = c + s3;
    let s1 = b + s2;
    assert(input_map_bytes(x) + tail =~= kv_bytes(seq![0x01u8], w) + s1);
    let sk = input_skeleton(x);
    let x1 = InputView { amount: x.amount, script: x.script, ..sk };
    let x2 = InputView { tap_internal_key: x.tap_internal_key, ..x1 };
    let x3 = InputView { tap_key_sig: x.tap_key_sig, ..x2 };
    assert(x3 =~= clear_sighash(x));
    lemma_terminator(tail);
    assert(spec_input_map(s3, x3) == Ok::<(InputView, Seq<u8>), PsbtError>((x3, tail)));
    lemma_opt_entry_input(0x13, x.tap_key_sig, s3, x2, x3, tail);
    if x.tap_key_sig is None {
        assert(x2 =~= x3);
    }
    lemma_opt_entry_input(0x17, x.tap_internal_key, s2, x1, x3, tail);
    if x.tap_internal_key is None {
        assert(x1 =~= x2);
    }
    lemma_kv_roundtrip(seq![0x01u8], w, s1);
    lemma_witness_utxo_roundtrip(x.amount, x.script);
    assert(spec_input_entry(sk, seq![0x01u8], w) == Ok::<InputView, PsbtError>(x1));
}

proof fn lemma_output_map_roundtrip(o: OutputView, tail: Seq<u8>)
    requires
        output_fits(o),
    ensures
        spec_output_map(output_map_bytes(o) + tail, output_skeleton(o)) == Ok::<
            (OutputView, Seq<u8>),
            PsbtError,
        >((o, tail)),
{
    let s1 = seq![0u8] + tail;
    lemma_terminator(tail);
    match o.tap_internal_key {
        Some(k) => {
            assert(output_map_bytes(o) + tail =~= kv_bytes(seq![0x05u8], k) + s1);
            lemma_kv_roundtrip(seq![0x05u8], k, s1);
            assert(spec_output_entry(output_skeleton(o), seq![0x05u8], k) =~= o);
        },
        None => {
            assert(output_map_bytes(o) + tail =~= s1);
            assert(output_skeleton(o) =~= o);
        },
    }
}

// ── All the maps ─────────────────────────────────────────────────────────────
#[verifier::spinoff_prover]
#[verifier::rlimit(40)]
proof fn lemma_input_maps_roundtrip(ins: Seq<InputView>, cur: Seq<InputView>, i: nat, tail: Seq<u8>)
    requires
        i <= ins.len(),
        cur.len() == ins.len(),
        forall|k: int| 0 <= k < i ==> cur[k] == clear_sighash(ins[k]),
        forall|k: int| i <= k < ins.len() ==> cur[k] == input_skeleton(ins[k]),
        forall|k: int| 0 <= k < ins.len() ==> input_fits(#[trigger] ins[k]),
    ensures
        spec_input_maps(input_maps_bytes(ins.skip(i as int)) + tail, cur, i) == Ok::<
            (Seq<InputView>, Seq<u8>),
            PsbtError,
        >((ins.map_values(|x: InputView| clear_sighash(x)), tail)),
    decreases ins.len() - i,
{
    if i == ins.len() {
        assert(ins.skip(i as int) =~= Seq::<InputView>::empty());
        assert(Seq::<u8>::empty() + tail =~= tail);
        assert(cur =~= ins.map_values(|x: InputView| clear_sighash(x)));
    } else {
        let rest = ins.skip(i as int);
        assert(rest.drop_first() =~= ins.skip(i + 1int));
        assert(rest[0] == ins[i as int]);
        let t1 = input_maps_bytes(ins.skip(i + 1int)) + tail;
        assert(input_maps_bytes(rest) + tail =~= input_map_bytes(ins[i as int]) + t1);
        lemma_input_map_roundtrip(ins[i as int], t1);
        lemma_input_maps_roundtrip(ins, cur.update(i as int, clear_sighash(ins[i as int])), i + 1, tail);
    }
}

#[verifier::spinoff_prover]
#[verifier::rlimit(40)]
proof fn lemma_output_maps_roundtrip(
    outs: Seq<OutputView>,
    cur: Seq<OutputView>,
    i: nat,
    tail: Seq<u8>,
)
    requires
        i <= outs.len(),
        cur.len() == outs.len(),
        forall|k: int| 0 <= k < i ==> cur[k] == outs[k],
        forall|k: int| i <= k < outs.len() ==> cur[k] == output_skeleton(outs[k]),
        forall|k: int| 0 <= k < outs.len() ==> output_fits(#[trigger] outs[k]),
    ensures
        spec_output_maps(output_maps_bytes(outs.skip(i as int)) + tail, cur, i) == Ok::<
            (Seq<OutputView>, Seq<u8>),
            PsbtError,
        >((outs, tail)),
    decreases outs.len() - i,
{
    if i == outs.len() {
        assert(outs.skip(i as int) =~= Seq::<OutputView>::empty());
        assert(Seq::<u8>::empty() + tail =~= tail);
        assert(cur =~= outs);
    } else {
        let rest = outs.skip(i as int);
        assert(rest.drop_first() =~= outs.skip(i + 1int));
        assert(rest[0] == outs[i as int]);
        let t1 = output_maps_bytes(outs.skip(i + 1int)) + tail;
        assert(output_maps_bytes(rest) + tail =~= output_map_bytes(outs[i as int]) + t1);
        lemma_output_map_roundtrip(outs[i as int], t1);
        lemma_output_maps_roundtrip(outs, cur.update(i as int, outs[i as int]), i + 1, tail);
    }
}

/// Law: a consistent PSBT (every parse yields one) encodes to bytes that
/// parse back to it, the unsigned tx byte for byte, with the sighash types
/// read back as absent.
/// The magic and the global map of an encoded PSBT read back as written.
proof fn lemma_encoded_front(tx: Seq<u8>, rest: Seq<u8>)
    requires
        tx.len() <= MAX_TX_RAW,
    ensures
        ({
            let raw = psbt_magic() + kv_bytes(seq![0u8], tx) + seq![0u8] + rest;
            &&& raw.len() >= 5
            &&& raw.take(5) == psbt_magic()
            &&& spec_find_unsigned_tx(raw.skip(5)) == Ok::<(Seq<u8>, Seq<u8>), PsbtError>(
                (tx, seq![0u8] + rest),
            )
            &&& spec_skip_map(seq![0u8] + rest) == Ok::<Seq<u8>, PsbtError>(rest)
        }),
{
    let raw = psbt_magic() + kv_bytes(seq![0u8], tx) + seq![0u8] + rest;
    let r1 = seq![0u8] + rest;
    assert(raw.take(5) =~= psbt_magic());
    assert(raw.skip(5) =~= kv_bytes(seq![0u8], tx) + r1);
    lemma_kv_roundtrip(seq![0u8], tx, r1);
    lemma_terminator(rest);
}

/// The maps of an encoded PSBT read back as written.
proof fn lemma_encoded_maps(p: PsbtView)
    requires
        consistent(p),
    ensures
        spec_input_maps(
            input_maps_bytes(p.inputs) + output_maps_bytes(p.outputs),
            p.inputs.map_values(|x: InputView| input_skeleton(x)),
            0,
        ) == Ok::<(Seq<InputView>, Seq<u8>), PsbtError>(
            (p.inputs.map_values(|x: InputView| clear_sighash(x)), output_maps_bytes(p.outputs)),
        ),
        spec_output_maps(
            output_maps_bytes(p.outputs),
            p.outputs.map_values(|o: OutputView| output_skeleton(o)),
            0,
        ) == Ok::<(Seq<OutputView>, Seq<u8>), PsbtError>((p.outputs, Seq::<u8>::empty())),
{
    let om = output_maps_bytes(p.outputs);
    assert(p.inputs.skip(0) =~= p.inputs);
    lemma_input_maps_roundtrip(p.inputs, p.inputs.map_values(|x: InputView| input_skeleton(x)), 0, om);
    assert(p.outputs.skip(0) =~= p.outputs);
    assert(om + Seq::<u8>::empty() =~= om);
    lemma_output_maps_roundtrip(
        p.outputs,
        p.outputs.map_values(|o: OutputView| output_skeleton(o)),
        0,
        Seq::<u8>::empty(),
    );
}

/// Law: a consistent PSBT (every parse yields one) encodes to bytes that
/// parse back to it, the unsigned tx byte for byte, with the sighash types
/// read back as absent.
pub proof fn lemma_encode_then_parse(p: PsbtView)
    requires
        consistent(p),
    ensures
        spec_parse(spec_encode_signed(p)) == Ok::<PsbtView, PsbtError>(without_sighash(p)),
{
    let im = input_maps_bytes(p.inputs);
    let om = output_maps_bytes(p.outputs);
    let raw = spec_encode_signed(p);
    assert(raw =~= psbt_magic() + kv_bytes(seq![0u8], p.tx) + seq![0u8] + (im + om));
    lemma_encoded_front(p.tx, im + om);
    lemma_encoded_maps(p);
    assert(without_sighash(p) =~= PsbtView {
        version: p.version,
        locktime: p.locktime,
        inputs: p.inputs.map_values(|x: InputView| clear_sighash(x)),
        outputs: p.outputs,
        tx: p.tx,
    });
}

// ── Every parse yields a consistent view ─────────────────────────────────────
proof fn lemma_tx_inputs_are_skeletons(rest: Seq<u8>, n: nat)
    ensures
        spec_tx_inputs(rest, n) matches Ok((ins, _)) ==> ins.len() == n && forall|k: int|
            0 <= k < ins.len() ==> #[trigger] ins[k] == input_skeleton(ins[k]),
    decreases n,
{
    if n > 0 {
        if let Ok((inp, r)) = spec_tx_input(rest) {
            lemma_tx_inputs_are_skeletons(r, (n - 1) as nat);
            if let Ok((tl, _)) = spec_tx_inputs(r, (n - 1) as nat) {
                let all = seq![inp] + tl;
                assert forall|k: int| 0 <= k < all.len() implies #[trigger] all[k] == input_skeleton(
                    all[k],
                ) by {
                    if k > 0 {
                        assert(all[k] == tl[k - 1]);
                    }
                }
            }
        }
    }
}

proof fn lemma_tx_outputs_are_skeletons(rest: Seq<u8>, n: nat)
    ensures
        spec_tx_outputs(rest, n) matches Ok((outs, _)) ==> outs.len() == n && forall|k: int|
            0 <= k < outs.len() ==> #[trigger] outs[k] == output_skeleton(outs[k]),
    decreases n,
{
    if n > 0 {
        if let Ok((o, r)) = spec_tx_output(rest) {
            lemma_tx_outputs_are_skeletons(r, (n - 1) as nat);
            if let Ok((tl, _)) = spec_tx_outputs(r, (n - 1) as nat) {
                let all = seq![o] + tl;
                assert forall|k: int| 0 <= k < all.len() implies #[trigger] all[k] == output_skeleton(
                    all[k],
                ) by {
                    if k > 0 {
                        assert(all[k] == tl[k - 1]);
                    }
                }
            }
        }
    }
}

proof fn lemma_input_map_keeps(rest: Seq<u8>, x: InputView)
    requires
        input_fits(x),
    ensures
        spec_input_map(rest, x) matches Ok((x2, _)) ==> input_skeleton(x2) == input_skeleton(x)
            && input_fits(x2),
    decreases rest.len(),
{
    if let Ok((Some((key, value)), r)) = spec_kv(rest) {
        if let Ok(x1) = spec_input_entry(x, key, value) {
            crate::psbt::lemma_kv_consumes(rest);
            lemma_input_map_keeps(r, x1);
        }
    }
}

proof fn lemma_output_map_keeps(rest: Seq<u8>, o: OutputView)
    requires
        output_fits(o),
    ensures
        spec_output_map(rest, o) matches Ok((o2, _)) ==> output_skeleton(o2) == output_skeleton(o)
            && output_fits(o2),
    decreases rest.len(),
{
    if let Ok((Some((key, value)), r)) = spec_kv(rest) {
        crate::psbt::lemma_kv_consumes(rest);
        lemma_output_map_keeps(r, spec_output_entry(o, key, value));
    }
}

proof fn lemma_input_maps_keep(rest: Seq<u8>, ins: Seq<InputView>, i: nat)
    requires
        forall|k: int| 0 <= k < ins.len() ==> input_fits(#[trigger] ins[k]),
    ensures
        spec_input_maps(rest, ins, i) matches Ok((ins2, _)) ==> ins2.len() == ins.len() && (forall|
            k: int,
        | 0 <= k < ins.len() ==> input_fits(#[trigger] ins2[k])) && (forall|k: int|
            0 <= k < ins.len() ==> #[trigger] input_skeleton(ins2[k]) == input_skeleton(ins[k])),
    decreases ins.len() - i,
{
    if i < ins.len() {
        if let Ok((x, r)) = spec_input_map(rest, ins[i as int]) {
            lemma_input_map_keeps(rest, ins[i as int]);
            let upd = ins.update(i as int, x);
            lemma_input_maps_keep(r, upd, i + 1);
            if let Ok((ins2, _)) = spec_input_maps(r, upd, i + 1) {
                assert forall|k: int| 0 <= k < ins.len() implies #[trigger] input_skeleton(ins2[k])
                    == input_skeleton(ins[k]) by {
                    assert(input_skeleton(ins2[k]) == input_skeleton(upd[k]));
                }
            }
        }
    }
}

proof fn lemma_output_maps_keep(rest: Seq<u8>, outs: Seq<OutputView>, i: nat)
    requires
        forall|k: int| 0 <= k < outs.len() ==> output_fits(#[trigger] outs[k]),
    ensures
        spec_output_maps(rest, outs, i) matches Ok((outs2, _)) ==> outs2.len() == outs.len() && (
        forall|k: int| 0 <= k < outs.len() ==> output_fits(#[trigger] outs2[k])) && (forall|k: int|
            0 <= k < outs.len() ==> #[trigger] output_skeleton(outs2[k]) == output_skeleton(
                outs[k],
            )),
    decreases outs.len() - i,
{
    if i < outs.len() {
        if let Ok((o, r)) = spec_output_map(rest, outs[i as int]) {
            lemma_output_map_keeps(rest, outs[i as int]);
            let upd = outs.update(i as int, o);
            lemma_output_maps_keep(r, upd, i + 1);
            if let Ok((outs2, _)) = spec_output_maps(r, upd, i + 1) {
                assert forall|k: int| 0 <= k < outs.len() implies #[trigger] output_skeleton(
                    outs2[k],
                ) == output_skeleton(outs[k]) by {
                    assert(output_skeleton(outs2[k]) == output_skeleton(upd[k]));
                }
            }
        }
    }
}

proof fn lemma_unsigned_tx_fits(rest: Seq<u8>)
    ensures
        spec_find_unsigned_tx(rest) matches Ok((tx, _)) ==> tx.len() <= MAX_TX_RAW,
    decreases rest.len(),
{
    if let Ok((Some((key, value)), r)) = spec_kv(rest) {
        if key != seq![0u8] {
            crate::psbt::lemma_kv_consumes(rest);
            lemma_unsigned_tx_fits(r);
        }
    }
}

/// Law: whatever `spec_parse` accepts is consistent, so it encodes back
/// losslessly (`lemma_encode_then_parse`).
pub proof fn lemma_parse_consistent(raw: Seq<u8>)
    ensures
        spec_parse(raw) matches Ok(p) ==> consistent(p),
{
    if let Ok(p) = spec_parse(raw) {
        let (tx, r1) = spec_find_unsigned_tx(raw.skip(5))->Ok_0;
        let (version, ins, outs, locktime) = spec_parse_tx(tx)->Ok_0;
        let r2 = spec_skip_map(r1)->Ok_0;
        let (ins2, r3) = spec_input_maps(r2, ins, 0)->Ok_0;
        let vin = spec_varint(tx.skip(4))->Some_0.1;
        let vin_n = spec_varint(tx.skip(4))->Some_0.0;
        let (ins_t, r4) = spec_tx_inputs(vin, vin_n as nat)->Ok_0;
        assert(ins == ins_t);
        lemma_unsigned_tx_fits(raw.skip(5));
        lemma_tx_inputs_are_skeletons(vin, vin_n as nat);
        let vout = spec_varint(r4)->Some_0.1;
        let vout_n = spec_varint(r4)->Some_0.0;
        lemma_tx_outputs_are_skeletons(vout, vout_n as nat);
        assert forall|k: int| 0 <= k < ins.len() implies input_fits(#[trigger] ins[k]) by {
            assert(ins[k] == input_skeleton(ins[k]));
        }
        assert forall|k: int| 0 <= k < outs.len() implies output_fits(#[trigger] outs[k]) by {
            assert(outs[k] == output_skeleton(outs[k]));
        }
        lemma_input_maps_keep(r2, ins, 0);
        lemma_output_maps_keep(r3, outs, 0);
        assert(p.inputs.map_values(|x: InputView| input_skeleton(x)) =~= ins);
        assert(p.outputs.map_values(|o: OutputView| output_skeleton(o)) =~= outs);
        assert(p.tx.len() <= MAX_TX_RAW);
        assert(forall|i: int| 0 <= i < p.inputs.len() ==> input_fits(#[trigger] p.inputs[i]));
        assert(forall|i: int| 0 <= i < p.outputs.len() ==> output_fits(#[trigger] p.outputs[i]));
    }
}

// ── Input map entries ────────────────────────────────────────────────────────
proof fn lemma_input_entry_step(key: u8, value: Seq<u8>, rest: Seq<u8>, inp: InputView)
    requires
        value.len() <= 64,
    ensures
        spec_input_map(seq![1u8, key, value.len() as u8] + value + rest, inp) == match spec_input_entry(
            inp,
            seq![key],
            value,
        ) {
            Err(e) => Err(e),
            Ok(inp2) => spec_input_map(rest, inp2),
        },
{
    let raw = seq![1u8, key, value.len() as u8] + value + rest;
    assert(varint_bytes(1) == seq![1u8]);
    assert(varint_bytes(value.len() as u64) == seq![value.len() as u8]);
    assert(raw =~= kv_bytes(seq![key], value) + rest);
    lemma_kv_roundtrip(seq![key], value, rest);
}

/// Law (BIP174 input map): an entry with the one-byte key `0x03` and a 4-byte
/// value sets the input's sighash type to that little-endian number; key
/// `0x17` with 32 bytes sets the Taproot internal key, key `0x13` with 64
/// bytes the key-path signature; the map then reads on from the updated
/// input. Bytes written out: length 1, key, value length, value.
pub proof fn lemma_input_map_entries(value: Seq<u8>, rest: Seq<u8>, inp: InputView)
    ensures
        value.len() == 4 ==> spec_input_map(seq![1u8, 3u8, 4u8] + value + rest, inp)
            == spec_input_map(
            rest,
            InputView {
                sighash_type: Some(
                    (value[0] + value[1] * 256 + value[2] * 65536 + value[3] * 16777216) as u32,
                ),
                ..inp
            },
        ),
        value.len() == 32 ==> spec_input_map(seq![1u8, 0x17u8, 32u8] + value + rest, inp)
            == spec_input_map(rest, InputView { tap_internal_key: Some(value), ..inp }),
        value.len() == 64 ==> spec_input_map(seq![1u8, 0x13u8, 64u8] + value + rest, inp)
            == spec_input_map(rest, InputView { tap_key_sig: Some(value), ..inp }),
{
    let k01 = seq![0x01u8];
    let k03 = seq![0x03u8];
    let k17 = seq![0x17u8];
    let k13 = seq![0x13u8];
    assert(k03 != k01) by { assert(k03[0] != k01[0]); }
    assert(k17 != k01 && k17 != k03) by { assert(k17[0] != k01[0] && k17[0] != k03[0]); }
    assert(k13 != k01 && k13 != k03 && k13 != k17) by {
        assert(k13[0] != k01[0] && k13[0] != k03[0] && k13[0] != k17[0]);
    }
    if value.len() == 4 {
        lemma_input_entry_step(3u8, value, rest, inp);
        assert(value.len() as u8 == 4u8);
        assert(le32_value(value) == (value[0] + value[1] * 256 + value[2] * 65536 + value[3]
            * 16777216) as u32);
    } else if value.len() == 32 {
        lemma_input_entry_step(0x17u8, value, rest, inp);
        assert(value.len() as u8 == 32u8);
    } else if value.len() == 64 {
        lemma_input_entry_step(0x13u8, value, rest, inp);
        assert(value.len() as u8 == 64u8);
    }
}

} // verus!

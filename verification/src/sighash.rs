//! BIP341 Taproot key-path signature hash (SIGHASH_DEFAULT, no annex).
use vstd::prelude::*;
use crate::hashes::{append_bytes, sha256_of, sha256_hash, tagged_hash, tagged_hash_spec};
use crate::psbt::{le32_bytes, le64_bytes, varint_bytes, InputView, OutputView, ParsedPsbt, PsbtView};

verus! {

/// The bytes `f` gives for each item, concatenated in order.
pub open spec fn concat_map<T>(s: Seq<T>, f: spec_fn(T) -> Seq<u8>) -> Seq<u8>
    decreases s.len(),
{
    if s.len() == 0 {
        Seq::empty()
    } else {
        concat_map(s.drop_last(), f) + f(s.last())
    }
}

pub open spec fn prevout_bytes(x: InputView) -> Seq<u8> {
    x.txid + le32_bytes(x.vout)
}

pub open spec fn amount_bytes(x: InputView) -> Seq<u8> {
    le64_bytes(x.amount)
}

pub open spec fn script_bytes(x: InputView) -> Seq<u8> {
    varint_bytes(x.script.len() as u64) + x.script
}

pub open spec fn sequence_bytes(x: InputView) -> Seq<u8> {
    le32_bytes(x.sequence)
}

pub open spec fn output_bytes(o: OutputView) -> Seq<u8> {
    le64_bytes(o.amount) + varint_bytes(o.script.len() as u64) + o.script
}

/// The 175-byte BIP341 message: epoch, hash type, version, locktime, the
/// five aggregated hashes, spend type, input index.
#[verifier::opaque]
pub open spec fn sighash_preimage(p: PsbtView, index: u32) -> Seq<u8> {
    seq![0u8, 0u8] + le32_bytes(p.version as u32) + le32_bytes(p.locktime) + sha256_of(
        concat_map(p.inputs, |x: InputView| prevout_bytes(x)),
    ) + sha256_of(concat_map(p.inputs, |x: InputView| amount_bytes(x))) + sha256_of(
        concat_map(p.inputs, |x: InputView| script_bytes(x)),
    ) + sha256_of(concat_map(p.inputs, |x: InputView| sequence_bytes(x))) + sha256_of(
        concat_map(p.outputs, |o: OutputView| output_bytes(o)),
    ) + seq![0u8] + le32_bytes(index)
}

/// "TapSighash".
pub open spec fn tap_sighash_tag() -> Seq<u8> {
    seq![84u8, 97u8, 112u8, 83u8, 105u8, 103u8, 104u8, 97u8, 115u8, 104u8]
}

pub open spec fn taproot_sighash_spec(p: PsbtView, index: u32) -> Seq<u8> {
    tagged_hash_spec(tap_sighash_tag(), sighash_preimage(p, index))
}

proof fn lemma_concat_map_step<T>(s: Seq<T>, f: spec_fn(T) -> Seq<u8>, i: int)
    requires
        0 <= i < s.len(),
    ensures
        concat_map(s.take(i + 1), f) == concat_map(s.take(i), f) + f(s[i]),
{
    assert(s.take(i + 1).drop_last() =~= s.take(i));
}

/// Inputs that agree on what `f` reads give the same bytes.
pub proof fn lemma_concat_map_agree<T>(a: Seq<T>, b: Seq<T>, f: spec_fn(T) -> Seq<u8>)
    requires
        a.len() == b.len(),
        forall|i: int| 0 <= i < a.len() ==> f(#[trigger] a[i]) == f(b[i]),
    ensures
        concat_map(a, f) == concat_map(b, f),
    decreases a.len(),
{
    if a.len() > 0 {
        lemma_concat_map_agree(a.drop_last(), b.drop_last(), f);
    }
}

/// Law (BIP341, SIGHASH_DEFAULT, key path, no annex): the sighash is the
/// `TapSighash` tagged hash of epoch 0, hash type 0, the version and the
/// locktime, then the SHA-256 of all prevouts, of all amounts, of all
/// scriptPubKeys, of all sequences and of all outputs, in that order, then
/// spend type 0 and the input index.
pub proof fn lemma_sighash_is_bip341(p: PsbtView, index: u32)
    ensures
        ({
            let tag = seq![84u8, 97u8, 112u8, 83u8, 105u8, 103u8, 104u8, 97u8, 115u8, 104u8];
            let msg = seq![0u8, 0u8] + le32_bytes(p.version as u32) + le32_bytes(p.locktime)
                + sha256_of(concat_map(p.inputs, |x: InputView| x.txid + le32_bytes(x.vout)))
                + sha256_of(concat_map(p.inputs, |x: InputView| le64_bytes(x.amount)))
                + sha256_of(
                concat_map(
                    p.inputs,
                    |x: InputView| varint_bytes(x.script.len() as u64) + x.script,
                ),
            ) + sha256_of(concat_map(p.inputs, |x: InputView| le32_bytes(x.sequence)))
                + sha256_of(
                concat_map(
                    p.outputs,
                    |o: OutputView|
                        le64_bytes(o.amount) + varint_bytes(o.script.len() as u64) + o.script,
                ),
            ) + seq![0u8] + le32_bytes(index);
            taproot_sighash_spec(p, index) == sha256_of(sha256_of(tag) + sha256_of(tag) + msg)
        }),
{
    reveal(sighash_preimage);
    assert((|x: InputView| prevout_bytes(x)) =~= (|x: InputView| x.txid + le32_bytes(x.vout)));
    assert((|x: InputView| amount_bytes(x)) =~= (|x: InputView| le64_bytes(x.amount)));
    assert((|x: InputView| script_bytes(x)) =~= (|x: InputView|
        varint_bytes(x.script.len() as u64) + x.script));
    assert((|x: InputView| sequence_bytes(x)) =~= (|x: InputView| le32_bytes(x.sequence)));
    assert((|o: OutputView| output_bytes(o)) =~= (|o: OutputView|
        le64_bytes(o.amount) + varint_bytes(o.script.len() as u64) + o.script));
    assert(tap_sighash_tag() =~= seq![84u8, 97u8, 112u8, 83u8, 105u8, 103u8, 104u8, 97u8, 115u8, 104u8]);
}

/// Law: the sighash reads, of each input, only its outpoint, amount,
/// script and sequence, and of each output only its amount and script: the
/// Taproot internal keys, the signatures and the sighash types that a PSBT
/// carries change nothing.
pub proof fn lemma_sighash_ignores_psbt_fields(a: PsbtView, b: PsbtView, index: u32)
    requires
        a.version == b.version,
        a.locktime == b.locktime,
        a.inputs.len() == b.inputs.len(),
        a.outputs.len() == b.outputs.len(),
        forall|j: int|
            0 <= j < a.inputs.len() ==> {
                let x = #[trigger] a.inputs[j];
                let y = b.inputs[j];
                x.txid == y.txid && x.vout == y.vout && x.amount == y.amount && x.script == y.script
                    && x.sequence == y.sequence
            },
        forall|j: int|
            0 <= j < a.outputs.len() ==> (#[trigger] a.outputs[j]).amount == b.outputs[j].amount
                && a.outputs[j].script == b.outputs[j].script,
    ensures
        taproot_sighash_spec(a, index) == taproot_sighash_spec(b, index),
{
    lemma_concat_map_agree(a.inputs, b.inputs, |x: InputView| prevout_bytes(x));
    lemma_concat_map_agree(a.inputs, b.inputs, |x: InputView| amount_bytes(x));
    lemma_concat_map_agree(a.inputs, b.inputs, |x: InputView| script_bytes(x));
    lemma_concat_map_agree(a.inputs, b.inputs, |x: InputView| sequence_bytes(x));
    lemma_concat_map_agree(a.outputs, b.outputs, |o: OutputView| output_bytes(o));
    reveal(sighash_preimage);
}

pub fn u32_le(x: u32) -> (r: [u8; 4])
    ensures
        r@ == le32_bytes(x),
{
    let r = [
        (x % 0x100) as u8,
        ((x / 0x100) % 0x100) as u8,
        ((x / 0x10000) % 0x100) as u8,
        ((x / 0x1000000) % 0x100) as u8,
    ];
    assert(r@ =~= le32_bytes(x));
    r
}

fn append_varint(buf: &mut Vec<u8>, n: u64)
    ensures
        final(buf)@ == old(buf)@ + varint_bytes(n),
{
    if n < 0xfd {
        let b = [n as u8];
        assert(b@ =~= varint_bytes(n));
        append_bytes(buf, &b);
    } else if n <= 0xffff {
        let b = [0xfdu8, (n % 0x100) as u8, (n / 0x100) as u8];
        assert(b@ =~= varint_bytes(n));
        append_bytes(buf, &b);
    } else if n <= 0xffff_ffff {
        let w = u32_le(n as u32);
        let b = [0xfeu8, w[0], w[1], w[2], w[3]];
        assert(b@ =~= varint_bytes(n));
        append_bytes(buf, &b);
    } else {
        let w = crate::psbt::u64_le_bytes(n);
        let b = [0xffu8, w[0], w[1], w[2], w[3], w[4], w[5], w[6], w[7]];
        assert(b@ =~= varint_bytes(n));
        append_bytes(buf, &b);
    }
}

fn hash_prevouts(psbt: &ParsedPsbt) -> (r: [u8; 32])
    requires
        psbt.hashable(),
    ensures
        r@ == sha256_of(concat_map(psbt.view().inputs, |x: InputView| prevout_bytes(x))),
{
    let ghost ins = psbt.view().inputs;
    let ghost f = |x: InputView| prevout_bytes(x);
    let mut buf: Vec<u8> = Vec::new();
    let mut i: usize = 0;
    while i < psbt.input_count
        invariant
            f == (|x: InputView| prevout_bytes(x)),
            psbt.hashable(),
            ins == psbt.view().inputs,
            i <= psbt.input_count,
            buf@ == concat_map(ins.take(i as int), f),
        decreases psbt.input_count - i,
    {
        proof {
            lemma_concat_map_step(ins, f, i as int);
            assert(ins[i as int] == psbt.inputs[i as int].view());
        }
        let ghost before = buf@;
        append_bytes(&mut buf, &psbt.inputs[i].txid);
        append_bytes(&mut buf, &u32_le(psbt.inputs[i].vout));
        assert(buf@ =~= before + prevout_bytes(ins[i as int]));
        assert(f(ins[i as int]) == prevout_bytes(ins[i as int]));
        i = i + 1;
    }
    assert(ins.take(i as int) =~= ins);
    sha256_hash(buf.as_slice())
}

fn hash_amounts(psbt: &ParsedPsbt) -> (r: [u8; 32])
    requires
        psbt.hashable(),
    ensures
        r@ == sha256_of(concat_map(psbt.view().inputs, |x: InputView| amount_bytes(x))),
{
    let ghost ins = psbt.view().inputs;
    let ghost f = |x: InputView| amount_bytes(x);
    let mut buf: Vec<u8> = Vec::new();
    let mut i: usize = 0;
    while i < psbt.input_count
        invariant
            f == (|x: InputView| amount_bytes(x)),
            psbt.hashable(),
            ins == psbt.view().inputs,
            i <= psbt.input_count,
            buf@ == concat_map(ins.take(i as int), f),
        decreases psbt.input_count - i,
    {
        proof {
            lemma_concat_map_step(ins, f, i as int);
            assert(ins[i as int] == psbt.inputs[i as int].view());
        }
        let ghost before = buf@;
        append_bytes(&mut buf, &crate::psbt::u64_le_bytes(psbt.inputs[i].amount_sats));
        assert(buf@ =~= before + amount_bytes(ins[i as int]));
        assert(f(ins[i as int]) == amount_bytes(ins[i as int]));
        i = i + 1;
    }
    assert(ins.take(i as int) =~= ins);
    sha256_hash(buf.as_slice())
}

fn hash_scriptpubkeys(psbt: &ParsedPsbt) -> (r: [u8; 32])
    requires
        psbt.hashable(),
    ensures
        r@ == sha256_of(concat_map(psbt.view().inputs, |x: InputView| script_bytes(x))),
{
    let ghost ins = psbt.view().inputs;
    let ghost f = |x: InputView| script_bytes(x);
    let mut buf: Vec<u8> = Vec::new();
    let mut i: usize = 0;
    while i < psbt.input_count
        invariant
            f == (|x: InputView| script_bytes(x)),
            psbt.hashable(),
            ins == psbt.view().inputs,
            i <= psbt.input_count,
            buf@ == concat_map(ins.take(i as int), f),
        decreases psbt.input_count - i,
    {
        proof {
            lemma_concat_map_step(ins, f, i as int);
            assert(ins[i as int] == psbt.inputs[i as int].view());
        }
        let ghost before = buf@;
        let len = psbt.inputs[i].script_len;
        assert(psbt.inputs[i as int].wf());
        append_varint(&mut buf, len as u64);
        append_bytes(&mut buf, vstd::slice::slice_subrange(psbt.inputs[i].script_pubkey.as_slice(), 0, len));
        assert(buf@ =~= before + script_bytes(ins[i as int]));
        assert(f(ins[i as int]) == script_bytes(ins[i as int]));
        i = i + 1;
    }
    assert(ins.take(i as int) =~= ins);
    sha256_hash(buf.as_slice())
}

fn hash_sequences(psbt: &ParsedPsbt) -> (r: [u8; 32])
    requires
        psbt.hashable(),
    ensures
        r@ == sha256_of(concat_map(psbt.view().inputs, |x: InputView| sequence_bytes(x))),
{
    let ghost ins = psbt.view().inputs;
    let ghost f = |x: InputView| sequence_bytes(x);
    let mut buf: Vec<u8> = Vec::new();
    let mut i: usize = 0;
    while i < psbt.input_count
        invariant
            f == (|x: InputView| sequence_bytes(x)),
            psbt.hashable(),
            ins == psbt.view().inputs,
            i <= psbt.input_count,
            buf@ == concat_map(ins.take(i as int), f),
        decreases psbt.input_count - i,
    {
        proof {
            lemma_concat_map_step(ins, f, i as int);
            assert(ins[i as int] == psbt.inputs[i as int].view());
        }
        let ghost before = buf@;
        append_bytes(&mut buf, &u32_le(psbt.inputs[i].sequence));
        assert(buf@ =~= before + sequence_bytes(ins[i as int]));
        assert(f(ins[i as int]) == sequence_bytes(ins[i as int]));
        i = i + 1;
    }
    assert(ins.take(i as int) =~= ins);
    sha256_hash(buf.as_slice())
}

fn hash_outputs(psbt: &ParsedPsbt) -> (r: [u8; 32])
    requires
        psbt.hashable(),
    ensures
        r@ == sha256_of(concat_map(psbt.view().outputs, |o: OutputView| output_bytes(o))),
{
    let ghost outs = psbt.view().outputs;
    let ghost f = |o: OutputView| output_bytes(o);
    let mut buf: Vec<u8> = Vec::new();
    let mut i: usize = 0;
    while i < psbt.output_count
        invariant
            f == (|o: OutputView| output_bytes(o)),
            psbt.hashable(),
            outs == psbt.view().outputs,
            i <= psbt.output_count,
            buf@ == concat_map(outs.take(i as int), f),
        decreases psbt.output_count - i,
    {
        proof {
            lemma_concat_map_step(outs, f, i as int);
            assert(outs[i as int] == psbt.outputs[i as int].view());
        }
        let ghost before = buf@;
        let len = psbt.outputs[i].script_len;
        assert(psbt.outputs[i as int].wf());
        append_bytes(&mut buf, &crate::psbt::u64_le_bytes(psbt.outputs[i].amount_sats));
        append_varint(&mut buf, len as u64);
        append_bytes(&mut buf, vstd::slice::slice_subrange(psbt.outputs[i].script_pubkey.as_slice(), 0, len));
        assert(buf@ =~= before + output_bytes(outs[i as int]));
        assert(f(outs[i as int]) == output_bytes(outs[i as int]));
        i = i + 1;
    }
    assert(outs.take(i as int) =~= outs);
    sha256_hash(buf.as_slice())
}

/// The BIP341 Taproot key-path sighash of input `input_idx` (SIGHASH_DEFAULT,
/// no annex).
pub fn taproot_sighash(psbt: &ParsedPsbt, input_idx: usize) -> (r: [u8; 32])
    requires
        psbt.hashable(),
        input_idx < psbt.input_count,
    ensures
        r@ == taproot_sighash_spec(psbt.view(), input_idx as u32),
{
    let sha_prevouts = hash_prevouts(psbt);
    let sha_amounts = hash_amounts(psbt);
    let sha_scriptpubkeys = hash_scriptpubkeys(psbt);
    let sha_sequences = hash_sequences(psbt);
    let sha_outputs = hash_outputs(psbt);
    let mut pre: Vec<u8> = Vec::new();
    pre.push(0);
    pre.push(0);
    append_bytes(&mut pre, &u32_le(psbt.version as u32));
    append_bytes(&mut pre, &u32_le(psbt.locktime));
    append_bytes(&mut pre, &sha_prevouts);
    append_bytes(&mut pre, &sha_amounts);
    append_bytes(&mut pre, &sha_scriptpubkeys);
    append_bytes(&mut pre, &sha_sequences);
    append_bytes(&mut pre, &sha_outputs);
    pre.push(0);
    append_bytes(&mut pre, &u32_le(input_idx as u32));
    assert(pre@ =~= sighash_preimage(psbt.view(), input_idx as u32)) by {
        reveal(sighash_preimage);
    }
    let tag = [84u8, 97u8, 112u8, 83u8, 105u8, 103u8, 104u8, 97u8, 115u8, 104u8];
    assert(tag@ =~= tap_sighash_tag());
    tagged_hash(&tag, pre.as_slice())
}

} // verus!

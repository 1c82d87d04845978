//! What the review screen decides before signing: which outputs are the
//! wallet's own change, their addresses, whether the fee looks abnormal.
//!
//! Change is recognised only by the 32-byte witness program of a P2TR
//! scriptPubKey matching one of the wallet's own output keys; host-supplied
//! metadata (PSBT_OUT_TAP_INTERNAL_KEY) is never trusted for this.
use vstd::prelude::*;
use crate::bech32::p2tr_address_spec;
use crate::derive::{address_from_witness_program, keys_view, network_hrp, NETWORK};
use crate::psbt::{
    saturate, sum_input_amounts, sum_output_amounts, OutputView, ParsedPsbt, TxOutput,
};

verus! {

/// The witness program of a P2TR scriptPubKey (`OP_1 OP_PUSHBYTES_32 <32>`).
pub open spec fn witness_program_spec(o: OutputView) -> Option<Seq<u8>> {
    if o.script.len() == 34 && o.script[0] == 0x51 && o.script[1] == 0x20 {
        Some(o.script.skip(2))
    } else {
        None
    }
}

/// The output pays one of `own_keys` (by its witness program).
pub open spec fn is_change_spec(o: OutputView, own_key: Option<Seq<u8>>) -> bool {
    match (own_key, witness_program_spec(o)) {
        (Some(k), Some(wp)) => wp == k,
        _ => false,
    }
}

/// The witness program of the output, if it is P2TR.
pub fn output_witness_program(out: &TxOutput) -> (r: Option<[u8; 32]>)
    requires
        out.wf(),
    ensures
        match r {
            Some(wp) => witness_program_spec(out.view()) == Some(wp@),
            None => witness_program_spec(out.view()) is None,
        },
{
    if out.script_len != 34 || out.script_pubkey[0] != 0x51 || out.script_pubkey[1] != 0x20 {
        assert(out.script_len == 34 ==> out.view().script[0] == out.script_pubkey@[0]);
        assert(out.script_len == 34 ==> out.view().script[1] == out.script_pubkey@[1]);
        return None;
    }
    let mut wp = [0u8; 32];
    let mut i: usize = 0;
    while i < 32
        invariant
            out.script_len == 34,
            i <= 32,
            forall|j: int| 0 <= j < i ==> wp@[j] == out.script_pubkey@[2 + j],
        decreases 32 - i,
    {
        wp[i] = out.script_pubkey[2 + i];
        i = i + 1;
    }
    assert(wp@ =~= out.view().script.skip(2));
    Some(wp)
}

/// `true` only if the output is P2TR and its witness program is
/// `our_output_key`; with no key every output counts as a send.
pub fn is_change(out: &TxOutput, our_output_key: Option<&[u8; 32]>) -> (r: bool)
    requires
        out.wf(),
    ensures
        r == is_change_spec(
            out.view(),
            match our_output_key {
                Some(k) => Some(k@),
                None => None,
            },
        ),
{
    let ok = match our_output_key {
        Some(k) => k,
        None => {
            return false;
        },
    };
    let wp = match output_witness_program(out) {
        Some(w) => w,
        None => {
            return false;
        },
    };
    let mut i: usize = 0;
    while i < 32
        invariant
            i <= 32,
            witness_program_spec(out.view()) == Some(wp@),
            our_output_key == Some(ok),
            forall|j: int| 0 <= j < i ==> wp@[j] == ok@[j],
        decreases 32 - i,
    {
        if wp[i] != ok[i] {
            assert(wp@ != ok@) by {
                assert(wp@[i as int] != ok@[i as int]);
            }
            return false;
        }
        i = i + 1;
    }
    assert(wp@ =~= ok@);
    true
}

/// The bech32m address of a P2TR output on `NETWORK`; `None` when the
/// output is not P2TR.
pub fn output_address(out: &TxOutput) -> (r: Option<[u8; 62]>)
    requires
        out.wf(),
    ensures
        match witness_program_spec(out.view()) {
            Some(wp) => r matches Some(a) && a@ == p2tr_address_spec(wp, network_hrp(NETWORK)),
            None => r is None,
        },
{
    let wp = output_witness_program(out)?;
    Some(address_from_witness_program(&wp))
}

/// The fee looks abnormal: above a quarter of the inputs, or, for an
/// actual spend (`send_total > 0`), above the amount sent.
pub fn fee_is_abnormal(fee: u64, send_total: u64, total_in: u64) -> (r: bool)
    ensures
        r == (fee > total_in / 4 || (send_total > 0 && fee > send_total)),
{
    fee > total_in / 4 || (send_total > 0 && fee > send_total)
}

/// The output pays one of the wallet's own output keys (the whole
/// derivation window); with no keys, none is the wallet's.
pub open spec fn is_own_spec(o: OutputView, keys: Option<Seq<Seq<u8>>>) -> bool {
    match keys {
        Some(ks) => pays_one_of(o, ks),
        None => false,
    }
}

/// The output pays one of `ks`.
pub open spec fn pays_one_of(o: OutputView, ks: Seq<Seq<u8>>) -> bool {
    exists|i: int| 0 <= i < ks.len() && #[trigger] is_change_spec(o, Some(ks[i]))
}

pub open spec fn opt_window(keys: Option<&[[u8; 32]; 40]>) -> Option<Seq<Seq<u8>>> {
    match keys {
        Some(k) => Some(keys_view(*k)),
        None => None,
    }
}

/// Whether the output is change to one of the wallet's own keys.
pub fn is_own_output(out: &TxOutput, own_keys: Option<&[[u8; 32]; 40]>) -> (r: bool)
    requires
        out.wf(),
    ensures
        r == is_own_spec(out.view(), opt_window(own_keys)),
{
    let keys = match own_keys {
        Some(k) => k,
        None => {
            return false;
        },
    };
    let ghost ks = keys_view(*keys);
    let mut i: usize = 0;
    while i < 40
        invariant
            i <= 40,
            out.wf(),
            ks == keys_view(*keys),
            own_keys == Some(keys),
            forall|j: int| 0 <= j < i ==> !#[trigger] is_change_spec(out.view(), Some(ks[j])),
        decreases 40 - i,
    {
        let c = is_change(out, Some(&keys[i]));
        assert(ks[i as int] == keys@[i as int]@);
        if c {
            assert(is_change_spec(out.view(), Some(ks[i as int])));
            assert(opt_window(own_keys) == Some(ks));
            assert(ks.len() == 40);
            return true;
        }
        i = i + 1;
    }
    assert(opt_window(own_keys) == Some(ks));
    false
}

/// The amounts of the outputs that are not the wallet's own.
pub open spec fn send_total_spec(outs: Seq<OutputView>, keys: Option<Seq<Seq<u8>>>) -> int
    decreases outs.len(),
{
    if outs.len() == 0 {
        0
    } else {
        send_total_spec(outs.drop_last(), keys) + if is_own_spec(outs.last(), keys) {
            0int
        } else {
            outs.last().amount as int
        }
    }
}

proof fn lemma_send_total_nonneg(outs: Seq<OutputView>, keys: Option<Seq<Seq<u8>>>)
    ensures
        send_total_spec(outs, keys) >= 0,
    decreases outs.len(),
{
    if outs.len() > 0 {
        lemma_send_total_nonneg(outs.drop_last(), keys);
    }
}

/// The figures the review screen shows before signing.
pub struct ReviewSummary {
    pub total_in: u64,
    pub total_out: u64,
    /// Inputs minus outputs, zero when the outputs exceed the inputs.
    pub fee: u64,
    /// What leaves the wallet: the outputs that are not its own change.
    pub send_total: u64,
    /// The outputs claim more than the inputs: the transaction is invalid.
    pub outputs_exceed_inputs: bool,
    pub fee_abnormal: bool,
}

/// Totals, fee, amount sent and warnings of a PSBT, all sums saturating.
pub fn review_summary(psbt: &ParsedPsbt, own_keys: Option<&[[u8; 32]; 40]>) -> (r: ReviewSummary)
    requires
        psbt.wf(),
    ensures
        r.total_in == saturate(sum_input_amounts(psbt.view().inputs)),
        r.total_out == saturate(sum_output_amounts(psbt.view().outputs)),
        r.fee == if r.total_in >= r.total_out {
            (r.total_in - r.total_out) as u64
        } else {
            0u64
        },
        r.send_total == saturate(send_total_spec(psbt.view().outputs, opt_window(own_keys))),
        r.outputs_exceed_inputs == (r.total_out > r.total_in),
        r.fee_abnormal == (r.fee > r.total_in / 4 || (r.send_total > 0 && r.fee > r.send_total)),
{
    let total_in = psbt.total_in();
    let total_out = psbt.total_out();
    let fee = total_in.saturating_sub(total_out);
    let ghost outs = psbt.view().outputs;
    let ghost keys = opt_window(own_keys);
    let mut send: u64 = 0;
    let mut i: usize = 0;
    while i < psbt.output_count
        invariant
            psbt.wf(),
            i <= psbt.output_count,
            outs == psbt.view().outputs,
            keys == opt_window(own_keys),
            send == saturate(send_total_spec(outs.take(i as int), keys)),
        decreases psbt.output_count - i,
    {
        proof {
            assert(outs.take(i + 1).drop_last() =~= outs.take(i as int));
            lemma_send_total_nonneg(outs.take(i as int), keys);
            assert(psbt.outputs[i as int].wf());
        }
        if !is_own_output(&psbt.outputs[i], own_keys) {
            send = send.saturating_add(psbt.outputs[i].amount_sats);
        }
        i = i + 1;
    }
    assert(outs.take(i as int) =~= outs);
    let abnormal = fee_is_abnormal(fee, send, total_in);
    ReviewSummary {
        total_in,
        total_out,
        fee,
        send_total: send,
        outputs_exceed_inputs: total_out > total_in,
        fee_abnormal: abnormal,
    }
}

/// Law (BIP341 output form): an output has a Taproot witness program, and
/// so an address on the review screen and a chance of being change, exactly
/// when its scriptPubKey is 34 bytes `OP_1 OP_PUSHBYTES_32` (0x51 0x20)
/// followed by the 32-byte program; any other script, a witness-v0 one
/// (0x00 0x20 ...) included, has none and is never change.
pub proof fn lemma_witness_program_is_p2tr(o: OutputView, own_key: Option<Seq<u8>>)
    ensures
        (witness_program_spec(o) is Some) <==> (o.script.len() == 34 && o.script[0] == 0x51u8
            && o.script[1] == 0x20u8),
        witness_program_spec(o) matches Some(w) ==> w.len() == 32 && forall|i: int|
            0 <= i < 32 ==> #[trigger] w[i] == o.script[i + 2],
        is_change_spec(o, own_key) ==> (o.script.len() == 34 && o.script[0] == 0x51u8
            && o.script[1] == 0x20u8),
        o.script.len() > 0 && o.script[0] == 0x00u8 ==> witness_program_spec(o) is None
            && !is_change_spec(o, own_key),
{
}

/// Law: whether an output is the wallet's change depends on its
/// scriptPubKey alone: the amount and whatever the host claims of it
/// (its internal-key field) play no part.
pub proof fn lemma_change_reads_only_the_script(
    o1: OutputView,
    o2: OutputView,
    keys: Option<Seq<Seq<u8>>>,
)
    requires
        o1.script == o2.script,
    ensures
        is_own_spec(o1, keys) == is_own_spec(o2, keys),
{
    assert(witness_program_spec(o1) == witness_program_spec(o2));
    if let Some(ks) = keys {
        assert forall|i: int| 0 <= i < ks.len() implies is_change_spec(o1, Some(ks[i]))
            == is_change_spec(o2, Some(ks[i])) by {}
        if pays_one_of(o1, ks) {
            let i = choose|i: int| 0 <= i < ks.len() && #[trigger] is_change_spec(o1, Some(ks[i]));
            assert(is_change_spec(o2, Some(ks[i])));
        }
        if pays_one_of(o2, ks) {
            let i = choose|i: int| 0 <= i < ks.len() && #[trigger] is_change_spec(o2, Some(ks[i]));
            assert(is_change_spec(o1, Some(ks[i])));
        }
    }
}

} // verus!

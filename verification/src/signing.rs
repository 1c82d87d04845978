//! Signs the PSBT inputs that spend the wallet's own BIP86 output with a
//! BIP340 Schnorr signature over the BIP341 key-path sighash.
use vstd::prelude::*;
use crate::derive::{
    bip340_signature, keypair_at_spec, output_key_spec, scalar_add_nonzero, scalar_add_spec,
    schnorr_sign, slot_branch, slot_index, tap_xonly_at, xonly_at_spec,
    tap_keypair_at, tap_tweak_hash, tap_tweak_hash_exec, taproot_tweak_pub,
};
use crate::psbt::{lemma_output_determined, opt_view, spec_encode_signed, spec_parse, InputView, OutputView, ParsedPsbt, PsbtError, PsbtView, TxInput};
use crate::psbt_roundtrip::{
    consistent, input_fits, input_skeleton, lemma_encode_then_parse, output_skeleton,
    without_sighash,
};
use crate::sighash::{lemma_sighash_ignores_psbt_fields, taproot_sighash, taproot_sighash_spec};

verus! {

#[derive(Debug, Clone, Copy, PartialEq, Eq, Structural)]
pub enum SignError {
    KeyDerivation,
    NoMatchingInput,
    /// The input declares a sighash type other than SIGHASH_DEFAULT (0x00).
    UnsupportedSighash,
    /// The input has no witness UTXO (empty scriptPubKey).
    MissingWitnessUtxo,
    /// The input's internal key is ours but its UTXO is not our P2TR output.
    WitnessProgramMismatch,
}

/// The text of each error.
pub open spec fn sign_error_text(e: SignError) -> Seq<char> {
    match e {
        SignError::KeyDerivation => "key derivation failed"@,
        SignError::NoMatchingInput => "no input matched the wallet key"@,
        SignError::UnsupportedSighash => "unsupported sighash type (only SIGHASH_ALL accepted)"@,
        SignError::MissingWitnessUtxo => "input is missing witness UTXO data"@,
        SignError::WitnessProgramMismatch => "input UTXO is not our own P2TR output"@,
    }
}

impl SignError {
    /// A short description of the error.
    pub fn message(&self) -> (r: &'static str)
        ensures
            r@ == sign_error_text(*self),
    {
        match self {
            SignError::KeyDerivation => "key derivation failed",
            SignError::NoMatchingInput => "no input matched the wallet key",
            SignError::UnsupportedSighash => "unsupported sighash type (only SIGHASH_ALL accepted)",
            SignError::MissingWitnessUtxo => "input is missing witness UTXO data",
            SignError::WitnessProgramMismatch => "input UTXO is not our own P2TR output",
        }
    }
}

/// The key material of one window slot: the internal key, the tweaked
/// secret key `d + H_TapTweak(P)` and the output key.
pub struct SigningKeys {
    pub internal_key: Seq<u8>,
    pub tweaked_key: Seq<u8>,
    pub output_key: Seq<u8>,
}

/// The key material of slot `s` (`m/86'/{coin}'/0'/{branch}/{index}`).
pub open spec fn slot_keys_spec(seed: Seq<u8>, s: int) -> Option<SigningKeys> {
    match keypair_at_spec(seed, slot_branch(s), slot_index(s)) {
        None => None,
        Some((ik, sk)) => match scalar_add_spec(sk, tap_tweak_hash(ik)) {
            None => None,
            Some(tk) => match output_key_spec(ik) {
                None => None,
                Some(ok) => Some(SigningKeys { internal_key: ik, tweaked_key: tk, output_key: ok }),
            },
        },
    }
}

/// The wallet as the signer sees it: its seed and the internal keys of the
/// derivation window (receive then change), `None` for a slot whose key
/// does not derive.
pub struct SigningWindow {
    pub seed: Seq<u8>,
    pub internal_keys: Seq<Option<Seq<u8>>>,
}

/// The first of slots `0..k` whose internal key is `key`.
pub open spec fn first_slot(keys: Seq<Option<Seq<u8>>>, key: Seq<u8>, k: nat) -> Option<int>
    decreases k,
{
    if k == 0 {
        None
    } else {
        match first_slot(keys, key, (k - 1) as nat) {
            Some(s) => Some(s),
            None => if keys[k - 1] == Some(key) {
                Some(k - 1)
            } else {
                None
            },
        }
    }
}

/// The window slot whose internal key the input names, if any.
pub open spec fn slot_of(x: InputView, w: SigningWindow) -> Option<int> {
    match x.tap_internal_key {
        Some(k) => first_slot(w.internal_keys, k, 40),
        None => None,
    }
}

/// `OP_1 OP_PUSHBYTES_32 <output key>`.
pub open spec fn p2tr_script(output_key: Seq<u8>) -> Seq<u8> {
    seq![0x51u8, 0x20u8] + output_key
}

pub open spec fn is_ours(x: InputView, w: SigningWindow) -> bool {
    slot_of(x, w) is Some
}

/// The key material of the slot an input of ours names.
pub open spec fn keys_of(x: InputView, w: SigningWindow) -> Option<SigningKeys> {
    match slot_of(x, w) {
        Some(s) => slot_keys_spec(w.seed, s),
        None => None,
    }
}

/// Why one of our inputs cannot be signed, if it cannot.
pub open spec fn input_refusal(x: InputView, w: SigningWindow) -> Option<SignError> {
    if x.script.len() == 0 {
        Some(SignError::MissingWitnessUtxo)
    } else {
        match keys_of(x, w) {
            None => Some(SignError::KeyDerivation),
            Some(keys) => if x.script != p2tr_script(keys.output_key) {
                Some(SignError::WitnessProgramMismatch)
            } else if !(x.sighash_type is None || x.sighash_type == Some(0u32)) {
                Some(SignError::UnsupportedSighash)
            } else {
                None
            },
        }
    }
}

/// The first of inputs `0..k` that is ours and refused.
pub open spec fn first_refusal(ins: Seq<InputView>, keys: SigningWindow, k: nat) -> Option<
    (int, SignError),
>
    decreases k,
{
    if k == 0 {
        None
    } else {
        match first_refusal(ins, keys, (k - 1) as nat) {
            Some(f) => Some(f),
            None => if is_ours(ins[k - 1], keys) && input_refusal(ins[k - 1], keys) is Some {
                Some((k - 1, input_refusal(ins[k - 1], keys)->Some_0))
            } else {
                None
            },
        }
    }
}

/// The signature of input `i` by the key of its slot.
pub open spec fn signature_for(p: PsbtView, i: int, w: SigningWindow, aux: Seq<u8>) -> Option<
    Seq<u8>,
> {
    match keys_of(p.inputs[i], w) {
        Some(keys) => bip340_signature(keys.tweaked_key, taproot_sighash_spec(p, i as u32), aux),
        None => None,
    }
}

/// Input `i` after signing: our inputs get the signature, when signing succeeds.
pub open spec fn signed_input(p: PsbtView, i: int, keys: SigningWindow, aux: Seq<u8>) -> InputView {
    if is_ours(p.inputs[i], keys) && signature_for(p, i, keys, aux) is Some {
        InputView { tap_key_sig: signature_for(p, i, keys, aux), ..p.inputs[i] }
    } else {
        p.inputs[i]
    }
}

/// How many of inputs `0..k` get a signature.
pub open spec fn signed_count(p: PsbtView, keys: SigningWindow, aux: Seq<u8>, k: nat) -> nat
    decreases k,
{
    if k == 0 {
        0
    } else {
        signed_count(p, keys, aux, (k - 1) as nat) + if is_ours(p.inputs[k - 1], keys)
            && signature_for(p, k - 1, keys, aux) is Some {
            1nat
        } else {
            0nat
        }
    }
}

/// Where signing stops: the first refused input, or the end.
pub open spec fn sign_stop(p: PsbtView, keys: SigningWindow) -> int {
    match first_refusal(p.inputs, keys, p.inputs.len()) {
        Some((i, _)) => i,
        None => p.inputs.len() as int,
    }
}

pub open spec fn sign_result(p: PsbtView, keys: SigningWindow, aux: Seq<u8>) -> Result<usize, SignError> {
    match first_refusal(p.inputs, keys, p.inputs.len()) {
        Some((_, e)) => Err(e),
        None => if signed_count(p, keys, aux, p.inputs.len()) == 0 {
            Err(SignError::NoMatchingInput)
        } else {
            Ok(signed_count(p, keys, aux, p.inputs.len()) as usize)
        },
    }
}

/// Everything but the inputs' signatures is left alone.
pub open spec fn same_but_signatures(a: ParsedPsbt, b: ParsedPsbt) -> bool {
    &&& a.version == b.version
    &&& a.locktime == b.locktime
    &&& a.input_count == b.input_count
    &&& a.output_count == b.output_count
    &&& a.outputs == b.outputs
    &&& a.tx_raw == b.tx_raw
    &&& a.tx_len == b.tx_len
    &&& forall|j: int|
        0 <= j < 5 ==> (InputView {
            tap_key_sig: b.inputs[j].view().tap_key_sig,
            ..(#[trigger] a.inputs[j]).view()
        }) == b.inputs[j].view() && a.inputs[j].script_len == b.inputs[j].script_len
}

/// The internal key of each window slot, `None` where it does not derive.
pub open spec fn window_keys_spec(seed: Seq<u8>) -> Seq<Option<Seq<u8>>> {
    Seq::new(40, |s: int| xonly_at_spec(seed, slot_branch(s), slot_index(s)))
}

/// The signer's view of the wallet of `seed`.
pub open spec fn signing_window_spec(seed: Seq<u8>) -> SigningWindow {
    SigningWindow { seed, internal_keys: window_keys_spec(seed) }
}

pub open spec fn opt_window_view(w: [Option<[u8; 32]>; 40]) -> Seq<Option<Seq<u8>>> {
    Seq::new(40, |s: int| opt_view(w@[s]))
}

/// What `sign_psbt` does: inputs before the stop get their signatures, the
/// rest stays, and the result is `sign_result`.
pub open spec fn signed_as_specified(
    before: ParsedPsbt,
    after: ParsedPsbt,
    seed: Seq<u8>,
    aux: Seq<u8>,
    r: Result<usize, SignError>,
) -> bool {
    let keys = signing_window_spec(seed);
    let v = before.view();
    &&& same_but_signatures(after, before)
    &&& forall|j: int|
        0 <= j < v.inputs.len() ==> #[trigger] after.view().inputs[j] == if j < sign_stop(v, keys) {
            signed_input(v, j, keys, aux)
        } else {
            v.inputs[j]
        }
    &&& r == sign_result(v, keys, aux)
}

fn bytes32_eq(a: &[u8; 32], b: &[u8; 32]) -> (r: bool)
    ensures
        r == (a@ == b@),
{
    let mut i: usize = 0;
    while i < 32
        invariant
            i <= 32,
            forall|j: int| 0 <= j < i ==> a@[j] == b@[j],
        decreases 32 - i,
    {
        if a[i] != b[i] {
            return false;
        }
        i = i + 1;
    }
    assert(a@ =~= b@);
    true
}

/// `script` is `OP_1 OP_PUSHBYTES_32 <key>`.
fn is_p2tr_of(inp: &TxInput, key: &[u8; 32]) -> (r: bool)
    requires
        inp.wf(),
    ensures
        r == (inp.view().script == p2tr_script(key@)),
{
    if inp.script_len != 34 || inp.script_pubkey[0] != 0x51 || inp.script_pubkey[1] != 0x20 {
        assert(inp.script_len == 34 ==> inp.view().script[0] == inp.script_pubkey@[0]);
        assert(inp.script_len == 34 ==> inp.view().script[1] == inp.script_pubkey@[1]);
        assert(p2tr_script(key@).len() == 34);
        return false;
    }
    let mut i: usize = 0;
    while i < 32
        invariant
            inp.wf(),
            inp.script_len == 34,
            i <= 32,
            forall|j: int| 0 <= j < i ==> inp.script_pubkey@[2 + j] == key@[j],
        decreases 32 - i,
    {
        if inp.script_pubkey[2 + i] != key[i] {
            assert(inp.view().script[2 + i] != p2tr_script(key@)[2 + i]);
            return false;
        }
        i = i + 1;
    }
    assert(inp.view().script =~= p2tr_script(key@));
    true
}

/// The internal key of each window slot, `None` where it does not derive.
fn window_keys(seed: &[u8; 64]) -> (r: [Option<[u8; 32]>; 40])
    ensures
        opt_window_view(r) == window_keys_spec(seed@),
{
    let mut out: [Option<[u8; 32]>; 40] = [None; 40];
    let mut s: usize = 0;
    while s < 40
        invariant
            s <= 40,
            forall|j: int| 0 <= j < s ==> #[trigger] opt_view(out@[j]) == xonly_at_spec(
                seed@,
                slot_branch(j),
                slot_index(j),
            ),
        decreases 40 - s,
    {
        let (branch, index) = if s < 20 {
            (0u32, s as u32)
        } else {
            (1u32, (s - 20) as u32)
        };
        assert(branch == slot_branch(s as int) && index == slot_index(s as int));
        out[s] = tap_xonly_at(seed, branch, index);
        s = s + 1;
    }
    assert(opt_window_view(out) =~= window_keys_spec(seed@));
    out
}

/// The first window slot holding `key`.
fn find_slot(window: &[Option<[u8; 32]>; 40], key: &[u8; 32]) -> (r: Option<usize>)
    ensures
        match r {
            Some(s) => s < 40 && first_slot(opt_window_view(*window), key@, 40) == Some(s as int),
            None => first_slot(opt_window_view(*window), key@, 40) is None,
        },
{
    let ghost ks = opt_window_view(*window);
    let mut s: usize = 0;
    while s < 40
        invariant
            s <= 40,
            ks == opt_window_view(*window),
            first_slot(ks, key@, s as nat) is None,
        decreases 40 - s,
    {
        let hit = match &window[s] {
            Some(k) => bytes32_eq(k, key),
            None => false,
        };
        if hit {
            proof {
                lemma_first_slot_stable(ks, key@, (s + 1) as nat, 40);
            }
            return Some(s);
        }
        s = s + 1;
    }
    None
}

proof fn lemma_first_slot_stable(keys: Seq<Option<Seq<u8>>>, key: Seq<u8>, k: nat, m: nat)
    requires
        k <= m,
        first_slot(keys, key, k) is Some,
    ensures
        first_slot(keys, key, m) == first_slot(keys, key, k),
    decreases m - k,
{
    if m > k {
        lemma_first_slot_stable(keys, key, k, (m - 1) as nat);
    }
}

/// The key material of slot `s`.
fn slot_keys(seed: &[u8; 64], s: usize) -> (r: Option<([u8; 32], [u8; 32], [u8; 32])>)
    requires
        s < 40,
    ensures
        match r {
            Some((ik, tk, ok)) => slot_keys_spec(seed@, s as int) == Some(
                SigningKeys { internal_key: ik@, tweaked_key: tk@, output_key: ok@ },
            ),
            None => slot_keys_spec(seed@, s as int) is None,
        },
{
    let (branch, index) = if s < 20 {
        (0u32, s as u32)
    } else {
        (1u32, (s - 20) as u32)
    };
    assert(branch == slot_branch(s as int) && index == slot_index(s as int));
    let (ik, sk) = tap_keypair_at(seed, branch, index)?;
    let tweak = tap_tweak_hash_exec(&ik);
    let tk = scalar_add_nonzero(&sk, &tweak)?;
    let ok = taproot_tweak_pub(&ik)?;
    Some((ik, tk, ok))
}

/// Whether an input is ours (`Ok(Some(tweaked key))`), not ours
/// (`Ok(None)`), or ours and refused.
fn check_input(inp: &TxInput, window: &[Option<[u8; 32]>; 40], seed: &[u8; 64], Ghost(w): Ghost<SigningWindow>) -> (r: Result<
    Option<[u8; 32]>,
    SignError,
>)
    requires
        inp.wf(),
        w == (SigningWindow { seed: seed@, internal_keys: opt_window_view(*window) }),
    ensures
        match r {
            Ok(None) => !is_ours(inp.view(), w),
            Ok(Some(tk)) => is_ours(inp.view(), w) && input_refusal(inp.view(), w) is None && (keys_of(
                inp.view(),
                w,
            ) matches Some(keys) && keys.tweaked_key == tk@),
            Err(e) => is_ours(inp.view(), w) && input_refusal(inp.view(), w) == Some(e),
        },
{
    let s = match inp.tap_internal_key {
        Some(k) => match find_slot(window, &k) {
            Some(s) => s,
            None => {
                return Ok(None);
            },
        },
        None => {
            return Ok(None);
        },
    };
    if inp.script_len == 0 {
        return Err(SignError::MissingWitnessUtxo);
    }
    let (_ik, tk, ook) = match slot_keys(seed, s) {
        Some(x) => x,
        None => {
            return Err(SignError::KeyDerivation);
        },
    };
    if !is_p2tr_of(inp, &ook) {
        return Err(SignError::WitnessProgramMismatch);
    }
    match inp.sighash_type {
        None => Ok(Some(tk)),
        Some(t) => if t == 0 {
            Ok(Some(tk))
        } else {
            Err(SignError::UnsupportedSighash)
        },
    }
}

/// Signs input `i` (one of ours, accepted) in place with the tweaked key
/// `tk`, when BIP340 signing succeeds.
fn sign_one(
    psbt: &mut ParsedPsbt,
    i: usize,
    tk: &[u8; 32],
    aux: &[u8; 32],
    Ghost(p0): Ghost<ParsedPsbt>,
) -> (signed: bool)
    requires
        old(psbt).wf(),
        p0.wf(),
        i < old(psbt).input_count,
        same_but_signatures(*old(psbt), p0),
        old(psbt).view().inputs[i as int] == p0.view().inputs[i as int],
    ensures
        final(psbt).wf(),
        same_but_signatures(*final(psbt), p0),
        ({
            let sig = bip340_signature(tk@, taproot_sighash_spec(p0.view(), i as u32), aux@);
            &&& final(psbt).view().inputs[i as int] == (if signed {
                InputView { tap_key_sig: sig, ..p0.view().inputs[i as int] }
            } else {
                p0.view().inputs[i as int]
            })
            &&& signed == (sig is Some)
        }),
        forall|j: int| 0 <= j < 5 && j != i ==> #[trigger] final(psbt).inputs[j] == old(psbt).inputs[j],
{
    let sighash = taproot_sighash(psbt, i);
    proof {
        let a = old(psbt).view();
        let b = p0.view();
        assert forall|j: int| 0 <= j < a.inputs.len() implies (#[trigger] a.inputs[j]) == (InputView {
            tap_key_sig: a.inputs[j].tap_key_sig,
            ..b.inputs[j]
        }) by {
            assert(a.inputs[j] == old(psbt).inputs[j].view());
            assert(b.inputs[j] == p0.inputs[j].view());
        }
        assert(a.outputs =~= b.outputs);
        lemma_sighash_ignores_signatures(a, b, i as u32);
    }
    match schnorr_sign(tk, &sighash, aux) {
        Some(sig) => {
            psbt.inputs[i].tap_key_sig = Some(sig);
            proof {
                assert(psbt.view().inputs[i as int] == psbt.inputs[i as int].view());
            }
            true
        },
        None => false,
    }
}

/// Inputs that differ only in their signatures give the same sighash.
proof fn lemma_sighash_ignores_signatures(a: PsbtView, b: PsbtView, i: u32)
    requires
        a.version == b.version,
        a.locktime == b.locktime,
        a.outputs == b.outputs,
        a.inputs.len() == b.inputs.len(),
        forall|j: int|
            0 <= j < a.inputs.len() ==> (#[trigger] a.inputs[j]) == (InputView {
                tap_key_sig: a.inputs[j].tap_key_sig,
                ..b.inputs[j]
            }),
    ensures
        taproot_sighash_spec(a, i) == taproot_sighash_spec(b, i),
{
    assert forall|j: int| 0 <= j < a.inputs.len() implies #[trigger] a.inputs[j].txid == b.inputs[j].txid
        && a.inputs[j].vout == b.inputs[j].vout && a.inputs[j].amount == b.inputs[j].amount
        && a.inputs[j].script == b.inputs[j].script && a.inputs[j].sequence == b.inputs[j].sequence by {
        assert(a.inputs[j] == (InputView { tap_key_sig: a.inputs[j].tap_key_sig, ..b.inputs[j] }));
    }
    lemma_sighash_ignores_psbt_fields(a, b, i);
}

/// Signs every input whose Taproot internal key is one of the wallet's
/// window keys (`m/86'/{coin}'/0'/{0,1}/{0..19}`; a slot whose key does not
/// derive is skipped), each with the tweaked key of its own slot, and
/// returns how many were signed. An input of ours
/// without a witness UTXO, whose UTXO is not the P2TR output of its slot,
/// or that declares a sighash type other than SIGHASH_DEFAULT stops signing
/// with an error (inputs before it keep their new signatures); no input
/// signed is `NoMatchingInput`. `aux_rand` is the BIP340 auxiliary
/// randomness.
#[verifier::rlimit(100)]
#[verifier::spinoff_prover]
pub fn sign_psbt(psbt: &mut ParsedPsbt, seed: &[u8; 64], aux_rand: &[u8; 32]) -> (r: Result<
    usize,
    SignError,
>)
    requires
        old(psbt).wf(),
    ensures
        final(psbt).wf(),
        signed_as_specified(*old(psbt), *final(psbt), seed@, aux_rand@, r),
{
    let window = window_keys(seed);
    let ghost keys = SigningWindow { seed: seed@, internal_keys: opt_window_view(window) };
    assert(signing_window_spec(seed@) == keys);
    let ghost v = psbt.view();
    let ghost p0 = *psbt;
    let n = psbt.input_count;
    let mut count: usize = 0;
    let mut i: usize = 0;
    while i < n
        invariant
            n == psbt.input_count,
            v == p0.view(),
            p0.wf(),
            psbt.wf(),
            i <= n,
            n <= 5,
            keys == (SigningWindow { seed: seed@, internal_keys: opt_window_view(window) }),
            same_but_signatures(*psbt, p0),
            first_refusal(v.inputs, keys, i as nat) is None,
            count == signed_count(v, keys, aux_rand@, i as nat),
            count <= i,
            signing_window_spec(seed@) == keys,
            p0 == *old(psbt),
            forall|j: int|
                0 <= j < n ==> #[trigger] psbt.inputs[j].view() == if j < i {
                    signed_input(v, j, keys, aux_rand@)
                } else {
                    v.inputs[j]
                },
        decreases n - i,
    {
        match process_input(psbt, i, &window, seed, aux_rand, Ghost(p0), Ghost(keys)) {
            Err(e) => {
                proof {
                    lemma_first_refusal_stable(v.inputs, keys, (i + 1) as nat, n as nat);
                    assert(sign_stop(v, keys) == i);
                    assert forall|j: int| 0 <= j < v.inputs.len() implies #[trigger] psbt.view().inputs[j]
                        == psbt.inputs[j].view() by {}
                }
                return Err(e);
            },
            Ok(signed) => {
                if signed {
                    count = count + 1;
                }
            },
        }
        i = i + 1;
    }
    proof {
        assert(sign_stop(v, keys) == n);
        assert(v.inputs.len() == n);
        assert forall|j: int| 0 <= j < v.inputs.len() implies #[trigger] psbt.view().inputs[j]
            == psbt.inputs[j].view() by {}
    }
    if count == 0 {
        Err(SignError::NoMatchingInput)
    } else {
        Ok(count)
    }
}

/// One turn of the signing loop: checks input `i` and signs it if it is
/// ours and accepted.
fn process_input(
    psbt: &mut ParsedPsbt,
    i: usize,
    window: &[Option<[u8; 32]>; 40],
    seed: &[u8; 64],
    aux: &[u8; 32],
    Ghost(p0): Ghost<ParsedPsbt>,
    Ghost(keys): Ghost<SigningWindow>,
) -> (r: Result<bool, SignError>)
    requires
        old(psbt).wf(),
        p0.wf(),
        i < old(psbt).input_count,
        old(psbt).input_count <= 5,
        keys == (SigningWindow { seed: seed@, internal_keys: opt_window_view(*window) }),
        same_but_signatures(*old(psbt), p0),
        first_refusal(p0.view().inputs, keys, i as nat) is None,
        old(psbt).inputs[i as int].view() == p0.view().inputs[i as int],
    ensures
        match r {
            Err(e) => first_refusal(p0.view().inputs, keys, (i + 1) as nat) == Some((i as int, e))
                && *final(psbt) == *old(psbt),
            Ok(signed) => {
                &&& first_refusal(p0.view().inputs, keys, (i + 1) as nat) is None
                &&& final(psbt).wf()
                &&& same_but_signatures(*final(psbt), p0)
                &&& final(psbt).inputs[i as int].view() == signed_input(p0.view(), i as int, keys, aux@)
                &&& signed == (is_ours(p0.view().inputs[i as int], keys) && signature_for(
                    p0.view(),
                    i as int,
                    keys,
                    aux@,
                ) is Some)
                &&& forall|j: int| 0 <= j < 5 && j != i ==> #[trigger] final(psbt).inputs[j] == old(psbt).inputs[j]
            },
        },
{
    let ghost v = p0.view();
    assert(v.inputs[i as int] == p0.inputs[i as int].view());
    match check_input(&psbt.inputs[i], window, seed, Ghost(keys)) {
        Err(e) => Err(e),
        Ok(None) => Ok(false),
        Ok(Some(tk)) => {
            assert(old(psbt).view().inputs[i as int] == old(psbt).inputs[i as int].view());
            let signed = sign_one(psbt, i, &tk, aux, Ghost(p0));
            assert(psbt.view().inputs[i as int] == psbt.inputs[i as int].view());
            Ok(signed)
        },
    }
}

proof fn lemma_first_refusal_stable(ins: Seq<InputView>, keys: SigningWindow, k: nat, m: nat)
    requires
        k <= m,
        first_refusal(ins, keys, k) is Some,
    ensures
        first_refusal(ins, keys, m) == first_refusal(ins, keys, k),
    decreases m - k,
{
    if m > k {
        lemma_first_refusal_stable(ins, keys, k, (m - 1) as nat);
    }
}

/// Law: signing keeps a PSBT that agrees with its own unsigned tx in that
/// state, so the signed PSBT that is written out parses back to the same
/// transaction, inputs (now with their signatures) and outputs.
pub proof fn lemma_signed_psbt_reads_back(
    before: ParsedPsbt,
    after: ParsedPsbt,
    seed: Seq<u8>,
    aux: Seq<u8>,
    r: Result<usize, SignError>,
)
    requires
        before.wf(),
        after.wf(),
        consistent(before.view()),
        signed_as_specified(before, after, seed, aux, r),
    ensures
        consistent(after.view()),
        after.view().tx == before.view().tx,
        spec_parse(spec_encode_signed(after.view())) == Ok::<PsbtView, PsbtError>(
            without_sighash(after.view()),
        ),
{
    let v = before.view();
    let w = after.view();
    {
        assert(w.inputs.map_values(|x: InputView| input_skeleton(x)) =~= v.inputs.map_values(
            |x: InputView| input_skeleton(x),
        )) by {
            assert forall|j: int| 0 <= j < w.inputs.len() implies input_skeleton(
                #[trigger] w.inputs[j],
            ) == input_skeleton(v.inputs[j]) by {
                assert(after.inputs[j].view() == w.inputs[j]);
                assert(before.inputs[j].view() == v.inputs[j]);
            }
        }
        assert(w.outputs =~= v.outputs);
        assert(w.tx =~= v.tx);
        assert forall|j: int| 0 <= j < w.inputs.len() implies input_fits(#[trigger] w.inputs[j]) by {
            assert(after.inputs[j].view() == w.inputs[j]);
            assert(before.inputs[j].view() == v.inputs[j]);
            assert(input_fits(v.inputs[j]));
        }
        assert(w.outputs.map_values(|o: OutputView| output_skeleton(o)) =~= v.outputs.map_values(
            |o: OutputView| output_skeleton(o),
        ));
    }
    lemma_encode_then_parse(w);
}

/// Law: parsing the signed encoding (what `parse` returns is canonical, with
/// the view `lemma_signed_psbt_reads_back` gives) yields the unsigned-tx
/// buffer and the outputs of the loaded PSBT byte for byte, unused bytes
/// included.
pub proof fn lemma_signed_psbt_reparses_verbatim(
    before: ParsedPsbt,
    after: ParsedPsbt,
    seed: Seq<u8>,
    aux: Seq<u8>,
    r: Result<usize, SignError>,
    reparsed: ParsedPsbt,
)
    requires
        before.wf(),
        after.wf(),
        before.canonical(),
        consistent(before.view()),
        signed_as_specified(before, after, seed, aux, r),
        reparsed.wf(),
        reparsed.canonical(),
        reparsed.view() == without_sighash(after.view()),
    ensures
        reparsed.tx_raw == before.tx_raw,
        reparsed.tx_len == before.tx_len,
        reparsed.output_count == before.output_count,
        reparsed.outputs == before.outputs,
{
    lemma_signed_psbt_reads_back(before, after, seed, aux, r);
    let v = before.view();
    let w = after.view();
    let q = reparsed.view();
    assert(after.tx_raw == before.tx_raw && after.tx_len == before.tx_len && after.outputs
        == before.outputs && after.output_count == before.output_count);
    assert(q.tx == w.tx);
    assert(reparsed.tx_len == q.tx.len());
    assert forall|k: int| 0 <= k < 768 implies reparsed.tx_raw[k] == before.tx_raw[k] by {
        if k < before.tx_len {
            assert(q.tx[k] == v.tx[k]);
        }
    }
    assert(reparsed.tx_raw =~= before.tx_raw);
    assert(q.outputs == w.outputs);
    assert forall|i: int| 0 <= i < 8 implies reparsed.outputs[i] == before.outputs[i] by {
        if i < before.output_count {
            assert(q.outputs[i] == v.outputs[i]);
            lemma_output_determined(reparsed.outputs[i], before.outputs[i]);
        } else {
            assert(reparsed.outputs[i].script_pubkey =~= before.outputs[i].script_pubkey);
        }
    }
    assert(reparsed.outputs =~= before.outputs);
}

} // verus!

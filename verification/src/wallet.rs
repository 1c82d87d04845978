//! The wallet: its state machine, the PIN with its write-ahead failure
//! counter and permanent lockout, encryption at rest, derivation, PSBT
//! loading and signing.
//!
//! `handle_event` decides the order of the side effects, and that order is a
//! security rule: the failure counter goes to disk before any PIN check.
//! Disk writes are the caller's: every image to persist is returned, in order.
use vstd::prelude::*;
use vstd::string::StringSliceAdditionalSpecFns;
use crate::base64::{decodable, decoded_len, encoded_len, spec_decode, spec_encode, trimmed_len};
use crate::crypto::{derive_key, pbkdf2_t, PBKDF2_ITERATIONS};
use crate::derive::{
    address_spec, descriptor_spec, opt_keys_view, output_keys_spec, own_output_keys, tap_keypair,
    taproot_address, taproot_descriptor,
};
use crate::machine::{
    is_fresh_enter_pin, is_fresh_set_pin, lemma_step_keeps_wf, state_wf, step, step_ok, wallet_state_wf, zeros,
    AppState, PinGate, StepResult,
    WalletEvent, PIN_MAX_ATTEMPTS,
};
use crate::mnemonic::{bip39_seed, bip39_word_indices, generate_words, mnemonic_word, seed_from_entropy, utf8_str};
use crate::pinpad::shuffle;
use crate::psbt::{encode_signed, spec_encode_signed, spec_parse, ParsedPsbt, PsbtView};
use crate::signing::{sign_psbt, signed_as_specified, signing_window_spec, sign_result, SignError};
use crate::crypto::aead_open;
use crate::host::sub_array;
use crate::storage::{
    blob_aad, blob_ciphertext, blob_image, blob_nonce, blob_salt, blob_tag, encrypt_into_blob,
    sealed_under, try_decrypt, update_lockout, DiskHeader, Secrets,
};

verus! {

/// A word index past the end of the BIP39 list: no word.
pub const NO_WORD: u16 = 2048;

pub struct ColdWallet {
    pub state: AppState,
    pub pin: Option<[u8; 6]>,
    /// BIP39 word indices of the mnemonic; `NO_WORD` where there is none yet.
    pub words: [u16; 24],
    pub entropy: [u8; 32],
    /// BIP39 seed, kept so signing does not ask for the passphrase again.
    pub seed: [u8; 64],
    pub address: [u8; 62],
    /// The PSBT under review.
    pub psbt: Option<ParsedPsbt>,
    /// Base64 of the signed PSBT, for the result screen.
    pub signed_psbt_b64: [u8; 5908],
    pub signed_psbt_b64_len: usize,
    /// Output keys of the derivation window, to recognise change.
    pub own_keys: Option<[[u8; 32]; 40]>,
    /// The BIP386 descriptor of this wallet.
    pub descriptor: [u8; 200],
    pub descriptor_len: usize,
    /// Per-wallet salt, in the disk header.
    pub salt: [u8; 16],
    /// The key derived at unlock or setup, to re-encrypt without the KDF.
    pub enc_key: Option<[u8; 32]>,
    /// Consecutive wrong PINs, mirrored to disk.
    pub failures: u8,
    /// Permanent lockout, mirrored to disk.
    pub locked: bool,
    /// Latest disk image; `None` before the wallet is first persisted.
    pub disk_image: Option<[u8; 143]>,
    /// The last loaded PSBT was rejected.
    pub scan_error_flag: bool,
}

impl ColdWallet {
    pub open spec fn wf(&self) -> bool {
        &&& wallet_state_wf(self.state)
        &&& (self.psbt matches Some(p) ==> p.wf())
        &&& self.signed_psbt_b64_len <= 5908
        &&& self.descriptor_len <= 200
    }

    /// Nothing set up yet: the welcome screen, no secrets, no PIN, no image.
    pub open spec fn is_fresh(&self) -> bool {
        &&& self.wf()
        &&& self.state == AppState::Welcome
        &&& self.pin is None
        &&& self.psbt is None
        &&& self.own_keys is None
        &&& self.enc_key is None
        &&& self.disk_image is None
        &&& self.failures == 0
        &&& !self.locked
        &&& !self.scan_error_flag
        &&& self.seed@ == zeros(64)
        &&& self.entropy@ == zeros(32)
        &&& self.words@ == Seq::new(24, |i: int| NO_WORD)
        &&& self.address@ == zeros(62)
        &&& self.signed_psbt_b64_len == 0
        &&& self.descriptor_len == 0
    }

    pub fn new() -> (w: Self)
        ensures
            w.is_fresh(),
    {
        let w = ColdWallet {
            state: AppState::Welcome,
            pin: None,
            words: [NO_WORD; 24],
            entropy: [0u8; 32],
            seed: [0u8; 64],
            address: [0u8; 62],
            psbt: None,
            signed_psbt_b64: [0u8; 5908],
            signed_psbt_b64_len: 0,
            own_keys: None,
            descriptor: [0u8; 200],
            descriptor_len: 0,
            salt: [0u8; 16],
            enc_key: None,
            failures: 0,
            locked: false,
            disk_image: None,
            scan_error_flag: false,
        };
        assert(w.seed@ =~= zeros(64));
        assert(w.entropy@ =~= zeros(32));
        assert(w.words@ =~= Seq::new(24, |i: int| NO_WORD));
        assert(w.address@ =~= zeros(62));
        w
    }

    pub fn get_state(&self) -> (r: AppState)
        ensures
            r == self.state,
    {
        self.state
    }

    /// The mnemonic's words; an empty string where there is no word yet.
    pub fn mnemonic_words(&self) -> (r: [&'static str; 24])
        ensures
            forall|i: int|
                0 <= i < 24 ==> (#[trigger] r@[i]).spec_bytes() == if self.words@[i] < 2048 {
                    crate::mnemonic::bip39_english_word(self.words@[i] as int)
                } else {
                    Seq::<u8>::empty()
                },
    {
        let mut out: [&'static str; 24] = [""; 24];
        proof {
            reveal_strlit("");
        }
        let mut i: usize = 0;
        while i < 24
            invariant
                i <= 24,
                ""@ == Seq::<char>::empty(),
                forall|j: int| i <= j < 24 ==> (#[trigger] out@[j]) == "",
                forall|j: int|
                    0 <= j < i ==> (#[trigger] out@[j]).spec_bytes() == if self.words@[j] < 2048 {
                        crate::mnemonic::bip39_english_word(self.words@[j] as int)
                    } else {
                        Seq::<u8>::empty()
                    },
            decreases 24 - i,
        {
            if self.words[i] < 2048 {
                out[i] = mnemonic_word(self.words[i]);
            } else {
                assert(out@[i as int]@ =~= Seq::<char>::empty());
                assert(out@[i as int].spec_bytes() =~= Seq::<u8>::empty());
            }
            i = i + 1;
        }
        out
    }

    /// The receive address, once derived.
    pub fn receive_address(&self) -> (r: Option<&str>)
        ensures
            match r {
                Some(s) => (self.address@[0] == 98 || self.address@[0] == 116) && s.spec_bytes()
                    == self.address@,
                None => !(self.address@[0] == 98 || self.address@[0] == 116)
                    || !vstd::utf8::valid_utf8(self.address@),
            },
    {
        if self.address[0] == 98 || self.address[0] == 116 {
            utf8_str(&self.address)
        } else {
            None
        }
    }

    /// The x-only BIP86 internal key of the stored seed, once there is one.
    pub fn tap_internal_key(&self) -> (r: Option<[u8; 32]>)
        ensures
            self.seed@ == zeros(64) ==> r is None,
            self.seed@ != zeros(64) ==> match crate::derive::keypair_at_spec(self.seed@, 0, 0) {
                Some((ik, _)) => r matches Some(k) && k@ == ik,
                None => r is None,
            },
    {
        let mut zero = true;
        let mut i: usize = 0;
        while i < 64
            invariant
                i <= 64,
                zero == forall|j: int| 0 <= j < i ==> self.seed@[j] == 0,
            decreases 64 - i,
        {
            if self.seed[i] != 0 {
                zero = false;
            }
            i = i + 1;
        }
        if zero {
            assert(self.seed@ =~= zeros(64));
            return None;
        }
        assert(self.seed@ != zeros(64));
        match tap_keypair(&self.seed) {
            Some((ik, _)) => Some(ik),
            None => None,
        }
    }

    /// The output keys of the derivation window, once derived.
    pub fn own_output_keys(&self) -> (r: Option<&[[u8; 32]; 40]>)
        ensures
            match r {
                Some(k) => self.own_keys == Some(*k),
                None => self.own_keys is None,
            },
    {
        match &self.own_keys {
            Some(k) => Some(k),
            None => None,
        }
    }

    /// The BIP386 descriptor, once built.
    pub fn descriptor(&self) -> (r: Option<&str>)
        requires
            self.descriptor_len <= 200,
        ensures
            match r {
                Some(s) => self.descriptor_len > 0 && s.spec_bytes() == self.descriptor@.take(
                    self.descriptor_len as int,
                ),
                None => self.descriptor_len == 0 || !vstd::utf8::valid_utf8(
                    self.descriptor@.take(self.descriptor_len as int),
                ),
            },
    {
        if self.descriptor_len > 0 {
            let d = vstd::slice::slice_subrange(self.descriptor.as_slice(), 0, self.descriptor_len);
            assert(d@ =~= self.descriptor@.take(self.descriptor_len as int));
            utf8_str(d)
        } else {
            None
        }
    }

    pub fn current_psbt(&self) -> (r: Option<&ParsedPsbt>)
        ensures
            match r {
                Some(p) => self.psbt == Some(*p),
                None => self.psbt is None,
            },
    {
        match &self.psbt {
            Some(p) => Some(p),
            None => None,
        }
    }

    pub fn disk_image(&self) -> (r: Option<&[u8; 143]>)
        ensures
            match r {
                Some(i) => self.disk_image == Some(*i),
                None => self.disk_image is None,
            },
    {
        match &self.disk_image {
            Some(i) => Some(i),
            None => None,
        }
    }

    /// The last loaded PSBT was rejected (bad Base64 or invalid PSBT).
    pub fn scan_error(&self) -> (r: bool)
        ensures
            r == self.scan_error_flag,
    {
        self.scan_error_flag
    }

    /// The signed PSBT in Base64, once signing has completed.
    pub fn signed_psbt_b64(&self) -> (r: Option<&str>)
        requires
            self.signed_psbt_b64_len <= 5908,
        ensures
            match r {
                Some(s) => self.signed_psbt_b64_len > 0 && s.spec_bytes() == self.signed_psbt_b64@.take(
                    self.signed_psbt_b64_len as int,
                ),
                None => self.signed_psbt_b64_len == 0 || !vstd::utf8::valid_utf8(
                    self.signed_psbt_b64@.take(self.signed_psbt_b64_len as int),
                ),
            },
    {
        if self.signed_psbt_b64_len > 0 {
            let d = vstd::slice::slice_subrange(
                self.signed_psbt_b64.as_slice(),
                0,
                self.signed_psbt_b64_len,
            );
            assert(d@ =~= self.signed_psbt_b64@.take(self.signed_psbt_b64_len as int));
            utf8_str(d)
        } else {
            None
        }
    }

    /// Boots from a disk image: at PIN unlock, or locked if the header says
    /// so. `shuffle_entropy` only orders the PIN pad.
    pub fn from_disk_image(image: [u8; 143], shuffle_entropy: [u8; 32]) -> (r: Option<Self>)
        ensures
            image@[0] != 3 ==> r is None,
            image@[0] == 3 ==> (r matches Some(w) && w.wf() && w.failures == image@[1] && w.locked
                == (image@[2] != 0) && w.disk_image == Some(image) && w.salt@ == blob_salt(image@)
                && w.pin is None && w.enc_key is None && w.psbt is None && w.seed@ == zeros(64)
                && w.entropy@ == zeros(32) && w.address@ == zeros(62) && w.words@ == Seq::new(
                24,
                |i: int| NO_WORD,
            ) && w.own_keys is None && w.descriptor_len == 0 && w.signed_psbt_b64_len == 0
                && !w.scan_error_flag && (if image@[2] != 0 {
                w.state == AppState::PinLocked
            } else {
                is_fresh_enter_pin(w.state, shuffle_entropy@, PinGate::Unlock)
            })),
    {
        let hdr = match DiskHeader::parse(&image) {
            Ok(h) => h,
            Err(_) => {
                return None;
            },
        };
        let mut w = ColdWallet::new();
        w.salt = hdr.salt;
        w.failures = hdr.failures;
        w.locked = hdr.locked;
        w.disk_image = Some(image);
        w.state = if hdr.locked {
            AppState::PinLocked
        } else {
            let s = AppState::EnterPin {
                order: shuffle(&shuffle_entropy),
                digits: [0u8; 6],
                len: 0,
                gate: PinGate::Unlock,
            };
            assert(s matches AppState::EnterPin { digits, .. } && digits@ =~= zeros(6));
            s
        };
        Some(w)
    }

    /// True while the machine is parked in a state whose slow work has not
    /// run yet; the caller redraws, then calls `process_pending`.
    pub fn has_pending_work(&self) -> (r: bool)
        ensures
            r == (self.state is PinVerifying || self.state is PinConfirming),
    {
        match self.state {
            AppState::PinVerifying { .. } | AppState::PinConfirming { .. } => true,
            _ => false,
        }
    }
}

impl Default for ColdWallet {
    fn default() -> (w: Self)
        ensures
            w.is_fresh(),
    {
        ColdWallet::new()
    }
}

// ── PIN comparison ───────────────────────────────────────────────────────────
/// Compares two PINs without an early exit.
pub fn ct_eq_pin(a: &[u8; 6], b: &[u8; 6]) -> (r: bool)
    ensures
        r == (a@ == b@),
{
    let mut diff: u8 = 0;
    let mut i: usize = 0;
    while i < 6
        invariant
            i <= 6,
            (diff == 0) == (forall|j: int| 0 <= j < i ==> a@[j] == b@[j]),
        decreases 6 - i,
    {
        let x = a[i];
        let y = b[i];
        let d2 = diff | (x ^ y);
        assert((d2 == 0) == (diff == 0 && x == y)) by (bit_vector)
            requires
                d2 == diff | (x ^ y),
        ;
        diff = d2;
        i = i + 1;
    }
    if diff == 0 {
        assert(a@ =~= b@);
    }
    diff == 0
}

// ── Derivation, loading, signing ─────────────────────────────────────────────
/// Everything derived from the seed matches it: receive address (zeros if
/// it cannot be derived), the window's output keys and the descriptor.
pub open spec fn derivations_match(w: ColdWallet) -> bool {
    &&& w.address@ == match address_spec(w.seed@) {
        Some(a) => a,
        None => zeros(62),
    }
    &&& opt_keys_view(w.own_keys) == output_keys_spec(w.seed@)
    &&& match descriptor_spec(w.seed@) {
        Some(d) => w.descriptor_len == d.len() && w.descriptor@.take(d.len() as int) == d,
        None => w.descriptor_len == 0,
    }
}

/// What a Base64 PSBT decodes and parses to (within the 4096-byte buffer).
pub open spec fn loaded_view(b64: Seq<u8>) -> Option<PsbtView> {
    let t = b64.take(trimmed_len(b64) as int);
    if decodable(t) && decoded_len(t.len() as int) <= 4096 {
        match spec_parse(spec_decode(t)) {
            Ok(v) => Some(v),
            Err(_) => None,
        }
    } else {
        None
    }
}

/// The outcome of signing `p` with the seed's window keys.
pub open spec fn sign_outcome(p: ParsedPsbt, seed: Seq<u8>, aux: Seq<u8>) -> Result<usize, SignError> {
    sign_result(p.view(), signing_window_spec(seed), aux)
}

/// The Base64 of the signed encoding of `p` is shown, when that encoding
/// fits the 4431-byte buffer; nothing else changes.
pub open spec fn emitted_ok(before: ColdWallet, after: ColdWallet, p: PsbtView) -> bool {
    let bytes = spec_encode_signed(p);
    if bytes.len() <= 4431 {
        &&& after.signed_psbt_b64_len == encoded_len(bytes.len() as int)
        &&& after.signed_psbt_b64@.take(after.signed_psbt_b64_len as int) == spec_encode(bytes)
        &&& after == (ColdWallet {
            signed_psbt_b64: after.signed_psbt_b64,
            signed_psbt_b64_len: after.signed_psbt_b64_len,
            ..before
        })
    } else {
        after == before
    }
}

/// Signing from `before`: without a PSBT nothing happens; otherwise the
/// PSBT is signed as specified and, when signing succeeded, its signed
/// encoding is emitted in Base64.
pub open spec fn sign_ok(before: ColdWallet, after: ColdWallet, aux: Seq<u8>) -> bool {
    match before.psbt {
        None => after == before,
        Some(p0) => {
            let outcome = sign_outcome(p0, before.seed@, aux);
            &&& after.psbt matches Some(p1) && signed_as_specified(p0, p1, before.seed@, aux, outcome)
            &&& if outcome is Ok {
                emitted_ok(ColdWallet { psbt: after.psbt, ..before }, after, after.psbt.unwrap().view())
            } else {
                after == (ColdWallet { psbt: after.psbt, ..before })
            }
        },
    }
}

/// `n` failures plus one, saturating.
pub open spec fn bumped(n: u8) -> u8 {
    if n == 255 {
        255
    } else {
        (n + 1) as u8
    }
}

/// A disk image with its lockout fields rewritten.
pub open spec fn lockout_bytes(img: Seq<u8>, failures: u8, locked: bool) -> Seq<u8> {
    img.update(1, failures).update(2, if locked { 1u8 } else { 0u8 })
}

/// Where a correct PIN leads, per gate.
pub open spec fn gate_target_ok(s: AppState, gate: PinGate, e: Seq<u8>) -> bool {
    match gate {
        PinGate::Unlock => s == AppState::Home,
        PinGate::ShowMnemonic => s == AppState::ShowMnemonic { page: 0 },
        PinGate::ChangePin => is_fresh_set_pin(s, e),
    }
}

/// Only the PIN-outcome fields (state, counter, lock flag, disk image) change.
pub open spec fn same_but_lockout(a: ColdWallet, b: ColdWallet) -> bool {
    a == ColdWallet { state: a.state, failures: a.failures, locked: a.locked, disk_image: a.disk_image, ..b }
}

/// The outcome of a PIN attempt that is `correct` or not, from `before`:
/// a correct one resets the counter and leads where the PIN prompt was for; a wrong one at the limit
/// locks for good; otherwise the pad is reshuffled. Each change of the
/// lockout fields is written to disk (`written`), if there is a disk image.
pub open spec fn finalize_ok(
    before: ColdWallet,
    correct: bool,
    gate: PinGate,
    e: Seq<u8>,
    after: ColdWallet,
    written: Seq<[u8; 143]>,
) -> bool {
    &&& same_but_lockout(after, before)
    &&& if correct {
        &&& after.failures == 0
        &&& after.locked == before.locked
        &&& gate_target_ok(after.state, gate, e)
        &&& match before.disk_image {
            Some(img) => written.len() == 1 && written[0]@ == lockout_bytes(img@, 0, false)
                && after.disk_image == Some(written[0]),
            None => written.len() == 0 && after.disk_image is None,
        }
    } else if before.failures >= PIN_MAX_ATTEMPTS {
        &&& after.failures == before.failures
        &&& after.locked
        &&& after.state == AppState::PinLocked
        &&& match before.disk_image {
            Some(img) => written.len() == 1 && written[0]@ == lockout_bytes(
                img@,
                before.failures,
                true,
            ) && after.disk_image == Some(written[0]),
            None => written.len() == 0 && after.disk_image is None,
        }
    } else {
        &&& after.failures == before.failures
        &&& after.locked == before.locked
        &&& is_fresh_enter_pin(after.state, e, gate)
        &&& after.disk_image == before.disk_image
        &&& written.len() == 0
    }
}

/// Deriving from the passphrase: the seed of the entropy's mnemonic under
/// it is kept, with everything derived from it, when the receive address
/// derives; otherwise nothing changes.
pub open spec fn derive_ok(before: ColdWallet, passphrase: Seq<u8>, after: ColdWallet) -> bool {
    let s = bip39_seed(before.entropy@, passphrase);
    if address_spec(s) is Some {
        &&& after.seed@ == s
        &&& derivations_match(after)
        &&& after == (ColdWallet {
            seed: after.seed,
            address: after.address,
            own_keys: after.own_keys,
            descriptor: after.descriptor,
            descriptor_len: after.descriptor_len,
            ..before
        })
    } else {
        after == before
    }
}

/// The effect of loading the scanned Base64 `b64`: on a PSBT that decodes
/// and parses, the parse result is kept (canonical with the parse's view,
/// which pins it down: `lemma_canonical_is_its_view`) and the review screen
/// opens; otherwise only the rejection flag is set.
pub open spec fn load_ok(before: ColdWallet, after: ColdWallet, b64: Seq<u8>) -> bool {
    match loaded_view(b64) {
        Some(v) => {
            &&& after.psbt matches Some(p) && p.wf() && p.canonical() && p.view() == v
            &&& after == (ColdWallet {
                psbt: after.psbt,
                state: AppState::SignReview,
                scan_error_flag: false,
                ..before
            })
        },
        None => after == (ColdWallet { scan_error_flag: true, ..before }),
    }
}

impl ColdWallet {
    /// Rebuilds what is derived from the seed: address, output-key window, descriptor.
    fn rebuild_derivations(&mut self)
        requires
            old(self).descriptor_len <= 200,
        ensures
            *final(self) == (ColdWallet {
                address: final(self).address,
                own_keys: final(self).own_keys,
                descriptor: final(self).descriptor,
                descriptor_len: final(self).descriptor_len,
                ..*old(self)
            }),
            derivations_match(*final(self)),
            final(self).descriptor_len <= 200,
    {
        let seed = self.seed;
        self.address = match taproot_address(&seed) {
            Some(a) => a,
            None => {
                let z = [0u8; 62];
                assert(z@ =~= zeros(62));
                z
            },
        };
        self.own_keys = own_output_keys(&seed);
        let mut desc = self.descriptor;
        self.descriptor_len = match taproot_descriptor(&seed, &mut desc) {
            Some(n) => n,
            None => 0,
        };
        self.descriptor = desc;
    }

    /// Derives the seed from the entropy and passphrase; when the receive
    /// address derives from it, keeps it and rebuilds the derivations.
    fn derive_address(&mut self, passphrase: &str)
        requires
            old(self).descriptor_len <= 200,
        ensures
            derive_ok(*old(self), passphrase.spec_bytes(), *final(self)),
            final(self).descriptor_len <= 200,
    {
        let seed = seed_from_entropy(&self.entropy, passphrase);
        if taproot_address(&seed).is_some() {
            self.seed = seed;
            self.rebuild_derivations();
        }
    }

    /// Decodes and parses a scanned Base64 PSBT: on success it is kept and
    /// the review screen opens; otherwise only the rejection flag is set.
    fn load_psbt(&mut self, b64: &[u8])
        ensures
            load_ok(*old(self), *final(self), b64@),
    {
        let mut raw = [0u8; 4096];
        let n = match crate::base64::decode(b64, &mut raw) {
            Some(n) => n,
            None => {
                self.scan_error_flag = true;
                return;
            },
        };
        let bytes = vstd::slice::slice_subrange(raw.as_slice(), 0, n);
        match ParsedPsbt::parse(bytes) {
            Ok(p) => {
                self.scan_error_flag = false;
                self.psbt = Some(p);
                self.state = AppState::SignReview;
            },
            Err(_) => {
                self.scan_error_flag = true;
            },
        }
    }

    /// Encodes the (signed) PSBT held and keeps its Base64 for display.
    fn emit_signed(&mut self)
        requires
            old(self).psbt matches Some(p) && p.wf(),
        ensures
            emitted_ok(*old(self), *final(self), old(self).psbt.unwrap().view()),
    {
        let psbt = match &self.psbt {
            Some(p) => p,
            None => {
                return;
            },
        };
        let mut bin = [0u8; 4431];
        let len = match encode_signed(psbt, &mut bin) {
            Ok(n) => n,
            Err(_) => {
                return;
            },
        };
        let bytes = vstd::slice::slice_subrange(bin.as_slice(), 0, len);
        assert(bytes@ =~= spec_encode_signed(psbt.view()));
        let written = crate::base64::encode(bytes, &mut self.signed_psbt_b64);
        self.signed_psbt_b64_len = written;
    }

    /// Signs the loaded PSBT and keeps its signed encoding in Base64.
    fn do_sign(&mut self, aux_rand: &[u8; 32])
        requires
            old(self).wf(),
        ensures
            final(self).wf(),
            sign_ok(*old(self), *final(self), aux_rand@),
    {
        let mut psbt = match self.psbt {
            Some(p) => p,
            None => {
                return;
            },
        };
        let ghost p0 = psbt;
        let res = sign_psbt(&mut psbt, &self.seed, aux_rand);
        self.psbt = Some(psbt);
        assert(res == sign_outcome(p0, self.seed@, aux_rand@));
        if res.is_err() {
            return;
        }
        self.emit_signed();
    }
}

/// `after` extends `before`; what was added is `after.skip(before.len())`.
pub open spec fn extends(before: Seq<[u8; 143]>, after: Seq<[u8; 143]>) -> bool {
    after.len() >= before.len() && after.take(before.len() as int) == before
}

/// The images added to `before` to give `after`.
pub open spec fn added(before: Seq<[u8; 143]>, after: Seq<[u8; 143]>) -> Seq<[u8; 143]> {
    after.skip(before.len() as int)
}

impl ColdWallet {
    /// Rewrites the lockout fields of the disk image, if there is one, and
    /// queues it for writing.
    fn persist_lockout(&mut self, failures: u8, locked: bool, written: &mut Vec<[u8; 143]>)
        ensures
            match old(self).disk_image {
                Some(img) => final(self).disk_image matches Some(n) && n@ == lockout_bytes(
                    img@,
                    failures,
                    locked,
                ) && final(written)@ == old(written)@.push(n),
                None => final(self).disk_image is None && final(written)@ == old(written)@,
            },
            *final(self) == (ColdWallet { disk_image: final(self).disk_image, ..*old(self) }),
    {
        match self.disk_image {
            Some(img) => {
                let mut im = img;
                update_lockout(&mut im, failures, locked);
                self.disk_image = Some(im);
                written.push(im);
            },
            None => {},
        }
    }

    /// Resolves a PIN attempt that was `correct` or not.
    fn finalize_enter_pin(
        &mut self,
        correct: bool,
        gate: PinGate,
        entropy: &[u8; 32],
        written: &mut Vec<[u8; 143]>,
    )
        requires
            old(self).wf(),
        ensures
            final(self).wf(),
            extends(old(written)@, final(written)@),
            finalize_ok(
                *old(self),
                correct,
                gate,
                entropy@,
                *final(self),
                added(old(written)@, final(written)@),
            ),
    {
        let ghost w0 = written@;
        if correct {
            self.failures = 0;
            self.persist_lockout(0, false, written);
            self.state = match gate {
                PinGate::Unlock => AppState::Home,
                PinGate::ShowMnemonic => AppState::ShowMnemonic { page: 0 },
                PinGate::ChangePin => {
                    let s = AppState::SetPin { order: shuffle(entropy), digits: [0u8; 6], len: 0 };
                    assert(s matches AppState::SetPin { digits, .. } && digits@ =~= zeros(6));
                    s
                },
            };
        } else if self.failures >= PIN_MAX_ATTEMPTS {
            self.locked = true;
            let f = self.failures;
            self.persist_lockout(f, true, written);
            self.state = AppState::PinLocked;
        } else {
            let s = AppState::EnterPin {
                order: shuffle(entropy),
                digits: [0u8; 6],
                len: 0,
                gate,
            };
            assert(s matches AppState::EnterPin { digits, .. } && digits@ =~= zeros(6));
            self.state = s;
        }
        assert(written@.take(w0.len() as int) =~= w0);
        assert(written@.skip(w0.len() as int) =~= added(w0, written@));
    }
}

/// How many images the write-ahead hands out: one if the wallet is on disk.
pub open spec fn write_ahead_count(before: ColdWallet) -> int {
    if before.disk_image is Some {
        1
    } else {
        0
    }
}

/// The wallet after the write-ahead of a PIN attempt: the counter bumped,
/// and the disk image, if any, the first one written.
pub open spec fn after_write_ahead(before: ColdWallet, written: Seq<[u8; 143]>) -> ColdWallet {
    ColdWallet {
        failures: bumped(before.failures),
        disk_image: match before.disk_image {
            Some(_) => Some(written[0]),
            None => None,
        },
        ..before
    }
}

/// The first image written is the disk image with the counter bumped and
/// the lock flag clear (when the wallet is on disk).
pub open spec fn write_ahead_written(before: ColdWallet, written: Seq<[u8; 143]>) -> bool {
    match before.disk_image {
        Some(img) => written.len() >= 1 && written[0]@ == lockout_bytes(
            img@,
            bumped(before.failures),
            false,
        ),
        None => true,
    }
}

/// Six digits entered at a PIN prompt: the counter goes to disk first; a
/// PIN held in memory is compared at once, otherwise the slow check is
/// parked in `PinVerifying`.
pub open spec fn begin_enter_pin_ok(
    before: ColdWallet,
    digits: [u8; 6],
    gate: PinGate,
    e: Seq<u8>,
    after: ColdWallet,
    written: Seq<[u8; 143]>,
) -> bool {
    let k = write_ahead_count(before);
    let mid = after_write_ahead(before, written);
    &&& write_ahead_written(before, written)
    &&& match before.pin {
        Some(stored) => finalize_ok(mid, stored@ == digits@, gate, e, after, written.skip(k)),
        None => written.len() == k && after == (ColdWallet {
            state: AppState::PinVerifying { digits, gate },
            ..mid
        }),
    }
}

/// Six confirmation digits: equal to the chosen PIN parks the slow
/// encryption in `PinConfirming`, otherwise `PinMismatch`.
pub open spec fn begin_confirm_pin_ok(before: ColdWallet, pin: [u8; 6], digits: [u8; 6], after: ColdWallet) -> bool {
    after == ColdWallet {
        state: if pin@ == digits@ {
            AppState::PinConfirming { new_pin: digits }
        } else {
            AppState::PinMismatch
        },
        ..before
    }
}

impl ColdWallet {
    /// Six digits entered at a PIN prompt.
    fn begin_enter_pin(
        &mut self,
        digits: [u8; 6],
        gate: PinGate,
        entropy: &[u8; 32],
        written: &mut Vec<[u8; 143]>,
    )
        requires
            old(self).wf(),
        ensures
            final(self).wf(),
            extends(old(written)@, final(written)@),
            begin_enter_pin_ok(
                *old(self),
                digits,
                gate,
                entropy@,
                *final(self),
                added(old(written)@, final(written)@),
            ),
    {
        let ghost w0 = written@;
        let ghost before = *self;
        self.failures = self.failures.saturating_add(1);
        let f = self.failures;
        self.persist_lockout(f, false, written);
        let ghost w1 = written@;
        let ghost mid = *self;
        assert(mid == after_write_ahead(before, added(w0, w1)));
        match self.pin {
            Some(stored) => {
                let correct = ct_eq_pin(&stored, &digits);
                self.finalize_enter_pin(correct, gate, entropy, written);
            },
            None => {
                self.state = AppState::PinVerifying { digits, gate };
            },
        }
        let ghost w2 = written@;
        assert(w2.take(w0.len() as int) =~= w0);
        assert(added(w0, w2).skip(write_ahead_count(before)) =~= added(w1, w2));
        assert(after_write_ahead(before, added(w0, w2)) == mid);
    }

    /// Six confirmation digits entered.
    fn begin_confirm_pin(&mut self, pin: [u8; 6], digits: [u8; 6])
        ensures
            begin_confirm_pin_ok(*old(self), pin, digits, *final(self)),
    {
        if !ct_eq_pin(&digits, &pin) {
            self.state = AppState::PinMismatch;
        } else {
            self.state = AppState::PinConfirming { new_pin: digits };
        }
    }
}

/// The key a PIN gives under a salt.
pub open spec fn pin_key(pin: Seq<u8>, salt: Seq<u8>) -> Seq<u8> {
    pbkdf2_t(pin, salt, PBKDF2_ITERATIONS as nat)
}

/// What the disk image opens to under the key of `digits`, if anything.
pub open spec fn unlocked_plaintext(before: ColdWallet, digits: [u8; 6]) -> Option<Seq<u8>> {
    match before.disk_image {
        Some(img) => aead_open(
            pin_key(digits@, before.salt@),
            blob_nonce(img@),
            blob_aad(img@),
            blob_ciphertext(img@),
            blob_tag(img@),
        ),
        None => None,
    }
}

/// The secrets and what derives from them after a slow PIN check with
/// `digits`: restored from the disk image when it opens, untouched
/// otherwise. The lockout fields are `finalize_ok`'s.
pub open spec fn unlock_fields_ok(before: ColdWallet, digits: [u8; 6], after: ColdWallet) -> bool {
    match unlocked_plaintext(before, digits) {
        Some(p) => {
            &&& after.entropy@ == p.take(32)
            &&& after.seed@ == p.skip(32)
            &&& derivations_match(after)
            &&& after.words@ == bip39_word_indices(after.entropy@)
            &&& after.pin == Some(digits)
            &&& after.enc_key matches Some(k) && k@ == pin_key(digits@, before.salt@)
            &&& after == (ColdWallet {
                entropy: after.entropy,
                seed: after.seed,
                address: after.address,
                own_keys: after.own_keys,
                descriptor: after.descriptor,
                descriptor_len: after.descriptor_len,
                words: after.words,
                pin: after.pin,
                enc_key: after.enc_key,
                state: after.state,
                failures: after.failures,
                locked: after.locked,
                disk_image: after.disk_image,
                ..before
            })
        },
        None => after == (ColdWallet {
            state: after.state,
            failures: after.failures,
            locked: after.locked,
            disk_image: after.disk_image,
            ..before
        }),
    }
}

/// The slow PIN check with `digits`: the PIN is correct exactly when the
/// disk image opens under its key; the attempt is then resolved as
/// `finalize_ok` says. An image sealed under that key opens to what was
/// sealed.
pub open spec fn verify_ok(
    before: ColdWallet,
    digits: [u8; 6],
    gate: PinGate,
    e: Seq<u8>,
    after: ColdWallet,
    written: Seq<[u8; 143]>,
) -> bool {
    &&& unlock_fields_ok(before, digits, after)
    &&& finalize_ok(
        ColdWallet {
            state: before.state,
            failures: before.failures,
            locked: before.locked,
            disk_image: before.disk_image,
            ..after
        },
        unlocked_plaintext(before, digits) is Some,
        gate,
        e,
        after,
        written,
    )
    &&& (before.disk_image matches Some(img) ==> forall|p: Seq<u8>|
        #[trigger] sealed_under(img@, pin_key(digits@, before.salt@), p) ==> unlocked_plaintext(
            before,
            digits,
        ) == Some(p))
}

/// The slow PIN setup: a fresh salt (the entropy's first 16 bytes) and
/// nonce (the next 12) seal entropy and seed under the new PIN's key; the
/// image is written once, with a clear counter, and Home opens.
pub open spec fn confirm_ok(
    before: ColdWallet,
    new_pin: [u8; 6],
    e: Seq<u8>,
    after: ColdWallet,
    written: Seq<[u8; 143]>,
) -> bool {
    let salt = e.take(16);
    let nonce = e.subrange(16, 28);
    let key = pin_key(new_pin@, salt);
    &&& after.disk_image matches Some(img) && img@ == blob_image(
        before.entropy@ + before.seed@,
        salt,
        nonce,
        key,
        0,
        false,
    )
    &&& written == seq![after.disk_image.unwrap()]
    &&& after.salt@ == salt
    &&& after.enc_key matches Some(k) && k@ == key
    &&& after == (ColdWallet {
        salt: after.salt,
        enc_key: after.enc_key,
        disk_image: after.disk_image,
        pin: Some(new_pin),
        failures: 0,
        locked: false,
        state: AppState::Home,
        ..before
    })
}

/// What `process_pending` does from `before`.
pub open spec fn pending_ok(
    before: ColdWallet,
    e: Seq<u8>,
    ran: bool,
    after: ColdWallet,
    written: Seq<[u8; 143]>,
) -> bool {
    match before.state {
        AppState::PinVerifying { digits, gate } => ran && verify_ok(before, digits, gate, e, after, written),
        AppState::PinConfirming { new_pin } => ran && confirm_ok(before, new_pin, e, after, written),
        _ => !ran && written.len() == 0 && after == before,
    }
}

impl ColdWallet {
    /// Tries the disk image with the key of `digits`; on success restores
    /// the secrets and what derives from them. Returns whether it opened.
    fn unlock_with(&mut self, digits: [u8; 6]) -> (correct: bool)
        requires
            old(self).wf(),
        ensures
            final(self).wf(),
            correct == (unlocked_plaintext(*old(self), digits) is Some),
            unlock_fields_ok(*old(self), digits, *final(self)),
            final(self).state == old(self).state,
            final(self).failures == old(self).failures,
            final(self).locked == old(self).locked,
            final(self).disk_image == old(self).disk_image,
            old(self).disk_image matches Some(img) ==> forall|p: Seq<u8>|
                #[trigger] sealed_under(img@, pin_key(digits@, old(self).salt@), p)
                    ==> unlocked_plaintext(*old(self), digits) == Some(p),
    {
        let img = match self.disk_image {
            Some(i) => i,
            None => {
                return false;
            },
        };
        let key = derive_key(&digits, &self.salt);
        match try_decrypt(&img, &key) {
            Ok(secrets) => {
                self.entropy = secrets.entropy;
                self.seed = secrets.seed;
                proof {
                    assert(secrets.plaintext().take(32) =~= secrets.entropy@);
                    assert(secrets.plaintext().skip(32) =~= secrets.seed@);
                }
                self.rebuild_derivations();
                self.words = generate_words(&self.entropy);
                self.pin = Some(digits);
                self.enc_key = Some(key);
                true
            },
            Err(_) => false,
        }
    }

    /// The slow PIN check, then its resolution.
    fn process_pin_verifying(
        &mut self,
        digits: [u8; 6],
        gate: PinGate,
        entropy: &[u8; 32],
        written: &mut Vec<[u8; 143]>,
    )
        requires
            old(self).wf(),
        ensures
            final(self).wf(),
            extends(old(written)@, final(written)@),
            verify_ok(*old(self), digits, gate, entropy@, *final(self), added(old(written)@, final(written)@)),
    {
        let correct = self.unlock_with(digits);
        let ghost mid = *self;
        self.finalize_enter_pin(correct, gate, entropy, written);
        assert(mid == (ColdWallet {
            state: mid.state,
            failures: mid.failures,
            locked: mid.locked,
            disk_image: mid.disk_image,
            ..*self
        }));
    }

    /// The slow PIN setup: seal the secrets under the new PIN and persist.
    fn process_pin_confirming(
        &mut self,
        new_pin: [u8; 6],
        entropy: &[u8; 32],
        written: &mut Vec<[u8; 143]>,
    )
        requires
            old(self).wf(),
        ensures
            final(self).wf(),
            extends(old(written)@, final(written)@),
            confirm_ok(*old(self), new_pin, entropy@, *final(self), added(old(written)@, final(written)@)),
    {
        let ghost w0 = written@;
        let salt: [u8; 16] = sub_array(entropy, 0);
        let nonce: [u8; 12] = sub_array(entropy, 16);
        let key = derive_key(&new_pin, &salt);
        let secrets = Secrets { entropy: self.entropy, seed: self.seed };
        match encrypt_into_blob(&secrets, &salt, &nonce, &key, 0, false) {
            Ok(image) => {
                self.salt = salt;
                self.enc_key = Some(key);
                self.pin = Some(new_pin);
                self.failures = 0;
                self.locked = false;
                self.disk_image = Some(image);
                written.push(image);
                self.state = AppState::Home;
            },
            Err(_) => {
                self.state = AppState::PinMismatch;
            },
        }
        assert(written@.take(w0.len() as int) =~= w0);
        assert(added(w0, written@) =~= seq![self.disk_image.unwrap()]);
    }

    /// Runs the slow work of `PinVerifying` or `PinConfirming`, once the
    /// caller has drawn the waiting screen. `fresh_entropy` reshuffles the
    /// next pad, or gives the new salt and nonce. Returns whether there was
    /// work, and the disk images to write, in order.
    pub fn process_pending(&mut self, fresh_entropy: [u8; 32]) -> (r: (bool, Vec<[u8; 143]>))
        requires
            old(self).wf(),
        ensures
            final(self).wf(),
            pending_ok(*old(self), fresh_entropy@, r.0, *final(self), r.1@),
    {
        let mut written: Vec<[u8; 143]> = Vec::new();
        match self.state {
            AppState::PinVerifying { digits, gate } => {
                self.process_pin_verifying(digits, gate, &fresh_entropy, &mut written);
                assert(added(Seq::empty(), written@) =~= written@);
                (true, written)
            },
            AppState::PinConfirming { new_pin } => {
                self.process_pin_confirming(new_pin, &fresh_entropy, &mut written);
                assert(added(Seq::empty(), written@) =~= written@);
                (true, written)
            },
            _ => (false, written),
        }
    }
}

/// The wallet once a step's result is taken in.
pub open spec fn apply_step(before: ColdWallet, r: StepResult) -> ColdWallet {
    ColdWallet {
        state: r.0,
        pin: match r.1 {
            Some(p) => Some(p),
            None => before.pin,
        },
        words: match r.2 {
            Some(w) => w,
            None => before.words,
        },
        entropy: match r.3 {
            Some(e) => e,
            None => before.entropy,
        },
        ..before
    }
}

/// The passphrase typed: the buffer's first `len` bytes if they are UTF-8,
/// else the empty passphrase.
pub open spec fn typed_passphrase(buf: [u8; 32], len: u8) -> Seq<u8> {
    let t = buf@.take(len as int);
    if vstd::utf8::valid_utf8(t) {
        t
    } else {
        Seq::empty()
    }
}

/// Leaving the passphrase screen for the PIN choice derives the seed.
pub open spec fn passphrase_done_ok(prev: AppState, s1: ColdWallet, s2: ColdWallet) -> bool {
    match prev {
        AppState::EnterPassphrase { buf, len } => if s1.state is SetPin {
            derive_ok(s1, typed_passphrase(buf, len), s2)
        } else {
            s2 == s1
        },
        _ => s2 == s1,
    }
}

/// A sixth PIN digit starts the check (or the confirmation).
pub open spec fn pin_done_ok(s2: ColdWallet, e: Seq<u8>, s3: ColdWallet, written: Seq<[u8; 143]>) -> bool {
    match s2.state {
        AppState::EnterPin { digits, len, gate, .. } => if len == 6 {
            begin_enter_pin_ok(s2, digits, gate, e, s3, written)
        } else {
            s3 == s2 && written.len() == 0
        },
        AppState::ConfirmPin { pin, digits, len, .. } => if len == 6 {
            begin_confirm_pin_ok(s2, pin, digits, s3) && written.len() == 0
        } else {
            s3 == s2 && written.len() == 0
        },
        _ => s3 == s2 && written.len() == 0,
    }
}

/// A tap from the review screen to the result screen signs, with the
/// tap's entropy as auxiliary randomness.
pub open spec fn sign_step_ok(prev: AppState, s3: ColdWallet, e: Seq<u8>, s4: ColdWallet) -> bool {
    if prev is SignReview && s3.state is SignResult {
        sign_ok(s3, s4, e)
    } else {
        s4 == s3
    }
}

/// Home forgets the PSBT, its signed form and the rejection flag.
pub open spec fn home_clears_ok(s4: ColdWallet, after: ColdWallet) -> bool {
    if s4.state is Home {
        after == (ColdWallet { psbt: None, signed_psbt_b64_len: 0, scan_error_flag: false, ..s4 })
    } else {
        after == s4
    }
}

/// A tap, through the intermediate wallets `s2`..`s4`: the step `r`,
/// derivation, PIN work, signing, then the Home clean-up.
pub open spec fn touch_ok(
    before: ColdWallet,
    x: int,
    y: int,
    e: Seq<u8>,
    r: StepResult,
    s2: ColdWallet,
    s3: ColdWallet,
    s4: ColdWallet,
    after: ColdWallet,
    written: Seq<[u8; 143]>,
) -> bool {
    &&& step_ok(before.state, x, y, e, r)
    &&& passphrase_done_ok(before.state, apply_step(before, r), s2)
    &&& pin_done_ok(s2, e, s3, written)
    &&& sign_step_ok(before.state, s3, e, s4)
    &&& home_clears_ok(s4, after)
}

/// What `handle_event` does: a scanned PSBT is loaded only on the scan
/// screen; a tap goes as `touch_ok` says. `written` are the disk images
/// handed out, in order.
pub open spec fn handle_event_ok(
    before: ColdWallet,
    event: WalletEvent,
    after: ColdWallet,
    written: Seq<[u8; 143]>,
) -> bool {
    match event {
        WalletEvent::PsbtScanned { data, len } => written.len() == 0 && if before.state is SignScan {
            load_ok(before, after, data@.take(len as int))
        } else {
            after == before
        },
        WalletEvent::Touch { x, y, entropy } => exists|
            r: StepResult,
            s2: ColdWallet,
            s3: ColdWallet,
            s4: ColdWallet,
        | #[trigger] touch_ok(before, x as int, y as int, entropy@, r, s2, s3, s4, after, written),
    }
}

impl ColdWallet {
    /// Takes in a step's result.
    fn apply(&mut self, r: StepResult)
        ensures
            *final(self) == apply_step(*old(self), r),
    {
        self.state = r.0;
        if let Some(p) = r.1 {
            self.pin = Some(p);
        }
        if let Some(w) = r.2 {
            self.words = w;
        }
        if let Some(e) = r.3 {
            self.entropy = e;
        }
    }

    /// Derives the seed when the passphrase screen hands over to the PIN choice.
    fn after_passphrase(&mut self, prev: AppState)
        requires
            old(self).wf(),
            wallet_state_wf(prev),
        ensures
            final(self).wf(),
            passphrase_done_ok(prev, *old(self), *final(self)),
    {
        if let AppState::EnterPassphrase { buf, len } = prev {
            if let AppState::SetPin { .. } = self.state {
                let typed = vstd::slice::slice_subrange(buf.as_slice(), 0, len as usize);
                assert(typed@ =~= buf@.take(len as int));
                let pp: &str = match utf8_str(typed) {
                    Some(s) => s,
                    None => {
                        proof {
                            reveal_strlit("");
                        }
                        assert(""@ =~= Seq::<char>::empty());
                        assert("".spec_bytes() =~= Seq::<u8>::empty());
                        ""
                    },
                };
                self.derive_address(pp);
            }
        }
    }

    /// Starts the PIN work once six digits are in.
    fn after_pin_digits(&mut self, entropy: &[u8; 32], written: &mut Vec<[u8; 143]>)
        requires
            old(self).wf(),
            old(written)@.len() == 0,
        ensures
            final(self).wf(),
            pin_done_ok(*old(self), entropy@, *final(self), final(written)@),
    {
        match self.state {
            AppState::EnterPin { digits, len, gate, .. } => {
                if len == 6 {
                    self.begin_enter_pin(digits, gate, entropy, written);
                    assert(added(Seq::empty(), written@) =~= written@);
                }
            },
            AppState::ConfirmPin { pin, digits, len, .. } => {
                if len == 6 {
                    self.begin_confirm_pin(pin, digits);
                }
            },
            _ => {},
        }
    }

    /// Drives the wallet on a tap or a scanned PSBT; returns the disk
    /// images to write, in order (the failure counter goes out before any
    /// PIN check).
    pub fn handle_event(&mut self, event: WalletEvent) -> (written: Vec<[u8; 143]>)
        requires
            old(self).wf(),
            old(self).state is SignScan ==> (event matches WalletEvent::PsbtScanned { len, .. }
                ==> len <= 5464),
        ensures
            final(self).wf(),
            handle_event_ok(*old(self), event, *final(self), written@),
    {
        let mut written: Vec<[u8; 143]> = Vec::new();
        let (x, y, entropy) = match &event {
            WalletEvent::PsbtScanned { data, len } => {
                if let AppState::SignScan = self.state {
                    let b64 = vstd::slice::slice_subrange(data.as_slice(), 0, *len);
                    assert(b64@ =~= data@.take(*len as int));
                    self.load_psbt(b64);
                }
                return written;
            },
            WalletEvent::Touch { x, y, entropy } => (*x, *y, *entropy),
        };
        let prev = self.state;
        let r = step(prev, &event);
        proof {
            lemma_step_keeps_wf(prev, x as int, y as int, entropy@, r);
        }
        self.apply(r);
        self.after_passphrase(prev);
        let ghost s2 = *self;
        self.after_pin_digits(&entropy, &mut written);
        let ghost s3 = *self;
        if let AppState::SignReview = prev {
            if let AppState::SignResult = self.state {
                self.do_sign(&entropy);
            }
        }
        let ghost s4 = *self;
        if let AppState::Home = self.state {
            self.psbt = None;
            self.signed_psbt_b64_len = 0;
            self.scan_error_flag = false;
        }
        assert(touch_ok(*old(self), x as int, y as int, entropy@, r, s2, s3, s4, *self, written@));
        written
    }
}

} // verus!

//! What holds of the wallet across calls: the write-ahead of the PIN
//! counter, the permanent lockout, what a setup writes an unlock reads
//! back, and Home forgetting the PSBT.
use vstd::prelude::*;
use crate::machine::{AppState, WalletEvent, PIN_MAX_ATTEMPTS};
use crate::pinpad::pin_digit_spec;
use crate::storage::{blob_salt, lemma_image_sealed, lemma_lockout_keeps_seal};
use crate::wallet::{
    bumped, gate_target_ok, handle_event_ok, lockout_bytes, pending_ok, pin_key,
    unlocked_plaintext, ColdWallet,
};

verus! {

/// Law: when a tap completes a six-digit PIN entry on a wallet that is on
/// disk, the first image handed out is the disk image with the failure
/// counter already bumped and the lock flag clear, before the PIN is
/// compared with anything.
pub proof fn lemma_write_ahead(
    before: ColdWallet,
    x: i32,
    y: i32,
    entropy: [u8; 32],
    after: ColdWallet,
    written: Seq<[u8; 143]>,
)
    requires
        before.wf(),
        handle_event_ok(before, (WalletEvent::Touch { x, y, entropy }), after, written),
        before.state matches AppState::EnterPin { order, len, .. } && len == 5
            && pin_digit_spec(x as int, y as int, order@) is Some,
        before.disk_image is Some,
    ensures
        written.len() >= 1,
        written[0]@ == lockout_bytes(before.disk_image.unwrap()@, bumped(before.failures), false),
{
}

/// Law: a locked wallet stays locked: no event changes it or writes anything.
pub proof fn lemma_locked_is_final(
    before: ColdWallet,
    event: WalletEvent,
    after: ColdWallet,
    written: Seq<[u8; 143]>,
)
    requires
        before.wf(),
        before.state == AppState::PinLocked,
        handle_event_ok(before, event, after, written),
    ensures
        after == before,
        written.len() == 0,
{
}

/// Law: the slow work has nothing to do on a locked wallet.
pub proof fn lemma_locked_has_no_pending_work(
    before: ColdWallet,
    e: Seq<u8>,
    ran: bool,
    after: ColdWallet,
    written: Seq<[u8; 143]>,
)
    requires
        before.state == AppState::PinLocked,
        pending_ok(before, e, ran, after, written),
    ensures
        !ran,
        after == before,
        written.len() == 0,
{
}

/// Law: a wrong PIN checked against the disk image when the counter has
/// reached the limit locks the wallet for good, and the locked flag goes
/// to disk with the counter.
pub proof fn lemma_wrong_pin_at_limit_locks(
    before: ColdWallet,
    e: Seq<u8>,
    ran: bool,
    after: ColdWallet,
    written: Seq<[u8; 143]>,
)
    requires
        before.state matches AppState::PinVerifying { digits, .. } && unlocked_plaintext(
            before,
            digits,
        ) is None,
        before.failures >= PIN_MAX_ATTEMPTS,
        before.disk_image is Some,
        pending_ok(before, e, ran, after, written),
    ensures
        after.state == AppState::PinLocked,
        after.locked,
        written.len() == 1,
        written[0]@ == lockout_bytes(before.disk_image.unwrap()@, before.failures, true),
{
}

/// Law: a wrong PIN held against the in-memory PIN, on the attempt that
/// brings the counter to the limit, locks the wallet.
pub proof fn lemma_wrong_pin_in_session_locks(
    before: ColdWallet,
    x: i32,
    y: i32,
    entropy: [u8; 32],
    after: ColdWallet,
    written: Seq<[u8; 143]>,
)
    requires
        before.wf(),
        handle_event_ok(before, (WalletEvent::Touch { x, y, entropy }), after, written),
        before.state matches AppState::EnterPin { order, digits, len, .. } && len == 5 && (
        pin_digit_spec(x as int, y as int, order@) matches Some(d) && before.pin matches Some(
            stored,
        ) && stored@ != digits@.update(5, d)),
        bumped(before.failures) >= PIN_MAX_ATTEMPTS,
    ensures
        after.state == AppState::PinLocked,
        after.locked,
        after.failures == bumped(before.failures),
{
}

/// Law: a complete wrong attempt at a cold-start prompt (the sixth digit,
/// then the slow check) adds one to the failure counter; the attempt that
/// brings it to the limit locks the wallet, any earlier one reopens the pad.
pub proof fn lemma_wrong_attempt_counts(
    before: ColdWallet,
    x: i32,
    y: i32,
    entropy: [u8; 32],
    mid: ColdWallet,
    w1: Seq<[u8; 143]>,
    e2: Seq<u8>,
    ran: bool,
    after: ColdWallet,
    w2: Seq<[u8; 143]>,
)
    requires
        before.wf(),
        handle_event_ok(before, (WalletEvent::Touch { x, y, entropy }), mid, w1),
        before.state matches AppState::EnterPin { order, len, .. } && len == 5
            && pin_digit_spec(x as int, y as int, order@) is Some,
        before.pin is None,
        mid.state matches AppState::PinVerifying { digits, .. } && unlocked_plaintext(
            mid,
            digits,
        ) is None,
        pending_ok(mid, e2, ran, after, w2),
    ensures
        mid.failures == bumped(before.failures),
        after.failures == bumped(before.failures),
        bumped(before.failures) >= PIN_MAX_ATTEMPTS ==> after.state == AppState::PinLocked
            && after.locked,
        bumped(before.failures) < PIN_MAX_ATTEMPTS ==> after.state is EnterPin,
{
}

/// Law: what the PIN setup writes, the slow check of the same PIN reads
/// back after a restart: the image (its lockout fields rewritten any
/// number of times, its salt read from the header) opens to the same
/// entropy and seed, the counter is cleared and the prompt leads on.
pub proof fn lemma_setup_then_unlock(
    setup: ColdWallet,
    e1: Seq<u8>,
    ran1: bool,
    saved: ColdWallet,
    w1: Seq<[u8; 143]>,
    boot: ColdWallet,
    failures: u8,
    locked: bool,
    e2: Seq<u8>,
    ran2: bool,
    unlocked: ColdWallet,
    w2: Seq<[u8; 143]>,
)
    requires
        setup.state is PinConfirming,
        e1.len() == 32,
        pending_ok(setup, e1, ran1, saved, w1),
        boot.state matches AppState::PinVerifying { digits, .. } && digits@
            == setup.state->new_pin@,
        boot.disk_image matches Some(img) && img@ == lockout_bytes(
            saved.disk_image.unwrap()@,
            failures,
            locked,
        ),
        boot.salt@ == blob_salt(saved.disk_image.unwrap()@),
        pending_ok(boot, e2, ran2, unlocked, w2),
    ensures
        unlocked.entropy@ == setup.entropy@,
        unlocked.seed@ == setup.seed@,
        unlocked.failures == 0,
        gate_target_ok(unlocked.state, boot.state->PinVerifying_gate, e2),
{
    let new_pin = setup.state->new_pin;
    let salt = e1.take(16);
    let nonce = e1.subrange(16, 28);
    let key = pin_key(new_pin@, salt);
    let plain = setup.entropy@ + setup.seed@;
    let img1 = saved.disk_image.unwrap();
    assert(img1@.len() == 143);
    lemma_image_sealed(plain, salt, nonce, key, 0, false);
    lemma_lockout_keeps_seal(img1@, key, plain, failures, locked);
    let digits = boot.state->PinVerifying_digits;
    assert(pin_key(digits@, boot.salt@) == key);
    assert(unlocked_plaintext(boot, digits) == Some(plain));
    assert(plain.take(32) =~= setup.entropy@);
    assert(plain.skip(32) =~= setup.seed@);
}

/// Law: the lockout fields a write puts into an image are what a boot
/// reads back from it; the version and the salt stay.
pub proof fn lemma_lockout_read_back(img: Seq<u8>, failures: u8, locked: bool)
    requires
        img.len() == 143,
    ensures
        ({
            let b = lockout_bytes(img, failures, locked);
            &&& b.len() == 143
            &&& b[0] == img[0]
            &&& b[1] == failures
            &&& (b[2] != 0) == locked
            &&& blob_salt(b) == blob_salt(img)
        }),
{
    let b = lockout_bytes(img, failures, locked);
    assert(blob_salt(b) =~= blob_salt(img));
}

/// Law: a tap that lands on Home leaves no PSBT, no signed PSBT and no
/// rejection flag behind.
pub proof fn lemma_home_forgets_psbt(
    before: ColdWallet,
    x: i32,
    y: i32,
    entropy: [u8; 32],
    after: ColdWallet,
    written: Seq<[u8; 143]>,
)
    requires
        handle_event_ok(before, (WalletEvent::Touch { x, y, entropy }), after, written),
        after.state == AppState::Home,
    ensures
        after.psbt is None,
        after.signed_psbt_b64_len == 0,
        !after.scan_error_flag,
{
}

} // verus!

//! The wallet's screens and the pure transition on a tap: each state reads
//! the touch coordinates and gives the next state. Persistence, encryption
//! and signing happen in `ColdWallet::handle_event` once a state is reached.
use vstd::prelude::*;
use crate::derive::indices_to_entropy;
use crate::keyboard::{key_at_spec, passphrase_key_at, KeyPress};
use crate::layout::{
    BTN_H, BTN_NEW_Y, BTN_RESTORE_Y, BTN_W, BTN_X, HOME_BTN_H, HOME_BTN_W, HOME_X0, HOME_X1,
    HOME_Y0, HOME_Y1, NAV_BTN_H, NAV_BTN_W, NAV_BTN_Y, NAV_NEXT_X, NAV_PREV_X, PIN_DEL_H,
    PIN_DEL_W, PIN_DEL_X, PIN_DEL_Y, SETTINGS_BTN_H, SETTINGS_BTN_W, SETTINGS_BTN_X, SETTINGS_Y0,
    SETTINGS_Y1, SETTINGS_Y2, SETTINGS_Y3,
};
use crate::mnemonic::{
    bip39_word_indices, find_matches, find_matches_spec, generate_words, tapped_suggestion,
    tapped_suggestion_spec,
};
use crate::pinpad::{in_rect, in_rect_spec, pin_digit_at, pin_digit_spec, shuffle, shuffle_spec};
use crate::derive::indices_to_entropy_spec;

verus! {

/// The wallet locks for good after this many consecutive wrong PINs.
pub const PIN_MAX_ATTEMPTS: u8 = 3;

#[derive(Clone, Copy, Debug, PartialEq, Eq, Structural)]
pub enum PinGate {
    Unlock,
    ShowMnemonic,
    ChangePin,
}

#[derive(Clone, Copy, Debug, PartialEq, Eq)]
pub enum AppState {
    Welcome,
    NewWallet { page: u8 },
    RestoreWallet {
        word_idx: u8,
        /// Lowercase ASCII prefix typed so far.
        buf: [u8; 8],
        buf_len: u8,
        /// BIP39 word indices of the confirmed words.
        confirmed: [u16; 24],
        /// The last 24-word set failed the BIP39 checksum.
        error: bool,
    },
    EnterPassphrase { buf: [u8; 32], len: u8 },
    SetPin { order: [u8; 10], digits: [u8; 6], len: u8 },
    ConfirmPin { pin: [u8; 6], order: [u8; 10], digits: [u8; 6], len: u8 },
    PinMismatch,
    EnterPin { order: [u8; 10], digits: [u8; 6], len: u8, gate: PinGate },
    /// Six digits entered and the failure counter written ahead; the slow
    /// key derivation and decryption have not run yet.
    PinVerifying { digits: [u8; 6], gate: PinGate },
    /// PIN confirmed; the slow key derivation and encryption have not run yet.
    PinConfirming { new_pin: [u8; 6] },
    /// Permanent lockout.
    PinLocked,
    Home,
    Receive,
    SignScan,
    SignReview,
    SignResult,
    Accounts,
    Settings,
    Descriptor,
    ShowMnemonic { page: u8 },
    About,
}

/// A touch (with fresh platform entropy), or a scanned Base64 PSBT.
pub enum WalletEvent {
    Touch { x: i32, y: i32, entropy: [u8; 32] },
    PsbtScanned { data: [u8; 5464], len: usize },
}

/// Next state, a new PIN (never set by a tap), new mnemonic words, new entropy.
pub type StepResult = (AppState, Option<[u8; 6]>, Option<[u16; 24]>, Option<[u8; 32]>);

// ── Fresh states ─────────────────────────────────────────────────────────────
pub open spec fn zeros(n: nat) -> Seq<u8> {
    Seq::new(n, |i: int| 0u8)
}

pub open spec fn is_fresh_set_pin(s: AppState, e: Seq<u8>) -> bool {
    s matches AppState::SetPin { order, digits, len } && order@ == shuffle_spec(e) && digits@ == zeros(6)
        && len == 0
}

pub open spec fn is_fresh_enter_pin(s: AppState, e: Seq<u8>, gate: PinGate) -> bool {
    s matches AppState::EnterPin { order, digits, len, gate: g } && order@ == shuffle_spec(e)
        && digits@ == zeros(6) && len == 0 && g == gate
}

pub open spec fn is_fresh_passphrase(s: AppState) -> bool {
    s matches AppState::EnterPassphrase { buf, len } && buf@ == zeros(32) && len == 0
}

pub open spec fn is_fresh_restore(s: AppState, error: bool) -> bool {
    s matches AppState::RestoreWallet { word_idx, buf, buf_len, confirmed, error: e } && word_idx
        == 0 && buf@ == zeros(8) && buf_len == 0 && confirmed@ == Seq::new(24, |i: int| 0u16) && e
        == error
}

/// Only the state changes.
pub open spec fn moves_to(r: StepResult, s: AppState) -> bool {
    r == (s, None::<[u8; 6]>, None::<[u16; 24]>, None::<[u8; 32]>)
}

/// Only the state changes, to one that `p` describes.
pub open spec fn only_state(r: StepResult) -> bool {
    r.1 is None && r.2 is None && r.3 is None
}

pub open spec fn on(x: int, y: int, rx: i32, ry: i32, rw: i32, rh: i32) -> bool {
    in_rect_spec(x, y, rx as int, ry as int, rw as int, rh as int)
}

pub open spec fn on_back(x: int, y: int) -> bool {
    on(x, y, NAV_PREV_X, NAV_BTN_Y, NAV_BTN_W, NAV_BTN_H)
}

pub open spec fn on_next(x: int, y: int) -> bool {
    on(x, y, NAV_NEXT_X, NAV_BTN_Y, NAV_BTN_W, NAV_BTN_H)
}

pub open spec fn on_delete(x: int, y: int) -> bool {
    on(x, y, PIN_DEL_X, PIN_DEL_Y, PIN_DEL_W, PIN_DEL_H)
}

fn no_change(state: AppState) -> (r: StepResult)
    ensures
        moves_to(r, state),
{
    (state, None, None, None)
}

fn back_pressed(x: i32, y: i32) -> (r: bool)
    ensures
        r == on_back(x as int, y as int),
{
    in_rect(x, y, NAV_PREV_X, NAV_BTN_Y, NAV_BTN_W, NAV_BTN_H)
}

fn next_pressed(x: i32, y: i32) -> (r: bool)
    ensures
        r == on_next(x as int, y as int),
{
    in_rect(x, y, NAV_NEXT_X, NAV_BTN_Y, NAV_BTN_W, NAV_BTN_H)
}

fn delete_pressed(x: i32, y: i32) -> (r: bool)
    ensures
        r == on_delete(x as int, y as int),
{
    in_rect(x, y, PIN_DEL_X, PIN_DEL_Y, PIN_DEL_W, PIN_DEL_H)
}

// ── Per-state transitions ────────────────────────────────────────────────────
/// Welcome: "New wallet" draws entropy into words; "Restore" opens the word entry.
pub open spec fn welcome_ok(x: int, y: int, e: Seq<u8>, r: StepResult) -> bool {
    if on(x, y, BTN_X, BTN_NEW_Y, BTN_W, BTN_H) {
        r.0 == AppState::NewWallet { page: 0 } && r.1 is None && (r.2 matches Some(w) && w@
            == bip39_word_indices(e)) && (r.3 matches Some(ent) && ent@ == e)
    } else if on(x, y, BTN_X, BTN_RESTORE_Y, BTN_W, BTN_H) {
        only_state(r) && is_fresh_restore(r.0, false)
    } else {
        moves_to(r, AppState::Welcome)
    }
}

fn step_welcome(x: i32, y: i32, entropy: &[u8; 32]) -> (r: StepResult)
    ensures
        welcome_ok(x as int, y as int, entropy@, r),
{
    if in_rect(x, y, BTN_X, BTN_NEW_Y, BTN_W, BTN_H) {
        (AppState::NewWallet { page: 0 }, None, Some(generate_words(entropy)), Some(*entropy))
    } else if in_rect(x, y, BTN_X, BTN_RESTORE_Y, BTN_W, BTN_H) {
        let r = (
            AppState::RestoreWallet {
                word_idx: 0,
                buf: [0u8; 8],
                buf_len: 0,
                confirmed: [0u16; 24],
                error: false,
            },
            None,
            None,
            None,
        );
        proof {
            if let AppState::RestoreWallet { buf, confirmed, .. } = r.0 {
                assert(buf@ =~= zeros(8));
                assert(confirmed@ =~= Seq::new(24, |i: int| 0u16));
            }
        }
        r
    } else {
        (AppState::Welcome, None, None, None)
    }
}

/// The four mnemonic pages; Next after the last opens the passphrase entry.
pub open spec fn new_wallet_ok(x: int, y: int, page: u8, r: StepResult) -> bool {
    if on_next(x, y) && page < 3 {
        moves_to(r, AppState::NewWallet { page: (page + 1) as u8 })
    } else if on_next(x, y) && page == 3 {
        only_state(r) && is_fresh_passphrase(r.0)
    } else if on_back(x, y) && page > 0 {
        moves_to(r, AppState::NewWallet { page: (page - 1) as u8 })
    } else {
        moves_to(r, AppState::NewWallet { page })
    }
}

fn step_new_wallet(x: i32, y: i32, page: u8) -> (r: StepResult)
    ensures
        new_wallet_ok(x as int, y as int, page, r),
{
    let is_prev = back_pressed(x, y);
    let is_next = next_pressed(x, y);
    if is_next && page < 3 {
        (AppState::NewWallet { page: page + 1 }, None, None, None)
    } else if is_next && page == 3 {
        let r = (AppState::EnterPassphrase { buf: [0u8; 32], len: 0 }, None, None, None);
        assert(r.0 matches AppState::EnterPassphrase { buf, .. } && buf@ =~= zeros(32));
        r
    } else if is_prev && page > 0 {
        (AppState::NewWallet { page: page - 1 }, None, None, None)
    } else {
        (AppState::NewWallet { page }, None, None, None)
    }
}

/// Passphrase entry: letters and space append (up to 32), Backspace
/// deletes, Confirm (non-empty) or Skip go on to choosing a PIN.
pub open spec fn passphrase_ok(x: int, y: int, e: Seq<u8>, buf: [u8; 32], len: u8, r: StepResult) -> bool {
    only_state(r) && match key_at_spec(x, y) {
        Some(KeyPress::Char(c)) if len < 32 => r.0 matches AppState::EnterPassphrase { buf: b, len: l }
            && b@ == buf@.update(len as int, c) && l == len + 1,
        Some(KeyPress::Space) if len < 32 => r.0 matches AppState::EnterPassphrase { buf: b, len: l }
            && b@ == buf@.update(len as int, 32u8) && l == len + 1,
        Some(KeyPress::Backspace) if len > 0 => r.0 == AppState::EnterPassphrase {
            buf,
            len: (len - 1) as u8,
        },
        Some(KeyPress::Confirm) if len > 0 => is_fresh_set_pin(r.0, e),
        Some(KeyPress::Skip) => is_fresh_set_pin(r.0, e),
        _ => r.0 == AppState::EnterPassphrase { buf, len },
    }
}

fn fresh_set_pin(entropy: &[u8; 32]) -> (s: AppState)
    ensures
        is_fresh_set_pin(s, entropy@),
{
    let s = AppState::SetPin { order: shuffle(entropy), digits: [0u8; 6], len: 0 };
    assert(s matches AppState::SetPin { digits, .. } && digits@ =~= zeros(6));
    s
}

fn fresh_enter_pin(entropy: &[u8; 32], gate: PinGate) -> (s: AppState)
    ensures
        is_fresh_enter_pin(s, entropy@, gate),
{
    let s = AppState::EnterPin { order: shuffle(entropy), digits: [0u8; 6], len: 0, gate };
    assert(s matches AppState::EnterPin { digits, .. } && digits@ =~= zeros(6));
    s
}

fn step_enter_passphrase(x: i32, y: i32, entropy: &[u8; 32], buf: [u8; 32], len: u8) -> (r:
    StepResult)
    ensures
        passphrase_ok(x as int, y as int, entropy@, buf, len, r),
{
    match passphrase_key_at(x, y) {
        Some(KeyPress::Char(c)) => {
            if len < 32 {
                let mut b = buf;
                b[len as usize] = c;
                return (AppState::EnterPassphrase { buf: b, len: len + 1 }, None, None, None);
            }
        },
        Some(KeyPress::Space) => {
            if len < 32 {
                let mut b = buf;
                b[len as usize] = 32;
                return (AppState::EnterPassphrase { buf: b, len: len + 1 }, None, None, None);
            }
        },
        Some(KeyPress::Backspace) => {
            if len > 0 {
                return (AppState::EnterPassphrase { buf, len: len - 1 }, None, None, None);
            }
        },
        Some(KeyPress::Confirm) => {
            if len > 0 {
                return (fresh_set_pin(entropy), None, None, None);
            }
        },
        Some(KeyPress::Skip) => {
            return (fresh_set_pin(entropy), None, None, None);
        },
        None => {},
    }
    (AppState::EnterPassphrase { buf, len }, None, None, None)
}

/// PIN choice: a pad key appends a digit (the sixth moves on to
/// confirmation with a new pad order), Delete removes one.
pub open spec fn set_pin_ok(
    x: int,
    y: int,
    e: Seq<u8>,
    order: [u8; 10],
    digits: [u8; 6],
    len: u8,
    r: StepResult,
) -> bool {
    only_state(r) && match pin_digit_spec(x, y, order@) {
        Some(d) => if len < 6 {
            if len + 1 == 6 {
                r.0 matches AppState::ConfirmPin { pin, order: o, digits: ds, len: l } && pin@
                    == digits@.update(len as int, d) && o@ == shuffle_spec(e) && ds@ == zeros(6)
                    && l == 0
            } else {
                r.0 matches AppState::SetPin { order: o, digits: ds, len: l } && o == order && ds@
                    == digits@.update(len as int, d) && l == len + 1
            }
        } else {
            r.0 == AppState::SetPin { order, digits, len }
        },
        None => if on_delete(x, y) && len > 0 {
            r.0 == AppState::SetPin { order, digits, len: (len - 1) as u8 }
        } else {
            r.0 == AppState::SetPin { order, digits, len }
        },
    }
}

fn step_set_pin(x: i32, y: i32, entropy: &[u8; 32], order: [u8; 10], digits: [u8; 6], len: u8) -> (r:
    StepResult)
    ensures
        set_pin_ok(x as int, y as int, entropy@, order, digits, len, r),
{
    let mut digits = digits;
    if let Some(digit) = pin_digit_at(x, y, &order) {
        if len < 6 {
            digits[len as usize] = digit;
            let new_len = len + 1;
            if new_len == 6 {
                let s = AppState::ConfirmPin {
                    pin: digits,
                    order: shuffle(entropy),
                    digits: [0u8; 6],
                    len: 0,
                };
                assert(s matches AppState::ConfirmPin { digits: ds, .. } && ds@ =~= zeros(6));
                (s, None, None, None)
            } else {
                (AppState::SetPin { order, digits, len: new_len }, None, None, None)
            }
        } else {
            (AppState::SetPin { order, digits, len }, None, None, None)
        }
    } else if delete_pressed(x, y) && len > 0 {
        (AppState::SetPin { order, digits, len: len - 1 }, None, None, None)
    } else {
        (AppState::SetPin { order, digits, len }, None, None, None)
    }
}

/// PIN confirmation digits; the comparison happens once six are in.
pub open spec fn confirm_pin_ok(
    x: int,
    y: int,
    pin: [u8; 6],
    order: [u8; 10],
    digits: [u8; 6],
    len: u8,
    r: StepResult,
) -> bool {
    only_state(r) && match pin_digit_spec(x, y, order@) {
        Some(d) => if len < 6 {
            r.0 matches AppState::ConfirmPin { pin: p, order: o, digits: ds, len: l } && p == pin
                && o == order && ds@ == digits@.update(len as int, d) && l == len + 1
        } else {
            r.0 == AppState::ConfirmPin { pin, order, digits, len }
        },
        None => if on_delete(x, y) && len > 0 {
            r.0 == AppState::ConfirmPin { pin, order, digits, len: (len - 1) as u8 }
        } else {
            r.0 == AppState::ConfirmPin { pin, order, digits, len }
        },
    }
}

fn step_confirm_pin(x: i32, y: i32, pin: [u8; 6], order: [u8; 10], digits: [u8; 6], len: u8) -> (r:
    StepResult)
    ensures
        confirm_pin_ok(x as int, y as int, pin, order, digits, len, r),
{
    let mut digits = digits;
    if let Some(digit) = pin_digit_at(x, y, &order) {
        if len < 6 {
            digits[len as usize] = digit;
            (AppState::ConfirmPin { pin, order, digits, len: len + 1 }, None, None, None)
        } else {
            (AppState::ConfirmPin { pin, order, digits, len }, None, None, None)
        }
    } else if delete_pressed(x, y) && len > 0 {
        (AppState::ConfirmPin { pin, order, digits, len: len - 1 }, None, None, None)
    } else {
        (AppState::ConfirmPin { pin, order, digits, len }, None, None, None)
    }
}

/// PIN entry digits; checked once six are in.
pub open spec fn enter_pin_ok(
    x: int,
    y: int,
    order: [u8; 10],
    digits: [u8; 6],
    len: u8,
    gate: PinGate,
    r: StepResult,
) -> bool {
    only_state(r) && match pin_digit_spec(x, y, order@) {
        Some(d) => if len < 6 {
            r.0 matches AppState::EnterPin { order: o, digits: ds, len: l, gate: g } && o == order
                && ds@ == digits@.update(len as int, d) && l == len + 1 && g == gate
        } else {
            r.0 == AppState::EnterPin { order, digits, len, gate }
        },
        None => if on_delete(x, y) && len > 0 {
            r.0 == AppState::EnterPin { order, digits, len: (len - 1) as u8, gate }
        } else {
            r.0 == AppState::EnterPin { order, digits, len, gate }
        },
    }
}

fn step_enter_pin(x: i32, y: i32, order: [u8; 10], digits: [u8; 6], len: u8, gate: PinGate) -> (r:
    StepResult)
    ensures
        enter_pin_ok(x as int, y as int, order, digits, len, gate, r),
{
    let mut digits = digits;
    if let Some(digit) = pin_digit_at(x, y, &order) {
        if len < 6 {
            digits[len as usize] = digit;
            (AppState::EnterPin { order, digits, len: len + 1, gate }, None, None, None)
        } else {
            (AppState::EnterPin { order, digits, len, gate }, None, None, None)
        }
    } else if delete_pressed(x, y) && len > 0 {
        (AppState::EnterPin { order, digits, len: len - 1, gate }, None, None, None)
    } else {
        (AppState::EnterPin { order, digits, len, gate }, None, None, None)
    }
}

/// Home: the 2x2 grid.
pub open spec fn home_next(x: int, y: int) -> AppState {
    if on(x, y, HOME_X0, HOME_Y0, HOME_BTN_W, HOME_BTN_H) {
        AppState::Receive
    } else if on(x, y, HOME_X1, HOME_Y0, HOME_BTN_W, HOME_BTN_H) {
        AppState::SignScan
    } else if on(x, y, HOME_X0, HOME_Y1, HOME_BTN_W, HOME_BTN_H) {
        AppState::Accounts
    } else if on(x, y, HOME_X1, HOME_Y1, HOME_BTN_W, HOME_BTN_H) {
        AppState::Settings
    } else {
        AppState::Home
    }
}

fn step_home(x: i32, y: i32) -> (r: StepResult)
    ensures
        moves_to(r, home_next(x as int, y as int)),
{
    if in_rect(x, y, HOME_X0, HOME_Y0, HOME_BTN_W, HOME_BTN_H) {
        (AppState::Receive, None, None, None)
    } else if in_rect(x, y, HOME_X1, HOME_Y0, HOME_BTN_W, HOME_BTN_H) {
        (AppState::SignScan, None, None, None)
    } else if in_rect(x, y, HOME_X0, HOME_Y1, HOME_BTN_W, HOME_BTN_H) {
        (AppState::Accounts, None, None, None)
    } else if in_rect(x, y, HOME_X1, HOME_Y1, HOME_BTN_W, HOME_BTN_H) {
        (AppState::Settings, None, None, None)
    } else {
        (AppState::Home, None, None, None)
    }
}

/// A screen whose only control is Back, to `parent`.
fn step_back_only(x: i32, y: i32, here: AppState, parent: AppState) -> (r: StepResult)
    ensures
        moves_to(r, if on_back(x as int, y as int) { parent } else { here }),
{
    if back_pressed(x, y) {
        (parent, None, None, None)
    } else {
        (here, None, None, None)
    }
}

/// Settings: show the mnemonic or change the PIN (both behind the PIN),
/// the descriptor, About, Back.
pub open spec fn settings_ok(x: int, y: int, e: Seq<u8>, r: StepResult) -> bool {
    only_state(r) && if on(x, y, SETTINGS_BTN_X, SETTINGS_Y0, SETTINGS_BTN_W, SETTINGS_BTN_H) {
        is_fresh_enter_pin(r.0, e, PinGate::ShowMnemonic)
    } else if on(x, y, SETTINGS_BTN_X, SETTINGS_Y1, SETTINGS_BTN_W, SETTINGS_BTN_H) {
        is_fresh_enter_pin(r.0, e, PinGate::ChangePin)
    } else if on(x, y, SETTINGS_BTN_X, SETTINGS_Y2, SETTINGS_BTN_W, SETTINGS_BTN_H) {
        r.0 == AppState::Descriptor
    } else if on(x, y, SETTINGS_BTN_X, SETTINGS_Y3, SETTINGS_BTN_W, SETTINGS_BTN_H) {
        r.0 == AppState::About
    } else if on_back(x, y) {
        r.0 == AppState::Home
    } else {
        r.0 == AppState::Settings
    }
}

fn step_settings(x: i32, y: i32, entropy: &[u8; 32]) -> (r: StepResult)
    ensures
        settings_ok(x as int, y as int, entropy@, r),
{
    if in_rect(x, y, SETTINGS_BTN_X, SETTINGS_Y0, SETTINGS_BTN_W, SETTINGS_BTN_H) {
        (fresh_enter_pin(entropy, PinGate::ShowMnemonic), None, None, None)
    } else if in_rect(x, y, SETTINGS_BTN_X, SETTINGS_Y1, SETTINGS_BTN_W, SETTINGS_BTN_H) {
        (fresh_enter_pin(entropy, PinGate::ChangePin), None, None, None)
    } else if in_rect(x, y, SETTINGS_BTN_X, SETTINGS_Y2, SETTINGS_BTN_W, SETTINGS_BTN_H) {
        (AppState::Descriptor, None, None, None)
    } else if in_rect(x, y, SETTINGS_BTN_X, SETTINGS_Y3, SETTINGS_BTN_W, SETTINGS_BTN_H) {
        (AppState::About, None, None, None)
    } else if back_pressed(x, y) {
        (AppState::Home, None, None, None)
    } else {
        (AppState::Settings, None, None, None)
    }
}

/// The mnemonic pages behind the PIN; both ends lead back to Settings.
pub open spec fn show_mnemonic_next(x: int, y: int, page: u8) -> AppState {
    if on_next(x, y) && page < 3 {
        AppState::ShowMnemonic { page: (page + 1) as u8 }
    } else if on_next(x, y) && page == 3 {
        AppState::Settings
    } else if on_back(x, y) && page > 0 {
        AppState::ShowMnemonic { page: (page - 1) as u8 }
    } else if on_back(x, y) {
        AppState::Settings
    } else {
        AppState::ShowMnemonic { page }
    }
}

fn step_show_mnemonic(x: i32, y: i32, page: u8) -> (r: StepResult)
    ensures
        moves_to(r, show_mnemonic_next(x as int, y as int, page)),
{
    let is_prev = back_pressed(x, y);
    let is_next = next_pressed(x, y);
    if is_next && page < 3 {
        (AppState::ShowMnemonic { page: page + 1 }, None, None, None)
    } else if is_next && page == 3 {
        (AppState::Settings, None, None, None)
    } else if is_prev && page > 0 {
        (AppState::ShowMnemonic { page: page - 1 }, None, None, None)
    } else if is_prev {
        (AppState::Settings, None, None, None)
    } else {
        (AppState::ShowMnemonic { page }, None, None, None)
    }
}

/// Review: Sign or Cancel.
pub open spec fn sign_review_next(x: int, y: int) -> AppState {
    if on_next(x, y) {
        AppState::SignResult
    } else if on_back(x, y) {
        AppState::Home
    } else {
        AppState::SignReview
    }
}

fn step_sign_review(x: i32, y: i32) -> (r: StepResult)
    ensures
        moves_to(r, sign_review_next(x as int, y as int)),
{
    if next_pressed(x, y) {
        (AppState::SignResult, None, None, None)
    } else if back_pressed(x, y) {
        (AppState::Home, None, None, None)
    } else {
        (AppState::SignReview, None, None, None)
    }
}

/// Restore: Cancel, a tapped suggestion confirms a word (the 24th checks
/// the BIP39 checksum), keys edit the prefix and clear the error flag.
pub open spec fn restore_ok(
    x: int,
    y: int,
    word_idx: u8,
    buf: [u8; 8],
    buf_len: u8,
    confirmed: [u16; 24],
    error: bool,
    r: StepResult,
) -> bool {
    let suggestion = tapped_suggestion_spec(x, y, find_matches_spec(buf@, buf_len as int));
    if key_at_spec(x, y) == Some(KeyPress::Skip) {
        moves_to(r, AppState::Welcome)
    } else if suggestion is Some {
        let c = confirmed@.update(word_idx as int, suggestion->Some_0);
        if word_idx + 1 == 24 {
            match indices_to_entropy_spec(c) {
                Some(ent) => is_fresh_passphrase(r.0) && r.1 is None && (r.2 matches Some(w) && w@
                    == bip39_word_indices(ent)) && (r.3 matches Some(e) && e@ == ent),
                None => only_state(r) && is_fresh_restore(r.0, true),
            }
        } else {
            only_state(r) && (r.0 matches AppState::RestoreWallet {
                word_idx: wi,
                buf: b,
                buf_len: bl,
                confirmed: cf,
                error: er,
            } && wi == word_idx + 1 && b@ == zeros(8) && bl == 0 && cf@ == c && !er)
        }
    } else {
        only_state(r) && match key_at_spec(x, y) {
            Some(KeyPress::Char(ch)) if buf_len < 8 => r.0 matches AppState::RestoreWallet {
                word_idx: wi,
                buf: b,
                buf_len: bl,
                confirmed: cf,
                error: er,
            } && wi == word_idx && b@ == buf@.update(buf_len as int, ch | 0x20u8) && bl == buf_len
                + 1 && cf == confirmed && !er,
            Some(KeyPress::Backspace) if buf_len > 0 => r.0 == AppState::RestoreWallet {
                word_idx,
                buf,
                buf_len: (buf_len - 1) as u8,
                confirmed,
                error: false,
            },
            _ => r.0 == AppState::RestoreWallet { word_idx, buf, buf_len, confirmed, error },
        }
    }
}

fn fresh_restore(error: bool) -> (s: AppState)
    ensures
        is_fresh_restore(s, error),
{
    let s = AppState::RestoreWallet {
        word_idx: 0,
        buf: [0u8; 8],
        buf_len: 0,
        confirmed: [0u16; 24],
        error,
    };
    assert(s matches AppState::RestoreWallet { buf, confirmed, .. } && buf@ =~= zeros(8)
        && confirmed@ =~= Seq::new(24, |i: int| 0u16));
    s
}

fn step_restore_wallet(
    x: i32,
    y: i32,
    word_idx: u8,
    buf: [u8; 8],
    buf_len: u8,
    confirmed: [u16; 24],
    error: bool,
) -> (r: StepResult)
    requires
        word_idx < 24,
        buf_len <= 8,
    ensures
        restore_ok(x as int, y as int, word_idx, buf, buf_len, confirmed, error, r),
{
    let key = passphrase_key_at(x, y);
    if let Some(KeyPress::Skip) = key {
        return (AppState::Welcome, None, None, None);
    }
    let suggestions = find_matches(&buf, buf_len);
    if let Some(word_index) = tapped_suggestion(x, y, suggestions) {
        let mut c = confirmed;
        c[word_idx as usize] = word_index;
        let next = word_idx + 1;
        if next == 24 {
            if let Some(ent) = indices_to_entropy(&c) {
                let words = generate_words(&ent);
                let s = AppState::EnterPassphrase { buf: [0u8; 32], len: 0 };
                assert(s matches AppState::EnterPassphrase { buf: b, .. } && b@ =~= zeros(32));
                return (s, None, Some(words), Some(ent));
            }
            return (fresh_restore(true), None, None, None);
        }
        let s = AppState::RestoreWallet {
            word_idx: next,
            buf: [0u8; 8],
            buf_len: 0,
            confirmed: c,
            error: false,
        };
        assert(s matches AppState::RestoreWallet { buf: b, .. } && b@ =~= zeros(8));
        return (s, None, None, None);
    }
    match key {
        Some(KeyPress::Char(ch)) => {
            if buf_len < 8 {
                let mut b = buf;
                b[buf_len as usize] = ch | 0x20;
                return (
                    AppState::RestoreWallet {
                        word_idx,
                        buf: b,
                        buf_len: buf_len + 1,
                        confirmed,
                        error: false,
                    },
                    None,
                    None,
                    None,
                );
            }
        },
        Some(KeyPress::Backspace) => {
            if buf_len > 0 {
                return (
                    AppState::RestoreWallet {
                        word_idx,
                        buf,
                        buf_len: buf_len - 1,
                        confirmed,
                        error: false,
                    },
                    None,
                    None,
                    None,
                );
            }
        },
        _ => {},
    }
    (AppState::RestoreWallet { word_idx, buf, buf_len, confirmed, error }, None, None, None)
}

// ── Dispatch ─────────────────────────────────────────────────────────────────
/// Field ranges every reachable state keeps.
pub open spec fn state_wf(s: AppState) -> bool {
    match s {
        AppState::RestoreWallet { word_idx, buf_len, .. } => word_idx < 24 && buf_len <= 8,
        _ => true,
    }
}

/// What the wallet around the machine also needs: the typed passphrase
/// fits its buffer, which the wallet reads back when it is confirmed.
pub open spec fn wallet_state_wf(s: AppState) -> bool {
    &&& state_wf(s)
    &&& (s matches AppState::EnterPassphrase { len, .. } ==> len <= 32)
}

/// The transition of `state` on a touch at `(x, y)` with entropy `e`.
pub open spec fn step_ok(state: AppState, x: int, y: int, e: Seq<u8>, r: StepResult) -> bool {
    match state {
        AppState::Welcome => welcome_ok(x, y, e, r),
        AppState::NewWallet { page } => new_wallet_ok(x, y, page, r),
        AppState::EnterPassphrase { buf, len } => passphrase_ok(x, y, e, buf, len, r),
        AppState::SetPin { order, digits, len } => set_pin_ok(x, y, e, order, digits, len, r),
        AppState::ConfirmPin { pin, order, digits, len } => confirm_pin_ok(
            x,
            y,
            pin,
            order,
            digits,
            len,
            r,
        ),
        AppState::PinMismatch => only_state(r) && is_fresh_set_pin(r.0, e),
        AppState::EnterPin { order, digits, len, gate } => enter_pin_ok(
            x,
            y,
            order,
            digits,
            len,
            gate,
            r,
        ),
        AppState::Home => moves_to(r, home_next(x, y)),
        AppState::Receive => moves_to(
            r,
            if on_back(x, y) {
                AppState::Home
            } else {
                AppState::Receive
            },
        ),
        AppState::Accounts => moves_to(
            r,
            if on_back(x, y) {
                AppState::Home
            } else {
                AppState::Accounts
            },
        ),
        AppState::Settings => settings_ok(x, y, e, r),
        AppState::Descriptor => moves_to(
            r,
            if on_back(x, y) {
                AppState::Settings
            } else {
                AppState::Descriptor
            },
        ),
        AppState::ShowMnemonic { page } => moves_to(r, show_mnemonic_next(x, y, page)),
        AppState::About => moves_to(
            r,
            if on_back(x, y) {
                AppState::Settings
            } else {
                AppState::About
            },
        ),
        AppState::SignScan => moves_to(
            r,
            if on_back(x, y) {
                AppState::Home
            } else {
                AppState::SignScan
            },
        ),
        AppState::SignReview => moves_to(r, sign_review_next(x, y)),
        AppState::SignResult => moves_to(
            r,
            if on_back(x, y) {
                AppState::Home
            } else {
                AppState::SignResult
            },
        ),
        AppState::RestoreWallet { word_idx, buf, buf_len, confirmed, error } => restore_ok(
            x,
            y,
            word_idx,
            buf,
            buf_len,
            confirmed,
            error,
            r,
        ),
        AppState::PinLocked | AppState::PinVerifying { .. } | AppState::PinConfirming { .. } =>
            moves_to(r, state),
    }
}

/// The next state on a touch; a scanned PSBT changes nothing here.
pub fn step(state: AppState, event: &WalletEvent) -> (r: StepResult)
    requires
        state_wf(state),
    ensures
        match event {
            WalletEvent::Touch { x, y, entropy } => step_ok(state, *x as int, *y as int, entropy@, r),
            WalletEvent::PsbtScanned { .. } => moves_to(r, state),
        },
{
    let (x, y, entropy) = match event {
        WalletEvent::Touch { x, y, entropy } => (*x, *y, entropy),
        WalletEvent::PsbtScanned { .. } => {
            return no_change(state);
        },
    };
    match state {
        AppState::Welcome => step_welcome(x, y, entropy),
        AppState::NewWallet { page } => step_new_wallet(x, y, page),
        AppState::EnterPassphrase { buf, len } => step_enter_passphrase(x, y, entropy, buf, len),
        AppState::SetPin { order, digits, len } => step_set_pin(x, y, entropy, order, digits, len),
        AppState::ConfirmPin { pin, order, digits, len } => step_confirm_pin(
            x,
            y,
            pin,
            order,
            digits,
            len,
        ),
        AppState::PinMismatch => (fresh_set_pin(entropy), None, None, None),
        AppState::EnterPin { order, digits, len, gate } => step_enter_pin(
            x,
            y,
            order,
            digits,
            len,
            gate,
        ),
        AppState::Home => step_home(x, y),
        AppState::Receive => step_back_only(x, y, AppState::Receive, AppState::Home),
        AppState::Accounts => step_back_only(x, y, AppState::Accounts, AppState::Home),
        AppState::Settings => step_settings(x, y, entropy),
        AppState::Descriptor => step_back_only(x, y, AppState::Descriptor, AppState::Settings),
        AppState::ShowMnemonic { page } => step_show_mnemonic(x, y, page),
        AppState::About => step_back_only(x, y, AppState::About, AppState::Settings),
        AppState::SignScan => step_back_only(x, y, AppState::SignScan, AppState::Home),
        AppState::SignReview => step_sign_review(x, y),
        AppState::SignResult => step_back_only(x, y, AppState::SignResult, AppState::Home),
        AppState::RestoreWallet { word_idx, buf, buf_len, confirmed, error } => step_restore_wallet(
            x,
            y,
            word_idx,
            buf,
            buf_len,
            confirmed,
            error,
        ),
        AppState::PinLocked | AppState::PinVerifying { .. } | AppState::PinConfirming { .. } =>
            no_change(state),
    }
}

/// Law: every transition keeps the states' field ranges.
pub proof fn lemma_step_keeps_wf(state: AppState, x: int, y: int, e: Seq<u8>, r: StepResult)
    requires
        state_wf(state),
        step_ok(state, x, y, e, r),
    ensures
        state_wf(r.0),
        wallet_state_wf(state) ==> wallet_state_wf(r.0),
{
}

} // verus!

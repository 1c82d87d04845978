//! What a host around the wallet decides: the name of each screen, which
//! transitions are worth a log line, which files on the card are PSBTs to
//! sign, the payload of such a file, and the reading of a wallet file
//! (migrating the legacy unencrypted layout to an encrypted image).
use vstd::prelude::*;
use crate::crypto::derive_key;
use crate::display::{psbt_ext, signed_suffix};
use crate::machine::AppState;
use crate::storage::{blob_image, encrypt_into_blob, Secrets};
use crate::wallet::pin_key;

verus! {

// ── Screen names ─────────────────────────────────────────────────────────────
/// The name a log line gives a screen (pages counted from one).
pub open spec fn state_name_spec(state: AppState) -> Seq<char> {
    match state {
        AppState::Welcome => "Welcome"@,
        AppState::NewWallet { page } => if page == 0 {
            "NewWallet(1/4)"@
        } else if page == 1 {
            "NewWallet(2/4)"@
        } else if page == 2 {
            "NewWallet(3/4)"@
        } else {
            "NewWallet(4/4)"@
        },
        AppState::RestoreWallet { word_idx, .. } => if word_idx < 24 {
            "RestoreWallet(entry)"@
        } else {
            "RestoreWallet(done)"@
        },
        AppState::EnterPassphrase { .. } => "EnterPassphrase"@,
        AppState::SetPin { .. } => "SetPin"@,
        AppState::ConfirmPin { .. } => "ConfirmPin"@,
        AppState::EnterPin { .. } => "EnterPin"@,
        AppState::Home => "Home"@,
        AppState::Receive => "Receive"@,
        AppState::SignScan => "SignScan"@,
        AppState::SignReview => "SignReview"@,
        AppState::SignResult => "SignResult"@,
        AppState::Accounts => "Accounts"@,
        AppState::Settings => "Settings"@,
        AppState::Descriptor => "Descriptor"@,
        AppState::ShowMnemonic { page } => if page == 0 {
            "ShowMnemonic(1/4)"@
        } else if page == 1 {
            "ShowMnemonic(2/4)"@
        } else if page == 2 {
            "ShowMnemonic(3/4)"@
        } else {
            "ShowMnemonic(4/4)"@
        },
        AppState::About => "About"@,
        AppState::PinMismatch => "PinMismatch"@,
        AppState::PinLocked => "PinLocked"@,
        AppState::PinVerifying { .. } => "PinVerifying"@,
        AppState::PinConfirming { .. } => "PinConfirming"@,
    }
}

/// The screen's name for log lines.
pub fn state_name(state: AppState) -> (r: &'static str)
    ensures
        r@ == state_name_spec(state),
{
    match state {
        AppState::Welcome => "Welcome",
        AppState::NewWallet { page } => if page == 0 {
            "NewWallet(1/4)"
        } else if page == 1 {
            "NewWallet(2/4)"
        } else if page == 2 {
            "NewWallet(3/4)"
        } else {
            "NewWallet(4/4)"
        },
        AppState::RestoreWallet { word_idx, .. } => if word_idx < 24 {
            "RestoreWallet(entry)"
        } else {
            "RestoreWallet(done)"
        },
        AppState::EnterPassphrase { .. } => "EnterPassphrase",
        AppState::SetPin { .. } => "SetPin",
        AppState::ConfirmPin { .. } => "ConfirmPin",
        AppState::EnterPin { .. } => "EnterPin",
        AppState::Home => "Home",
        AppState::Receive => "Receive",
        AppState::SignScan => "SignScan",
        AppState::SignReview => "SignReview",
        AppState::SignResult => "SignResult",
        AppState::Accounts => "Accounts",
        AppState::Settings => "Settings",
        AppState::Descriptor => "Descriptor",
        AppState::ShowMnemonic { page } => if page == 0 {
            "ShowMnemonic(1/4)"
        } else if page == 1 {
            "ShowMnemonic(2/4)"
        } else if page == 2 {
            "ShowMnemonic(3/4)"
        } else {
            "ShowMnemonic(4/4)"
        },
        AppState::About => "About",
        AppState::PinMismatch => "PinMismatch",
        AppState::PinLocked => "PinLocked",
        AppState::PinVerifying { .. } => "PinVerifying",
        AppState::PinConfirming { .. } => "PinConfirming",
    }
}

// ── Transition log ───────────────────────────────────────────────────────────
/// What a log line says of a transition. Mnemonic words and PIN digits
/// are never part of it, only counts.
#[derive(Clone, Copy, Debug, PartialEq, Eq, Structural)]
pub enum TransitionNote {
    /// A restore word was confirmed; this many are in.
    RestoreProgress { confirmed: u8 },
    /// The 24 words failed the checksum.
    RestoreChecksumFailed,
    /// The 24 words were accepted.
    RestoreAccepted,
    /// Typing within the restore screen: nothing to log.
    Silent,
    PassphraseTyped { len: u8 },
    SetPinDigits { now: u8, was: u8 },
    ConfirmPinDigits { now: u8, was: u8 },
    EnterPinDigits { now: u8, was: u8 },
    /// Any other move: from one named screen to another.
    Moved,
}

pub open spec fn transition_note_spec(before: AppState, after: AppState) -> TransitionNote {
    match (before, after) {
        (
            AppState::RestoreWallet { word_idx: wb, .. },
            AppState::RestoreWallet { word_idx: wa, error, .. },
        ) => if !error && wa > wb {
            TransitionNote::RestoreProgress { confirmed: wa }
        } else if error {
            TransitionNote::RestoreChecksumFailed
        } else {
            TransitionNote::Silent
        },
        (AppState::RestoreWallet { .. }, AppState::EnterPassphrase { .. }) =>
            TransitionNote::RestoreAccepted,
        (AppState::EnterPassphrase { .. }, AppState::EnterPassphrase { len, .. }) =>
            TransitionNote::PassphraseTyped { len },
        (AppState::SetPin { len: bl, .. }, AppState::SetPin { len: al, .. }) =>
            TransitionNote::SetPinDigits { now: al, was: bl },
        (AppState::ConfirmPin { len: bl, .. }, AppState::ConfirmPin { len: al, .. }) =>
            TransitionNote::ConfirmPinDigits { now: al, was: bl },
        (AppState::EnterPin { len: bl, .. }, AppState::EnterPin { len: al, .. }) =>
            TransitionNote::EnterPinDigits { now: al, was: bl },
        _ => TransitionNote::Moved,
    }
}

/// Which log line a transition deserves.
pub fn transition_note(before: AppState, after: AppState) -> (r: TransitionNote)
    ensures
        r == transition_note_spec(before, after),
{
    match (before, after) {
        (
            AppState::RestoreWallet { word_idx: wb, .. },
            AppState::RestoreWallet { word_idx: wa, error, .. },
        ) => if !error && wa > wb {
            TransitionNote::RestoreProgress { confirmed: wa }
        } else if error {
            TransitionNote::RestoreChecksumFailed
        } else {
            TransitionNote::Silent
        },
        (AppState::RestoreWallet { .. }, AppState::EnterPassphrase { .. }) =>
            TransitionNote::RestoreAccepted,
        (AppState::EnterPassphrase { .. }, AppState::EnterPassphrase { len, .. }) =>
            TransitionNote::PassphraseTyped { len },
        (AppState::SetPin { len: bl, .. }, AppState::SetPin { len: al, .. }) =>
            TransitionNote::SetPinDigits { now: al, was: bl },
        (AppState::ConfirmPin { len: bl, .. }, AppState::ConfirmPin { len: al, .. }) =>
            TransitionNote::ConfirmPinDigits { now: al, was: bl },
        (AppState::EnterPin { len: bl, .. }, AppState::EnterPin { len: al, .. }) =>
            TransitionNote::EnterPinDigits { now: al, was: bl },
        _ => TransitionNote::Moved,
    }
}

// ── Wallet file ──────────────────────────────────────────────────────────────
/// Length of the legacy unencrypted wallet file: entropy, seed, PIN and a
/// "set up" flag.
pub const LEGACY_FILE_LEN: usize = 103;

/// `src[from..from + N]`.
pub(crate) fn sub_array<const N: usize>(src: &[u8], from: usize) -> (r: [u8; N])
    requires
        from + N <= src@.len(),
    ensures
        r@ == src@.subrange(from as int, from + N),
{
    let mut out = [0u8; N];
    let mut i: usize = 0;
    while i < N
        invariant
            from + N <= src.len(),
            i <= N,
            out@.len() == N,
            forall|j: int| 0 <= j < i ==> out@[j] == src@[from + j],
        decreases N - i,
    {
        out[i] = src[from + i];
        i = i + 1;
    }
    assert(out@ =~= src@.subrange(from as int, from + N));
    out
}

/// The encrypted image of a legacy file: its entropy and seed sealed under
/// its PIN's key, with a fresh salt (the entropy's first 16 bytes) and
/// nonce (the next 12), and a clear lockout.
pub open spec fn migrated_image(v1: Seq<u8>, fresh: Seq<u8>) -> Seq<u8> {
    let salt = fresh.take(16);
    blob_image(
        v1.take(96),
        salt,
        fresh.subrange(16, 28),
        pin_key(v1.subrange(96, 102), salt),
        0,
        false,
    )
}

/// Encrypts a legacy unencrypted wallet file into an image.
pub fn migrate_v1_to_v3(v1: &[u8; 103], fresh: &[u8; 32]) -> (r: Option<[u8; 143]>)
    ensures
        r matches Some(img) && img@ == migrated_image(v1@, fresh@),
{
    let entropy: [u8; 32] = sub_array(v1, 0);
    let seed: [u8; 64] = sub_array(v1, 32);
    let pin: [u8; 6] = sub_array(v1, 96);
    let salt: [u8; 16] = sub_array(fresh, 0);
    let nonce: [u8; 12] = sub_array(fresh, 16);
    let key = derive_key(&pin, &salt);
    let secrets = Secrets { entropy, seed };
    assert(secrets.plaintext() =~= v1@.take(96));
    match encrypt_into_blob(&secrets, &salt, &nonce, &key, 0, false) {
        Ok(img) => Some(img),
        Err(_) => None,
    }
}

/// What a wallet file holds.
pub enum WalletFile {
    /// An image of the current size, to boot from as it is.
    Current([u8; 143]),
    /// A legacy file, migrated: the image is to be written back, then booted.
    Migrated([u8; 143]),
    /// Anything else: no wallet.
    Unusable,
}

/// Reads a wallet file: an image of 143 bytes is taken as it is; a legacy
/// file of 103 bytes whose last byte says it was set up is migrated;
/// anything else is unusable.
pub fn read_wallet_file(bytes: &[u8], fresh: &[u8; 32]) -> (r: WalletFile)
    ensures
        bytes@.len() == 143 ==> (r matches WalletFile::Current(img) && img@ == bytes@),
        bytes@.len() == 103 && bytes@[102] == 1 ==> (r matches WalletFile::Migrated(img) && img@
            == migrated_image(bytes@, fresh@)),
        !(bytes@.len() == 143 || (bytes@.len() == 103 && bytes@[102] == 1)) ==> r is Unusable,
{
    if bytes.len() == 143 {
        let img: [u8; 143] = sub_array(bytes, 0);
        assert(img@ =~= bytes@);
        WalletFile::Current(img)
    } else if bytes.len() == 103 && bytes[102] == 1 {
        let v1: [u8; 103] = sub_array(bytes, 0);
        assert(v1@ =~= bytes@);
        match migrate_v1_to_v3(&v1, fresh) {
            Some(img) => WalletFile::Migrated(img),
            None => WalletFile::Unusable,
        }
    } else {
        WalletFile::Unusable
    }
}

// ── PSBT files on the card ───────────────────────────────────────────────────
/// The Base64 payload of a PSBT file, whitespace already trimmed: refused
/// when empty or longer than the scan buffer, else copied into it.
pub fn psbt_payload(text: &[u8]) -> (r: Option<([u8; 5464], usize)>)
    ensures
        text@.len() == 0 || text@.len() > 5464 ==> r is None,
        0 < text@.len() <= 5464 ==> (r matches Some((data, len)) && len == text@.len()
            && data@.take(len as int) == text@),
{
    if text.len() == 0 || text.len() > 5464 {
        return None;
    }
    let mut data = [0u8; 5464];
    let mut i: usize = 0;
    while i < text.len()
        invariant
            text@.len() <= 5464,
            i <= text@.len(),
            data@.len() == 5464,
            forall|j: int| 0 <= j < i ==> data@[j] == text@[j],
        decreases text@.len() - i,
    {
        data[i] = text[i];
        i = i + 1;
    }
    assert(data@.take(text@.len() as int) =~= text@);
    Some((data, text.len()))
}

/// `name` ends with `suffix`.
pub open spec fn ends_with(name: Seq<u8>, suffix: Seq<u8>) -> bool {
    name.len() >= suffix.len() && name.skip(name.len() - suffix.len()) == suffix
}

/// A file to sign: `*.psbt`, but not one this wallet wrote (`*-signed.psbt`).
pub open spec fn is_unsigned_psbt_spec(name: Seq<u8>) -> bool {
    ends_with(name, psbt_ext()) && !ends_with(name, signed_suffix())
}

fn bytes_end_with(name: &[u8], suffix: &[u8]) -> (r: bool)
    ensures
        r == ends_with(name@, suffix@),
{
    if name.len() < suffix.len() {
        return false;
    }
    let off = name.len() - suffix.len();
    let mut i: usize = 0;
    while i < suffix.len()
        invariant
            off + suffix.len() == name.len(),
            i <= suffix@.len(),
            forall|j: int| 0 <= j < i ==> name@[off + j] == suffix@[j],
        decreases suffix@.len() - i,
    {
        if name[off + i] != suffix[i] {
            assert(name@.skip(off as int)[i as int] != suffix@[i as int]);
            return false;
        }
        i = i + 1;
    }
    assert(name@.skip(off as int) =~= suffix@);
    true
}

/// Whether a file name is a PSBT to sign.
pub fn is_unsigned_psbt(name: &[u8]) -> (r: bool)
    ensures
        r == is_unsigned_psbt_spec(name@),
{
    let ext = [46u8, 112u8, 115u8, 98u8, 116u8];
    let signed = [45u8, 115u8, 105u8, 103u8, 110u8, 101u8, 100u8, 46u8, 112u8, 115u8, 98u8, 116u8];
    assert(ext@ =~= psbt_ext());
    assert(signed@ =~= signed_suffix());
    bytes_end_with(name, &ext) && !bytes_end_with(name, &signed)
}

/// `a` sorts before `b`: byte by byte, a proper prefix first (the order of
/// Rust strings).
pub open spec fn bytes_lt(a: Seq<u8>, b: Seq<u8>) -> bool
    decreases a.len(),
{
    if b.len() == 0 {
        false
    } else if a.len() == 0 {
        true
    } else if a[0] != b[0] {
        a[0] < b[0]
    } else {
        bytes_lt(a.drop_first(), b.drop_first())
    }
}

proof fn lemma_lt_asymmetric(a: Seq<u8>, b: Seq<u8>)
    ensures
        bytes_lt(a, b) ==> !bytes_lt(b, a),
    decreases a.len(),
{
    if a.len() > 0 && b.len() > 0 && a[0] == b[0] {
        lemma_lt_asymmetric(a.drop_first(), b.drop_first());
    }
}

proof fn lemma_lt_transitive(a: Seq<u8>, b: Seq<u8>, c: Seq<u8>)
    requires
        bytes_lt(a, b),
        bytes_lt(b, c),
    ensures
        bytes_lt(a, c),
    decreases a.len(),
{
    if a.len() > 0 && a[0] == b[0] && b[0] == c[0] {
        lemma_lt_transitive(a.drop_first(), b.drop_first(), c.drop_first());
    }
}

/// The names of a directory that are PSBTs to sign, in directory order.
pub open spec fn psbt_names(names: Seq<Seq<u8>>) -> Seq<Seq<u8>>
    decreases names.len(),
{
    if names.len() == 0 {
        names
    } else if is_unsigned_psbt_spec(names.last()) {
        psbt_names(names.drop_last()).push(names.last())
    } else {
        psbt_names(names.drop_last())
    }
}

/// No name sorts before one that precedes it.
pub open spec fn sorted_names(s: Seq<Seq<u8>>) -> bool {
    forall|i: int, j: int| 0 <= i < j < s.len() ==> !bytes_lt(#[trigger] s[j], #[trigger] s[i])
}

pub open spec fn name_views(v: Seq<Vec<u8>>) -> Seq<Seq<u8>> {
    Seq::new(v.len(), |i: int| v[i]@)
}

/// The first four of `full`, or all of it.
pub open spec fn listing_of(full: Seq<Seq<u8>>) -> Seq<Seq<u8>> {
    full.take(if full.len() < 4 { full.len() as int } else { 4 })
}

fn bytes_lt_exec(a: &[u8], b: &[u8]) -> (r: bool)
    ensures
        r == bytes_lt(a@, b@),
{
    let mut i: usize = 0;
    assert(a@.skip(0) =~= a@);
    assert(b@.skip(0) =~= b@);
    while i < a.len() && i < b.len()
        invariant
            i <= a@.len(),
            i <= b@.len(),
            bytes_lt(a@, b@) == bytes_lt(a@.skip(i as int), b@.skip(i as int)),
        decreases a@.len() - i,
    {
        if a[i] != b[i] {
            return a[i] < b[i];
        }
        assert(a@.skip(i as int).drop_first() =~= a@.skip(i + 1));
        assert(b@.skip(i as int).drop_first() =~= b@.skip(i + 1));
        i = i + 1;
    }
    i == a.len() && i < b.len()
}

fn copy_name(name: &Vec<u8>) -> (r: Vec<u8>)
    ensures
        r@ == name@,
{
    let mut out: Vec<u8> = Vec::new();
    crate::hashes::append_bytes(&mut out, name.as_slice());
    out
}

/// The PSBT files to offer: the names that are PSBTs to sign, sorted, the
/// first four.
pub fn select_psbt_files(names: &Vec<Vec<u8>>) -> (r: Vec<Vec<u8>>)
    ensures
        exists|full: Seq<Seq<u8>>|
            #![trigger sorted_names(full), full.to_multiset()]
            sorted_names(full) && full.to_multiset() == psbt_names(name_views(names@)).to_multiset()
                && name_views(r@) == listing_of(full),
{
    let ghost all = name_views(names@);
    let mut out: Vec<Vec<u8>> = Vec::new();
    let mut i: usize = 0;
    assert(all.take(0) =~= Seq::<Seq<u8>>::empty());
    assert(name_views(out@) =~= Seq::<Seq<u8>>::empty());
    while i < names.len()
        invariant
            i <= names@.len(),
            all == name_views(names@),
            sorted_names(name_views(out@)),
            name_views(out@).to_multiset() == psbt_names(all.take(i as int)).to_multiset(),
        decreases names@.len() - i,
    {
        assert(all.take(i + 1).drop_last() =~= all.take(i as int));
        assert(all.take(i + 1).last() == names@[i as int]@);
        let ghost prev = psbt_names(all.take(i as int));
        if is_unsigned_psbt(names[i].as_slice()) {
            assert(psbt_names(all.take(i + 1)) == prev.push(names@[i as int]@));
            let x = copy_name(&names[i]);
            let ghost before = name_views(out@);
            let mut j: usize = 0;
            while j < out.len() && !bytes_lt_exec(x.as_slice(), out[j].as_slice())
                invariant
                    j <= out@.len(),
                    before == name_views(out@),
                    forall|k: int| 0 <= k < j ==> !bytes_lt(x@, #[trigger] before[k]),
                decreases out@.len() - j,
            {
                j = j + 1;
            }
            proof {
                if j < out@.len() {
                    assert(bytes_lt(x@, before[j as int]));
                }
                let after = before.insert(j as int, x@);
                assert forall|a: int, b: int| 0 <= a < b < after.len() implies !bytes_lt(
                    #[trigger] after[b],
                    #[trigger] after[a],
                ) by {
                    if a < j && b == j {
                    } else if a == j && b > j {
                        lemma_lt_asymmetric(x@, before[j as int]);
                        if bytes_lt(before[b - 1], x@) {
                            if b - 1 > j {
                                lemma_lt_transitive(before[b - 1], x@, before[j as int]);
                            }
                        }
                    } else if a < j && b > j {
                    } else if a > j {
                    }
                }
            }
            out.insert(j, x);
            assert(name_views(out@) =~= before.insert(j as int, x@));
            proof {
                vstd::seq_lib::to_multiset_insert(before, j as int, x@);
                vstd::seq_lib::to_multiset_build(prev, x@);
            }
        } else {
            assert(psbt_names(all.take(i + 1)) == prev);
        }
        i = i + 1;
    }
    assert(all.take(i as int) =~= all);
    let ghost full = name_views(out@);
    if out.len() > 4 {
        out.truncate(4);
    }
    assert(name_views(out@) =~= listing_of(full));
    out
}

// ── Card exchange after a tap ────────────────────────────────────────────────
/// What the host has done with the card so far.
#[derive(Clone, Copy, Debug, PartialEq, Eq, Structural)]
pub struct CardProgress {
    /// `descriptor.txt` was written this session.
    pub descriptor_written: bool,
    /// A PSBT file is under review.
    pub file_loaded: bool,
    /// The signed PSBT of that file was written.
    pub signed_written: bool,
}

/// What the host does with the card after a tap moved the wallet from
/// `before` to `after`.
#[derive(Clone, Copy, Debug, PartialEq, Eq, Structural)]
pub struct CardActions {
    /// List the card's PSBT files again (and forget the loaded one).
    pub refresh_listing: bool,
    /// Write the wallet's descriptor to the card.
    pub export_descriptor: bool,
    /// Write the signed PSBT next to the loaded file.
    pub write_signed: bool,
}

/// Entering the scan screen lists the card again; reaching Home exports
/// the descriptor once per session, when there is one; reaching the result
/// screen writes the signed PSBT once per loaded file, when there is one.
pub fn card_actions(
    before: AppState,
    after: AppState,
    progress: CardProgress,
    has_descriptor: bool,
    has_signed: bool,
) -> (r: CardActions)
    ensures
        r.refresh_listing == (after is SignScan && !(before is SignScan)),
        r.export_descriptor == (after is Home && !progress.descriptor_written && has_descriptor),
        r.write_signed == (after is SignResult && !progress.signed_written && progress.file_loaded
            && has_signed),
{
    let entering_scan = match (before, after) {
        (AppState::SignScan, _) => false,
        (_, AppState::SignScan) => true,
        _ => false,
    };
    let at_home = match after {
        AppState::Home => true,
        _ => false,
    };
    let at_result = match after {
        AppState::SignResult => true,
        _ => false,
    };
    CardActions {
        refresh_listing: entering_scan,
        export_descriptor: at_home && !progress.descriptor_written && has_descriptor,
        write_signed: at_result && !progress.signed_written && progress.file_loaded && has_signed,
    }
}

} // verus!

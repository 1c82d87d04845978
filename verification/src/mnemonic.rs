//! BIP39 mnemonics (from the `bip39` crate): the English word list,
//! prefix search for the restore keyboard, words and seed from entropy.
use vstd::prelude::*;
use vstd::string::StringSliceAdditionalSpecFns;
use crate::layout::{
    RESTORE_SUGGEST_H, RESTORE_SUGGEST_W, RESTORE_SUGGEST_X0, RESTORE_SUGGEST_X1,
    RESTORE_SUGGEST_X2, RESTORE_SUGGEST_Y,
};
use crate::pinpad::{in_rect, in_rect_spec};
use crate::derive::{
    index_bit, indices_to_entropy_spec, lemma_prefix_bound, packed_byte, packed_entropy, packed_prefix,
};
use crate::hashes::sha256_of;
use vstd::arithmetic::power2::{pow2, lemma_pow2_unfold, lemma_pow2_pos, lemma2_to64};
use vstd::arithmetic::div_mod::{lemma_div_denominator, lemma_div_multiples_vanish_fancy, lemma_fundamental_div_mod};

verus! {

/// Word `i` of the BIP39 English list, as bytes.
pub uninterp spec fn bip39_english_word(i: int) -> Seq<u8>;

/// Bit `k` (most significant first) of a byte string.
pub open spec fn bit_of(data: Seq<u8>, k: int) -> int {
    ((data[k / 8] as nat / pow2((7 - k % 8) as nat)) % 2) as int
}

/// Bit `k` of the entropy followed by its SHA-256 (whose first bits are the
/// checksum).
pub open spec fn mnemonic_bit(entropy: Seq<u8>, k: int) -> int {
    if k < 8 * entropy.len() {
        bit_of(entropy, k)
    } else {
        bit_of(sha256_of(entropy), k - 8 * entropy.len())
    }
}

/// The first `b` of the eleven bits of word `i`, as a number.
pub open spec fn word_prefix(entropy: Seq<u8>, i: int, b: int) -> int
    decreases b,
{
    if b <= 0 {
        0
    } else {
        2 * word_prefix(entropy, i, b - 1) + mnemonic_bit(entropy, 11 * i + b - 1)
    }
}

/// BIP39 for 32 bytes of entropy: the 256 entropy bits and the first 8 bits
/// of their SHA-256, cut into 24 word indices of 11 bits each.
pub open spec fn bip39_word_indices(entropy: Seq<u8>) -> Seq<u16> {
    Seq::new(24, |i: int| word_prefix(entropy, i, 11) as u16)
}

/// The 64-byte BIP39 seed of the mnemonic of `entropy` under `passphrase`.
pub uninterp spec fn bip39_seed(entropy: Seq<u8>, passphrase: Seq<u8>) -> Seq<u8>;

/// `bip39::Language::English.word_list()[i]`. Trusted: the word's bytes are
/// the named `bip39_english_word(i)`.
#[verifier::external_body]
pub(crate) fn bip39_word(i: usize) -> (r: &'static str)
    requires
        i < 2048,
    ensures
        r.spec_bytes() == bip39_english_word(i as int),
{
    bip39::Language::English.word_list()[i]
}

/// `bip39::Mnemonic::from_entropy(entropy)` and its `word_indices()`.
/// Trusted: 32 bytes of entropy always make a 24-word mnemonic (the crate
/// accepts 16 to 32 bytes in steps of 4), whose indices are the BIP39
/// encoding `bip39_word_indices` of the entropy, as `from_entropy_in`
/// computes them bit by bit.
#[verifier::external_body]
fn mnemonic_indices(entropy: &[u8; 32]) -> (r: Option<[u16; 24]>)
    ensures
        r is Some,
        match r {
            Some(ix) => ix@ == bip39_word_indices(entropy@),
            None => true,
        },
{
    let m = bip39::Mnemonic::from_entropy(entropy).ok()?;
    let mut out = [0u16; 24];
    for (i, w) in m.word_indices().enumerate().take(24) {
        out[i] = w as u16;
    }
    Some(out)
}

/// `bip39::Mnemonic::from_entropy(entropy)` then `to_seed_normalized`.
/// Trusted: always succeeds on 32 bytes, and the seed is the named
/// `bip39_seed` of entropy and passphrase.
#[verifier::external_body]
fn mnemonic_seed(entropy: &[u8; 32], passphrase: &str) -> (r: Option<[u8; 64]>)
    ensures
        r is Some,
        match r {
            Some(s) => s@ == bip39_seed(entropy@, passphrase.spec_bytes()),
            None => true,
        },
{
    Some(bip39::Mnemonic::from_entropy(entropy).ok()?.to_seed_normalized(passphrase))
}

/// `core::str::from_utf8`. Trusted as std documents it: `Some` exactly for
/// valid UTF-8, the string then having those bytes.
#[verifier::external_body]
pub(crate) fn utf8_str(b: &[u8]) -> (r: Option<&str>)
    ensures
        match r {
            Some(s) => vstd::utf8::valid_utf8(b@) && s.spec_bytes() == b@,
            None => !vstd::utf8::valid_utf8(b@),
        },
{
    core::str::from_utf8(b).ok()
}

/// The 24 word indices of the mnemonic of `entropy`.
pub fn generate_words(entropy: &[u8; 32]) -> (r: [u16; 24])
    ensures
        r@ == bip39_word_indices(entropy@),
        forall|i: int| 0 <= i < 24 ==> r@[i] < 2048,
{
    proof {
        assert forall|i: int| 0 <= i < 24 implies #[trigger] bip39_word_indices(entropy@)[i] < 2048 by {
            lemma_word_prefix_bound(entropy@, i, 11);
            lemma2_to64();
        }
    }
    match mnemonic_indices(entropy) {
        Some(ix) => ix,
        None => [0u16; 24],
    }
}

/// The BIP39 seed of the mnemonic of `entropy` under a passphrase.
pub fn seed_from_entropy(entropy: &[u8; 32], passphrase: &str) -> (r: [u8; 64])
    ensures
        r@ == bip39_seed(entropy@, passphrase.spec_bytes()),
{
    match mnemonic_seed(entropy, passphrase) {
        Some(s) => s,
        None => [0u8; 64],
    }
}

/// The word a mnemonic index stands for.
pub fn mnemonic_word(index: u16) -> (r: &'static str)
    requires
        index < 2048,
    ensures
        r.spec_bytes() == bip39_english_word(index as int),
{
    bip39_word(index as usize)
}

// ── Prefix search ────────────────────────────────────────────────────────────
pub open spec fn starts_with(word: Seq<u8>, prefix: Seq<u8>) -> bool {
    prefix.len() <= word.len() && word.take(prefix.len() as int) == prefix
}

/// Indices below `k` whose word starts with `prefix`, in list order.
pub open spec fn matching_below(prefix: Seq<u8>, k: int) -> Seq<u16>
    decreases k,
{
    if k <= 0 {
        Seq::empty()
    } else if starts_with(bip39_english_word(k - 1), prefix) {
        matching_below(prefix, k - 1).push((k - 1) as u16)
    } else {
        matching_below(prefix, k - 1)
    }
}

/// The typed prefix: the first `len` bytes, read as empty when they are not UTF-8.
pub open spec fn typed_prefix(buf: Seq<u8>, len: int) -> Seq<u8> {
    if vstd::utf8::valid_utf8(buf.take(len)) {
        buf.take(len)
    } else {
        Seq::empty()
    }
}

/// The first three words starting with the typed prefix; none before
/// anything is typed.
pub open spec fn find_matches_spec(buf: Seq<u8>, len: int) -> Seq<Option<u16>> {
    let m = matching_below(typed_prefix(buf, len), 2048);
    Seq::new(
        3,
        |j: int|
            if len == 0 || j >= m.len() {
                None
            } else {
                Some(m[j])
            },
    )
}

proof fn lemma_matching_grows(prefix: Seq<u8>, k: int, k2: int)
    requires
        0 <= k <= k2,
    ensures
        matching_below(prefix, k2).len() >= matching_below(prefix, k).len(),
        forall|j: int|
            0 <= j < matching_below(prefix, k).len() ==> matching_below(prefix, k2)[j]
                == matching_below(prefix, k)[j],
    decreases k2 - k,
{
    if k2 > k {
        lemma_matching_grows(prefix, k, k2 - 1);
    }
}

fn starts_with_exec(word: &[u8], prefix: &[u8]) -> (r: bool)
    ensures
        r == starts_with(word@, prefix@),
{
    if prefix.len() > word.len() {
        return false;
    }
    let mut i: usize = 0;
    while i < prefix.len()
        invariant
            prefix@.len() <= word@.len(),
            i <= prefix@.len(),
            forall|j: int| 0 <= j < i ==> word@[j] == prefix@[j],
        decreases prefix@.len() - i,
    {
        if word[i] != prefix[i] {
            assert(word@.take(prefix@.len() as int)[i as int] != prefix@[i as int]);
            return false;
        }
        i = i + 1;
    }
    assert(word@.take(prefix@.len() as int) =~= prefix@);
    true
}

/// Up to three BIP39 word indices starting with the typed prefix.
pub fn find_matches(buf: &[u8; 8], buf_len: u8) -> (r: [Option<u16>; 3])
    requires
        buf_len <= 8,
    ensures
        r@ == find_matches_spec(buf@, buf_len as int),
{
    if buf_len == 0 {
        let r = [None, None, None];
        assert(r@ =~= find_matches_spec(buf@, 0));
        return r;
    }
    let typed = vstd::slice::slice_subrange(buf.as_slice(), 0, buf_len as usize);
    assert(typed@ =~= buf@.take(buf_len as int));
    let prefix: &[u8] = match utf8_str(typed) {
        Some(s) => s.as_bytes(),
        None => vstd::slice::slice_subrange(typed, 0, 0),
    };
    assert(prefix@ =~= typed_prefix(buf@, buf_len as int));
    let ghost pfx = prefix@;
    let mut out: [Option<u16>; 3] = [None, None, None];
    let mut count: usize = 0;
    let mut i: usize = 0;
    while i < 2048 && count < 3
        invariant
            i <= 2048,
            pfx == prefix@,
            count <= 3,
            count == (if matching_below(pfx, i as int).len() < 3 {
                matching_below(pfx, i as int).len()
            } else {
                3
            }),
            forall|j: int| 0 <= j < count ==> out@[j] == Some(matching_below(pfx, i as int)[j]),
            forall|j: int| count <= j < 3 ==> out@[j] is None,
            matching_below(pfx, i as int).len() <= 3,
        decreases 2048 - i,
    {
        let w = bip39_word(i);
        if starts_with_exec(w.as_bytes(), prefix) {
            out[count] = Some(i as u16);
            count = count + 1;
        }
        i = i + 1;
    }
    proof {
        lemma_matching_grows(pfx, i as int, 2048);
    }
    assert(out@ =~= find_matches_spec(buf@, buf_len as int));
    out
}

/// The suggestion under a touch on the suggestion strip.
pub open spec fn tapped_suggestion_spec(x: int, y: int, matches: Seq<Option<u16>>) -> Option<u16> {
    if in_rect_spec(x, y, RESTORE_SUGGEST_X0 as int, RESTORE_SUGGEST_Y as int, RESTORE_SUGGEST_W as int, RESTORE_SUGGEST_H as int) {
        matches[0]
    } else if in_rect_spec(x, y, RESTORE_SUGGEST_X1 as int, RESTORE_SUGGEST_Y as int, RESTORE_SUGGEST_W as int, RESTORE_SUGGEST_H as int) {
        matches[1]
    } else if in_rect_spec(x, y, RESTORE_SUGGEST_X2 as int, RESTORE_SUGGEST_Y as int, RESTORE_SUGGEST_W as int, RESTORE_SUGGEST_H as int) {
        matches[2]
    } else {
        None
    }
}

pub fn tapped_suggestion(x: i32, y: i32, matches: [Option<u16>; 3]) -> (r: Option<u16>)
    ensures
        r == tapped_suggestion_spec(x as int, y as int, matches@),
{
    if in_rect(x, y, RESTORE_SUGGEST_X0, RESTORE_SUGGEST_Y, RESTORE_SUGGEST_W, RESTORE_SUGGEST_H) {
        matches[0]
    } else if in_rect(x, y, RESTORE_SUGGEST_X1, RESTORE_SUGGEST_Y, RESTORE_SUGGEST_W, RESTORE_SUGGEST_H) {
        matches[1]
    } else if in_rect(x, y, RESTORE_SUGGEST_X2, RESTORE_SUGGEST_Y, RESTORE_SUGGEST_W, RESTORE_SUGGEST_H) {
        matches[2]
    } else {
        None
    }
}

// ── Restoring the words gives the entropy back ───────────────────────────────
proof fn lemma_word_prefix_bound(e: Seq<u8>, i: int, b: int)
    requires
        0 <= b <= 11,
    ensures
        0 <= word_prefix(e, i, b) < pow2(b as nat),
    decreases b,
{
    if b > 0 {
        lemma_word_prefix_bound(e, i, b - 1);
        lemma_pow2_unfold(b as nat);
    } else {
        lemma2_to64();
    }
}

/// Bit `j` of the first `b` bits of word `i` is the `11 * i + j`-th bit.
proof fn lemma_word_prefix_bit(e: Seq<u8>, i: int, b: int, j: int)
    requires
        0 <= j < b <= 11,
    ensures
        (word_prefix(e, i, b) / (pow2((b - 1 - j) as nat) as int)) % 2 == mnemonic_bit(e, 11 * i + j),
    decreases b,
{
    let w = word_prefix(e, i, b - 1);
    let bit = mnemonic_bit(e, 11 * i + b - 1);
    lemma_word_prefix_bound(e, i, b - 1);
    assert(0 <= bit < 2);
    if j == b - 1 {
        lemma2_to64();
        assert((2 * w + bit) / 1 == 2 * w + bit);
        assert((2 * w + bit) % 2 == bit);
    } else {
        let k = (b - 2 - j) as nat;
        lemma_pow2_unfold(k + 1);
        lemma_pow2_pos(k);
        lemma_div_multiples_vanish_fancy(w, bit, 2);
        lemma_div_denominator(2 * w + bit, 2, pow2(k) as int);
        assert((2 * w + bit) / (pow2(k + 1) as int) == w / (pow2(k) as int));
        lemma_word_prefix_bit(e, i, b - 1, j);
    }
}

/// The packed bits of the indices are the entropy's bits, then the checksum.
proof fn lemma_index_bit(e: Seq<u8>, p: int)
    requires
        0 <= p < 264,
    ensures
        index_bit(bip39_word_indices(e), p) == mnemonic_bit(e, p),
{
    let i = p / 11;
    let j = p % 11;
    lemma_word_prefix_bound(e, i, 11);
    lemma2_to64();
    assert(bip39_word_indices(e)[i] as int == word_prefix(e, i, 11));
    lemma_word_prefix_bit(e, i, 11, j);
    assert(11 * i + j == p);
}

/// The first `b` packed bits of byte `j` are the top `b` bits of `byte`.
proof fn lemma_packed_prefix_is_byte(ix: Seq<u16>, j: int, b: int, byte: u8)
    requires
        0 <= b <= 8,
        forall|t: int| 0 <= t < 8 ==> #[trigger] index_bit(ix, 8 * j + t) == (byte as nat / pow2(
            (7 - t) as nat,
        )) % 2,
    ensures
        packed_prefix(ix, j, b) == byte as nat / pow2((8 - b) as nat),
    decreases b,
{
    lemma2_to64();
    if b > 0 {
        lemma_packed_prefix_is_byte(ix, j, b - 1, byte);
        let k = (8 - b) as nat;
        let y = byte as nat / pow2(k);
        lemma_pow2_pos(k);
        lemma_pow2_unfold(k + 1);
        lemma_div_denominator(byte as int, pow2(k) as int, 2);
        assert(pow2(k) * 2 == pow2(k + 1));
        assert(byte as nat / pow2(k + 1) == y / 2);
        lemma_fundamental_div_mod(y as int, 2);
        assert(index_bit(ix, 8 * j + (b - 1)) == y % 2);
        assert(packed_prefix(ix, j, b - 1) == y / 2);
        assert(packed_prefix(ix, j, b) == 2 * packed_prefix(ix, j, b - 1) + index_bit(ix, 8 * j + (b - 1)));
        assert(packed_prefix(ix, j, b) == y);
    } else {
        assert(pow2(8) == 256);
        assert(byte as nat / 256 == 0);
    }
}

/// Byte `j` packed from the words of `e` is byte `j` of `e`, then (for
/// `j == 32`) the checksum byte.
proof fn lemma_packed_byte_of_words(e: Seq<u8>, j: int)
    requires
        e.len() == 32,
        0 <= j < 33,
    ensures
        packed_byte(bip39_word_indices(e), j) == if j < 32 {
            e[j]
        } else {
            sha256_of(e)[0]
        },
{
    let ix = bip39_word_indices(e);
    let byte: u8 = if j < 32 { e[j] } else { sha256_of(e)[0] };
    assert forall|t: int| 0 <= t < 8 implies #[trigger] index_bit(ix, 8 * j + t) == (byte as nat
        / pow2((7 - t) as nat)) % 2 by {
        lemma_index_bit(e, 8 * j + t);
        assert((8 * j + t) / 8 == j);
        assert((8 * j + t) % 8 == t);
        if j == 32 {
            assert((8 * j + t - 256) / 8 == 0);
            assert((8 * j + t - 256) % 8 == t);
        }
    }
    lemma_packed_prefix_is_byte(ix, j, 8, byte);
    lemma2_to64();
    assert(pow2((8 - 8) as nat) == 1);
    assert(byte as nat / 1 == byte as nat);
    assert(packed_prefix(ix, j, 8) == byte as int);
}

/// Law: the words generated from 32 bytes of entropy restore to exactly
/// that entropy (their checksum always matches).
pub proof fn lemma_words_restore_entropy(e: Seq<u8>)
    requires
        e.len() == 32,
    ensures
        indices_to_entropy_spec(bip39_word_indices(e)) == Some(e),
{
    let ix = bip39_word_indices(e);
    assert forall|j: int| 0 <= j < 32 implies #[trigger] packed_entropy(ix)[j] == e[j] by {
        lemma_packed_byte_of_words(e, j);
    }
    assert(packed_entropy(ix) =~= e);
    lemma_packed_byte_of_words(e, 32);
}

/// Bit `t` of the first `b` packed bits of byte `j` is index bit `8 * j + t`.
proof fn lemma_packed_prefix_bit(ix: Seq<u16>, j: int, b: int, t: int)
    requires
        0 <= t < b <= 8,
    ensures
        (packed_prefix(ix, j, b) / (pow2((b - 1 - t) as nat) as int)) % 2 == index_bit(ix, 8 * j + t),
    decreases b,
{
    let w = packed_prefix(ix, j, b - 1);
    let bit = index_bit(ix, 8 * j + b - 1);
    lemma_prefix_bound(ix, j, b - 1);
    assert(0 <= bit < 2);
    if t == b - 1 {
        lemma2_to64();
        assert((2 * w + bit) / 1 == 2 * w + bit);
        assert((2 * w + bit) % 2 == bit);
    } else {
        let k = (b - 2 - t) as nat;
        lemma_pow2_unfold(k + 1);
        lemma_pow2_pos(k);
        lemma_div_multiples_vanish_fancy(w, bit, 2);
        lemma_div_denominator(2 * w + bit, 2, pow2(k) as int);
        assert((2 * w + bit) / (pow2(k + 1) as int) == w / (pow2(k) as int));
        lemma_packed_prefix_bit(ix, j, b - 1, t);
    }
}

/// The first `b` bits of word `i` are the top `b` of the 11 bits of `x`.
proof fn lemma_word_prefix_is_index(e: Seq<u8>, i: int, b: int, x: u16)
    requires
        0 <= b <= 11,
        x < 2048,
        forall|t: int| 0 <= t < 11 ==> #[trigger] mnemonic_bit(e, 11 * i + t) == (x as nat / pow2(
            (10 - t) as nat,
        )) % 2,
    ensures
        word_prefix(e, i, b) == x as nat / pow2((11 - b) as nat),
    decreases b,
{
    lemma2_to64();
    if b > 0 {
        lemma_word_prefix_is_index(e, i, b - 1, x);
        let k = (11 - b) as nat;
        let y = x as nat / pow2(k);
        lemma_pow2_pos(k);
        lemma_pow2_unfold(k + 1);
        lemma_div_denominator(x as int, pow2(k) as int, 2);
        assert(pow2(k) * 2 == pow2(k + 1));
        assert(x as nat / pow2(k + 1) == y / 2);
        lemma_fundamental_div_mod(y as int, 2);
        assert(mnemonic_bit(e, 11 * i + (b - 1)) == y % 2);
        assert(word_prefix(e, i, b) == 2 * word_prefix(e, i, b - 1) + mnemonic_bit(
            e,
            11 * i + (b - 1),
        ));
    } else {
        assert(x as nat / 2048 == 0);
    }
}

/// Word `i` of entropy whose bits are those packed in `ix` is `ix[i]`.
proof fn lemma_word_is_index(e: Seq<u8>, ix: Seq<u16>, i: int)
    requires
        0 <= i < 24,
        ix.len() == 24,
        ix[i] < 2048,
        forall|p: int| 0 <= p < 264 ==> #[trigger] mnemonic_bit(e, p) == index_bit(ix, p),
    ensures
        bip39_word_indices(e)[i] == ix[i],
{
    assert forall|t: int| 0 <= t < 11 implies #[trigger] mnemonic_bit(e, 11 * i + t) == (
    ix[i] as nat / pow2((10 - t) as nat)) % 2 by {
        let p = 11 * i + t;
        assert(p / 11 == i);
        assert(p % 11 == t);
        assert(mnemonic_bit(e, p) == index_bit(ix, p));
    }
    lemma_word_prefix_is_index(e, i, 11, ix[i]);
    lemma2_to64();
    assert(pow2((11 - 11) as nat) == 1);
    assert(ix[i] as nat / 1 == ix[i] as nat);
    assert(word_prefix(e, i, 11) == ix[i] as int);
}

/// Bit `p` of packed entropy and checksum is index bit `p`.
proof fn lemma_packed_bit(ix: Seq<u16>, p: int)
    requires
        0 <= p < 264,
        sha256_of(packed_entropy(ix))[0] == packed_byte(ix, 32),
    ensures
        mnemonic_bit(packed_entropy(ix), p) == index_bit(ix, p),
{
    let e = packed_entropy(ix);
    let j = p / 8;
    let t = p % 8;
    lemma_prefix_bound(ix, j, 8);
    lemma2_to64();
    lemma_packed_prefix_bit(ix, j, 8, t);
    assert(packed_byte(ix, j) as int == packed_prefix(ix, j, 8));
    assert(8 * j + t == p);
    if p >= 256 {
        assert((p - 256) / 8 == 0);
        assert((p - 256) % 8 == t);
    } else {
        assert(e[j] == packed_byte(ix, j));
    }
}

/// Law: 24 word indices (each in the list) whose checksum matches restore to
/// entropy whose words are exactly those indices.
pub proof fn lemma_restored_entropy_gives_the_words(ix: Seq<u16>)
    requires
        ix.len() == 24,
        forall|i: int| 0 <= i < 24 ==> #[trigger] ix[i] < 2048,
        indices_to_entropy_spec(ix) is Some,
    ensures
        bip39_word_indices(indices_to_entropy_spec(ix)->Some_0) == ix,
{
    let e = packed_entropy(ix);
    assert forall|p: int| 0 <= p < 264 implies #[trigger] mnemonic_bit(e, p) == index_bit(ix, p) by {
        lemma_packed_bit(ix, p);
    }
    assert forall|i: int| 0 <= i < 24 implies #[trigger] bip39_word_indices(e)[i] == ix[i] by {
        lemma_word_is_index(e, ix, i);
    }
    assert(bip39_word_indices(e) =~= ix);
}

} // verus!

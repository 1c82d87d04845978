//! At-rest encryption primitives: PBKDF2-HMAC-SHA256 key derivation from the
//! PIN, and ChaCha20-Poly1305 with a detached tag (from `chacha20poly1305`).
//!
//! With a 6-digit PIN an attacker holding the disk can still brute-force the
//! PIN offline; the iteration count only raises the constant factor.
use vstd::prelude::*;
use crate::hashes::{hmac_sha256_spec, HmacKey};
use chacha20poly1305::aead::{AeadInPlace, KeyInit};

verus! {

/// PBKDF2-HMAC-SHA256 iteration count.
pub const PBKDF2_ITERATIONS: u32 = 1_000_000;

pub const SALT_LEN: usize = 16;

pub const NONCE_LEN: usize = 12;

pub const TAG_LEN: usize = 16;

pub const KEY_LEN: usize = 32;

#[derive(Debug, Clone, Copy, PartialEq, Eq, Structural)]
pub enum CryptoError {
    AeadFailure,
}

// ── ChaCha20-Poly1305 ────────────────────────────────────────────────────────
#[verifier::external_type_specification]
#[verifier::external_body]
pub struct ExAeadError(chacha20poly1305::aead::Error);

/// Ciphertext followed by the 16-byte tag that ChaCha20-Poly1305 produces for
/// `plaintext` under `key`, `nonce` and additional data `aad`.
pub uninterp spec fn aead_seal(key: Seq<u8>, nonce: Seq<u8>, aad: Seq<u8>, plaintext: Seq<u8>) -> Seq<
    u8,
>;

/// What ChaCha20-Poly1305 decryption of `ciphertext` with `tag` gives:
/// `None` when the tag does not authenticate it.
pub uninterp spec fn aead_open(
    key: Seq<u8>,
    nonce: Seq<u8>,
    aad: Seq<u8>,
    ciphertext: Seq<u8>,
    tag: Seq<u8>,
) -> Option<Seq<u8>>;

/// Largest buffer the cipher accepts: fewer than `u32::MAX` 64-byte blocks.
pub open spec fn aead_buffer_ok(len: nat) -> bool {
    len / 64 < 0xffff_ffff
}

/// `ChaCha20Poly1305::encrypt_in_place_detached`. Trusted: on success the
/// buffer holds the ciphertext (same length) and, with the returned tag,
/// forms `aead_seal` of the plaintext; it fails only on buffers of
/// `u32::MAX` blocks or more, as the crate's `cipher.rs` shows.
#[verifier::external_body]
fn aead_encrypt_detached(
    key: &[u8; 32],
    nonce: &[u8; 12],
    aad: &[u8],
    buffer: &mut [u8],
) -> (r: Result<[u8; 16], chacha20poly1305::aead::Error>)
    ensures
        aead_buffer_ok(old(buffer)@.len()) ==> r is Ok,
        final(buffer)@.len() == old(buffer)@.len(),
        r matches Ok(tag) ==> final(buffer)@ + tag@ == aead_seal(key@, nonce@, aad@, old(buffer)@),
{
    let cipher = chacha20poly1305::ChaCha20Poly1305::new(chacha20poly1305::Key::from_slice(key));
    let tag = cipher.encrypt_in_place_detached(chacha20poly1305::Nonce::from_slice(nonce), aad, buffer)?;
    Ok(tag.into())
}

/// `ChaCha20Poly1305::decrypt_in_place_detached`. Trusted: the outcome is
/// `aead_open` of the inputs (the buffer then holds the plaintext, and is
/// left as it was on failure, as the crate's `cipher.rs` shows), and
/// opening what `aead_seal` produced gives the sealed plaintext back.
#[verifier::external_body]
fn aead_decrypt_detached(
    key: &[u8; 32],
    nonce: &[u8; 12],
    aad: &[u8],
    buffer: &mut [u8],
    tag: &[u8; 16],
) -> (r: Result<(), chacha20poly1305::aead::Error>)
    ensures
        final(buffer)@.len() == old(buffer)@.len(),
        aead_open(key@, nonce@, aad@, old(buffer)@, tag@) matches Some(p) ==> r is Ok
            && final(buffer)@ == p,
        aead_open(key@, nonce@, aad@, old(buffer)@, tag@) is None ==> r is Err,
        forall|p: Seq<u8>|
            #![trigger aead_seal(key@, nonce@, aad@, p)]
            p.len() == old(buffer)@.len() && aead_seal(key@, nonce@, aad@, p) == old(buffer)@ + tag@
                ==> aead_open(key@, nonce@, aad@, old(buffer)@, tag@) == Some(p),
{
    let cipher = chacha20poly1305::ChaCha20Poly1305::new(chacha20poly1305::Key::from_slice(key));
    cipher.decrypt_in_place_detached(
        chacha20poly1305::Nonce::from_slice(nonce),
        aad,
        buffer,
        chacha20poly1305::Tag::from_slice(tag),
    )
}

/// Encrypts `buffer` in place and returns the authentication tag. `aad` is
/// authenticated but not encrypted.
pub fn encrypt(key: &[u8; 32], nonce: &[u8; 12], aad: &[u8], buffer: &mut [u8]) -> (r: Result<
    [u8; 16],
    CryptoError,
>)
    ensures
        final(buffer)@.len() == old(buffer)@.len(),
        aead_buffer_ok(old(buffer)@.len()) ==> r is Ok,
        r matches Ok(tag) ==> final(buffer)@ + tag@ == aead_seal(key@, nonce@, aad@, old(buffer)@),
        r is Err ==> r == Err::<[u8; 16], CryptoError>(CryptoError::AeadFailure),
{
    match aead_encrypt_detached(key, nonce, aad, buffer) {
        Ok(tag) => Ok(tag),
        Err(_) => Err(CryptoError::AeadFailure),
    }
}

/// Decrypts `buffer` in place with `tag`; fails when the tag does not
/// authenticate ciphertext and `aad` under `key` (wrong key, tampering).
pub fn decrypt(key: &[u8; 32], nonce: &[u8; 12], aad: &[u8], buffer: &mut [u8], tag: &[u8; 16]) -> (r:
    Result<(), CryptoError>)
    ensures
        final(buffer)@.len() == old(buffer)@.len(),
        match aead_open(key@, nonce@, aad@, old(buffer)@, tag@) {
            Some(p) => r is Ok && final(buffer)@ == p,
            None => r == Err::<(), CryptoError>(CryptoError::AeadFailure),
        },
        forall|p: Seq<u8>|
            #![trigger aead_seal(key@, nonce@, aad@, p)]
            p.len() == old(buffer)@.len() && aead_seal(key@, nonce@, aad@, p) == old(buffer)@ + tag@
                ==> aead_open(key@, nonce@, aad@, old(buffer)@, tag@) == Some(p),
{
    match aead_decrypt_detached(key, nonce, aad, buffer, tag) {
        Ok(()) => Ok(()),
        Err(_) => Err(CryptoError::AeadFailure),
    }
}

// ── PBKDF2-HMAC-SHA256 (RFC 2898), one 32-byte block ─────────────────────────
/// Big-endian block index 1.
pub open spec fn block_one() -> Seq<u8> {
    seq![0u8, 0u8, 0u8, 1u8]
}

/// `U_1 = HMAC(P, S || INT(1))`, `U_i = HMAC(P, U_{i-1})`.
pub open spec fn pbkdf2_u(password: Seq<u8>, salt: Seq<u8>, i: nat) -> Seq<u8>
    decreases i,
{
    if i <= 1 {
        hmac_sha256_spec(password, salt + block_one())
    } else {
        hmac_sha256_spec(password, pbkdf2_u(password, salt, (i - 1) as nat))
    }
}

pub open spec fn xor32(a: Seq<u8>, b: Seq<u8>) -> Seq<u8> {
    Seq::new(32, |k: int| (a[k] ^ b[k]) as u8)
}

/// `T_1 = U_1 ^ U_2 ^ ... ^ U_c` (a count of 0 behaves as 1).
pub open spec fn pbkdf2_t(password: Seq<u8>, salt: Seq<u8>, c: nat) -> Seq<u8>
    decreases c,
{
    if c <= 1 {
        pbkdf2_u(password, salt, 1)
    } else {
        xor32(pbkdf2_t(password, salt, (c - 1) as nat), pbkdf2_u(password, salt, c))
    }
}

/// PBKDF2-HMAC-SHA256, first output block (32 bytes).
pub fn pbkdf2_hmac_sha256_32(password: &[u8], salt: &[u8], iterations: u32) -> (r: [u8; 32])
    ensures
        r@ == pbkdf2_t(password@, salt@, iterations as nat),
{
    let mut first: Vec<u8> = Vec::new();
    crate::hashes::append_bytes(&mut first, salt);
    crate::hashes::append_bytes(&mut first, &[0u8, 0u8, 0u8, 1u8]);
    assert(first@ =~= salt@ + block_one());
    let keyed = HmacKey::new(password);
    let mut u = keyed.mac(first.as_slice());
    let mut t = u;
    let mut i: u32 = 1;
    while i < iterations
        invariant
            1 <= i,
            i <= iterations || iterations == 0,
            iterations == 0 ==> i == 1,
            u@ == pbkdf2_u(password@, salt@, i as nat),
            keyed.keyed_with(password@),
            t@ == pbkdf2_t(password@, salt@, i as nat),
        decreases iterations - i,
    {
        u = keyed.mac(&u);
        let mut k: usize = 0;
        let ghost t0 = t@;
        while k < 32
            invariant
                k <= 32,
                t0.len() == 32,
                forall|j: int| 0 <= j < k ==> t@[j] == (t0[j] ^ u@[j]) as u8,
                forall|j: int| k <= j < 32 ==> t@[j] == t0[j],
            decreases 32 - k,
        {
            t[k] = t[k] ^ u[k];
            k = k + 1;
        }
        assert(t@ =~= xor32(t0, u@));
        i = i + 1;
    }
    assert(pbkdf2_t(password@, salt@, 0) == pbkdf2_t(password@, salt@, 1));
    t
}

/// The 32-byte key for a 6-digit PIN (raw digit values 0..=9) and a salt.
pub fn derive_key(pin: &[u8; 6], salt: &[u8; 16]) -> (r: [u8; 32])
    ensures
        r@ == pbkdf2_t(pin@, salt@, PBKDF2_ITERATIONS as nat),
{
    pbkdf2_hmac_sha256_32(pin, salt, PBKDF2_ITERATIONS)
}

} // verus!

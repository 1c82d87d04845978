//! On-disk persisted wallet (format v3), 143 bytes:
//!
//! ```text
//!   [0]        version   = 3
//!   [1]        failures  (plaintext, for lockout enforcement before any decryption)
//!   [2]        locked    (0/1)
//!   [3..19]    salt
//!   [19..31]   nonce     (fresh on every re-encrypt)
//!   [31..127]  ciphertext of entropy[32] || seed[64]
//!   [127..143] Poly1305 tag
//! ```
//!
//! The PIN is never stored: a tag that verifies is the proof of knowing it.
//! The version byte and the salt are the AEAD additional data, so neither can
//! be swapped without failing the tag; the lockout fields are not, since they
//! change without re-encryption.
use vstd::prelude::*;
use crate::crypto::{aead_open, aead_seal, decrypt, encrypt, CryptoError};

verus! {

pub const VERSION_V3: u8 = 3;

pub const PERSIST_BYTES: usize = 143;

#[derive(Debug, Clone, Copy, PartialEq, Eq, Structural)]
pub enum DiskError {
    BadVersion,
    AeadFailure,
}

/// Any failure of the cipher is a failure to open or seal the image.
impl From<CryptoError> for DiskError {
    fn from(e: CryptoError) -> (r: Self) {
        DiskError::AeadFailure
    }
}

impl vstd::std_specs::convert::FromSpecImpl<CryptoError> for DiskError {
    open spec fn obeys_from_spec() -> bool {
        true
    }

    open spec fn from_spec(e: CryptoError) -> DiskError {
        DiskError::AeadFailure
    }
}

/// Decrypted secrets.
pub struct Secrets {
    pub entropy: [u8; 32],
    pub seed: [u8; 64],
}

/// Plaintext header, readable without the PIN.
#[derive(Debug, Clone, Copy)]
pub struct DiskHeader {
    pub failures: u8,
    pub locked: bool,
    pub salt: [u8; 16],
}

// ── Layout ───────────────────────────────────────────────────────────────────
pub open spec fn blob_salt(blob: Seq<u8>) -> Seq<u8> {
    blob.subrange(3, 19)
}

pub open spec fn blob_nonce(blob: Seq<u8>) -> Seq<u8> {
    blob.subrange(19, 31)
}

pub open spec fn blob_ciphertext(blob: Seq<u8>) -> Seq<u8> {
    blob.subrange(31, 127)
}

pub open spec fn blob_tag(blob: Seq<u8>) -> Seq<u8> {
    blob.subrange(127, 143)
}

/// The AEAD additional data: version byte and salt.
pub open spec fn aad_of(version: u8, salt: Seq<u8>) -> Seq<u8> {
    seq![version] + salt
}

pub open spec fn blob_aad(blob: Seq<u8>) -> Seq<u8> {
    aad_of(blob[0], blob_salt(blob))
}

/// The v3 image of `plaintext` (entropy || seed) sealed under `key`.
pub open spec fn blob_image(
    plaintext: Seq<u8>,
    salt: Seq<u8>,
    nonce: Seq<u8>,
    key: Seq<u8>,
    failures: u8,
    locked: bool,
) -> Seq<u8> {
    seq![VERSION_V3, failures, if locked { 1u8 } else { 0u8 }] + salt + nonce + aead_seal(
        key,
        nonce,
        aad_of(VERSION_V3, salt),
        plaintext,
    )
}

/// `blob` holds `plaintext` sealed under `key` with its own nonce and header.
pub open spec fn sealed_under(blob: Seq<u8>, key: Seq<u8>, plaintext: Seq<u8>) -> bool {
    &&& plaintext.len() == 96
    &&& aead_seal(key, blob_nonce(blob), blob_aad(blob), plaintext) == blob_ciphertext(blob)
        + blob_tag(blob)
}

impl Secrets {
    pub open spec fn plaintext(&self) -> Seq<u8> {
        self.entropy@ + self.seed@
    }
}

impl DiskHeader {
    /// Validates the version byte and extracts the header fields.
    pub fn parse(blob: &[u8; 143]) -> (r: Result<Self, DiskError>)
        ensures
            blob@[0] != VERSION_V3 ==> r == Err::<Self, DiskError>(DiskError::BadVersion),
            blob@[0] == VERSION_V3 ==> (r matches Ok(h) && h.failures == blob@[1] && h.locked == (
            blob@[2] != 0) && h.salt@ == blob_salt(blob@)),
    {
        if blob[0] != VERSION_V3 {
            return Err(DiskError::BadVersion);
        }
        let salt = copy_salt(blob);
        Ok(DiskHeader { failures: blob[1], locked: blob[2] != 0, salt })
    }
}

fn copy_salt(blob: &[u8; 143]) -> (r: [u8; 16])
    ensures
        r@ == blob_salt(blob@),
{
    let mut salt = [0u8; 16];
    let mut i: usize = 0;
    while i < 16
        invariant
            i <= 16,
            forall|j: int| 0 <= j < i ==> salt@[j] == blob@[3 + j],
        decreases 16 - i,
    {
        salt[i] = blob[3 + i];
        i = i + 1;
    }
    assert(salt@ =~= blob_salt(blob@));
    salt
}

/// `blob[from..from + N]`.
fn copy_out<const N: usize>(blob: &[u8; 143], from: usize) -> (r: [u8; N])
    requires
        from + N <= 143,
    ensures
        r@ == blob@.subrange(from as int, from + N),
{
    let mut out = [0u8; N];
    let mut i: usize = 0;
    while i < N
        invariant
            from + N <= 143,
            i <= N,
            out@.len() == N,
            forall|j: int| 0 <= j < i ==> out@[j] == blob@[from + j],
        decreases N - i,
    {
        out[i] = blob[from + i];
        i = i + 1;
    }
    assert(out@ =~= blob@.subrange(from as int, from + N));
    out
}

fn build_aad(version: u8, salt: &[u8; 16]) -> (r: [u8; 17])
    ensures
        r@ == aad_of(version, salt@),
{
    let mut aad = [0u8; 17];
    aad[0] = version;
    let mut i: usize = 0;
    while i < 16
        invariant
            i <= 16,
            aad@[0] == version,
            forall|j: int| 0 <= j < i ==> aad@[1 + j] == salt@[j],
        decreases 16 - i,
    {
        aad[1 + i] = salt[i];
        i = i + 1;
    }
    assert(aad@ =~= aad_of(version, salt@));
    aad
}

/// Attempts to decrypt the blob with a derived key. A tag that does not
/// verify (wrong PIN, tampered file, swapped header) gives `AeadFailure`.
/// Whatever was sealed under `key` with this header comes back.
pub fn try_decrypt(blob: &[u8; 143], key: &[u8; 32]) -> (r: Result<Secrets, DiskError>)
    ensures
        match aead_open(
            key@,
            blob_nonce(blob@),
            blob_aad(blob@),
            blob_ciphertext(blob@),
            blob_tag(blob@),
        ) {
            Some(p) => r matches Ok(s) && s.plaintext() == p,
            None => r matches Err(e) && e == DiskError::AeadFailure,
        },
        forall|p: Seq<u8>| #[trigger] sealed_under(blob@, key@, p) ==> (r matches Ok(s) && s.plaintext() == p),
{
    let nonce: [u8; 12] = copy_out(blob, 19);
    let salt = copy_salt(blob);
    let aad = build_aad(blob[0], &salt);
    let mut buf: [u8; 96] = copy_out(blob, 31);
    let tag: [u8; 16] = copy_out(blob, 127);
    assert(aad@ == blob_aad(blob@));
    match decrypt(key, &nonce, &aad, &mut buf, &tag) {
        Ok(()) => {
            let entropy: [u8; 32] = first_32(&buf);
            let seed: [u8; 64] = last_64(&buf);
            assert(entropy@ + seed@ =~= buf@);
            Ok(Secrets { entropy, seed })
        },
        Err(e) => Err(DiskError::from(e)),
    }
}

fn first_32(buf: &[u8; 96]) -> (r: [u8; 32])
    ensures
        r@ == buf@.take(32),
{
    let mut out = [0u8; 32];
    let mut i: usize = 0;
    while i < 32
        invariant
            i <= 32,
            forall|j: int| 0 <= j < i ==> out@[j] == buf@[j],
        decreases 32 - i,
    {
        out[i] = buf[i];
        i = i + 1;
    }
    assert(out@ =~= buf@.take(32));
    out
}

fn last_64(buf: &[u8; 96]) -> (r: [u8; 64])
    ensures
        r@ == buf@.skip(32),
{
    let mut out = [0u8; 64];
    let mut i: usize = 0;
    while i < 64
        invariant
            i <= 64,
            forall|j: int| 0 <= j < i ==> out@[j] == buf@[32 + j],
        decreases 64 - i,
    {
        out[i] = buf[32 + i];
        i = i + 1;
    }
    assert(out@ =~= buf@.skip(32));
    out
}

/// Encrypts the secrets and assembles a complete v3 disk image.
pub fn encrypt_into_blob(
    secrets: &Secrets,
    salt: &[u8; 16],
    nonce: &[u8; 12],
    key: &[u8; 32],
    failures: u8,
    locked: bool,
) -> (r: Result<[u8; 143], DiskError>)
    ensures
        r matches Ok(out) && out@ == blob_image(
            secrets.plaintext(),
            salt@,
            nonce@,
            key@,
            failures,
            locked,
        ),
{
    let mut buf = [0u8; 96];
    let mut i: usize = 0;
    while i < 96
        invariant
            i <= 96,
            forall|j: int| 0 <= j < i ==> buf@[j] == secrets.plaintext()[j],
        decreases 96 - i,
    {
        buf[i] = if i < 32 { secrets.entropy[i] } else { secrets.seed[i - 32] };
        i = i + 1;
    }
    assert(buf@ =~= secrets.plaintext());
    let aad = build_aad(VERSION_V3, salt);
    let ghost plain = buf@;
    let tag = match encrypt(key, nonce, &aad, &mut buf) {
        Ok(t) => t,
        Err(e) => {
            return Err(DiskError::from(e));
        },
    };
    let mut out = [0u8; 143];
    out[0] = VERSION_V3;
    out[1] = failures;
    out[2] = if locked { 1 } else { 0 };
    let mut k: usize = 0;
    while k < 140
        invariant
            k <= 140,
            out@[0] == VERSION_V3,
            out@[1] == failures,
            out@[2] == if locked { 1u8 } else { 0u8 },
            forall|j: int|
                0 <= j < k ==> out@[3 + j] == (salt@ + nonce@ + (buf@ + tag@))[j],
        decreases 140 - k,
    {
        let b = if k < 16 {
            salt[k]
        } else if k < 28 {
            nonce[k - 16]
        } else if k < 124 {
            buf[k - 28]
        } else {
            tag[k - 124]
        };
        out[3 + k] = b;
        k = k + 1;
    }
    assert(buf@ + tag@ == aead_seal(key@, nonce@, aad_of(VERSION_V3, salt@), secrets.plaintext()));
    let ghost head = seq![VERSION_V3, failures, if locked { 1u8 } else { 0u8 }];
    let ghost body = salt@ + nonce@ + (buf@ + tag@);
    assert(head + salt@ + nonce@ + (buf@ + tag@) =~= head + body);
    assert(out@ =~= head + body);
    Ok(out)
}

/// Rewrites only the plaintext lockout fields; the sealed part is unchanged.
pub fn update_lockout(blob: &mut [u8; 143], failures: u8, locked: bool)
    ensures
        final(blob)@ == old(blob)@.update(1, failures).update(2, if locked { 1u8 } else { 0u8 }),
{
    blob[1] = failures;
    blob[2] = if locked { 1 } else { 0 };
}

// ── Laws ─────────────────────────────────────────────────────────────────────
/// Law: the image `encrypt_into_blob` writes holds the secrets sealed under
/// the key, with its header readable: version 3, the lockout fields and the salt.
pub proof fn lemma_image_sealed(
    plaintext: Seq<u8>,
    salt: Seq<u8>,
    nonce: Seq<u8>,
    key: Seq<u8>,
    failures: u8,
    locked: bool,
)
    requires
        plaintext.len() == 96,
        salt.len() == 16,
        nonce.len() == 12,
        blob_image(plaintext, salt, nonce, key, failures, locked).len() == 143,
    ensures
        ({
            let blob = blob_image(plaintext, salt, nonce, key, failures, locked);
            &&& blob.len() == 143
            &&& blob[0] == VERSION_V3
            &&& blob[1] == failures
            &&& (blob[2] != 0) == locked
            &&& blob_salt(blob) == salt
            &&& sealed_under(blob, key, plaintext)
        }),
{
    let blob = blob_image(plaintext, salt, nonce, key, failures, locked);
    let sealed = aead_seal(key, nonce, aad_of(VERSION_V3, salt), plaintext);
    assert(blob_salt(blob) =~= salt);
    assert(blob_nonce(blob) =~= nonce);
    assert(blob_ciphertext(blob) + blob_tag(blob) =~= sealed);
}

/// Law: rewriting the lockout fields keeps the blob decryptable to the same
/// secrets and leaves its salt alone.
pub proof fn lemma_lockout_keeps_seal(blob: Seq<u8>, key: Seq<u8>, plaintext: Seq<u8>, failures: u8, locked: bool)
    requires
        blob.len() == 143,
        sealed_under(blob, key, plaintext),
    ensures
        ({
            let b2 = blob.update(1, failures).update(2, if locked { 1u8 } else { 0u8 });
            &&& sealed_under(b2, key, plaintext)
            &&& blob_salt(b2) == blob_salt(blob)
            &&& b2[0] == blob[0]
        }),
{
    let b2 = blob.update(1, failures).update(2, if locked { 1u8 } else { 0u8 });
    assert(blob_salt(b2) =~= blob_salt(blob));
    assert(blob_nonce(b2) =~= blob_nonce(blob));
    assert(blob_ciphertext(b2) =~= blob_ciphertext(blob));
    assert(blob_tag(b2) =~= blob_tag(blob));
}

} // verus!

//! SHA-256 (from `bitcoin_hashes`), BIP340 tagged hashes and HMAC-SHA256.
use vstd::prelude::*;

verus! {

/// SHA-256 of `data`, as `bitcoin_hashes::sha256::Hash::hash` computes it.
pub uninterp spec fn sha256_of(data: Seq<u8>) -> Seq<u8>;

/// `bitcoin_hashes::sha256::Hash::hash`. Trusted: the digest is the named
/// function `sha256_of` of the input bytes, 32 bytes long.
#[verifier::external_body]
pub(crate) fn sha256_hash(data: &[u8]) -> (r: [u8; 32])
    ensures
        r@ == sha256_of(data@),
{
    let h = <bitcoin_hashes::sha256::Hash as bitcoin_hashes::Hash>::hash(data);
    <bitcoin_hashes::sha256::Hash as bitcoin_hashes::Hash>::to_byte_array(h)
}

/// BIP340 tagged hash: `SHA256(SHA256(tag) || SHA256(tag) || data)`.
pub open spec fn tagged_hash_spec(tag: Seq<u8>, data: Seq<u8>) -> Seq<u8> {
    sha256_of(sha256_of(tag) + sha256_of(tag) + data)
}

/// Appends `src` to `dst`.
pub fn append_bytes(dst: &mut Vec<u8>, src: &[u8])
    ensures
        final(dst)@ == old(dst)@ + src@,
{
    let mut i: usize = 0;
    while i < src.len()
        invariant
            i <= src@.len(),
            dst@ == old(dst)@ + src@.take(i as int),
        decreases src@.len() - i,
    {
        dst.push(src[i]);
        assert(src@.take(i + 1) =~= src@.take(i as int).push(src@[i as int]));
        i = i + 1;
    }
    assert(src@.take(i as int) =~= src@);
}

pub fn tagged_hash(tag: &[u8], data: &[u8]) -> (r: [u8; 32])
    ensures
        r@ == tagged_hash_spec(tag@, data@),
{
    let th = sha256_hash(tag);
    let mut buf: Vec<u8> = Vec::new();
    append_bytes(&mut buf, &th);
    append_bytes(&mut buf, &th);
    append_bytes(&mut buf, data);
    assert(buf@ =~= sha256_of(tag@) + sha256_of(tag@) + data@);
    sha256_hash(buf.as_slice())
}

// ── HMAC-SHA256 (RFC 2104) ───────────────────────────────────────────────────
/// The 64-byte HMAC key block: the key (hashed first when longer than a
/// block), padded with zeros.
pub open spec fn hmac_key_block(key: Seq<u8>) -> Seq<u8> {
    let k = if key.len() > 64 {
        sha256_of(key)
    } else {
        key
    };
    Seq::new(64, |i: int| if i < k.len() { k[i] } else { 0u8 })
}

/// Each byte of a key block XORed with `pad`.
pub open spec fn xor_pad(block: Seq<u8>, pad: u8) -> Seq<u8> {
    Seq::new(64, |i: int| (block[i] ^ pad) as u8)
}

/// `HMAC(K, m) = H((K0 ^ opad) || H((K0 ^ ipad) || m))`.
pub open spec fn hmac_sha256_spec(key: Seq<u8>, data: Seq<u8>) -> Seq<u8> {
    let k0 = hmac_key_block(key);
    sha256_of(xor_pad(k0, 0x5c) + sha256_of(xor_pad(k0, 0x36) + data))
}

/// The SHA-256 chaining value after compressing the 64-byte `block` from
/// the initial state (what `midstate()` gives on an engine fed `block`).
pub uninterp spec fn sha256_block_state(block: Seq<u8>) -> Seq<u8>;

/// `bitcoin_hashes::sha256::HashEngine`: a SHA-256 chaining value, a count
/// of bytes hashed and a buffer for the bytes of an unfinished block.
#[verifier::external_type_specification]
#[verifier::external_body]
pub struct ExSha256Engine(bitcoin_hashes::sha256::HashEngine);

/// What `midstate()` returns on an engine: its chaining value.
pub uninterp spec fn sha256_midstate_of(e: bitcoin_hashes::sha256::HashEngine) -> Seq<u8>;

/// What `n_bytes_hashed()` returns on an engine: how many bytes it was fed.
pub uninterp spec fn sha256_bytes_hashed(e: bitcoin_hashes::sha256::HashEngine) -> nat;

/// `bitcoin_hashes::sha256::HashEngine::default()` fed the 64-byte `block`.
/// Trusted: the block fills the buffer and is compressed at once, so the
/// engine's chaining value is the block's and it has hashed 64 bytes.
#[verifier::external_body]
fn sha256_engine_after_block(block: &[u8; 64]) -> (e: bitcoin_hashes::sha256::HashEngine)
    ensures
        sha256_midstate_of(e) == sha256_block_state(block@),
        sha256_bytes_hashed(e) == 64,
{
    let mut eng = bitcoin_hashes::sha256::HashEngine::default();
    bitcoin_hashes::HashEngine::input(&mut eng, block);
    eng
}

/// A copy of `engine` fed `data`, then `sha256::Hash::from_engine`. Trusted:
/// an engine whose chaining value is that of `block` and that has hashed
/// exactly 64 bytes holds no pending bytes (its buffer is only read up to
/// `length % 64`), so what it finishes with is SHA-256 of `block` followed
/// by `data`.
#[verifier::external_body]
fn sha256_engine_finish(engine: &bitcoin_hashes::sha256::HashEngine, block: &[u8; 64], data: &[u8]) -> (r: [u8; 32])
    requires
        sha256_midstate_of(*engine) == sha256_block_state(block@),
        sha256_bytes_hashed(*engine) == 64,
    ensures
        r@ == sha256_of(block@ + data@),
{
    let mut eng = engine.clone();
    bitcoin_hashes::HashEngine::input(&mut eng, data);
    <bitcoin_hashes::sha256::Hash as bitcoin_hashes::Hash>::to_byte_array(
        <bitcoin_hashes::sha256::Hash as bitcoin_hashes::Hash>::from_engine(eng),
    )
}

/// A key made ready for HMAC-SHA256: its padded inner and outer blocks and
/// engines that have compressed them, so each MAC costs two compressions.
pub struct HmacKey {
    ipad: [u8; 64],
    opad: [u8; 64],
    inner: bitcoin_hashes::sha256::HashEngine,
    outer: bitcoin_hashes::sha256::HashEngine,
}

impl HmacKey {
    /// Each engine holds exactly its block, compressed.
    #[verifier::type_invariant]
    spec fn engines_match(&self) -> bool {
        &&& sha256_midstate_of(self.inner) == sha256_block_state(self.ipad@)
        &&& sha256_bytes_hashed(self.inner) == 64
        &&& sha256_midstate_of(self.outer) == sha256_block_state(self.opad@)
        &&& sha256_bytes_hashed(self.outer) == 64
    }

    /// The blocks are the padded blocks of `key`.
    pub closed spec fn keyed_with(&self, key: Seq<u8>) -> bool {
        &&& self.ipad@ == xor_pad(hmac_key_block(key), 0x36)
        &&& self.opad@ == xor_pad(hmac_key_block(key), 0x5c)
    }

    /// Prepares `key` for HMAC-SHA256.
    pub fn new(key: &[u8]) -> (r: Self)
        ensures
            r.keyed_with(key@),
    {
        let mut k0 = [0u8; 64];
        if key.len() > 64 {
            let h = sha256_hash(key);
            let mut i: usize = 0;
            while i < 32
                invariant
                    i <= 32,
                    k0@.len() == 64,
                    forall|j: int| 0 <= j < i ==> k0@[j] == h@[j],
                    forall|j: int| i <= j < 64 ==> k0@[j] == 0,
                decreases 32 - i,
            {
                k0[i] = h[i];
                i = i + 1;
            }
            assert(k0@ =~= hmac_key_block(key@));
        } else {
            let mut i: usize = 0;
            while i < key.len()
                invariant
                    key@.len() <= 64,
                    i <= key@.len(),
                    k0@.len() == 64,
                    forall|j: int| 0 <= j < i ==> k0@[j] == key@[j],
                    forall|j: int| i <= j < 64 ==> k0@[j] == 0,
                decreases key@.len() - i,
            {
                k0[i] = key[i];
                i = i + 1;
            }
            assert(k0@ =~= hmac_key_block(key@));
        }
        let mut ipad = [0u8; 64];
        let mut opad = [0u8; 64];
        let mut i: usize = 0;
        while i < 64
            invariant
                i <= 64,
                k0@ == hmac_key_block(key@),
                forall|j: int| 0 <= j < i ==> ipad@[j] == (k0@[j] ^ 0x36u8) as u8,
                forall|j: int| 0 <= j < i ==> opad@[j] == (k0@[j] ^ 0x5cu8) as u8,
            decreases 64 - i,
        {
            ipad[i] = k0[i] ^ 0x36;
            opad[i] = k0[i] ^ 0x5c;
            i = i + 1;
        }
        assert(ipad@ =~= xor_pad(hmac_key_block(key@), 0x36));
        assert(opad@ =~= xor_pad(hmac_key_block(key@), 0x5c));
        let inner = sha256_engine_after_block(&ipad);
        let outer = sha256_engine_after_block(&opad);
        HmacKey { ipad, opad, inner, outer }
    }

    /// HMAC-SHA256 of `data` under the key this was made from.
    pub fn mac(&self, data: &[u8]) -> (r: [u8; 32])
        ensures
            forall|key: Seq<u8>| #[trigger] self.keyed_with(key) ==> r@ == hmac_sha256_spec(key, data@),
    {
        proof {
            use_type_invariant(self);
        }
        let inner = sha256_engine_finish(&self.inner, &self.ipad, data);
        sha256_engine_finish(&self.outer, &self.opad, &inner)
    }
}

/// HMAC-SHA256 of `data` under `key`.
pub fn hmac_sha256(key: &[u8], data: &[u8]) -> (r: [u8; 32])
    ensures
        r@ == hmac_sha256_spec(key@, data@),
{
    let k = HmacKey::new(key);
    k.mac(data)
}

} // verus!

//! BIP32/BIP86 key derivation, the BIP341 Taproot tweak, P2TR addresses,
//! the BIP386 descriptor and BIP39 word-index decoding.
//!
//! Derivation window: `m/86'/{coin}'/0'/{branch}/{index}` with branch 0
//! (receive) and 1 (change), index `0..KEY_WINDOW`. BIP32 and secp256k1
//! arithmetic come from `bip32` and `k256`; extended keys cross that boundary
//! as plain values (`ExtKey`).
use vstd::prelude::*;
use crate::bech32::{p2tr_address_bytes, p2tr_address_spec};
use crate::descriptor::{checksum_chars, descriptor_checksum, hex_8, hex_digit};
use crate::hashes::{sha256_of, sha256_hash, tagged_hash, tagged_hash_spec};
use k256::elliptic_curve::sec1::{FromEncodedPoint, ToEncodedPoint};
use vstd::string::StringSliceAdditionalSpecFns;

verus! {

pub const RECEIVE_BRANCH: u32 = 0;

pub const CHANGE_BRANCH: u32 = 1;

pub const KEY_WINDOW: usize = 20;

/// Keys scanned: the receive window, then the change window.
pub const OWN_KEY_COUNT: usize = 40;

/// Largest descriptor this wallet builds.
pub const DESCRIPTOR_MAX: usize = 200;

/// Bitcoin network the wallet is built for.
#[derive(Clone, Copy, PartialEq, Eq, Debug, Structural)]
pub enum Network {
    Mainnet,
    Testnet,
}

impl Network {
    /// Bech32 address prefix (BIP350).
    pub fn hrp(self) -> (r: &'static str)
        ensures
            r@ == (if self == Network::Mainnet {
                "bc"@
            } else {
                "tb"@
            }),
    {
        match self {
            Network::Mainnet => "bc",
            Network::Testnet => "tb",
        }
    }

    /// The address prefix as bytes.
    pub fn hrp_bytes(self) -> (r: [u8; 2])
        ensures
            r@ == network_hrp(self),
    {
        let r = match self {
            Network::Mainnet => [98u8, 99u8],
            Network::Testnet => [116u8, 98u8],
        };
        assert(r@ =~= network_hrp(self));
        r
    }

    /// BIP32 coin type: 0' for mainnet, 1' for testnet.
    pub fn coin_type(self) -> (r: u32)
        ensures
            r == (if self == Network::Mainnet {
                0u32
            } else {
                1u32
            }),
    {
        match self {
            Network::Mainnet => 0,
            Network::Testnet => 1,
        }
    }
}

pub open spec fn network_hrp(n: Network) -> Seq<u8> {
    if n == Network::Mainnet {
        seq![98u8, 99u8]
    } else {
        seq![116u8, 98u8]
    }
}

/// The network this wallet runs on.
pub const NETWORK: Network = Network::Testnet;

// ── Extended keys as plain values ────────────────────────────────────────────
/// A BIP32 extended private key: key, chain code and attributes.
#[derive(Clone, Copy)]
pub struct ExtKey {
    pub private_key: [u8; 32],
    pub chain_code: [u8; 32],
    pub depth: u8,
    pub parent_fingerprint: [u8; 4],
    pub child_number: u32,
}

pub struct ExtKeyView {
    pub private_key: Seq<u8>,
    pub chain_code: Seq<u8>,
    pub depth: u8,
    pub parent_fingerprint: Seq<u8>,
    pub child_number: u32,
}

impl View for ExtKey {
    type V = ExtKeyView;

    open spec fn view(&self) -> ExtKeyView {
        ExtKeyView {
            private_key: self.private_key@,
            chain_code: self.chain_code@,
            depth: self.depth,
            parent_fingerprint: self.parent_fingerprint@,
            child_number: self.child_number,
        }
    }
}

pub open spec fn opt_key_view(k: Option<ExtKey>) -> Option<ExtKeyView> {
    match k {
        Some(x) => Some(x@),
        None => None,
    }
}

pub open spec fn opt_bytes<const N: usize>(b: Option<[u8; N]>) -> Option<Seq<u8>> {
    match b {
        Some(x) => Some(x@),
        None => None,
    }
}

/// The master key `bip32` derives from a seed (`XPrv::new`).
pub uninterp spec fn bip32_master_key(seed: Seq<u8>) -> Option<ExtKeyView>;

/// The child `bip32` derives (`ExtendedPrivateKey::derive_child`); `None`
/// also when the parent's key bytes are not a valid secp256k1 scalar.
pub uninterp spec fn bip32_child(parent: ExtKeyView, child_number: u32) -> Option<ExtKeyView>;

/// The 33-byte compressed public key of an extended private key.
pub uninterp spec fn bip32_public_key(k: ExtKeyView) -> Option<Seq<u8>>;

/// The 4-byte BIP32 fingerprint of the key's public key.
pub uninterp spec fn bip32_fingerprint(k: ExtKeyView) -> Option<Seq<u8>>;

/// The Base58Check `tpub` serialisation of the key's public key.
pub uninterp spec fn bip32_tpub_base58(k: ExtKeyView) -> Option<Seq<u8>>;

/// `bip32::XPrv::new(seed)`, read back through `to_extended_key`. Trusted:
/// the result is the named `bip32_master_key` of the seed.
#[verifier::external_body]
fn xprv_master(seed: &[u8; 64]) -> (r: Option<ExtKey>)
    ensures
        opt_key_view(r) == bip32_master_key(seed@),
{
    let ek = bip32::XPrv::new(seed).ok()?.to_extended_key(bip32::Prefix::XPRV);
    let (a, mut private_key) = (&ek.attrs, [0u8; 32]);
    private_key.copy_from_slice(&ek.key_bytes[1..]);
    Some(ExtKey { private_key, chain_code: a.chain_code, depth: a.depth, parent_fingerprint: a.parent_fingerprint, child_number: a.child_number.0 })
}

/// `bip32::XPrv::derive_child`, the parent rebuilt from its plain fields
/// with `XPrv::try_from(ExtendedKey)` and the child read back through
/// `to_extended_key`. Trusted: the result is the named `bip32_child` of
/// parent and child number.
#[verifier::external_body]
fn xprv_derive_child(k: &ExtKey, child_number: u32) -> (r: Option<ExtKey>)
    ensures
        opt_key_view(r) == bip32_child(k@, child_number),
{
    let mut kb = [0u8; 33];
    kb[1..].copy_from_slice(&k.private_key);
    let attrs = bip32::ExtendedKeyAttrs { depth: k.depth, parent_fingerprint: k.parent_fingerprint, child_number: bip32::ChildNumber(k.child_number), chain_code: k.chain_code };
    let x = bip32::XPrv::try_from(bip32::ExtendedKey { prefix: bip32::Prefix::XPRV, attrs, key_bytes: kb }).ok()?;
    let ek = x.derive_child(bip32::ChildNumber(child_number)).ok()?.to_extended_key(bip32::Prefix::XPRV);
    let (a, mut private_key) = (&ek.attrs, [0u8; 32]);
    private_key.copy_from_slice(&ek.key_bytes[1..]);
    Some(ExtKey { private_key, chain_code: a.chain_code, depth: a.depth, parent_fingerprint: a.parent_fingerprint, child_number: a.child_number.0 })
}

/// `XPrv::public_key().to_bytes()` (the compressed SEC1 public key), the key
/// rebuilt with `XPrv::try_from(ExtendedKey)`. Trusted: the result is the
/// named `bip32_public_key` of the key.
#[verifier::external_body]
fn xprv_public_key(k: &ExtKey) -> (r: Option<[u8; 33]>)
    ensures
        opt_bytes(r) == bip32_public_key(k@),
{
    let mut kb = [0u8; 33];
    kb[1..].copy_from_slice(&k.private_key);
    let attrs = bip32::ExtendedKeyAttrs { depth: k.depth, parent_fingerprint: k.parent_fingerprint, child_number: bip32::ChildNumber(k.child_number), chain_code: k.chain_code };
    let x = bip32::XPrv::try_from(bip32::ExtendedKey { prefix: bip32::Prefix::XPRV, attrs, key_bytes: kb }).ok()?;
    Some(x.public_key().to_bytes())
}

/// `XPrv::public_key().fingerprint()`, the key rebuilt with
/// `XPrv::try_from(ExtendedKey)`. Trusted: the result is the named
/// `bip32_fingerprint` of the key.
#[verifier::external_body]
fn xprv_fingerprint(k: &ExtKey) -> (r: Option<[u8; 4]>)
    ensures
        opt_bytes(r) == bip32_fingerprint(k@),
{
    let mut kb = [0u8; 33];
    kb[1..].copy_from_slice(&k.private_key);
    let attrs = bip32::ExtendedKeyAttrs { depth: k.depth, parent_fingerprint: k.parent_fingerprint, child_number: bip32::ChildNumber(k.child_number), chain_code: k.chain_code };
    let x = bip32::XPrv::try_from(bip32::ExtendedKey { prefix: bip32::Prefix::XPRV, attrs, key_bytes: kb }).ok()?;
    Some(x.public_key().fingerprint())
}

/// `XPrv::public_key().to_extended_key(Prefix::TPUB).write_base58(..)`, the
/// key rebuilt with `XPrv::try_from(ExtendedKey)`. Trusted: the text (at most
/// 112 bytes) is the named `bip32_tpub_base58` of the key, with its length.
#[verifier::external_body]
fn xprv_tpub_base58(k: &ExtKey) -> (r: Option<([u8; 112], usize)>)
    ensures
        match r {
            Some((buf, n)) => n <= 112 && bip32_tpub_base58(k@) == Some(buf@.take(n as int)),
            None => bip32_tpub_base58(k@) is None,
        },
{
    let mut kb = [0u8; 33];
    kb[1..].copy_from_slice(&k.private_key);
    let attrs = bip32::ExtendedKeyAttrs { depth: k.depth, parent_fingerprint: k.parent_fingerprint, child_number: bip32::ChildNumber(k.child_number), chain_code: k.chain_code };
    let x = bip32::XPrv::try_from(bip32::ExtendedKey { prefix: bip32::Prefix::XPRV, attrs, key_bytes: kb }).ok()?;
    let mut b58 = [0u8; 112];
    let n = x.public_key().to_extended_key(bip32::Prefix::TPUB).write_base58(&mut b58).ok()?.len();
    Some((b58, n))
}

// ── secp256k1 scalars and points ─────────────────────────────────────────────
/// The secp256k1 group order.
pub open spec fn curve_order() -> int {
    0xFFFFFFFFFFFFFFFFFFFFFFFFFFFFFFFEBAAEDCE6AF48A03BBFD25E8CD0364141int
}

/// Big-endian value of a byte string.
pub open spec fn be_value(b: Seq<u8>) -> int
    decreases b.len(),
{
    if b.len() == 0 {
        0
    } else {
        be_value(b.drop_last()) * 256 + b.last()
    }
}

/// 32-byte big-endian encoding of `v` (0 <= v < 2^256).
pub open spec fn be_bytes32(v: int) -> Seq<u8> {
    Seq::new(32, |i: int| ((v / pow256(31 - i)) % 256) as u8)
}

pub open spec fn pow256(e: int) -> int
    decreases e,
{
    if e <= 0 {
        1
    } else {
        256 * pow256(e - 1)
    }
}

/// `-d mod n` for a canonical scalar `d`, `None` when `d >= n`.
pub open spec fn scalar_negate_spec(d: Seq<u8>) -> Option<Seq<u8>> {
    if be_value(d) < curve_order() {
        Some(be_bytes32((curve_order() - be_value(d)) % curve_order()))
    } else {
        None
    }
}

/// `d + t mod n` for canonical scalars, `None` when either is not canonical
/// or the sum is zero.
pub open spec fn scalar_add_spec(d: Seq<u8>, t: Seq<u8>) -> Option<Seq<u8>> {
    if be_value(d) < curve_order() && be_value(t) < curve_order() && (be_value(d) + be_value(t))
        % curve_order() != 0 {
        Some(be_bytes32((be_value(d) + be_value(t)) % curve_order()))
    } else {
        None
    }
}

/// x-coordinate of `lift_x(p) + t*G` (BIP341 tweak), `None` when `p` is not
/// on the curve, `t` is not a canonical scalar, or the sum is the point at
/// infinity.
pub uninterp spec fn secp_xonly_tweak(p: Seq<u8>, t: Seq<u8>) -> Option<Seq<u8>>;

/// BIP340 signature of the 32-byte digest `msg` by the secret key `sk`
/// with auxiliary randomness `aux`.
pub uninterp spec fn bip340_signature(sk: Seq<u8>, msg: Seq<u8>, aux: Seq<u8>) -> Option<Seq<u8>>;

/// `k256::Scalar::from_repr` then negation and `to_repr`. Trusted: modular
/// negation of a canonical big-endian scalar; non-canonical input fails.
#[verifier::external_body]
fn scalar_negate(d: &[u8; 32]) -> (r: Option<[u8; 32]>)
    ensures
        opt_bytes(r) == scalar_negate_spec(d@),
{
    let s: Option<k256::Scalar> = <k256::Scalar as k256::elliptic_curve::PrimeField>::from_repr((*d).into()).into();
    Some(<k256::Scalar as k256::elliptic_curve::PrimeField>::to_repr(&-s?).into())
}

/// `k256::Scalar::from_repr` of both, their sum, `NonZeroScalar::new`.
/// Trusted: modular addition of canonical scalars, failing on a zero sum.
#[verifier::external_body]
pub(crate) fn scalar_add_nonzero(d: &[u8; 32], t: &[u8; 32]) -> (r: Option<[u8; 32]>)
    ensures
        opt_bytes(r) == scalar_add_spec(d@, t@),
{
    let a: Option<k256::Scalar> = <k256::Scalar as k256::elliptic_curve::PrimeField>::from_repr((*d).into()).into();
    let b: Option<k256::Scalar> = <k256::Scalar as k256::elliptic_curve::PrimeField>::from_repr((*t).into()).into();
    let s: Option<k256::NonZeroScalar> = k256::NonZeroScalar::new(a? + b?).into();
    Some(s?.to_bytes().into())
}

/// `lift_x(p) + t*G` with `k256`: the point decoded from `02 || p`, the
/// scalar from `t`, the sum turned into a `PublicKey` (which refuses the
/// point at infinity) and re-encoded compressed. Trusted: the x-only result
/// is the named `secp_xonly_tweak` of `p` and `t`.
#[verifier::external_body]
fn xonly_tweak_add(p: &[u8; 32], t: &[u8; 32]) -> (r: Option<[u8; 32]>)
    ensures
        opt_bytes(r) == secp_xonly_tweak(p@, t@),
{
    let mut c = [2u8; 33];
    c[1..].copy_from_slice(p);
    let enc = k256::EncodedPoint::from_bytes(c).ok()?;
    let pt: Option<k256::AffinePoint> = k256::AffinePoint::from_encoded_point(&enc).into();
    let s: Option<k256::Scalar> = <k256::Scalar as k256::elliptic_curve::PrimeField>::from_repr((*t).into()).into();
    let q = k256::ProjectivePoint::from(pt?) + k256::ProjectivePoint::GENERATOR * s?;
    let pk = k256::PublicKey::from_affine(k256::AffinePoint::from(q)).ok()?;
    let mut out = [0u8; 32];
    out.copy_from_slice(&pk.to_encoded_point(true).as_bytes()[1..]);
    Some(out)
}

/// `k256::schnorr::SigningKey::from_bytes(sk)` then
/// `sign_prehash_with_aux_rand(msg, aux)`. Trusted: the 64-byte signature
/// is the named `bip340_signature` of key, digest and auxiliary randomness.
#[verifier::external_body]
pub(crate) fn schnorr_sign(sk: &[u8; 32], msg: &[u8; 32], aux: &[u8; 32]) -> (r: Option<[u8; 64]>)
    ensures
        opt_bytes(r) == bip340_signature(sk@, msg@, aux@),
{
    let key = k256::schnorr::SigningKey::from_bytes(sk).ok()?;
    Some(key.sign_prehash_with_aux_rand(msg, aux).ok()?.to_bytes())
}

// ── Paths ────────────────────────────────────────────────────────────────────
/// `bip32::ChildNumber::new`: indices from 2^31 up are refused; a hardened
/// index carries the top bit.
pub open spec fn child_number_spec(index: u32, hardened: bool) -> Option<u32> {
    if index >= 0x8000_0000 {
        None
    } else if hardened {
        Some((index + 0x8000_0000) as u32)
    } else {
        Some(index)
    }
}

pub fn child_number(index: u32, hardened: bool) -> (r: Option<u32>)
    ensures
        r == child_number_spec(index, hardened),
{
    if index >= 0x8000_0000 {
        None
    } else if hardened {
        Some(index + 0x8000_0000)
    } else {
        Some(index)
    }
}

pub open spec fn child_spec(k: Option<ExtKeyView>, index: u32, hardened: bool) -> Option<
    ExtKeyView,
> {
    match k {
        Some(key) => match child_number_spec(index, hardened) {
            Some(cn) => bip32_child(key, cn),
            None => None,
        },
        None => None,
    }
}

/// `m/86'/{coin}'/0'`.
pub open spec fn account_key_spec(seed: Seq<u8>) -> Option<ExtKeyView> {
    child_spec(
        child_spec(child_spec(bip32_master_key(seed), 86, true), NETWORK.coin_type_spec(), true),
        0,
        true,
    )
}

/// `m/86'/{coin}'/0'/{branch}/{index}`.
pub open spec fn path_key_spec(seed: Seq<u8>, branch: u32, index: u32) -> Option<ExtKeyView> {
    child_spec(child_spec(account_key_spec(seed), branch, false), index, false)
}

impl Network {
    pub open spec fn coin_type_spec(self) -> u32 {
        if self == Network::Mainnet {
            0
        } else {
            1
        }
    }
}

fn derive_child_at(k: &ExtKey, index: u32, hardened: bool) -> (r: Option<ExtKey>)
    ensures
        opt_key_view(r) == child_spec(Some(k@), index, hardened),
{
    match child_number(index, hardened) {
        Some(cn) => xprv_derive_child(k, cn),
        None => None,
    }
}

/// The BIP86 account key `m/86'/{coin}'/0'`.
fn account_xprv(seed: &[u8; 64]) -> (r: Option<ExtKey>)
    ensures
        opt_key_view(r) == account_key_spec(seed@),
{
    let m = xprv_master(seed)?;
    let a = derive_child_at(&m, 86, true)?;
    let b = derive_child_at(&a, NETWORK.coin_type(), true)?;
    derive_child_at(&b, 0, true)
}

fn derive_path(seed: &[u8; 64], branch: u32, index: u32) -> (r: Option<ExtKey>)
    ensures
        opt_key_view(r) == path_key_spec(seed@, branch, index),
{
    let acc = account_xprv(seed)?;
    let b = derive_child_at(&acc, branch, false)?;
    derive_child_at(&b, index, false)
}

// ── Taproot keys ─────────────────────────────────────────────────────────────
/// The x-only internal key at a path: the compressed public key without
/// its parity byte.
pub open spec fn xonly_at_spec(seed: Seq<u8>, branch: u32, index: u32) -> Option<Seq<u8>> {
    match path_key_spec(seed, branch, index) {
        Some(k) => match bip32_public_key(k) {
            Some(pk) => Some(pk.skip(1)),
            None => None,
        },
        None => None,
    }
}

/// The internal key and the private key that goes with its even-y lift:
/// the derived private key, negated when the public key has odd y.
pub open spec fn keypair_at_spec(seed: Seq<u8>, branch: u32, index: u32) -> Option<
    (Seq<u8>, Seq<u8>),
> {
    match path_key_spec(seed, branch, index) {
        Some(k) => match bip32_public_key(k) {
            Some(pk) => if pk[0] == 3 {
                match scalar_negate_spec(k.private_key) {
                    Some(neg) => Some((pk.skip(1), neg)),
                    None => None,
                }
            } else {
                Some((pk.skip(1), k.private_key))
            },
            None => None,
        },
        None => None,
    }
}

fn xonly_of(pk: &[u8; 33]) -> (r: [u8; 32])
    ensures
        r@ == pk@.skip(1),
{
    let mut out = [0u8; 32];
    let mut i: usize = 0;
    while i < 32
        invariant
            i <= 32,
            forall|j: int| 0 <= j < i ==> out@[j] == pk@[j + 1],
        decreases 32 - i,
    {
        out[i] = pk[i + 1];
        i = i + 1;
    }
    assert(out@ =~= pk@.skip(1));
    out
}

/// The x-only internal key for `m/86'/{coin}'/0'/{branch}/{index}`.
pub fn tap_xonly_at(seed: &[u8; 64], branch: u32, index: u32) -> (r: Option<[u8; 32]>)
    ensures
        opt_bytes(r) == xonly_at_spec(seed@, branch, index),
{
    let k = derive_path(seed, branch, index)?;
    let pk = xprv_public_key(&k)?;
    Some(xonly_of(&pk))
}

/// `(x_only_internal_key, private_key)` for the path, the private key
/// normalised to the even-y internal key (BIP340).
pub fn tap_keypair_at(seed: &[u8; 64], branch: u32, index: u32) -> (r: Option<([u8; 32], [u8; 32])>)
    ensures
        match r {
            Some((ik, sk)) => keypair_at_spec(seed@, branch, index) == Some((ik@, sk@)),
            None => keypair_at_spec(seed@, branch, index) is None,
        },
{
    let k = derive_path(seed, branch, index)?;
    let pk = xprv_public_key(&k)?;
    let ik = xonly_of(&pk);
    if pk[0] == 3 {
        let neg = scalar_negate(&k.private_key)?;
        Some((ik, neg))
    } else {
        Some((ik, k.private_key))
    }
}

/// The keypair at the first receive path `m/86'/{coin}'/0'/0/0`.
pub fn tap_keypair(seed: &[u8; 64]) -> (r: Option<([u8; 32], [u8; 32])>)
    ensures
        match r {
            Some((ik, sk)) => keypair_at_spec(seed@, 0, 0) == Some((ik@, sk@)),
            None => keypair_at_spec(seed@, 0, 0) is None,
        },
{
    tap_keypair_at(seed, RECEIVE_BRANCH, 0)
}

/// "TapTweak".
pub open spec fn tap_tweak_tag() -> Seq<u8> {
    seq![84u8, 97u8, 112u8, 84u8, 119u8, 101u8, 97u8, 107u8]
}

/// `H_TapTweak(P)`.
pub open spec fn tap_tweak_hash(p: Seq<u8>) -> Seq<u8> {
    tagged_hash_spec(tap_tweak_tag(), p)
}

/// The BIP86 output key `Q = P + H_TapTweak(P)*G` (x-only).
pub open spec fn output_key_spec(p: Seq<u8>) -> Option<Seq<u8>> {
    secp_xonly_tweak(p, tap_tweak_hash(p))
}

pub fn tap_tweak_hash_exec(internal_key: &[u8; 32]) -> (r: [u8; 32])
    ensures
        r@ == tap_tweak_hash(internal_key@),
{
    let tag = [84u8, 97u8, 112u8, 84u8, 119u8, 101u8, 97u8, 107u8];
    assert(tag@ =~= tap_tweak_tag());
    tagged_hash(&tag, internal_key)
}

/// The tweaked output key `Q = P + H_TapTweak(P)*G` (public, x-only): the
/// witness program of the P2TR output of internal key `P`.
pub fn taproot_tweak_pub(internal_key: &[u8; 32]) -> (r: Option<[u8; 32]>)
    ensures
        opt_bytes(r) == output_key_spec(internal_key@),
{
    let t = tap_tweak_hash_exec(internal_key);
    xonly_tweak_add(internal_key, &t)
}

pub open spec fn address_spec(seed: Seq<u8>) -> Option<Seq<u8>> {
    match xonly_at_spec(seed, 0, 0) {
        Some(ik) => match output_key_spec(ik) {
            Some(ok) => Some(p2tr_address_spec(ok, network_hrp(NETWORK))),
            None => None,
        },
        None => None,
    }
}

/// Law: the receive address, when it derives, is 62 ASCII bytes starting
/// with `tb1p`.
pub proof fn lemma_receive_address_shape(seed: Seq<u8>)
    ensures
        address_spec(seed) matches Some(a) ==> {
            &&& a.len() == 62
            &&& a.take(4) == seq![116u8, 98u8, 49u8, 112u8]
            &&& forall|i: int| 0 <= i < 62 ==> #[trigger] a[i] < 128
        },
{
    if let Some(a) = address_spec(seed) {
        let ok = output_key_spec(xonly_at_spec(seed, 0, 0)->Some_0)->Some_0;
        let hrp = network_hrp(NETWORK);
        assert(hrp == seq![116u8, 98u8]);
        crate::bech32::lemma_address_is_ascii(ok, hrp);
        assert(a.take(4) =~= seq![116u8, 98u8, 49u8, 112u8]);
    }
}

/// The BIP86 P2TR receive address of the seed (`m/86'/{coin}'/0'/0/0`),
/// 62 ASCII bytes on `NETWORK`.
pub fn taproot_address(seed: &[u8; 64]) -> (r: Option<[u8; 62]>)
    ensures
        opt_bytes(r) == address_spec(seed@),
{
    let ik = tap_xonly_at(seed, RECEIVE_BRANCH, 0)?;
    let ok = taproot_tweak_pub(&ik)?;
    Some(p2tr_address_bytes(&ok, NETWORK.hrp_bytes()))
}

/// Encodes a 32-byte witness program as a P2TR address on `NETWORK`.
pub fn address_from_witness_program(witness_program: &[u8; 32]) -> (r: [u8; 62])
    ensures
        r@ == p2tr_address_spec(witness_program@, network_hrp(NETWORK)),
{
    p2tr_address_bytes(witness_program, NETWORK.hrp_bytes())
}

/// Encodes a 32-byte witness program with a two-character prefix.
pub fn p2tr_address(witness_program: &[u8; 32], hrp: &str) -> (r: [u8; 62])
    requires
        hrp.spec_bytes().len() == 2,
    ensures
        r@ == p2tr_address_spec(witness_program@, hrp.spec_bytes()),
{
    let b = hrp.as_bytes();
    let h = [b[0], b[1]];
    assert(h@ =~= hrp.spec_bytes());
    p2tr_address_bytes(witness_program, h)
}

// ── The derivation window ────────────────────────────────────────────────────
pub open spec fn slot_branch(slot: int) -> u32 {
    if slot < 20 {
        0
    } else {
        1
    }
}

pub open spec fn slot_index(slot: int) -> u32 {
    (slot % 20) as u32
}

/// (branch, index) of each slot: receive 0..20, then change 0..20.
pub fn key_window_slots() -> (r: [(u32, u32); 40])
    ensures
        forall|i: int| 0 <= i < 40 ==> #[trigger] r@[i] == (slot_branch(i), slot_index(i)),
{
    let mut slots = [(0u32, 0u32); 40];
    let mut i: usize = 0;
    while i < 40
        invariant
            i <= 40,
            forall|j: int| 0 <= j < i ==> #[trigger] slots@[j] == (slot_branch(j), slot_index(j)),
        decreases 40 - i,
    {
        let index = (i % 20) as u32;
        let branch = if i < 20 { RECEIVE_BRANCH } else { CHANGE_BRANCH };
        slots[i] = (branch, index);
        i = i + 1;
    }
    slots
}

/// The window's internal keys, or `None` if any derivation fails.
pub open spec fn internal_keys_spec(seed: Seq<u8>) -> Option<Seq<Seq<u8>>> {
    if forall|s: int| 0 <= s < 40 ==> #[trigger] xonly_at_spec(seed, slot_branch(s), slot_index(s)) is Some {
        Some(Seq::new(40, |s: int| xonly_at_spec(seed, slot_branch(s), slot_index(s))->Some_0))
    } else {
        None
    }
}

/// The output key of a slot.
pub open spec fn slot_output_key(seed: Seq<u8>, s: int) -> Option<Seq<u8>> {
    match xonly_at_spec(seed, slot_branch(s), slot_index(s)) {
        Some(ik) => output_key_spec(ik),
        None => None,
    }
}

/// The window's output keys (witness programs), or `None` if any fails.
pub open spec fn output_keys_spec(seed: Seq<u8>) -> Option<Seq<Seq<u8>>> {
    if forall|s: int| 0 <= s < 40 ==> #[trigger] slot_output_key(seed, s) is Some {
        Some(Seq::new(40, |s: int| slot_output_key(seed, s)->Some_0))
    } else {
        None
    }
}

pub open spec fn keys_view(k: [[u8; 32]; 40]) -> Seq<Seq<u8>> {
    Seq::new(40, |s: int| k@[s]@)
}

pub open spec fn opt_keys_view(k: Option<[[u8; 32]; 40]>) -> Option<Seq<Seq<u8>>> {
    match k {
        Some(x) => Some(keys_view(x)),
        None => None,
    }
}

/// The wallet's internal keys across the window (receive then change).
pub fn own_internal_keys(seed: &[u8; 64]) -> (r: Option<[[u8; 32]; 40]>)
    ensures
        opt_keys_view(r) == internal_keys_spec(seed@),
{
    let slots = key_window_slots();
    let mut out = [[0u8; 32]; 40];
    let mut s: usize = 0;
    while s < 40
        invariant
            s <= 40,
            forall|i: int| 0 <= i < 40 ==> #[trigger] slots@[i] == (slot_branch(i), slot_index(i)),
            forall|j: int|
                0 <= j < s ==> #[trigger] xonly_at_spec(seed@, slot_branch(j), slot_index(j))
                    == Some(out@[j]@),
        decreases 40 - s,
    {
        let (branch, index) = slots[s];
        match tap_xonly_at(seed, branch, index) {
            Some(k) => {
                out[s] = k;
            },
            None => {
                assert(!(xonly_at_spec(seed@, slot_branch(s as int), slot_index(s as int)) is Some));
                return None;
            },
        }
        s = s + 1;
    }
    assert(keys_view(out) =~= Seq::new(
        40,
        |i: int| xonly_at_spec(seed@, slot_branch(i), slot_index(i))->Some_0,
    ));
    Some(out)
}

/// The wallet's output keys across the window: the witness programs of its
/// own P2TR outputs.
pub fn own_output_keys(seed: &[u8; 64]) -> (r: Option<[[u8; 32]; 40]>)
    ensures
        opt_keys_view(r) == output_keys_spec(seed@),
{
    let slots = key_window_slots();
    let mut out = [[0u8; 32]; 40];
    let mut s: usize = 0;
    while s < 40
        invariant
            s <= 40,
            forall|i: int| 0 <= i < 40 ==> #[trigger] slots@[i] == (slot_branch(i), slot_index(i)),
            forall|j: int| 0 <= j < s ==> #[trigger] slot_output_key(seed@, j) == Some(out@[j]@),
        decreases 40 - s,
    {
        let (branch, index) = slots[s];
        let ik = match tap_xonly_at(seed, branch, index) {
            Some(k) => k,
            None => {
                assert(!(slot_output_key(seed@, s as int) is Some));
                return None;
            },
        };
        match taproot_tweak_pub(&ik) {
            Some(k) => {
                out[s] = k;
            },
            None => {
                assert(!(slot_output_key(seed@, s as int) is Some));
                return None;
            },
        }
        s = s + 1;
    }
    assert(keys_view(out) =~= Seq::new(40, |i: int| slot_output_key(seed@, i)->Some_0));
    Some(out)
}

// ── Descriptor export (BIP380/386) ───────────────────────────────────────────
/// Lowercase hex of the four fingerprint bytes.
pub open spec fn hex8_spec(fp: Seq<u8>) -> Seq<u8> {
    Seq::new(
        8,
        |i: int|
            if i % 2 == 0 {
                hex_digit(fp[i / 2] as int / 16)
            } else {
                hex_digit(fp[i / 2] as int % 16)
            },
    )
}

/// `tr([<fingerprint>/86h/<coin>h/0h]<tpub>/<0;1>/*)`.
pub open spec fn descriptor_body_spec(fp: Seq<u8>, tpub: Seq<u8>) -> Seq<u8> {
    seq![116u8, 114u8, 40u8, 91u8] + hex8_spec(fp) + seq![
        47u8,
        56u8,
        54u8,
        104u8,
        47u8,
        if NETWORK.coin_type_spec() == 1 { 49u8 } else { 48u8 },
        104u8,
        47u8,
        48u8,
        104u8,
        93u8,
    ] + tpub + seq![47u8, 60u8, 48u8, 59u8, 49u8, 62u8, 47u8, 42u8, 41u8]
}

/// The BIP386 descriptor of the seed, `body#checksum`, when every step
/// succeeds and it fits `DESCRIPTOR_MAX` bytes.
pub open spec fn descriptor_spec(seed: Seq<u8>) -> Option<Seq<u8>> {
    match bip32_master_key(seed) {
        None => None,
        Some(m) => match bip32_fingerprint(m) {
            None => None,
            Some(fp) => match account_key_spec(seed) {
                None => None,
                Some(acc) => match bip32_tpub_base58(acc) {
                    None => None,
                    Some(tpub) => {
                        let body = descriptor_body_spec(fp, tpub);
                        if body.len() + 9 <= DESCRIPTOR_MAX && crate::descriptor::all_in_charset(
                            body,
                        ) {
                            Some(body + seq![35u8] + checksum_chars(body))
                        } else {
                            None
                        }
                    },
                },
            },
        },
    }
}

/// Builds the BIP386 output descriptor of this wallet,
/// `tr([<fingerprint>/86h/{coin}h/0h]<account-tpub>/<0;1>/*)#<checksum>`,
/// The BIP32 child `n` (hardened when `n >= 2^31`) of a key, if both exist.
pub open spec fn then_child(k: Option<ExtKeyView>, n: u32) -> Option<ExtKeyView> {
    match k {
        Some(key) => bip32_child(key, n),
        None => None,
    }
}

/// Law (BIP86 on testnet): the account key is `m/86'/1'/0'` (children
/// 0x80000056, 0x80000001, 0x80000000 of the master key), and the key of
/// a path is the account's unhardened child `branch`, then `index`.
pub proof fn lemma_bip86_paths(seed: Seq<u8>, branch: u32, index: u32)
    requires
        branch < 0x8000_0000,
        index < 0x8000_0000,
    ensures
        account_key_spec(seed) == then_child(
            then_child(then_child(bip32_master_key(seed), 0x8000_0056), 0x8000_0001),
            0x8000_0000,
        ),
        path_key_spec(seed, branch, index) == then_child(
            then_child(account_key_spec(seed), branch),
            index,
        ),
{
}

/// Law (BIP386 layout): an exported descriptor reads `tr([`, eight hex
/// digits of the fingerprint, `/86h/1h/0h]`, the key, `/<0;1>/*)` (receive
/// branch 0, change branch 1), `#` and eight checksum characters.
pub proof fn lemma_descriptor_layout(seed: Seq<u8>)
    ensures
        descriptor_spec(seed) matches Some(d) ==> {
            let n = d.len() as int;
            &&& n >= 41
            &&& d.take(4) == seq![116u8, 114u8, 40u8, 91u8]
            &&& d.subrange(12, 23) == seq![
                47u8,
                56u8,
                54u8,
                104u8,
                47u8,
                49u8,
                104u8,
                47u8,
                48u8,
                104u8,
                93u8,
            ]
            &&& d.subrange(n - 18, n - 9) == seq![47u8, 60u8, 48u8, 59u8, 49u8, 62u8, 47u8, 42u8, 41u8]
            &&& d[n - 9] == 35u8
        },
{
    if let Some(d) = descriptor_spec(seed) {
        let m = bip32_master_key(seed)->Some_0;
        let fp = bip32_fingerprint(m)->Some_0;
        let acc = account_key_spec(seed)->Some_0;
        let tpub = bip32_tpub_base58(acc)->Some_0;
        let body = descriptor_body_spec(fp, tpub);
        assert(d == body + seq![35u8] + checksum_chars(body));
        let n = d.len() as int;
        assert(hex8_spec(fp).len() == 8);
        assert(checksum_chars(body).len() == 8);
        assert(d.take(4) =~= seq![116u8, 114u8, 40u8, 91u8]);
        assert(d.subrange(12, 23) =~= seq![47u8, 56u8, 54u8, 104u8, 47u8, 49u8, 104u8, 47u8, 48u8, 104u8, 93u8]);
        assert(d.subrange(n - 18, n - 9) =~= seq![47u8, 60u8, 48u8, 59u8, 49u8, 62u8, 47u8, 42u8, 41u8]);
    }
}

/// into `out`, and returns its length; `out` is untouched on failure.
pub fn taproot_descriptor(seed: &[u8; 64], out: &mut [u8]) -> (r: Option<usize>)
    ensures
        match r {
            Some(n) => descriptor_spec(seed@) matches Some(d) && d.len() == n && n <= old(out)@.len()
                && final(out)@.take(n as int) == d && final(out)@.skip(n as int) == old(out)@.skip(
                n as int,
            ),
            None => final(out)@ == old(out)@ && (descriptor_spec(seed@) matches Some(d) ==> d.len()
                > old(out)@.len()),
        },
{
    let master = xprv_master(seed)?;
    let fp = xprv_fingerprint(&master)?;
    let fp_hex = hex_8(&fp);
    assert(fp_hex@ =~= hex8_spec(fp@));
    let account = account_xprv(seed)?;
    let (b58, b58_len) = xprv_tpub_base58(&account)?;
    let tpub = vstd::slice::slice_subrange(b58.as_slice(), 0, b58_len);
    let coin_char: u8 = if NETWORK.coin_type() == 1 { 49 } else { 48 };
    let mut body: Vec<u8> = Vec::new();
    crate::hashes::append_bytes(&mut body, &[116u8, 114u8, 40u8, 91u8]);
    crate::hashes::append_bytes(&mut body, &fp_hex);
    crate::hashes::append_bytes(
        &mut body,
        &[47u8, 56u8, 54u8, 104u8, 47u8, coin_char, 104u8, 47u8, 48u8, 104u8, 93u8],
    );
    crate::hashes::append_bytes(&mut body, tpub);
    crate::hashes::append_bytes(&mut body, &[47u8, 60u8, 48u8, 59u8, 49u8, 62u8, 47u8, 42u8, 41u8]);
    let ghost spec_body = descriptor_body_spec(fp@, tpub@);
    assert(body@ =~= spec_body);
    if body.len() + 9 > 200 {
        return None;
    }
    let chk = descriptor_checksum(body.as_slice())?;
    let total = body.len() + 9;
    if out.len() < total {
        return None;
    }
    let mut i: usize = 0;
    let ghost full = body@ + seq![35u8] + chk@;
    while i < total
        invariant
            total == body@.len() + 9,
            total <= out@.len(),
            full == body@ + seq![35u8] + chk@,
            i <= total,
            out@.len() == old(out)@.len(),
            forall|j: int| 0 <= j < i ==> out@[j] == full[j],
            forall|j: int| total <= j < out@.len() ==> out@[j] == old(out)@[j],
        decreases total - i,
    {
        let b = if i < body.len() {
            body[i]
        } else if i == body.len() {
            35u8
        } else {
            chk[i - body.len() - 1]
        };
        out[i] = b;
        i = i + 1;
    }
    assert(out@.take(total as int) =~= full);
    assert(out@.skip(total as int) =~= old(out)@.skip(total as int));
    Some(total)
}

// ── BIP39 word indices ───────────────────────────────────────────────────────
/// Bit `p` (most significant first) of 24 concatenated 11-bit indices.
pub open spec fn index_bit(ix: Seq<u16>, p: int) -> int {
    ((ix[p / 11] as nat / vstd::arithmetic::power2::pow2((10 - p % 11) as nat)) % 2) as int
}

/// The first `b` bits of byte `j` of the packed bits, as a number.
pub open spec fn packed_prefix(ix: Seq<u16>, j: int, b: int) -> int
    decreases b,
{
    if b <= 0 {
        0
    } else {
        2 * packed_prefix(ix, j, b - 1) + index_bit(ix, 8 * j + b - 1)
    }
}

/// Byte `j` of the 33 bytes that 24 indices pack into.
pub open spec fn packed_byte(ix: Seq<u16>, j: int) -> u8 {
    packed_prefix(ix, j, 8) as u8
}

pub open spec fn packed_entropy(ix: Seq<u16>) -> Seq<u8> {
    Seq::new(32, |j: int| packed_byte(ix, j))
}

/// The 256-bit entropy the indices encode, when the 8-bit checksum they
/// carry is the first byte of its SHA-256.
pub open spec fn indices_to_entropy_spec(ix: Seq<u16>) -> Option<Seq<u8>> {
    if sha256_of(packed_entropy(ix))[0] == packed_byte(ix, 32) {
        Some(packed_entropy(ix))
    } else {
        None
    }
}

pub(crate) proof fn lemma_prefix_bound(ix: Seq<u16>, j: int, b: int)
    requires
        0 <= b <= 8,
    ensures
        0 <= packed_prefix(ix, j, b) < vstd::arithmetic::power2::pow2(b as nat),
    decreases b,
{
    vstd::arithmetic::power2::lemma2_to64();
    if b > 0 {
        lemma_prefix_bound(ix, j, b - 1);
        vstd::arithmetic::power2::lemma_pow2_unfold(b as nat);
    }
}

fn packed_byte_exec(indices: &[u16; 24], j: usize) -> (r: u8)
    requires
        j < 33,
    ensures
        r == packed_byte(indices@, j as int),
{
    let mut acc: u32 = 0;
    let mut b: usize = 0;
    while b < 8
        invariant
            j < 33,
            b <= 8,
            acc == packed_prefix(indices@, j as int, b as int),
        decreases 8 - b,
    {
        let p = 8 * j + b;
        let w = indices[p / 11];
        let k = (p % 11) as u16;
        let sh: u16 = 10 - k;
        let sw = w >> sh;
        let bit = sw & 1;
        proof {
            vstd::bits::lemma_u16_shr_is_div(w, sh);
            assert(sw & 1 == sw % 2) by (bit_vector);
            lemma_prefix_bound(indices@, j as int, b as int);
            vstd::arithmetic::power2::lemma2_to64();
            vstd::arithmetic::power2::lemma_pow2_pos((b) as nat);
        }
        acc = 2 * acc + bit as u32;
        b = b + 1;
    }
    proof {
        lemma_prefix_bound(indices@, j as int, 8);
        vstd::arithmetic::power2::lemma2_to64();
    }
    acc as u8
}

/// Converts 24 BIP39 word indices back to the 32-byte entropy; `None` when
/// the 8-bit checksum they carry does not match SHA-256 of the entropy.
pub fn indices_to_entropy(indices: &[u16; 24]) -> (r: Option<[u8; 32]>)
    ensures
        opt_bytes(r) == indices_to_entropy_spec(indices@),
{
    let mut entropy = [0u8; 32];
    let mut j: usize = 0;
    while j < 32
        invariant
            j <= 32,
            forall|k: int| 0 <= k < j ==> entropy@[k] == packed_byte(indices@, k),
        decreases 32 - j,
    {
        entropy[j] = packed_byte_exec(indices, j);
        j = j + 1;
    }
    assert(entropy@ =~= packed_entropy(indices@));
    let checksum = packed_byte_exec(indices, 32);
    let hash = sha256_hash(&entropy);
    if hash[0] == checksum {
        Some(entropy)
    } else {
        None
    }
}

} // verus!

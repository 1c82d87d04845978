//! Bech32m (BIP350) encoding of witness-v1 (P2TR) addresses.
use vstd::prelude::*;

verus! {

/// The bech32 data alphabet.
pub open spec fn charset() -> Seq<u8> {
    seq![
        113u8, 112u8, 122u8, 114u8, 121u8, 57u8, 120u8, 56u8, 103u8, 102u8, 50u8, 116u8, 118u8, 100u8, 119u8,
        48u8, 115u8, 51u8, 106u8, 110u8, 53u8, 52u8, 107u8, 104u8, 99u8, 101u8, 54u8, 109u8, 117u8, 97u8,
        55u8, 108u8,
    ]
}

pub const BECH32M_CONST: u32 = 0x2bc8_30a3;

/// Bit `b` (most significant first) of the 256-bit program; zero past the end.
pub open spec fn program_bit(wp: Seq<u8>, b: int) -> int {
    if b < 256 {
        ((wp[b / 8] as int) / pow2_spec(7 - b % 8)) % 2
    } else {
        0
    }
}

pub open spec fn pow2_spec(e: int) -> int
    decreases e,
{
    if e <= 0 {
        1
    } else {
        2 * pow2_spec(e - 1)
    }
}

/// The `i`-th 5-bit group of the program, the last one padded with zeros.
pub open spec fn program_group(wp: Seq<u8>, i: int) -> int {
    16 * program_bit(wp, 5 * i) + 8 * program_bit(wp, 5 * i + 1) + 4 * program_bit(wp, 5 * i + 2)
        + 2 * program_bit(wp, 5 * i + 3) + program_bit(wp, 5 * i + 4)
}

/// The 52 five-bit groups of a 32-byte program.
pub open spec fn program_groups(wp: Seq<u8>) -> Seq<u8> {
    Seq::new(52, |i: int| program_group(wp, i) as u8)
}

/// BIP173 `hrp_expand`: high bits of each character, a zero, low bits.
pub open spec fn hrp_expand(hrp: Seq<u8>) -> Seq<u8> {
    hrp.map_values(|c: u8| c >> 5u8) + seq![0u8] + hrp.map_values(|c: u8| c & 31u8)
}

/// One step of the BCH checksum over GF(32).
pub open spec fn polymod_step(chk: u32, v: u8) -> u32 {
    let b = chk >> 25u32;
    let c0 = ((chk & 0x1ff_ffff) << 5u32) ^ (v as u32);
    let c1 = if b & 1 != 0 { c0 ^ 0x3b6a57b2 } else { c0 };
    let c2 = if (b >> 1u32) & 1 != 0 { c1 ^ 0x26508e6d } else { c1 };
    let c3 = if (b >> 2u32) & 1 != 0 { c2 ^ 0x1ea119fa } else { c2 };
    let c4 = if (b >> 3u32) & 1 != 0 { c3 ^ 0x3d4233dd } else { c3 };
    if (b >> 4u32) & 1 != 0 { c4 ^ 0x2a1462b3 } else { c4 }
}

/// The bech32 checksum polynomial of `values`, starting from 1.
pub open spec fn bech32_polymod(values: Seq<u8>) -> u32
    decreases values.len(),
{
    if values.len() == 0 {
        1
    } else {
        polymod_step(bech32_polymod(values.drop_last()), values.last())
    }
}

/// What the checksum is computed over: expanded HRP, witness version 1,
/// the data groups, six zero placeholders.
pub open spec fn checksum_input(hrp: Seq<u8>, wp: Seq<u8>) -> Seq<u8> {
    hrp_expand(hrp) + seq![1u8] + program_groups(wp) + Seq::new(6, |i: int| 0u8)
}

pub open spec fn address_checksum(hrp: Seq<u8>, wp: Seq<u8>) -> u32 {
    bech32_polymod(checksum_input(hrp, wp)) ^ BECH32M_CONST
}

/// `hrp || "1" || "p" || 52 data characters || 6 checksum characters`.
pub open spec fn p2tr_address_spec(wp: Seq<u8>, hrp: Seq<u8>) -> Seq<u8> {
    hrp + seq![49u8, 112u8] + program_groups(wp).map_values(|g: u8| charset()[g as int]) + Seq::new(
        6,
        |i: int| charset()[((address_checksum(hrp, wp) >> (5 * (5 - i)) as u32) & 31) as int],
    )
}

/// The bech32 alphabet as a table.
pub fn charset_table() -> (r: [u8; 32])
    ensures
        r@ == charset(),
{
    let cs: [u8; 32] = [
        113u8, 112u8, 122u8, 114u8, 121u8, 57u8, 120u8, 56u8, 103u8, 102u8, 50u8, 116u8, 118u8,
        100u8, 119u8, 48u8, 115u8, 51u8, 106u8, 110u8, 53u8, 52u8, 107u8, 104u8, 99u8, 101u8, 54u8,
        109u8, 117u8, 97u8, 55u8, 108u8,
    ];
    assert(cs@ =~= charset());
    cs
}

fn charset_at(i: u8) -> (c: u8)
    requires
        i < 32,
    ensures
        c == charset()[i as int],
{
    let cs = charset_table();
    cs[i as usize]
}

fn bit_of(wp: &[u8; 32], b: usize) -> (r: u8)
    ensures
        r == program_bit(wp@, b as int),
        r <= 1,
{
    if b >= 256 {
        return 0;
    }
    let byte = wp[b / 8];
    let sh = 7 - b % 8;
    let r = (byte >> (sh as u8)) & 1;
    assert(r == ((byte as int) / pow2_spec(sh as int)) % 2) by {
        lemma_shift_bit(byte, sh as u8);
    }
    r
}

proof fn lemma_shift_bit(byte: u8, sh: u8)
    requires
        sh < 8,
    ensures
        (byte >> sh) & 1 == ((byte as int) / pow2_spec(sh as int)) % 2,
{
    reveal_with_fuel(pow2_spec, 9);
    assert({
        &&& (byte >> sh) & 1 == (byte >> sh) % 2
        &&& sh == 0 ==> byte >> sh == byte
        &&& sh == 1 ==> byte >> sh == byte / 2
        &&& sh == 2 ==> byte >> sh == byte / 4
        &&& sh == 3 ==> byte >> sh == byte / 8
        &&& sh == 4 ==> byte >> sh == byte / 16
        &&& sh == 5 ==> byte >> sh == byte / 32
        &&& sh == 6 ==> byte >> sh == byte / 64
        &&& sh == 7 ==> byte >> sh == byte / 128
    }) by (bit_vector);
}

fn polymod_step_exec(chk: u32, v: u8) -> (r: u32)
    ensures
        r == polymod_step(chk, v),
{
    let b = chk >> 25;
    let mut c = ((chk & 0x1ff_ffff) << 5) ^ (v as u32);
    if b & 1 != 0 {
        c = c ^ 0x3b6a57b2;
    }
    if (b >> 1) & 1 != 0 {
        c = c ^ 0x26508e6d;
    }
    if (b >> 2) & 1 != 0 {
        c = c ^ 0x1ea119fa;
    }
    if (b >> 3) & 1 != 0 {
        c = c ^ 0x3d4233dd;
    }
    if (b >> 4) & 1 != 0 {
        c = c ^ 0x2a1462b3;
    }
    c
}

/// The bech32 checksum polynomial of `values`.
pub fn bech32m_polymod(values: &[u8]) -> (r: u32)
    ensures
        r == bech32_polymod(values@),
{
    let mut chk: u32 = 1;
    let mut i: usize = 0;
    while i < values.len()
        invariant
            i <= values@.len(),
            chk == bech32_polymod(values@.take(i as int)),
        decreases values@.len() - i,
    {
        assert(values@.take(i + 1).drop_last() =~= values@.take(i as int));
        chk = polymod_step_exec(chk, values[i]);
        i = i + 1;
    }
    assert(values@.take(i as int) =~= values@);
    chk
}

/// Encodes a 32-byte witness program as a bech32m P2TR address with the
/// two-character prefix `hrp`: 62 ASCII bytes.
pub fn p2tr_address_bytes(witness_program: &[u8; 32], hrp: [u8; 2]) -> (r: [u8; 62])
    ensures
        r@ == p2tr_address_spec(witness_program@, hrp@),
{
    let ghost wp = witness_program@;
    // 8 -> 5 bit conversion.
    let mut groups = [0u8; 52];
    let mut i: usize = 0;
    while i < 52
        invariant
            i <= 52,
            wp == witness_program@,
            forall|k: int| 0 <= k < i ==> groups@[k] == program_groups(wp)[k],
        decreases 52 - i,
    {
        let g = 16 * bit_of(witness_program, 5 * i) + 8 * bit_of(witness_program, 5 * i + 1) + 4
            * bit_of(witness_program, 5 * i + 2) + 2 * bit_of(witness_program, 5 * i + 3) + bit_of(
            witness_program,
            5 * i + 4,
        );
        groups[i] = g;
        i = i + 1;
    }
    assert(groups@ =~= program_groups(wp));
    // Checksum input.
    let mut values: Vec<u8> = Vec::new();
    values.push(hrp[0] >> 5);
    values.push(hrp[1] >> 5);
    values.push(0);
    values.push(hrp[0] & 31);
    values.push(hrp[1] & 31);
    values.push(1);
    let mut j: usize = 0;
    while j < 52
        invariant
            j <= 52,
            values@ == hrp_expand(hrp@) + seq![1u8] + groups@.take(j as int),
        decreases 52 - j,
    {
        values.push(groups[j]);
        assert(groups@.take(j + 1) =~= groups@.take(j as int).push(groups@[j as int]));
        j = j + 1;
    }
    let mut z: usize = 0;
    while z < 6
        invariant
            z <= 6,
            values@ == hrp_expand(hrp@) + seq![1u8] + groups@ + Seq::new(z as nat, |i: int| 0u8),
        decreases 6 - z,
    {
        values.push(0);
        assert(Seq::new((z + 1) as nat, |i: int| 0u8) =~= Seq::new(z as nat, |i: int| 0u8).push(0u8));
        z = z + 1;
    }
    assert(groups@.take(52) =~= groups@);
    assert(hrp_expand(hrp@) =~= seq![hrp[0] >> 5u8, hrp[1] >> 5u8, 0u8, hrp[0] & 31u8, hrp[1] & 31u8]);
    assert(values@ =~= checksum_input(hrp@, wp));
    let chk = bech32m_polymod(values.as_slice()) ^ BECH32M_CONST;
    let mut out = [0u8; 62];
    out[0] = hrp[0];
    out[1] = hrp[1];
    out[2] = 49u8;
    out[3] = charset_at(1);
    let mut k: usize = 0;
    while k < 52
        invariant
            k <= 52,
            groups@ == program_groups(wp),
            out@[0] == hrp[0],
            out@[1] == hrp[1],
            out@[2] == 49u8,
            out@[3] == 112u8,
            forall|m: int| 0 <= m < k ==> #[trigger] out@[4 + m] == charset()[groups@[m] as int],
            forall|m: int| 0 <= m < 52 ==> groups@[m] < 32,
        decreases 52 - k,
    {
        out[4 + k] = charset_at(groups[k]);
        k = k + 1;
    }
    let mut m: usize = 0;
    while m < 6
        invariant
            m <= 6,
            chk == address_checksum(hrp@, wp),
            out@[0] == hrp[0],
            out@[1] == hrp[1],
            out@[2] == 49u8,
            out@[3] == 112u8,
            forall|q: int| 0 <= q < 52 ==> #[trigger] out@[4 + q] == charset()[groups@[q] as int],
            forall|q: int|
                0 <= q < m ==> #[trigger] out@[56 + q] == charset()[((chk >> (5 * (5 - q)) as u32) & 31) as int],
        decreases 6 - m,
    {
        let sh = (5 * (5 - m)) as u32;
        let idx = (chk >> sh) & 31;
        assert(idx < 32) by (bit_vector)
            requires
                idx == (chk >> sh) & 31,
        ;
        out[56 + m] = charset_at(idx as u8);
        m = m + 1;
    }
    let ghost spec = p2tr_address_spec(wp, hrp@);
    assert forall|q: int| 0 <= q < 62 implies out@[q] == spec[q] by {
        if 4 <= q < 56 {
            assert(out@[4 + (q - 4)] == charset()[groups@[q - 4] as int]);
        } else if q >= 56 {
            assert(out@[56 + (q - 56)] == charset()[((chk >> (5 * (5 - (q - 56))) as u32) & 31) as int]);
        }
    }
    assert(out@ =~= spec);
    out
}

// ── Checksum validity ────────────────────────────────────────────────────────
/// The checksum polynomial continued from `chk` over `values`.
pub open spec fn polymod_from(chk: u32, values: Seq<u8>) -> u32
    decreases values.len(),
{
    if values.len() == 0 {
        chk
    } else {
        polymod_step(polymod_from(chk, values.drop_last()), values.last())
    }
}

/// The six checksum symbols of an address, most significant first.
pub open spec fn checksum_symbols(chk: u32) -> Seq<u8> {
    Seq::new(6, |i: int| ((chk >> (5 * (5 - i)) as u32) & 31) as u8)
}

pub open spec fn pack5(x: Seq<u8>) -> u32
    decreases x.len(),
{
    if x.len() == 0 {
        0
    } else {
        (pack5(x.drop_last()) << 5u32) ^ (x.last() as u32)
    }
}

pub open spec fn pow32_u32(k: nat) -> u32 {
    if k == 0 {
        1
    } else if k == 1 {
        0x20
    } else if k == 2 {
        0x400
    } else if k == 3 {
        0x8000
    } else if k == 4 {
        0x10_0000
    } else if k == 5 {
        0x200_0000
    } else {
        0x4000_0000
    }
}

proof fn lemma_polymod_is_from(values: Seq<u8>)
    ensures
        bech32_polymod(values) == polymod_from(1, values),
    decreases values.len(),
{
    if values.len() > 0 {
        lemma_polymod_is_from(values.drop_last());
    }
}

proof fn lemma_from_concat(c: u32, a: Seq<u8>, b: Seq<u8>)
    ensures
        polymod_from(c, a + b) == polymod_from(polymod_from(c, a), b),
    decreases b.len(),
{
    if b.len() == 0 {
        assert(a + b =~= a);
    } else {
        assert((a + b).drop_last() =~= a + b.drop_last());
        lemma_from_concat(c, a, b.drop_last());
    }
}

proof fn lemma_step_bound(chk: u32, v: u8)
    requires
        chk < 0x4000_0000,
    ensures
        polymod_step(chk, v) < 0x4000_0000,
{
    let c0 = ((chk & 0x1ff_ffff) << 5u32) ^ (v as u32);
    assert(c0 < 0x4000_0000) by (bit_vector)
        requires
            c0 == ((chk & 0x1ff_ffff) << 5u32) ^ (v as u32),
            v < 256,
    ;
    assert(forall|x: u32| x < 0x4000_0000 ==> #[trigger] (x ^ 0x3b6a57b2u32) < 0x4000_0000)
        by (bit_vector);
    assert(forall|x: u32| x < 0x4000_0000 ==> #[trigger] (x ^ 0x26508e6du32) < 0x4000_0000)
        by (bit_vector);
    assert(forall|x: u32| x < 0x4000_0000 ==> #[trigger] (x ^ 0x1ea119fau32) < 0x4000_0000)
        by (bit_vector);
    assert(forall|x: u32| x < 0x4000_0000 ==> #[trigger] (x ^ 0x3d4233ddu32) < 0x4000_0000)
        by (bit_vector);
    assert(forall|x: u32| x < 0x4000_0000 ==> #[trigger] (x ^ 0x2a1462b3u32) < 0x4000_0000)
        by (bit_vector);
}

proof fn lemma_from_bound(c: u32, a: Seq<u8>)
    requires
        c < 0x4000_0000,
    ensures
        polymod_from(c, a) < 0x4000_0000,
    decreases a.len(),
{
    if a.len() > 0 {
        lemma_from_bound(c, a.drop_last());
        lemma_step_bound(polymod_from(c, a.drop_last()), a.last());
    }
}

proof fn lemma_step_linear(p: u32, d: u32, w: u8)
    requires
        d < 0x200_0000,
        w < 32,
    ensures
        polymod_step(p ^ d, w) == polymod_step(p, 0) ^ ((d << 5u32) ^ (w as u32)),
{
    let q = p ^ d;
    assert((q >> 25u32) == (p >> 25u32)) by (bit_vector)
        requires
            q == p ^ d,
            d < 0x200_0000,
    ;
    assert(((q & 0x1ff_ffff) << 5u32) ^ (w as u32) == (((p & 0x1ff_ffff) << 5u32) ^ (0u8 as u32))
        ^ ((d << 5u32) ^ (w as u32))) by (bit_vector)
        requires
            q == p ^ d,
            d < 0x200_0000,
            w < 32,
    ;
    assert(forall|a: u32, b: u32, g: u32| #[trigger] ((a ^ b) ^ g) == (a ^ g) ^ b) by (bit_vector);
}

proof fn lemma_pack5_bound(x: Seq<u8>)
    requires
        x.len() <= 6,
        forall|i: int| 0 <= i < x.len() ==> x[i] < 32,
    ensures
        pack5(x) < pow32_u32(x.len()),
    decreases x.len(),
{
    if x.len() > 0 {
        let x2 = x.drop_last();
        lemma_pack5_bound(x2);
        let p = pack5(x2);
        let w = x.last() as u32;
        let bound = pow32_u32(x2.len());
        assert(pow32_u32(x2.len() + 1) == bound * 32);
        assert(bound <= 0x200_0000);
        assert((p << 5u32) ^ w < bound * 32) by (bit_vector)
            requires
                p < bound,
                bound <= 0x200_0000,
                w < 32,
        ;
    }
}

proof fn lemma_append_linear(c: u32, x: Seq<u8>)
    requires
        c < 0x4000_0000,
        x.len() <= 6,
        forall|i: int| 0 <= i < x.len() ==> x[i] < 32,
    ensures
        polymod_from(c, x) == polymod_from(c, Seq::new(x.len(), |i: int| 0u8)) ^ pack5(x),
    decreases x.len(),
{
    if x.len() == 0 {
        assert(Seq::new(0, |i: int| 0u8) =~= Seq::<u8>::empty());
        assert(forall|a: u32| #[trigger] (a ^ 0u32) == a) by (bit_vector);
    } else {
        let x2 = x.drop_last();
        lemma_append_linear(c, x2);
        lemma_pack5_bound(x2);
        assert(pow32_u32(x2.len()) <= 0x200_0000);
        let z = Seq::new(x.len(), |i: int| 0u8);
        assert(z.drop_last() =~= Seq::new(x2.len(), |i: int| 0u8));
        let p0 = polymod_from(c, Seq::new(x2.len(), |i: int| 0u8));
        lemma_step_linear(p0, pack5(x2), x.last());
    }
}

proof fn lemma_pack_checksum(chk: u32)
    requires
        chk < 0x4000_0000,
    ensures
        pack5(checksum_symbols(chk)) == chk,
{
    let x = checksum_symbols(chk);
    reveal_with_fuel(pack5, 7);
    let s0 = (chk >> 25u32) & 31;
    let s1 = (chk >> 20u32) & 31;
    let s2 = (chk >> 15u32) & 31;
    let s3 = (chk >> 10u32) & 31;
    let s4 = (chk >> 5u32) & 31;
    let s5 = (chk >> 0u32) & 31;
    assert(x[0] as u32 == s0 && x[1] as u32 == s1 && x[2] as u32 == s2 && x[3] as u32 == s3
        && x[4] as u32 == s4 && x[5] as u32 == s5) by {
        assert(forall|v: u32| #[trigger] ((v & 31) as u8) as u32 == v & 31) by (bit_vector);
    }
    assert(x.drop_last().drop_last().drop_last().drop_last().drop_last().drop_last() =~= Seq::<
        u8,
    >::empty());
    let p1 = (0u32 << 5u32) ^ s0;
    let p2 = (p1 << 5u32) ^ s1;
    let p3 = (p2 << 5u32) ^ s2;
    let p4 = (p3 << 5u32) ^ s3;
    let p5 = (p4 << 5u32) ^ s4;
    let p6 = (p5 << 5u32) ^ s5;
    assert(p6 == chk) by (bit_vector)
        requires
            chk < 0x4000_0000,
            s0 == (chk >> 25u32) & 31,
            s1 == (chk >> 20u32) & 31,
            s2 == (chk >> 15u32) & 31,
            s3 == (chk >> 10u32) & 31,
            s4 == (chk >> 5u32) & 31,
            s5 == (chk >> 0u32) & 31,
            p1 == (0u32 << 5u32) ^ s0,
            p2 == (p1 << 5u32) ^ s1,
            p3 == (p2 << 5u32) ^ s2,
            p4 == (p3 << 5u32) ^ s3,
            p5 == (p4 << 5u32) ^ s4,
            p6 == (p5 << 5u32) ^ s5,
    ;
}

/// Law (BIP350 validity): the checksum symbols that `p2tr_address_bytes`
/// writes make the bech32m polynomial of the whole data equal the bech32m
/// constant.
pub proof fn lemma_address_checksum_verifies(hrp: Seq<u8>, wp: Seq<u8>)
    ensures
        bech32_polymod(
            hrp_expand(hrp) + seq![1u8] + program_groups(wp) + checksum_symbols(
                address_checksum(hrp, wp),
            ),
        ) == BECH32M_CONST,
{
    let head = hrp_expand(hrp) + seq![1u8] + program_groups(wp);
    let z = Seq::new(6, |i: int| 0u8);
    let chk = address_checksum(hrp, wp);
    let x = checksum_symbols(chk);
    lemma_polymod_is_from(head + x);
    lemma_polymod_is_from(head + z);
    lemma_from_concat(1, head, x);
    lemma_from_concat(1, head, z);
    lemma_from_bound(1, head);
    lemma_from_bound(1, head + z);
    assert forall|i: int| 0 <= i < x.len() implies x[i] < 32 by {
        let sh = (5 * (5 - i)) as u32;
        assert(((chk >> sh) & 31) < 32) by (bit_vector);
    }
    lemma_append_linear(polymod_from(1, head), x);
    let pz = polymod_from(1, head + z);
    assert(chk == pz ^ BECH32M_CONST);
    assert(chk < 0x4000_0000) by (bit_vector)
        requires
            pz < 0x4000_0000,
            chk == pz ^ 0x2bc8_30a3u32,
    ;
    lemma_pack_checksum(chk);
    assert(pz ^ chk == BECH32M_CONST) by (bit_vector)
        requires
            chk == pz ^ 0x2bc8_30a3u32,
    ;
}

/// Every 5-bit group of the program is below 32.
proof fn lemma_group_bound(wp: Seq<u8>, i: int)
    ensures
        0 <= program_group(wp, i) < 32,
{
    assert forall|b: int| 0 <= #[trigger] program_bit(wp, b) < 2 by {}
}

/// Every character of the bech32 alphabet is ASCII.
proof fn lemma_charset_ascii(g: int)
    requires
        0 <= g < 32,
    ensures
        charset()[g] < 128,
{
    let cs = charset();
    assert(forall|k: int| 0 <= k < 32 ==> #[trigger] cs[k] < 128);
}

/// Law: a P2TR address over an ASCII prefix is ASCII: the prefix, `1p`, then
/// characters of the bech32 alphabet only.
pub proof fn lemma_address_is_ascii(wp: Seq<u8>, hrp: Seq<u8>)
    requires
        forall|i: int| 0 <= i < hrp.len() ==> #[trigger] hrp[i] < 128,
    ensures
        p2tr_address_spec(wp, hrp).len() == hrp.len() + 60,
        forall|i: int|
            0 <= i < p2tr_address_spec(wp, hrp).len() ==> #[trigger] p2tr_address_spec(wp, hrp)[i]
                < 128,
{
    let a = p2tr_address_spec(wp, hrp);
    let data = program_groups(wp).map_values(|g: u8| charset()[g as int]);
    let chk = address_checksum(hrp, wp);
    let tail = Seq::new(6, |i: int| charset()[((chk >> (5 * (5 - i)) as u32) & 31) as int]);
    assert(a == hrp + seq![49u8, 112u8] + data + tail);
    assert forall|j: int| 0 <= j < 52 implies #[trigger] data[j] < 128 by {
        lemma_group_bound(wp, j);
        lemma_charset_ascii(program_group(wp, j));
    }
    assert forall|j: int| 0 <= j < 6 implies #[trigger] tail[j] < 128 by {
        let sh = (5 * (5 - j)) as u32;
        let c = chk;
        assert((c >> sh) & 31 < 32) by (bit_vector);
        lemma_charset_ascii(((c >> sh) & 31) as int);
    }
    assert forall|i: int| 0 <= i < a.len() implies #[trigger] a[i] < 128 by {
        if i < hrp.len() {
        } else if i < hrp.len() + 2 {
        } else if i < hrp.len() + 54 {
            assert(a[i] == data[i - hrp.len() - 2]);
        } else {
            assert(a[i] == tail[i - hrp.len() - 54]);
        }
    }
}

} // verus!

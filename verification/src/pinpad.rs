//! The anti-smudge PIN pad: a shuffled digit order drawn from platform
//! entropy, and hit-testing of its keys.
use vstd::prelude::*;
use crate::layout::{PIN_KEY_H, PIN_KEY_STEP, PIN_KEY_W, PIN_ROW0_Y, PIN_ROW1_Y, PIN_ROW_X};

verus! {

pub const GOLDEN: u64 = 0x9E37_79B9_7F4A_7C15;

/// `x` rotated left by 17 bits.
pub open spec fn rotl17(x: u64) -> u64 {
    (x << 17u64) | (x >> 47u64)
}

pub open spec fn le64_at(e: Seq<u8>, k: int) -> u64 {
    crate::psbt::le64_value(e.subrange(8 * k, 8 * k + 8))
}

/// The PRNG seed: all 256 bits of entropy folded into 64, 8 bytes at a time.
pub open spec fn shuffle_seed(e: Seq<u8>) -> u64 {
    let s0 = GOLDEN;
    let s1 = rotl17(s0 ^ le64_at(e, 0));
    let s2 = rotl17(s1 ^ le64_at(e, 1));
    let s3 = rotl17(s2 ^ le64_at(e, 2));
    rotl17(s3 ^ le64_at(e, 3))
}

/// The splitmix64 output function.
pub open spec fn splitmix_mix(s: u64) -> u64 {
    let z1 = (s ^ (s >> 30u64)).wrapping_mul(0xBF58_476D_1CE4_E5B9);
    let z2 = (z1 ^ (z1 >> 27u64)).wrapping_mul(0x94D0_49BB_1331_11EB);
    z2 ^ (z2 >> 31u64)
}

/// The PRNG state after `k` draws from `seed`.
pub open spec fn splitmix_state(seed: u64, k: nat) -> u64
    decreases k,
{
    if k == 0 {
        seed
    } else {
        splitmix_state(seed, (k - 1) as nat).wrapping_add(GOLDEN)
    }
}

/// Draw number `k` (from 1).
pub open spec fn draw(seed: u64, k: nat) -> u64 {
    splitmix_mix(splitmix_state(seed, k))
}

pub open spec fn identity_order() -> Seq<u8> {
    seq![0u8, 1u8, 2u8, 3u8, 4u8, 5u8, 6u8, 7u8, 8u8, 9u8]
}

pub open spec fn swap_seq(s: Seq<u8>, i: int, j: int) -> Seq<u8> {
    s.update(i, s[j]).update(j, s[i])
}

/// Fisher-Yates after `t` swaps: swap `t` exchanges position `9 - t + 1`
/// with position `draw(t) % (10 - t + 1)`.
pub open spec fn shuffle_after(seed: u64, t: nat) -> Seq<u8>
    decreases t,
{
    if t == 0 {
        identity_order()
    } else {
        let i = 10 - t;
        swap_seq(shuffle_after(seed, (t - 1) as nat), i, (draw(seed, t) % (i + 1) as u64) as int)
    }
}

/// The PIN pad order for this entropy.
pub open spec fn shuffle_spec(e: Seq<u8>) -> Seq<u8> {
    shuffle_after(shuffle_seed(e), 9)
}

/// The order holds each digit 0..9 exactly once.
pub open spec fn is_digit_permutation(s: Seq<u8>) -> bool {
    &&& s.len() == 10
    &&& forall|i: int| 0 <= i < 10 ==> s[i] < 10
    &&& forall|i: int, j: int| 0 <= i < j < 10 ==> s[i] != s[j]
}

fn le64_chunk(e: &[u8; 32], k: usize) -> (r: u64)
    requires
        k < 4,
    ensures
        r == le64_at(e@, k as int),
{
    let b = 8 * k;
    (e[b] as u64) + (e[b + 1] as u64) * 0x100 + (e[b + 2] as u64) * 0x10000 + (e[b + 3] as u64)
        * 0x1000000 + (e[b + 4] as u64) * 0x100000000 + (e[b + 5] as u64) * 0x10000000000 + (e[b
        + 6] as u64) * 0x1000000000000 + (e[b + 7] as u64) * 0x100000000000000
}

/// Fisher-Yates shuffle of the digits 0-9 for the PIN pad, driven by a
/// splitmix64 generator seeded with all 256 bits of `entropy`.
pub fn shuffle(entropy: &[u8; 32]) -> (r: [u8; 10])
    ensures
        r@ == shuffle_spec(entropy@),
        is_digit_permutation(r@),
{
    let mut s: u64 = GOLDEN;
    let mut k: usize = 0;
    while k < 4
        invariant
            k <= 4,
            k == 0 ==> s == GOLDEN,
            k == 1 ==> s == rotl17(GOLDEN ^ le64_at(entropy@, 0)),
            k == 2 ==> s == rotl17(rotl17(GOLDEN ^ le64_at(entropy@, 0)) ^ le64_at(entropy@, 1)),
            k == 3 ==> s == rotl17(
                rotl17(rotl17(GOLDEN ^ le64_at(entropy@, 0)) ^ le64_at(entropy@, 1)) ^ le64_at(
                    entropy@,
                    2,
                ),
            ),
            k == 4 ==> s == shuffle_seed(entropy@),
        decreases 4 - k,
    {
        let x = s ^ le64_chunk(entropy, k);
        s = (x << 17) | (x >> 47);
        k = k + 1;
    }
    let ghost seed = s;
    let mut arr = [0u8, 1u8, 2u8, 3u8, 4u8, 5u8, 6u8, 7u8, 8u8, 9u8];
    assert(arr@ =~= identity_order());
    let mut t: usize = 0;
    while t < 9
        invariant
            t <= 9,
            s == splitmix_state(seed, t as nat),
            arr@ == shuffle_after(seed, t as nat),
            is_digit_permutation(arr@),
            seed == shuffle_seed(entropy@),
        decreases 9 - t,
    {
        s = s.wrapping_add(GOLDEN);
        let z1 = (s ^ (s >> 30)).wrapping_mul(0xBF58_476D_1CE4_E5B9);
        let z2 = (z1 ^ (z1 >> 27)).wrapping_mul(0x94D0_49BB_1331_11EB);
        let d = z2 ^ (z2 >> 31);
        let i = 9 - t;
        let j = (d % (i as u64 + 1)) as usize;
        let ghost prev = arr@;
        let a = arr[i];
        let b = arr[j];
        arr[i] = b;
        arr[j] = a;
        assert(arr@ =~= swap_seq(prev, i as int, j as int));
        assert forall|p: int, q: int| 0 <= p < q < 10 implies arr@[p] != arr@[q] by {
            let pp = if p == i { j as int } else if p == j { i as int } else { p };
            let qq = if q == i { j as int } else if q == j { i as int } else { q };
            assert(arr@[p] == prev[pp]);
            assert(arr@[q] == prev[qq]);
            if pp < qq {
                assert(prev[pp] != prev[qq]);
            } else {
                assert(prev[qq] != prev[pp]);
            }
        }
        t = t + 1;
    }
    arr
}

// ── Hit-testing ──────────────────────────────────────────────────────────────
pub open spec fn in_rect_spec(x: int, y: int, rx: int, ry: int, rw: int, rh: int) -> bool {
    x >= rx && x < rx + rw && y >= ry && y < ry + rh
}

/// `(x, y)` lies in the rectangle at `(rx, ry)` of size `rw` by `rh`.
pub fn in_rect(x: i32, y: i32, rx: i32, ry: i32, rw: i32, rh: i32) -> (r: bool)
    requires
        i32::MIN <= rx + rw <= i32::MAX,
        i32::MIN <= ry + rh <= i32::MAX,
    ensures
        r == in_rect_spec(x as int, y as int, rx as int, ry as int, rw as int, rh as int),
{
    x >= rx && x < rx + rw && y >= ry && y < ry + rh
}

/// Top-left corner of pad key `pos`: two rows of five.
pub open spec fn pin_key_pos_spec(pos: int) -> (i32, i32) {
    (
        (PIN_ROW_X + (pos % 5) * PIN_KEY_STEP) as i32,
        if pos / 5 == 0 {
            PIN_ROW0_Y
        } else {
            PIN_ROW1_Y
        },
    )
}

pub fn pin_key_pos(pos: usize) -> (r: (i32, i32))
    requires
        pos < 10,
    ensures
        r == pin_key_pos_spec(pos as int),
{
    let col = (pos % 5) as i32;
    let row = (pos / 5) as i32;
    let kx = PIN_ROW_X + col * PIN_KEY_STEP;
    let ky = if row == 0 { PIN_ROW0_Y } else { PIN_ROW1_Y };
    (kx, ky)
}

pub open spec fn on_pin_key(x: int, y: int, pos: int) -> bool {
    in_rect_spec(
        x,
        y,
        pin_key_pos_spec(pos).0 as int,
        pin_key_pos_spec(pos).1 as int,
        PIN_KEY_W as int,
        PIN_KEY_H as int,
    )
}

/// The digit of the first pad key under `(x, y)`.
pub open spec fn pin_digit_spec(x: int, y: int, order: Seq<u8>) -> Option<u8>
    decreases 10int,
{
    pin_digit_from(x, y, order, 0)
}

pub open spec fn pin_digit_from(x: int, y: int, order: Seq<u8>, pos: int) -> Option<u8>
    decreases 10 - pos,
{
    if pos >= 10 {
        None
    } else if on_pin_key(x, y, pos) {
        Some(order[pos])
    } else {
        pin_digit_from(x, y, order, pos + 1)
    }
}

/// The digit of the pad key under a touch, for the given pad order.
pub fn pin_digit_at(x: i32, y: i32, order: &[u8; 10]) -> (r: Option<u8>)
    ensures
        r == pin_digit_spec(x as int, y as int, order@),
{
    let mut pos: usize = 0;
    while pos < 10
        invariant
            pos <= 10,
            pin_digit_from(x as int, y as int, order@, pos as int) == pin_digit_spec(
                x as int,
                y as int,
                order@,
            ),
        decreases 10 - pos,
    {
        let (kx, ky) = pin_key_pos(pos);
        if in_rect(x, y, kx, ky, PIN_KEY_W, PIN_KEY_H) {
            return Some(order[pos]);
        }
        pos = pos + 1;
    }
    None
}

} // verus!

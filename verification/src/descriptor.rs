//! BIP380 output-descriptor checksum: symbol expansion, the checksum
//! polynomial and the 8-character checksum.
use vstd::prelude::*;
use crate::bech32::charset;

verus! {

/// Characters allowed in a descriptor (BIP380), in checksum order: as
/// published, 95 characters, every printable ASCII character once.
pub open spec fn input_charset() -> Seq<u8> {
    seq![
        48u8, 49u8, 50u8, 51u8, 52u8, 53u8, 54u8, 55u8, 56u8, 57u8, 40u8, 41u8, 91u8, 93u8, 44u8,
        39u8, 47u8, 42u8, 97u8, 98u8, 99u8, 100u8, 101u8, 102u8, 103u8, 104u8, 64u8, 58u8, 36u8,
        37u8, 123u8, 125u8, 73u8, 74u8, 75u8, 76u8, 77u8, 78u8, 79u8, 80u8, 81u8, 82u8, 83u8, 84u8,
        85u8, 86u8, 87u8, 88u8, 89u8, 90u8, 38u8, 43u8, 45u8, 46u8, 59u8, 60u8, 61u8, 62u8, 63u8,
        33u8, 94u8, 95u8, 124u8, 126u8, 105u8, 106u8, 107u8, 108u8, 109u8, 110u8, 111u8, 112u8,
        113u8, 114u8, 115u8, 116u8, 117u8, 118u8, 119u8, 120u8, 121u8, 122u8, 65u8, 66u8, 67u8,
        68u8, 69u8, 70u8, 71u8, 72u8, 96u8, 35u8, 34u8, 92u8, 32u8,
    ]
}

/// Position of `c` in the first `k` characters of the charset, or -1.
pub open spec fn position_in(c: u8, k: int) -> int
    decreases k,
{
    if k <= 0 {
        -1
    } else if position_in(c, k - 1) >= 0 {
        position_in(c, k - 1)
    } else if input_charset()[k - 1] == c {
        k - 1
    } else {
        -1
    }
}

/// Position of `c` in the descriptor charset, or -1 when it is not there.
pub open spec fn char_value(c: u8) -> int {
    position_in(c, 95)
}

pub open spec fn all_in_charset(s: Seq<u8>) -> bool {
    forall|i: int| 0 <= i < s.len() ==> char_value(#[trigger] s[i]) >= 0
}

/// BIP380 symbol expansion: per character its value's low 5 bits; after
/// every third character the three high parts combined (`g0*9 + g1*3 + g2`);
/// a trailing one or two characters contribute their combined high parts.
pub open spec fn expand_spec(s: Seq<u8>) -> Seq<u16>
    decreases s.len(),
{
    if s.len() >= 3 {
        seq![
            (char_value(s[0]) % 32) as u16,
            (char_value(s[1]) % 32) as u16,
            (char_value(s[2]) % 32) as u16,
            (char_value(s[0]) / 32 * 9 + char_value(s[1]) / 32 * 3 + char_value(s[2]) / 32) as u16,
        ] + expand_spec(s.skip(3))
    } else if s.len() == 2 {
        seq![
            (char_value(s[0]) % 32) as u16,
            (char_value(s[1]) % 32) as u16,
            (char_value(s[0]) / 32 * 3 + char_value(s[1]) / 32) as u16,
        ]
    } else if s.len() == 1 {
        seq![(char_value(s[0]) % 32) as u16, (char_value(s[0]) / 32) as u16]
    } else {
        Seq::empty()
    }
}

/// Symbols already written when the `k`-th character is reached.
pub open spec fn symbols_before(k: int) -> int {
    k + k / 3
}

/// The expansion fits the 400-symbol buffer: every character finds room
/// for its symbol and the one after it.
pub open spec fn expand_fits(len: int) -> bool {
    len == 0 || symbols_before(len - 1) + 1 < 400
}

pub const GEN0: u64 = 0xf5dee51989;

pub const GEN1: u64 = 0xa9fdca3312;

pub const GEN2: u64 = 0x1bab10e32d;

pub const GEN3: u64 = 0x3706b1677a;

pub const GEN4: u64 = 0x644d626ffd;

/// One step of the descriptor checksum polynomial.
pub open spec fn desc_step(chk: u64, v: u16) -> u64 {
    let top = chk >> 35u64;
    let c0 = ((chk & 0x7_FFFF_FFFF) << 5u64) ^ (v as u64);
    let c1 = if top & 1 != 0 { c0 ^ GEN0 } else { c0 };
    let c2 = if (top >> 1u64) & 1 != 0 { c1 ^ GEN1 } else { c1 };
    let c3 = if (top >> 2u64) & 1 != 0 { c2 ^ GEN2 } else { c2 };
    let c4 = if (top >> 3u64) & 1 != 0 { c3 ^ GEN3 } else { c3 };
    if (top >> 4u64) & 1 != 0 { c4 ^ GEN4 } else { c4 }
}

/// The checksum polynomial continued from `chk` over `symbols`.
pub open spec fn desc_polymod_from(chk: u64, symbols: Seq<u16>) -> u64
    decreases symbols.len(),
{
    if symbols.len() == 0 {
        chk
    } else {
        desc_step(desc_polymod_from(chk, symbols.drop_last()), symbols.last())
    }
}

pub open spec fn desc_polymod(symbols: Seq<u16>) -> u64 {
    desc_polymod_from(1, symbols)
}

/// The 40-bit checksum value of a descriptor body.
pub open spec fn checksum_value(body: Seq<u8>) -> u64 {
    desc_polymod(expand_spec(body) + Seq::new(8, |i: int| 0u16)) ^ 1
}

/// The `i`-th 5-bit group of the checksum value, most significant first.
pub open spec fn checksum_symbol(chk: u64, i: int) -> u16 {
    ((chk >> (5 * (7 - i)) as u64) & 31) as u16
}

pub open spec fn checksum_chars(body: Seq<u8>) -> Seq<u8> {
    Seq::new(8, |i: int| charset()[checksum_symbol(checksum_value(body), i) as int])
}

fn input_charset_array() -> (r: [u8; 95])
    ensures
        r@ == input_charset(),
{
    let r: [u8; 95] = [
        48u8, 49u8, 50u8, 51u8, 52u8, 53u8, 54u8, 55u8, 56u8, 57u8, 40u8, 41u8, 91u8, 93u8, 44u8,
        39u8, 47u8, 42u8, 97u8, 98u8, 99u8, 100u8, 101u8, 102u8, 103u8, 104u8, 64u8, 58u8, 36u8,
        37u8, 123u8, 125u8, 73u8, 74u8, 75u8, 76u8, 77u8, 78u8, 79u8, 80u8, 81u8, 82u8, 83u8, 84u8,
        85u8, 86u8, 87u8, 88u8, 89u8, 90u8, 38u8, 43u8, 45u8, 46u8, 59u8, 60u8, 61u8, 62u8, 63u8,
        33u8, 94u8, 95u8, 124u8, 126u8, 105u8, 106u8, 107u8, 108u8, 109u8, 110u8, 111u8, 112u8,
        113u8, 114u8, 115u8, 116u8, 117u8, 118u8, 119u8, 120u8, 121u8, 122u8, 65u8, 66u8, 67u8,
        68u8, 69u8, 70u8, 71u8, 72u8, 96u8, 35u8, 34u8, 92u8, 32u8,
    ];
    assert(r@ =~= input_charset());
    r
}

proof fn lemma_position_bounds(c: u8, k: int)
    requires
        0 <= k <= 95,
    ensures
        -1 <= position_in(c, k) < k,
        position_in(c, k) >= 0 ==> input_charset()[position_in(c, k)] == c,
        position_in(c, k) < 0 ==> forall|j: int| 0 <= j < k ==> input_charset()[j] != c,
    decreases k,
{
    if k > 0 {
        lemma_position_bounds(c, k - 1);
    }
}

proof fn lemma_position_stable(c: u8, k: int, k2: int)
    requires
        0 <= k <= k2,
        position_in(c, k) >= 0,
    ensures
        position_in(c, k2) == position_in(c, k),
    decreases k2 - k,
{
    if k2 > k {
        lemma_position_stable(c, k, k2 - 1);
    }
}

/// Position of `c` in the descriptor charset.
fn charset_position(table: &[u8; 95], c: u8) -> (r: Option<u16>)
    requires
        table@ == input_charset(),
    ensures
        match r {
            Some(v) => v == char_value(c) && 0 <= char_value(c) < 95,
            None => char_value(c) < 0,
        },
{
    let mut i: usize = 0;
    while i < 95
        invariant
            i <= 95,
            table@ == input_charset(),
            position_in(c, i as int) == -1,
        decreases 95 - i,
    {
        if table[i] == c {
            proof {
                assert(position_in(c, i + 1) == i);
                lemma_position_stable(c, i + 1, 95);
            }
            return Some(i as u16);
        }
        i = i + 1;
    }
    None
}

proof fn lemma_expand_len(s: Seq<u8>)
    ensures
        expand_spec(s).len() == s.len() + s.len() / 3 + (if s.len() % 3 == 0 { 0int } else { 1int }),
    decreases s.len(),
{
    if s.len() >= 3 {
        lemma_expand_len(s.skip(3));
    }
}

/// Symbols of a full group of three characters with values `v0, v1, v2`.
proof fn lemma_expand_chunk(s: Seq<u8>, k: int)
    requires
        0 <= k,
        3 * k + 3 <= s.len(),
    ensures
        expand_spec(s.take(3 * k + 3)) == expand_spec(s.take(3 * k)) + seq![
            (char_value(s[3 * k]) % 32) as u16,
            (char_value(s[3 * k + 1]) % 32) as u16,
            (char_value(s[3 * k + 2]) % 32) as u16,
            (char_value(s[3 * k]) / 32 * 9 + char_value(s[3 * k + 1]) / 32 * 3 + char_value(
                s[3 * k + 2],
            ) / 32) as u16,
        ],
    decreases k,
{
    if k > 0 {
        lemma_expand_chunk(s.skip(3), k - 1);
        assert(s.take(3 * k + 3).skip(3) =~= s.skip(3).take(3 * (k - 1) + 3));
        assert(s.take(3 * k).skip(3) =~= s.skip(3).take(3 * (k - 1)));
        assert(s.skip(3)[3 * (k - 1)] == s[3 * k]);
        assert(s.skip(3)[3 * (k - 1) + 1] == s[3 * k + 1]);
        assert(s.skip(3)[3 * (k - 1) + 2] == s[3 * k + 2]);
        assert(s.take(3 * k + 3)[0] == s[0]);
        assert(s.take(3 * k)[0] == s[0]);
    } else {
        assert(s.take(3).skip(3) =~= Seq::<u8>::empty());
        assert(s.take(0) =~= Seq::<u8>::empty());
    }
}

/// The tail of the expansion when `s` ends in a partial group.
proof fn lemma_expand_tail(s: Seq<u8>, k: int)
    requires
        0 <= k,
        3 * k <= s.len() < 3 * k + 3,
    ensures
        expand_spec(s) == expand_spec(s.take(3 * k)) + expand_spec(s.skip(3 * k)),
    decreases k,
{
    if k > 0 {
        lemma_expand_tail(s.skip(3), k - 1);
        assert(s.skip(3).take(3 * (k - 1)) =~= s.take(3 * k).skip(3));
        assert(s.skip(3).skip(3 * (k - 1)) =~= s.skip(3 * k));
        assert(s.take(3 * k)[0] == s[0]);
        assert(s.take(3 * k)[1] == s[1]);
        assert(s.take(3 * k)[2] == s[2]);
    } else {
        assert(s.take(0) =~= Seq::<u8>::empty());
        assert(s.skip(0) =~= s);
    }
}

/// BIP380 symbol expansion into a 400-symbol buffer: the symbols and their
/// count, or `None` if a character is outside the charset or the buffer
/// would overflow.
#[verifier::rlimit(60)]
pub fn descriptor_expand(s: &[u8]) -> (r: Option<([u16; 400], usize)>)
    ensures
        match r {
            Some((symbols, n)) => all_in_charset(s@) && expand_fits(s@.len() as int) && n
                == expand_spec(s@).len() && n <= 400 && symbols@.take(n as int) == expand_spec(s@),
            None => !all_in_charset(s@) || !expand_fits(s@.len() as int),
        },
{
    let table = input_charset_array();
    let mut symbols = [0u16; 400];
    let mut n: usize = 0;
    let mut groups = [0u16; 3];
    let mut i: usize = 0;
    let len = s.len();
    while i < len
        invariant
            table@ == input_charset(),
            len == s@.len(),
            i <= len,
            n == symbols_before(i as int),
            n <= 400,
            all_in_charset(s@.take(i as int)),
            i > 0 ==> symbols_before(i - 1) + 1 < 400,
            symbols@.take(n as int) == expand_spec(s@.take(i as int - i as int % 3)) + pending_low(
                s@,
                i - i % 3,
                (i % 3) as int,
            ),
            forall|j: int|
                0 <= j < i % 3 ==> #[trigger] groups@[j] == char_value(s@[i - i % 3 + j]) / 32
                    && groups@[j] <= 2,
        decreases len - i,
    {
        let v = match charset_position(&table, s[i]) {
            Some(v) => v,
            None => {
                assert(!all_in_charset(s@)) by {
                    assert(char_value(s@[i as int]) < 0);
                }
                return None;
            },
        };
        if n + 1 >= 400 {
            assert(!expand_fits(s@.len() as int)) by {
                assert(symbols_before(s@.len() - 1) >= symbols_before(i as int)) by (nonlinear_arith)
                    requires
                        i < s@.len(),
                ;
            }
            return None;
        }
        let ghost q: int = i - i % 3;
        let ghost gc0: int = (i % 3) as int;
        let ghost before = symbols@.take(n as int);
        symbols[n] = v & 31;
        assert(v & 31 == v % 32) by (bit_vector);
        assert(v >> 5 == v / 32) by (bit_vector);
        n = n + 1;
        proof {
            assert(symbols@.take(n as int) =~= before.push((v % 32) as u16));
            lemma_pending_push(s@, q, gc0);
            assert(pending_low(s@, q, gc0 + 1) == pending_low(s@, q, gc0).push(
                (char_value(s@[i as int]) % 32) as u16,
            ));
            assert(symbols@.take(n as int) =~= expand_spec(s@.take(q)) + pending_low(s@, q, gc0 + 1));
        }
        let gc = i % 3;
        groups[gc] = v >> 5;
        if gc == 2 {
            let ghost before2 = symbols@.take(n as int);
            symbols[n] = groups[0] * 9 + groups[1] * 3 + groups[2];
            n = n + 1;
            proof {
                assert(symbols@.take(n as int) =~= before2.push(symbols@[n - 1]));
                lemma_expand_chunk(s@, q / 3);
                assert(pending_low(s@, q, 3) =~= seq![
                    (char_value(s@[q]) % 32) as u16,
                    (char_value(s@[q + 1]) % 32) as u16,
                    (char_value(s@[q + 2]) % 32) as u16,
                ]);
                assert(s@.take(q + 3) =~= s@.take(i + 1));
                assert(symbols@.take(n as int) =~= expand_spec(s@.take(q + 3)));
            }
        }
        i = i + 1;
        proof {
            assert(all_in_charset(s@.take(i as int))) by {
                assert forall|j: int| 0 <= j < i implies char_value(#[trigger] s@.take(i as int)[j]) >= 0 by {
                    if j < i - 1 {
                        assert(s@.take(i as int)[j] == s@.take(i - 1)[j]);
                    }
                }
            }
            if gc == 2 {
                assert(i - i % 3 == q + 3);
                assert(pending_low(s@, q + 3, 0) =~= Seq::<u16>::empty());
                assert(symbols@.take(n as int) =~= expand_spec(s@.take(q + 3)) + pending_low(
                    s@,
                    q + 3,
                    0,
                ));
            } else {
                assert(i - i % 3 == q);
            }
        }
    }
    let ghost q: int = i - i % 3;
    assert(s@.take(i as int) =~= s@);
    proof {
        lemma_expand_tail(s@, q / 3);
        lemma_expand_len(s@);
        lemma_expand_len(s@.take(q));
    }
    if i % 3 == 1 {
        let ghost before = symbols@.take(n as int);
        symbols[n] = groups[0];
        n = n + 1;
        assert(symbols@.take(n as int) =~= before.push(groups@[0]));
        assert(s@.skip(q)[0] == s@[q]);
        assert(symbols@.take(n as int) =~= expand_spec(s@));
    } else if i % 3 == 2 {
        let ghost before = symbols@.take(n as int);
        symbols[n] = groups[0] * 3 + groups[1];
        n = n + 1;
        assert(symbols@.take(n as int) =~= before.push(symbols@[n - 1]));
        assert(s@.skip(q)[0] == s@[q]);
        assert(s@.skip(q)[1] == s@[q + 1]);
        assert(symbols@.take(n as int) =~= expand_spec(s@));
    } else {
        assert(s@.skip(q) =~= Seq::<u8>::empty());
        assert(pending_low(s@, q, 0) =~= Seq::<u16>::empty());
        assert(symbols@.take(n as int) =~= expand_spec(s@));
    }
    Some((symbols, n))
}

/// Low parts of the `count` characters of a partial group starting at `q`.
pub open spec fn pending_low(s: Seq<u8>, q: int, count: int) -> Seq<u16> {
    Seq::new(count as nat, |j: int| (char_value(s[q + j]) % 32) as u16)
}

proof fn lemma_pending_push(s: Seq<u8>, q: int, count: int)
    requires
        0 <= count,
    ensures
        pending_low(s, q, count + 1) == pending_low(s, q, count).push(
            (char_value(s[q + count]) % 32) as u16,
        ),
{
    assert(pending_low(s, q, count + 1) =~= pending_low(s, q, count).push(
        (char_value(s[q + count]) % 32) as u16,
    ));
}

fn desc_step_exec(chk: u64, v: u16) -> (r: u64)
    ensures
        r == desc_step(chk, v),
{
    let top = chk >> 35;
    let mut c = ((chk & 0x7_FFFF_FFFF) << 5) ^ (v as u64);
    if top & 1 != 0 {
        c = c ^ GEN0;
    }
    if (top >> 1) & 1 != 0 {
        c = c ^ GEN1;
    }
    if (top >> 2) & 1 != 0 {
        c = c ^ GEN2;
    }
    if (top >> 3) & 1 != 0 {
        c = c ^ GEN3;
    }
    if (top >> 4) & 1 != 0 {
        c = c ^ GEN4;
    }
    c
}

/// The BIP380 checksum polynomial of `symbols`.
pub fn descriptor_polymod(symbols: &[u16]) -> (r: u64)
    ensures
        r == desc_polymod(symbols@),
{
    let mut chk: u64 = 1;
    let mut i: usize = 0;
    while i < symbols.len()
        invariant
            i <= symbols@.len(),
            chk == desc_polymod_from(1, symbols@.take(i as int)),
        decreases symbols@.len() - i,
    {
        assert(symbols@.take(i + 1).drop_last() =~= symbols@.take(i as int));
        chk = desc_step_exec(chk, symbols[i]);
        i = i + 1;
    }
    assert(symbols@.take(i as int) =~= symbols@);
    chk
}

/// The 8-character BIP380 checksum of a descriptor body (without `#`), or
/// `None` when a character is outside the descriptor charset or the body
/// does not fit the expansion buffer.
pub fn descriptor_checksum(desc: &[u8]) -> (r: Option<[u8; 8]>)
    requires
        !(295 <= desc@.len() <= 300 && all_in_charset(desc@)),
    ensures
        match r {
            Some(c) => all_in_charset(desc@) && expand_fits(desc@.len() as int) && c@
                == checksum_chars(desc@),
            None => !all_in_charset(desc@) || !expand_fits(desc@.len() as int),
        },
{
    let (mut symbols, n) = match descriptor_expand(desc) {
        Some(x) => x,
        None => {
            return None;
        },
    };
    proof {
        lemma_expand_len(desc@);
    }
    let ghost expanded = symbols@.take(n as int);
    let mut k: usize = 0;
    while k < 8
        invariant
            n + 8 <= 400,
            k <= 8,
            symbols@.take(n as int) == expanded,
            forall|j: int| 0 <= j < k ==> #[trigger] symbols@[n + j] == 0u16,
        decreases 8 - k,
    {
        symbols[n + k] = 0;
        assert(symbols@.take(n as int) =~= expanded);
        k = k + 1;
    }
    let body = vstd::slice::slice_subrange(symbols.as_slice(), 0, n + 8);
    assert forall|j: int| 0 <= j < n + 8 implies body@[j] == (expand_spec(desc@) + Seq::new(
        8,
        |i: int| 0u16,
    ))[j] by {
        if j < n {
            assert(symbols@.take(n as int)[j] == symbols@[j]);
        } else {
            assert(symbols@[n + (j - n)] == 0u16);
        }
    }
    assert(body@ =~= expand_spec(desc@) + Seq::new(8, |i: int| 0u16));
    let chk = descriptor_polymod(body) ^ 1;
    let cs = crate::bech32::charset_table();
    let mut out = [0u8; 8];
    let mut i: usize = 0;
    while i < 8
        invariant
            i <= 8,
            cs@ == charset(),
            chk == checksum_value(desc@),
            forall|j: int| 0 <= j < i ==> out@[j] == charset()[checksum_symbol(chk, j) as int],
        decreases 8 - i,
    {
        let sh = (5 * (7 - i)) as u64;
        let idx = (chk >> sh) & 31;
        assert(idx < 32) by (bit_vector)
            requires
                idx == (chk >> sh) & 31,
        ;
        out[i] = cs[idx as usize];
        i = i + 1;
    }
    assert(out@ =~= checksum_chars(desc@));
    Some(out)
}

/// Lowercase hex of four bytes.
pub fn hex_8(bytes: &[u8; 4]) -> (r: [u8; 8])
    ensures
        forall|i: int|
            0 <= i < 4 ==> r@[2 * i] == hex_digit(bytes@[i] as int / 16) && r@[2 * i + 1] == hex_digit(
                bytes@[i] as int % 16,
            ),
{
    let mut out = [0u8; 8];
    let mut i: usize = 0;
    while i < 4
        invariant
            i <= 4,
            forall|j: int|
                0 <= j < i ==> out@[2 * j] == hex_digit(bytes@[j] as int / 16) && out@[2 * j + 1]
                    == hex_digit(bytes@[j] as int % 16),
        decreases 4 - i,
    {
        let b = bytes[i];
        out[2 * i] = hex_digit_exec(b / 16);
        out[2 * i + 1] = hex_digit_exec(b % 16);
        i = i + 1;
    }
    out
}

pub open spec fn hex_digit(v: int) -> u8 {
    if v < 10 {
        (48 + v) as u8
    } else {
        (97 + v - 10) as u8
    }
}

fn hex_digit_exec(v: u8) -> (r: u8)
    requires
        v < 16,
    ensures
        r == hex_digit(v as int),
{
    if v < 10 {
        48 + v
    } else {
        97 + v - 10
    }
}

// ── Checksum validity ────────────────────────────────────────────────────────
/// Symbols read as a base-32 number, first symbol most significant.
pub open spec fn pack_symbols(x: Seq<u16>) -> u64
    decreases x.len(),
{
    if x.len() == 0 {
        0
    } else {
        (pack_symbols(x.drop_last()) << 5u64) ^ (x.last() as u64)
    }
}

pub open spec fn zero_symbols(k: nat) -> Seq<u16> {
    Seq::new(k, |i: int| 0u16)
}

proof fn lemma_polymod_concat(c: u64, a: Seq<u16>, b: Seq<u16>)
    ensures
        desc_polymod_from(c, a + b) == desc_polymod_from(desc_polymod_from(c, a), b),
    decreases b.len(),
{
    if b.len() == 0 {
        assert(a + b =~= a);
    } else {
        assert((a + b).drop_last() =~= a + b.drop_last());
        lemma_polymod_concat(c, a, b.drop_last());
    }
}

proof fn lemma_step_bound(chk: u64, v: u16)
    requires
        chk < 0x100_0000_0000,
    ensures
        desc_step(chk, v) < 0x100_0000_0000,
{
    let top = chk >> 35u64;
    let c0 = ((chk & 0x7_FFFF_FFFF) << 5u64) ^ (v as u64);
    assert(c0 < 0x100_0000_0000) by (bit_vector)
        requires
            c0 == ((chk & 0x7_FFFF_FFFF) << 5u64) ^ (v as u64),
            v < 0x10000,
    ;
    assert(forall|x: u64| x < 0x100_0000_0000 ==> #[trigger] (x ^ GEN0) < 0x100_0000_0000)
        by (bit_vector);
    assert(forall|x: u64| x < 0x100_0000_0000 ==> #[trigger] (x ^ GEN1) < 0x100_0000_0000)
        by (bit_vector);
    assert(forall|x: u64| x < 0x100_0000_0000 ==> #[trigger] (x ^ GEN2) < 0x100_0000_0000)
        by (bit_vector);
    assert(forall|x: u64| x < 0x100_0000_0000 ==> #[trigger] (x ^ GEN3) < 0x100_0000_0000)
        by (bit_vector);
    assert(forall|x: u64| x < 0x100_0000_0000 ==> #[trigger] (x ^ GEN4) < 0x100_0000_0000)
        by (bit_vector);
}

proof fn lemma_polymod_bound(c: u64, a: Seq<u16>)
    requires
        c < 0x100_0000_0000,
    ensures
        desc_polymod_from(c, a) < 0x100_0000_0000,
    decreases a.len(),
{
    if a.len() > 0 {
        lemma_polymod_bound(c, a.drop_last());
        lemma_step_bound(desc_polymod_from(c, a.drop_last()), a.last());
    }
}

/// A difference below bit 35 passes through one step shifted by five bits.
proof fn lemma_step_linear(p: u64, d: u64, w: u16)
    requires
        d < 0x8_0000_0000,
        w < 32,
    ensures
        desc_step(p ^ d, w) == desc_step(p, 0) ^ ((d << 5u64) ^ (w as u64)),
{
    let q = p ^ d;
    assert((q >> 35u64) == (p >> 35u64)) by (bit_vector)
        requires
            q == p ^ d,
            d < 0x8_0000_0000,
    ;
    assert(((q & 0x7_FFFF_FFFF) << 5u64) ^ (w as u64) == (((p & 0x7_FFFF_FFFF) << 5u64) ^ (
    0u16 as u64)) ^ ((d << 5u64) ^ (w as u64))) by (bit_vector)
        requires
            q == p ^ d,
            d < 0x8_0000_0000,
            w < 32,
    ;
    assert(forall|a: u64, b: u64, g: u64| #[trigger] ((a ^ b) ^ g) == (a ^ g) ^ b) by (bit_vector);
}

proof fn lemma_pack_bound(x: Seq<u16>)
    requires
        x.len() <= 8,
        forall|i: int| 0 <= i < x.len() ==> x[i] < 32,
    ensures
        pack_symbols(x) < pow32(x.len()),
    decreases x.len(),
{
    if x.len() > 0 {
        let x2 = x.drop_last();
        lemma_pack_bound(x2);
        let p = pack_symbols(x2);
        let w = x.last() as u64;
        let k = x2.len();
        assert(pow32(k + 1) == pow32(k) * 32);
        assert(p < pow32(k));
        assert(pow32(k) <= 0x8_0000_0000);
        let bound = pow32(k);
        assert((p << 5u64) ^ w < bound * 32) by (bit_vector)
            requires
                p < bound,
                bound <= 0x8_0000_0000,
                w < 32,
        ;
    }
}

/// `32^k` for `k <= 8`.
pub open spec fn pow32(k: nat) -> u64 {
    if k == 0 {
        1
    } else if k == 1 {
        0x20
    } else if k == 2 {
        0x400
    } else if k == 3 {
        0x8000
    } else if k == 4 {
        0x10_0000
    } else if k == 5 {
        0x200_0000
    } else if k == 6 {
        0x4000_0000
    } else if k == 7 {
        0x8_0000_0000
    } else {
        0x100_0000_0000
    }
}

/// Appending `x` to what gave `c` differs from appending zeros by `x` packed.
proof fn lemma_append_linear(c: u64, x: Seq<u16>)
    requires
        c < 0x100_0000_0000,
        x.len() <= 8,
        forall|i: int| 0 <= i < x.len() ==> x[i] < 32,
    ensures
        desc_polymod_from(c, x) == desc_polymod_from(c, zero_symbols(x.len())) ^ pack_symbols(x),
    decreases x.len(),
{
    if x.len() == 0 {
        assert(zero_symbols(0) =~= Seq::<u16>::empty());
        assert(forall|a: u64| #[trigger] (a ^ 0u64) == a) by (bit_vector);
    } else {
        let x2 = x.drop_last();
        lemma_append_linear(c, x2);
        lemma_pack_bound(x2);
        let k = x2.len();
        assert(pow32(k) <= 0x8_0000_0000);
        let z = zero_symbols(x.len());
        assert(z.drop_last() =~= zero_symbols(k));
        let p0 = desc_polymod_from(c, zero_symbols(k));
        lemma_step_linear(p0, pack_symbols(x2), x.last());
    }
}

proof fn lemma_pack_checksum(chk: u64)
    requires
        chk < 0x100_0000_0000,
    ensures
        pack_symbols(Seq::new(8, |i: int| checksum_symbol(chk, i))) == chk,
{
    let x = Seq::new(8, |i: int| checksum_symbol(chk, i));
    reveal_with_fuel(pack_symbols, 9);
    assert(x.take(8) =~= x);
    let s0 = (chk >> 35u64) & 31;
    let s1 = (chk >> 30u64) & 31;
    let s2 = (chk >> 25u64) & 31;
    let s3 = (chk >> 20u64) & 31;
    let s4 = (chk >> 15u64) & 31;
    let s5 = (chk >> 10u64) & 31;
    let s6 = (chk >> 5u64) & 31;
    let s7 = (chk >> 0u64) & 31;
    assert(x[0] as u64 == s0 && x[1] as u64 == s1 && x[2] as u64 == s2 && x[3] as u64 == s3
        && x[4] as u64 == s4 && x[5] as u64 == s5 && x[6] as u64 == s6 && x[7] as u64 == s7) by {
        assert(forall|v: u64| #[trigger] ((v & 31) as u16) as u64 == v & 31) by (bit_vector);
    }
    assert(x.drop_last().drop_last().drop_last().drop_last().drop_last().drop_last().drop_last().drop_last() =~= Seq::<u16>::empty());
    let p1 = (0u64 << 5u64) ^ s0;
    let p2 = (p1 << 5u64) ^ s1;
    let p3 = (p2 << 5u64) ^ s2;
    let p4 = (p3 << 5u64) ^ s3;
    let p5 = (p4 << 5u64) ^ s4;
    let p6 = (p5 << 5u64) ^ s5;
    let p7 = (p6 << 5u64) ^ s6;
    let p8 = (p7 << 5u64) ^ s7;
    assert(p8 == chk) by (bit_vector)
        requires
            chk < 0x100_0000_0000,
            s0 == (chk >> 35u64) & 31,
            s1 == (chk >> 30u64) & 31,
            s2 == (chk >> 25u64) & 31,
            s3 == (chk >> 20u64) & 31,
            s4 == (chk >> 15u64) & 31,
            s5 == (chk >> 10u64) & 31,
            s6 == (chk >> 5u64) & 31,
            s7 == (chk >> 0u64) & 31,
            p1 == (0u64 << 5u64) ^ s0,
            p2 == (p1 << 5u64) ^ s1,
            p3 == (p2 << 5u64) ^ s2,
            p4 == (p3 << 5u64) ^ s3,
            p5 == (p4 << 5u64) ^ s4,
            p6 == (p5 << 5u64) ^ s5,
            p7 == (p6 << 5u64) ^ s6,
            p8 == (p7 << 5u64) ^ s7,
    ;
}

/// Law (BIP380 validity): the expanded body followed by the eight checksum
/// symbols has checksum polynomial 1.
pub proof fn lemma_checksum_verifies(body: Seq<u8>)
    ensures
        desc_polymod(
            expand_spec(body) + Seq::new(8, |i: int| checksum_symbol(checksum_value(body), i)),
        ) == 1,
{
    let s = expand_spec(body);
    let x = Seq::new(8, |i: int| checksum_symbol(checksum_value(body), i));
    let z = zero_symbols(8);
    assert(z =~= Seq::new(8, |i: int| 0u16));
    lemma_polymod_concat(1, s, x);
    lemma_polymod_concat(1, s, z);
    lemma_polymod_bound(1, s);
    lemma_polymod_bound(1, s + z);
    let c0 = desc_polymod(s);
    assert forall|i: int| 0 <= i < x.len() implies x[i] < 32 by {
        let chk = checksum_value(body);
        let sh = (5 * (7 - i)) as u64;
        assert(((chk >> sh) & 31) < 32) by (bit_vector);
    }
    lemma_append_linear(c0, x);
    let pz = desc_polymod(s + z);
    let chk = pz ^ 1;
    assert(chk < 0x100_0000_0000) by (bit_vector)
        requires
            pz < 0x100_0000_0000,
            chk == pz ^ 1,
    ;
    lemma_pack_checksum(chk);
    assert(pz ^ chk == 1) by (bit_vector)
        requires
            chk == pz ^ 1,
    ;
}

} // verus!

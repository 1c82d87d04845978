//! Base64 encode/decode (standard alphabet, with padding) into caller buffers.
use vstd::prelude::*;

verus! {

/// Character of the standard Base64 alphabet for a 6-bit value.
pub open spec fn sextet_char(v: int) -> u8 {
    if v < 26 {
        (65 + v) as u8
    } else if v < 52 {
        (97 + v - 26) as u8
    } else if v < 62 {
        (48 + v - 52) as u8
    } else if v == 62 {
        43u8
    } else {
        47u8
    }
}

/// The 6-bit value of a Base64 character; `-` and `_` are accepted as the
/// URL-safe spellings of 62 and 63.
pub open spec fn sextet_value(c: u8) -> Option<int> {
    if 65 <= c <= 90 {
        Some(c - 65)
    } else if 97 <= c <= 122 {
        Some(c - 97 + 26)
    } else if 48 <= c <= 57 {
        Some(c - 48 + 52)
    } else if c == 43 || c == 45 {
        Some(62)
    } else if c == 47 || c == 95 {
        Some(63)
    } else {
        None
    }
}

/// Length of the padded encoding of `n` bytes: `ceil(n / 3) * 4`.
pub open spec fn encoded_len(n: int) -> int {
    4 * ((n + 2) / 3)
}

pub open spec fn byte_or_zero(s: Seq<u8>, i: int) -> int {
    if 0 <= i < s.len() {
        s[i] as int
    } else {
        0
    }
}

/// The `j`-th 6-bit group of the `g`-th 3-byte group of `s` (missing bytes read as zero).
pub open spec fn sextet(s: Seq<u8>, g: int, j: int) -> int {
    let a = byte_or_zero(s, 3 * g);
    let b = byte_or_zero(s, 3 * g + 1);
    let c = byte_or_zero(s, 3 * g + 2);
    if j == 0 {
        a / 4
    } else if j == 1 {
        (a % 4) * 16 + b / 16
    } else if j == 2 {
        (b % 16) * 4 + c / 64
    } else {
        c % 64
    }
}

/// Character at position `p` of the encoding of `s`: positions past the last
/// input byte of the final group are `=` padding.
pub open spec fn encoded_char(s: Seq<u8>, p: int) -> u8 {
    let g = p / 4;
    let j = p % 4;
    if 3 * g + j > s.len() {
        61u8
    } else {
        sextet_char(sextet(s, g, j))
    }
}

/// The padded Base64 encoding of `s`.
pub open spec fn spec_encode(s: Seq<u8>) -> Seq<u8> {
    Seq::new(encoded_len(s.len() as int) as nat, |p: int| encoded_char(s, p))
}

/// Length of `s` once its trailing `=` characters are removed.
pub open spec fn trimmed_len(s: Seq<u8>) -> nat
    decreases s.len(),
{
    if s.len() > 0 && s.last() == 61u8 {
        trimmed_len(s.drop_last())
    } else {
        s.len()
    }
}

/// `t` (already stripped of padding) is well-formed Base64.
pub open spec fn decodable(t: Seq<u8>) -> bool {
    &&& t.len() % 4 != 1
    &&& forall|i: int| 0 <= i < t.len() ==> (#[trigger] sextet_value(t[i])) is Some
}

/// Number of bytes that `m` Base64 characters (without padding) decode to.
pub open spec fn decoded_len(m: int) -> int {
    3 * (m / 4) + if m % 4 == 0 {
        0
    } else {
        m % 4 - 1
    }
}

pub open spec fn value_or_zero(t: Seq<u8>, i: int) -> int {
    if 0 <= i < t.len() {
        match sextet_value(t[i]) {
            Some(v) => v,
            None => 0,
        }
    } else {
        0
    }
}

/// The `i`-th decoded byte of the unpadded Base64 text `t`.
pub open spec fn decoded_byte(t: Seq<u8>, i: int) -> u8 {
    let g = i / 3;
    let k = i % 3;
    let v0 = value_or_zero(t, 4 * g);
    let v1 = value_or_zero(t, 4 * g + 1);
    let v2 = value_or_zero(t, 4 * g + 2);
    let v3 = value_or_zero(t, 4 * g + 3);
    if k == 0 {
        (v0 * 4 + v1 / 16) as u8
    } else if k == 1 {
        ((v1 % 16) * 16 + v2 / 4) as u8
    } else {
        ((v2 % 4) * 64 + v3) as u8
    }
}

pub open spec fn spec_decode(t: Seq<u8>) -> Seq<u8> {
    Seq::new(decoded_len(t.len() as int) as nat, |i: int| decoded_byte(t, i))
}

/// Base64 length for `n` raw bytes.
pub fn b64_len(n: usize) -> (r: usize)
    requires
        encoded_len(n as int) <= usize::MAX,
    ensures
        r == encoded_len(n as int),
{
    (n / 3 + if n % 3 == 0 { 0 } else { 1 }) * 4
}

fn sextet_to_char(v: u8) -> (c: u8)
    requires
        v < 64,
    ensures
        c == sextet_char(v as int),
{
    if v < 26 {
        65 + v
    } else if v < 52 {
        97 + (v - 26)
    } else if v < 62 {
        48 + (v - 52)
    } else if v == 62 {
        43
    } else {
        47
    }
}

fn char_to_sextet(c: u8) -> (r: Option<u8>)
    ensures
        match r {
            Some(v) => sextet_value(c) == Some(v as int) && v < 64,
            None => sextet_value(c) is None,
        },
{
    if 65 <= c && c <= 90 {
        Some(c - 65)
    } else if 97 <= c && c <= 122 {
        Some(c - 97 + 26)
    } else if 48 <= c && c <= 57 {
        Some(c - 48 + 52)
    } else if c == 43 || c == 45 {
        Some(62)
    } else if c == 47 || c == 95 {
        Some(63)
    } else {
        None
    }
}

proof fn lemma_split_bits(a: u8, b: u8, c: u8)
    by (bit_vector)
    ensures
        a >> 2u8 == a / 4,
        ((a << 4u8) | (b >> 4u8)) & 0x3fu8 == (a % 4) * 16 + b / 16,
        ((b << 2u8) | (c >> 6u8)) & 0x3fu8 == (b % 16) * 4 + c / 64,
        c & 0x3fu8 == c % 64,
        (a << 4u8) & 0x3fu8 == (a % 4) * 16,
        (b << 2u8) & 0x3fu8 == (b % 16) * 4,
{
}

proof fn lemma_join_bits(a: u8, b: u8, c: u8, d: u8)
    by (bit_vector)
    requires
        a < 64,
        b < 64,
        c < 64,
        d < 64,
    ensures
        (a << 2u8) | (b >> 4u8) == a * 4 + b / 16,
        (b << 4u8) | (c >> 2u8) == (b % 16) * 16 + c / 4,
        (c << 6u8) | d == (c % 4) * 64 + d,
{
}

/// Encodes `input` into `out`, which must hold at least
/// `((input.len() + 2) / 3) * 4` bytes. Returns the number of bytes written;
/// if `out` is too small nothing is written and `0` is returned.
pub fn encode(input: &[u8], out: &mut [u8]) -> (written: usize)
    requires
        encoded_len(input@.len() as int) <= usize::MAX,
    ensures
        final(out)@.len() == old(out)@.len(),
        old(out)@.len() < encoded_len(input@.len() as int) ==> written == 0 && final(out)@
            == old(out)@,
        old(out)@.len() >= encoded_len(input@.len() as int) ==> {
            &&& written == encoded_len(input@.len() as int)
            &&& final(out)@.take(written as int) == spec_encode(input@)
            &&& final(out)@.skip(written as int) == old(out)@.skip(written as int)
        },
{
    let n = input.len();
    let required = b64_len(n);
    if out.len() < required {
        return 0;
    }
    let ghost s = input@;
    let mut i: usize = 0;
    let mut o: usize = 0;
    while i + 2 < n
        invariant
            n == s.len(),
            s == input@,
            required == encoded_len(n as int),
            out@.len() == old(out)@.len(),
            out@.len() >= required,
            i % 3 == 0,
            i <= n,
            o == 4 * (i / 3),
            forall|p: int| 0 <= p < o ==> out@[p] == #[trigger] encoded_char(s, p),
            forall|p: int| o <= p < out@.len() ==> out@[p] == old(out)@[p],
        decreases n - i,
    {
        let a = input[i];
        let b = input[i + 1];
        let c = input[i + 2];
        proof {
            lemma_split_bits(a, b, c);
        }
        let c0 = sextet_to_char(a >> 2);
        let c1 = sextet_to_char(((a << 4) | (b >> 4)) & 0x3f);
        let c2 = sextet_to_char(((b << 2) | (c >> 6)) & 0x3f);
        let c3 = sextet_to_char(c & 0x3f);
        out[o] = c0;
        out[o + 1] = c1;
        out[o + 2] = c2;
        out[o + 3] = c3;
        proof {
            assert forall|p: int| 0 <= p < o + 4 implies out@[p] == #[trigger] encoded_char(s, p) by {
                if p >= o {
                    assert(p / 4 == i / 3);
                    assert(p % 4 == p - o);
                }
            }
        }
        i = i + 3;
        o = o + 4;
    }
    let rest = n - i;
    if rest == 1 {
        let a = input[i];
        proof {
            lemma_split_bits(a, 0, 0);
        }
        out[o] = sextet_to_char(a >> 2);
        out[o + 1] = sextet_to_char((a << 4) & 0x3f);
        out[o + 2] = 61;
        out[o + 3] = 61;
        proof {
            assert forall|p: int| 0 <= p < o + 4 implies out@[p] == #[trigger] encoded_char(s, p) by {
                if p >= o {
                    assert(p / 4 == i / 3);
                    assert(p % 4 == p - o);
                }
            }
        }
        o = o + 4;
    } else if rest == 2 {
        let a = input[i];
        let b = input[i + 1];
        proof {
            lemma_split_bits(a, b, 0);
        }
        out[o] = sextet_to_char(a >> 2);
        out[o + 1] = sextet_to_char(((a << 4) | (b >> 4)) & 0x3f);
        out[o + 2] = sextet_to_char((b << 2) & 0x3f);
        out[o + 3] = 61;
        proof {
            assert forall|p: int| 0 <= p < o + 4 implies out@[p] == #[trigger] encoded_char(s, p) by {
                if p >= o {
                    assert(p / 4 == i / 3);
                    assert(p % 4 == p - o);
                }
            }
        }
        o = o + 4;
    }
    assert(o == required);
    assert(out@.take(o as int) =~= spec_encode(s));
    assert(out@.skip(o as int) =~= old(out)@.skip(o as int));
    o
}


proof fn lemma_trim_step(s: Seq<u8>, k: int)
    requires
        0 < k <= s.len(),
        s[k - 1] == 61u8,
    ensures
        trimmed_len(s.take(k)) == trimmed_len(s.take(k - 1)),
{
    assert(s.take(k).drop_last() =~= s.take(k - 1));
}

proof fn lemma_bad_char(t: Seq<u8>, i: int)
    requires
        0 <= i < t.len(),
        sextet_value(t[i]) is None,
    ensures
        !decodable(t),
{
}

proof fn lemma_decoded_len_bound(k: int, g: int)
    requires
        0 <= g < k / 4,
    ensures
        decoded_len(k) >= 3 * g + 3,
{
}

/// Decodes Base64 `input` into `out`. Trailing `=` are ignored; a leftover
/// single character, a character outside the alphabet or a too small `out`
/// make it fail. Returns the number of decoded bytes.
#[verifier::rlimit(40)]
pub fn decode(input: &[u8], out: &mut [u8]) -> (r: Option<usize>)
    ensures
        final(out)@.len() == old(out)@.len(),
        ({
            let t = input@.take(trimmed_len(input@) as int);
            match r {
                Some(n) => {
                    &&& decodable(t)
                    &&& decoded_len(t.len() as int) <= old(out)@.len()
                    &&& n == decoded_len(t.len() as int)
                    &&& final(out)@.take(n as int) == spec_decode(t)
                    &&& final(out)@.skip(n as int) == old(out)@.skip(n as int)
                },
                None => !(decodable(t) && decoded_len(t.len() as int) <= old(out)@.len()),
            }
        }),
{
    let ghost s = input@;
    // Strip trailing padding.
    let mut k = input.len();
    assert(s.take(s.len() as int) =~= s);
    while k > 0 && input[k - 1] == 61
        invariant
            s == input@,
            k <= s.len(),
            trimmed_len(s) == trimmed_len(s.take(k as int)),
        decreases k,
    {
        proof {
            lemma_trim_step(s, k as int);
        }
        k = k - 1;
    }
    assert(s.take(s.len() as int) =~= s);
    assert(trimmed_len(s) == k);
    let ghost t = s.take(k as int);
    let full = k / 4;
    let rem = k % 4;
    let mut o: usize = 0;
    let mut g: usize = 0;
    while g < full
        invariant
            s == input@,
            k <= s.len(),
            t == s.take(k as int),
            t.len() == k,
            trimmed_len(s) == k,
            full == k / 4,
            g <= full,
            o == 3 * g,
            o <= out@.len(),
            out@.len() == old(out)@.len(),
            forall|i: int| 0 <= i < 4 * g ==> (#[trigger] sextet_value(t[i])) is Some,
            forall|i: int| 0 <= i < o ==> out@[i] == #[trigger] decoded_byte(t, i),
            forall|i: int| o <= i < out@.len() ==> out@[i] == old(out)@[i],
        decreases full - g,
    {
        let p = 4 * g;
        let ra = char_to_sextet(input[p]);
        let rb = char_to_sextet(input[p + 1]);
        let rc = char_to_sextet(input[p + 2]);
        let rd = char_to_sextet(input[p + 3]);
        assert(t[p as int] == input@[p as int]);
        assert(t[p + 1] == input@[p + 1]);
        assert(t[p + 2] == input@[p + 2]);
        assert(t[p + 3] == input@[p + 3]);
        let (a, b, c, d) = match (ra, rb, rc, rd) {
            (Some(a), Some(b), Some(c), Some(d)) => (a, b, c, d),
            _ => {
                proof {
                    if ra is None {
                        lemma_bad_char(t, p as int);
                    } else if rb is None {
                        lemma_bad_char(t, p + 1);
                    } else if rc is None {
                        lemma_bad_char(t, p + 2);
                    } else {
                        lemma_bad_char(t, p + 3);
                    }
                }
                return None;
            },
        };
        if out.len() < 3 || o > out.len() - 3 {
            proof {
                lemma_decoded_len_bound(k as int, g as int);
            }
            return None;
        }
        proof {
            lemma_join_bits(a, b, c, d);
        }
        out[o] = (a << 2) | (b >> 4);
        out[o + 1] = (b << 4) | (c >> 2);
        out[o + 2] = (c << 6) | d;
        proof {
            assert(value_or_zero(t, p as int) == a);
            assert(value_or_zero(t, p + 1) == b);
            assert(value_or_zero(t, p + 2) == c);
            assert(value_or_zero(t, p + 3) == d);
            assert forall|i: int| 0 <= i < o + 3 implies out@[i] == #[trigger] decoded_byte(t, i) by {
                if i >= o {
                    assert(i / 3 == g);
                    assert(i % 3 == i - o);
                }
            }
            assert forall|i: int| 0 <= i < 4 * (g + 1) implies (#[trigger] sextet_value(t[i])) is Some by {
                if i >= p {
                    assert(i == p || i == p + 1 || i == p + 2 || i == p + 3);
                }
            }
        }
        o = o + 3;
        g = g + 1;
    }
    let base = full * 4;
    if rem == 1 {
        return None;
    } else if rem == 2 {
        let ra = char_to_sextet(input[base]);
        let rb = char_to_sextet(input[base + 1]);
        assert(t[base as int] == input@[base as int]);
        assert(t[base + 1] == input@[base + 1]);
        let (a, b) = match (ra, rb) {
            (Some(a), Some(b)) => (a, b),
            _ => {
                proof {
                    if ra is None {
                        lemma_bad_char(t, base as int);
                    } else {
                        lemma_bad_char(t, base + 1);
                    }
                }
                return None;
            },
        };
        if o >= out.len() {
            return None;
        }
        proof {
            lemma_join_bits(a, b, 0, 0);
        }
        out[o] = (a << 2) | (b >> 4);
        proof {
            assert(value_or_zero(t, base as int) == a);
            assert(value_or_zero(t, base + 1) == b);
            assert forall|i: int| 0 <= i < o + 1 implies out@[i] == #[trigger] decoded_byte(t, i) by {
                if i >= o {
                    assert(i / 3 == g);
                    assert(i % 3 == 0);
                }
            }
            assert forall|i: int| 0 <= i < k implies (#[trigger] sextet_value(t[i])) is Some by {
                if i >= base {
                    assert(i == base || i == base + 1);
                }
            }
        }
        o = o + 1;
    } else if rem == 3 {
        let ra = char_to_sextet(input[base]);
        let rb = char_to_sextet(input[base + 1]);
        let rc = char_to_sextet(input[base + 2]);
        assert(t[base as int] == input@[base as int]);
        assert(t[base + 1] == input@[base + 1]);
        assert(t[base + 2] == input@[base + 2]);
        let (a, b, c) = match (ra, rb, rc) {
            (Some(a), Some(b), Some(c)) => (a, b, c),
            _ => {
                proof {
                    if ra is None {
                        lemma_bad_char(t, base as int);
                    } else if rb is None {
                        lemma_bad_char(t, base + 1);
                    } else {
                        lemma_bad_char(t, base + 2);
                    }
                }
                return None;
            },
        };
        if out.len() < 2 || o > out.len() - 2 {
            return None;
        }
        proof {
            lemma_join_bits(a, b, c, 0);
        }
        out[o] = (a << 2) | (b >> 4);
        out[o + 1] = (b << 4) | (c >> 2);
        proof {
            assert(value_or_zero(t, base as int) == a);
            assert(value_or_zero(t, base + 1) == b);
            assert(value_or_zero(t, base + 2) == c);
            assert forall|i: int| 0 <= i < o + 2 implies out@[i] == #[trigger] decoded_byte(t, i) by {
                if i >= o {
                    assert(i / 3 == g);
                    assert(i % 3 == i - o);
                }
            }
            assert forall|i: int| 0 <= i < k implies (#[trigger] sextet_value(t[i])) is Some by {
                if i >= base {
                    assert(i == base || i == base + 1 || i == base + 2);
                }
            }
        }
        o = o + 2;
    }
    assert(o == decoded_len(k as int));
    assert forall|i: int| 0 <= i < o implies out@.take(o as int)[i] == spec_decode(t)[i] by {
        assert(out@[i] == decoded_byte(t, i));
    }
    assert(out@.take(o as int) =~= spec_decode(t));
    assert(out@.skip(o as int) =~= old(out)@.skip(o as int));
    Some(o)
}


proof fn lemma_sextet_char_roundtrip(v: int)
    requires
        0 <= v < 64,
    ensures
        sextet_value(sextet_char(v)) == Some(v),
        sextet_char(v) != 61u8,
{
}

proof fn lemma_sextet_range(s: Seq<u8>, g: int, j: int)
    requires
        0 <= j < 4,
    ensures
        0 <= sextet(s, g, j) < 64,
{
    let a = byte_or_zero(s, 3 * g);
    let b = byte_or_zero(s, 3 * g + 1);
    let c = byte_or_zero(s, 3 * g + 2);
    assert(0 <= a < 256 && 0 <= b < 256 && 0 <= c < 256);
}

proof fn lemma_bytes_from_sextets(a: int, b: int, c: int)
    requires
        0 <= a < 256,
        0 <= b < 256,
        0 <= c < 256,
    ensures
        (a / 4) * 4 + ((a % 4) * 16 + b / 16) / 16 == a,
        (((a % 4) * 16 + b / 16) % 16) * 16 + ((b % 16) * 4 + c / 64) / 4 == b,
        (((b % 16) * 4 + c / 64) % 4) * 64 + c % 64 == c,
{
    assert((a / 4) * 4 + ((a % 4) * 16 + b / 16) / 16 == a) by (nonlinear_arith)
        requires
            0 <= a < 256,
            0 <= b < 256,
    ;
    assert((((a % 4) * 16 + b / 16) % 16) * 16 + ((b % 16) * 4 + c / 64) / 4 == b) by (nonlinear_arith)
        requires
            0 <= a < 256,
            0 <= b < 256,
            0 <= c < 256,
    ;
    assert((((b % 16) * 4 + c / 64) % 4) * 64 + c % 64 == c) by (nonlinear_arith)
        requires
            0 <= b < 256,
            0 <= c < 256,
    ;
}

/// Decoding what `encode` wrote gives the input back: the encoding's trailing
/// padding is exactly what `decode` strips, every other character is in the
/// alphabet, and each byte is rebuilt from its two 6-bit halves.
pub proof fn lemma_decode_encode(s: Seq<u8>)
    ensures
        ({
            let e = spec_encode(s);
            let t = e.take(trimmed_len(e) as int);
            &&& decodable(t)
            &&& decoded_len(t.len() as int) == s.len()
            &&& spec_decode(t) == s
        }),
{
    let n = s.len() as int;
    let e = spec_encode(s);
    let full = n / 3;
    let rem = n % 3;
    let m = if rem == 0 {
        4 * full
    } else {
        4 * full + rem + 1
    };
    assert forall|p: int| 0 <= p < m implies e[p] != 61u8 && (#[trigger] sextet_value(e[p]))
        == Some(sextet(s, p / 4, p % 4)) by {
        lemma_sextet_range(s, p / 4, p % 4);
        lemma_sextet_char_roundtrip(sextet(s, p / 4, p % 4));
    }
    // The padding is exactly the positions `m..e.len()`.
    assert(trimmed_len(e) == m) by {
        assert(e.len() == 4 * ((n + 2) / 3));
        if rem == 0 {
            assert(e.len() == m);
            if m > 0 {
                assert(e.last() != 61u8);
            }
        } else if rem == 1 {
            assert(e.len() == m + 2);
            assert(e.last() == 61u8);
            assert(e.drop_last().last() == 61u8);
            assert(e.drop_last().drop_last().last() != 61u8);
            assert(e.drop_last().drop_last() =~= e.take(m));
            assert(e.take(m).last() != 61u8);
        } else {
            assert(e.len() == m + 1);
            assert(e.last() == 61u8);
            assert(e.drop_last() =~= e.take(m));
            assert(e.take(m).last() != 61u8);
        }
        reveal_with_fuel(trimmed_len, 3);
    }
    let t = e.take(m);
    assert(decodable(t)) by {
        assert forall|i: int| 0 <= i < t.len() implies (#[trigger] sextet_value(t[i])) is Some by {
            assert(t[i] == e[i]);
        }
    }
    assert(decoded_len(m) == n);
    assert forall|i: int| 0 <= i < n implies #[trigger] decoded_byte(t, i) == s[i] by {
        let g = i / 3;
        let k = i % 3;
        let a = byte_or_zero(s, 3 * g);
        let b = byte_or_zero(s, 3 * g + 1);
        let c = byte_or_zero(s, 3 * g + 2);
        assert(0 <= a < 256 && 0 <= b < 256 && 0 <= c < 256);
        lemma_bytes_from_sextets(a, b, c);
        assert(4 * g + 1 < m);
        assert(value_or_zero(t, 4 * g) == sextet(s, g, 0)) by {
            assert(t[4 * g] == e[4 * g]);
            assert((4 * g) / 4 == g && (4 * g) % 4 == 0);
        }
        assert(value_or_zero(t, 4 * g + 1) == sextet(s, g, 1)) by {
            assert(t[4 * g + 1] == e[4 * g + 1]);
            assert((4 * g + 1) / 4 == g && (4 * g + 1) % 4 == 1);
        }
        if k >= 1 {
            assert(4 * g + 2 < m);
            assert(value_or_zero(t, 4 * g + 2) == sextet(s, g, 2)) by {
                assert(t[4 * g + 2] == e[4 * g + 2]);
                assert((4 * g + 2) / 4 == g && (4 * g + 2) % 4 == 2);
            }
        }
        if k == 2 {
            assert(4 * g + 3 < m);
            assert(value_or_zero(t, 4 * g + 3) == sextet(s, g, 3)) by {
                assert(t[4 * g + 3] == e[4 * g + 3]);
                assert((4 * g + 3) / 4 == g && (4 * g + 3) % 4 == 3);
            }
        }
        if k == 0 {
            assert(a == s[i]);
        } else if k == 1 {
            assert(b == s[i]);
        } else {
            assert(c == s[i]);
        }
    }
    assert(spec_decode(t) =~= s);
}

} // verus!

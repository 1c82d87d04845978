//! Text the screens show, built into fixed buffers: decimal numbers with
//! labels, the upper-case address for the QR code, the file-row hit test
//! and the name of a signed file.
use vstd::prelude::*;
use crate::layout::{SD_FILES_MAX, SD_FILE_H, SD_FILE_STEP, SD_FILE_W, SD_FILE_X, sd_file_y, sd_file_y_spec};

verus! {

/// Decimal digits of `n`, most significant first.
pub open spec fn decimal(n: nat) -> Seq<u8>
    decreases n,
{
    if n < 10 {
        seq![(48 + n) as u8]
    } else {
        decimal(n / 10).push((48 + n % 10) as u8)
    }
}

/// The digits still to write for `val` (none once it reaches zero).
pub open spec fn pending_digits(val: nat) -> Seq<u8> {
    if val == 0 {
        Seq::empty()
    } else {
        decimal(val)
    }
}

pub open spec fn pow10(k: nat) -> nat
    decreases k,
{
    if k == 0 {
        1
    } else {
        10 * pow10((k - 1) as nat)
    }
}

proof fn lemma_decimal_len(n: nat, k: nat)
    requires
        1 <= k,
        n < pow10(k),
    ensures
        1 <= decimal(n).len() <= k,
    decreases k,
{
    if n >= 10 {
        assert(n / 10 < pow10((k - 1) as nat)) by (nonlinear_arith)
            requires
                n < pow10(k),
                pow10(k) == 10 * pow10((k - 1) as nat),
                k >= 1,
        ;
        if k == 1 {
            assert(false);
        } else {
            lemma_decimal_len(n / 10, (k - 1) as nat);
        }
    }
}

proof fn lemma_digit_step(v: nat)
    requires
        v > 0,
    ensures
        pending_digits(v / 10) + seq![(48 + v % 10) as u8] == decimal(v),
{
    if v < 10 {
        assert(Seq::<u8>::empty() + seq![(48 + v % 10) as u8] =~= decimal(v));
    }
}

/// Writes the decimal digits of `n` at the end of `buf` and returns them.
pub fn fmt_u64(n: u64, buf: &mut [u8; 20]) -> (r: &[u8])
    ensures
        r@ == decimal(n as nat),
        r@.len() <= 20,
{
    proof {
        reveal_with_fuel(pow10, 21);
        lemma_decimal_len(n as nat, 20);
    }
    let mut pos: usize = 19;
    buf[19] = 48 + (n % 10) as u8;
    let mut val: u64 = n / 10;
    proof {
        if n == 0 {
            assert(buf@.subrange(19, 20) =~= decimal(0));
        } else {
            lemma_digit_step(n as nat);
            assert(buf@.subrange(19, 20) =~= seq![(48 + n % 10) as u8]);
        }
    }
    while val > 0
        invariant
            pos <= 19,
            val > 0 ==> pos >= 1,
            pending_digits(val as nat) + buf@.subrange(pos as int, 20) == decimal(n as nat),
            decimal(n as nat).len() <= 20,
        decreases val,
    {
        let ghost before = buf@.subrange(pos as int, 20);
        let ghost v = val as nat;
        assert(pending_digits(v).len() >= 1);
        pos = pos - 1;
        buf[pos] = 48 + (val % 10) as u8;
        val = val / 10;
        proof {
            lemma_digit_step(v);
            assert(buf@.subrange(pos as int, 20) =~= seq![(48 + v % 10) as u8] + before);
            assert(pending_digits(val as nat) + buf@.subrange(pos as int, 20) =~= (pending_digits(
                v / 10,
            ) + seq![(48 + v % 10) as u8]) + before);
        }
        assert(pending_digits(v / 10) + seq![(48 + v % 10) as u8] == pending_digits(v));
        assert(val > 0 ==> pos >= 1) by {
            if val > 0 {
                assert(pending_digits(val as nat).len() >= 1);
                assert(pending_digits(val as nat).len() + (20 - pos) == decimal(n as nat).len());
            }
        }
    }
    assert(buf@.subrange(pos as int, 20) =~= decimal(n as nat));
    vstd::slice::slice_subrange(buf.as_slice(), pos, 20)
}

/// Writes `src` into `buf` at `pos`.
fn copy_into(buf: &mut [u8], pos: usize, src: &[u8])
    requires
        pos + src@.len() <= old(buf)@.len(),
    ensures
        final(buf)@.len() == old(buf)@.len(),
        final(buf)@.take(pos + src@.len()) == old(buf)@.take(pos as int) + src@,
{
    let blen = buf.len();
    let mut i: usize = 0;
    while i < src.len()
        invariant
            blen == buf@.len(),
            pos + src@.len() <= buf@.len(),
            buf@.len() == old(buf)@.len(),
            i <= src@.len(),
            buf@.take(pos + i) == old(buf)@.take(pos as int) + src@.take(i as int),
        decreases src@.len() - i,
    {
        let ghost prev = buf@;
        buf[pos + i] = src[i];
        assert(buf@.take(pos + i + 1) =~= prev.take(pos + i).push(src@[i as int]));
        assert(src@.take(i + 1) =~= src@.take(i as int).push(src@[i as int]));
        i = i + 1;
    }
    assert(src@.take(i as int) =~= src@);
}

/// Writes the decimal digits of `n` at the end of a 4-byte buffer.
pub fn fmt_u8(n: u8, buf: &mut [u8; 4]) -> (r: &[u8])
    ensures
        r@ == decimal(n as nat),
{
    let mut tmp = [0u8; 20];
    let digits = fmt_u64(n as u64, &mut tmp);
    proof {
        reveal_with_fuel(pow10, 4);
        lemma_decimal_len(n as nat, 3);
    }
    let start = 4 - digits.len();
    copy_into(buf, start, digits);
    assert(buf@.subrange(start as int, 4) =~= buf@.take(4).skip(start as int));
    assert(buf@.take(4) =~= buf@);
    vstd::slice::slice_subrange(buf.as_slice(), start, 4)
}

/// `"?"` when the text does not fit, else the text.
pub open spec fn fitted(text: Seq<u8>, cap: nat) -> Seq<u8> {
    if text.len() > cap {
        seq![63u8]
    } else {
        text
    }
}

fn question_mark<'a>(buf: &'a mut [u8]) -> (r: &'a [u8])
    requires
        old(buf)@.len() >= 1,
    ensures
        r@ == seq![63u8],
{
    buf[0] = 63;
    let r = vstd::slice::slice_subrange(&*buf, 0, 1);
    assert(r@ =~= seq![63u8]);
    r
}

/// `n` in decimal followed by `suffix`, or `"?"` when that exceeds 28 bytes.
pub fn fmt_with_suffix<'a>(n: u64, suffix: &[u8], buf: &'a mut [u8; 28]) -> (r: &'a [u8])
    ensures
        r@ == fitted(decimal(n as nat) + suffix@, 28),
{
    let mut tmp = [0u8; 20];
    let s = fmt_u64(n, &mut tmp);
    if s.len() > 28 || suffix.len() > 28 - s.len() {
        return question_mark(buf);
    }
    copy_into(buf, 0, s);
    copy_into(buf, s.len(), suffix);
    let total = s.len() + suffix.len();
    assert(buf@.take(0) =~= Seq::<u8>::empty());
    let r = vstd::slice::slice_subrange(&*buf, 0, total);
    assert(r@ =~= decimal(n as nat) + suffix@);
    r
}

/// `prefix`, `n` in decimal, `suffix`, or `"?"` when that exceeds 28 bytes.
pub fn fmt_with_prefix_suffix<'a>(prefix: &[u8], n: u64, suffix: &[u8], buf: &'a mut [u8; 28]) -> (r:
    &'a [u8])
    ensures
        r@ == fitted(prefix@ + decimal(n as nat) + suffix@, 28),
{
    let mut tmp = [0u8; 20];
    let s = fmt_u64(n, &mut tmp);
    if prefix.len() > 28 || s.len() > 28 - prefix.len() || suffix.len() > 28 - prefix.len()
        - s.len() {
        return question_mark(buf);
    }
    copy_into(buf, 0, prefix);
    copy_into(buf, prefix.len(), s);
    copy_into(buf, prefix.len() + s.len(), suffix);
    let total = prefix.len() + s.len() + suffix.len();
    assert(buf@.take(0) =~= Seq::<u8>::empty());
    let r = vstd::slice::slice_subrange(&*buf, 0, total);
    assert(r@ =~= prefix@ + decimal(n as nat) + suffix@);
    r
}

/// " sats (change)".
pub open spec fn change_suffix() -> Seq<u8> {
    seq![32u8, 115u8, 97u8, 116u8, 115u8, 32u8, 40u8, 99u8, 104u8, 97u8, 110u8, 103u8, 101u8, 41u8]
}

/// `"N sats (change)"`, or `"?"` when that exceeds 40 bytes.
pub fn fmt_with_suffix_change<'a>(n: u64, buf: &'a mut [u8; 40]) -> (r: &'a [u8])
    ensures
        r@ == fitted(decimal(n as nat) + change_suffix(), 40),
{
    let suffix = [32u8, 115u8, 97u8, 116u8, 115u8, 32u8, 40u8, 99u8, 104u8, 97u8, 110u8, 103u8, 101u8, 41u8];
    assert(suffix@ =~= change_suffix());
    let mut tmp = [0u8; 20];
    let s = fmt_u64(n, &mut tmp);
    if s.len() + suffix.len() > 40 {
        return question_mark(buf);
    }
    copy_into(buf, 0, s);
    copy_into(buf, s.len(), &suffix);
    let total = s.len() + suffix.len();
    assert(buf@.take(0) =~= Seq::<u8>::empty());
    let r = vstd::slice::slice_subrange(&*buf, 0, total);
    assert(r@ =~= decimal(n as nat) + change_suffix());
    r
}

pub open spec fn ascii_upper(b: u8) -> u8 {
    if 97 <= b <= 122 {
        (b - 32) as u8
    } else {
        b
    }
}

/// The first 62 bytes of `data`, ASCII letters upper-cased (the QR
/// alphanumeric mode wants upper case), and how many there are.
pub fn upper_address(data: &[u8]) -> (r: ([u8; 62], usize))
    ensures
        r.1 == if data@.len() < 62 { data@.len() } else { 62 },
        forall|i: int| 0 <= i < r.1 ==> r.0@[i] == ascii_upper(data@[i]),
{
    let mut upper = [0u8; 62];
    let len = if data.len() < 62 { data.len() } else { 62 };
    let mut i: usize = 0;
    while i < len
        invariant
            len <= 62,
            len <= data@.len(),
            i <= len,
            forall|j: int| 0 <= j < i ==> upper@[j] == ascii_upper(data@[j]),
        decreases len - i,
    {
        let b = data[i];
        upper[i] = if 97 <= b && b <= 122 { b - 32 } else { b };
        i = i + 1;
    }
    (upper, len)
}

pub open spec fn in_rect_spec(x: int, y: int, rx: int, ry: int, rw: int, rh: int) -> bool {
    x >= rx && x < rx + rw && y >= ry && y < ry + rh
}

/// The SD file row under a touch, if any.
pub open spec fn sd_row_spec(x: int, y: int) -> Option<usize> {
    if !in_rect_spec(x, y, SD_FILE_X as int, sd_file_y_spec(0), SD_FILE_W as int, SD_FILE_STEP * 4) {
        None
    } else {
        let row = (y - sd_file_y_spec(0)) / (SD_FILE_STEP as int);
        if row < SD_FILES_MAX && in_rect_spec(
            x,
            y,
            SD_FILE_X as int,
            sd_file_y_spec(row),
            SD_FILE_W as int,
            SD_FILE_H as int,
        ) {
            Some(row as usize)
        } else {
            None
        }
    }
}

/// Which file row of the SD listing a touch lands on.
pub fn sd_row_at(x: i32, y: i32) -> (r: Option<usize>)
    ensures
        r == sd_row_spec(x as int, y as int),
{
    let y0 = sd_file_y(0);
    if !(x >= SD_FILE_X && x < SD_FILE_X + SD_FILE_W && y >= y0 && y < y0 + SD_FILE_STEP * 4) {
        return None;
    }
    let row = ((y - y0) / SD_FILE_STEP) as usize;
    if row >= SD_FILES_MAX {
        return None;
    }
    let ry = sd_file_y(row);
    if x >= SD_FILE_X && x < SD_FILE_X + SD_FILE_W && y >= ry && y < ry + SD_FILE_H {
        Some(row)
    } else {
        None
    }
}

/// ".psbt".
pub open spec fn psbt_ext() -> Seq<u8> {
    seq![46u8, 112u8, 115u8, 98u8, 116u8]
}

/// "-signed.psbt".
pub open spec fn signed_suffix() -> Seq<u8> {
    seq![45u8, 115u8, 105u8, 103u8, 110u8, 101u8, 100u8, 46u8, 112u8, 115u8, 98u8, 116u8]
}

/// `stem-signed.psbt` for `stem.psbt` (any other name keeps all of itself
/// as the stem).
pub open spec fn signed_name_spec(name: Seq<u8>) -> Seq<u8> {
    let stem = if name.len() >= 5 && name.skip(name.len() - 5) == psbt_ext() {
        name.take(name.len() - 5)
    } else {
        name
    };
    stem + signed_suffix()
}

/// The file name the signed PSBT is written under: `foo.psbt` becomes
/// `foo-signed.psbt`.
pub fn signed_name(name: &[u8]) -> (r: Vec<u8>)
    ensures
        r@ == signed_name_spec(name@),
{
    let n = name.len();
    let ext = [46u8, 112u8, 115u8, 98u8, 116u8];
    assert(ext@ =~= psbt_ext());
    let mut has_ext = n >= 5;
    let mut k: usize = 0;
    while has_ext && k < 5
        invariant
            k <= 5,
            ext@ == psbt_ext(),
            has_ext ==> n >= 5 && forall|j: int| 0 <= j < k ==> name@[n - 5 + j] == ext@[j],
            !has_ext ==> !(n >= 5 && name@.skip(n - 5) == psbt_ext()),
            n == name@.len(),
        decreases 5 - k,
    {
        if name[n - 5 + k] != ext[k] {
            has_ext = false;
            assert(name@.skip(n - 5)[k as int] != psbt_ext()[k as int]);
        }
        k = k + 1;
    }
    if has_ext {
        assert(name@.skip(n - 5) =~= psbt_ext());
    }
    let stem_len = if has_ext { n - 5 } else { n };
    let mut out: Vec<u8> = Vec::new();
    crate::hashes::append_bytes(&mut out, vstd::slice::slice_subrange(name, 0, stem_len));
    let suffix = [45u8, 115u8, 105u8, 103u8, 110u8, 101u8, 100u8, 46u8, 112u8, 115u8, 98u8, 116u8];
    assert(suffix@ =~= signed_suffix());
    crate::hashes::append_bytes(&mut out, &suffix);
    assert(name@.take(n as int) =~= name@);
    out
}

} // verus!

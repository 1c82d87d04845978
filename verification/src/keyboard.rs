//! The on-screen QWERTY keyboard: which key a touch lands on.
use vstd::prelude::*;
use crate::layout::{
    BKSP_W, BKSP_X, KEY_H, KEY_STEP, KEY_W, PP_BTN_H, PP_BTN_W, PP_BTN_Y, PP_CONFIRM_X, PP_SKIP_X,
    ROW0_X, ROW0_Y, ROW1_X, ROW1_Y, ROW2_X, ROW2_Y, ROW3_Y, SPACE_W, SPACE_X,
};

verus! {

/// "QWERTYUIOP".
pub open spec fn row0() -> Seq<u8> {
    seq![81u8, 87u8, 69u8, 82u8, 84u8, 89u8, 85u8, 73u8, 79u8, 80u8]
}

/// "ASDFGHJKL".
pub open spec fn row1() -> Seq<u8> {
    seq![65u8, 83u8, 68u8, 70u8, 71u8, 72u8, 74u8, 75u8, 76u8]
}

/// "ZXCVBNM".
pub open spec fn row2() -> Seq<u8> {
    seq![90u8, 88u8, 67u8, 86u8, 66u8, 78u8, 77u8]
}

#[derive(Debug, Clone, Copy, PartialEq, Eq, Structural)]
pub enum KeyPress {
    Char(u8),
    Space,
    Backspace,
    Skip,
    Confirm,
}

pub open spec fn in_span(v: int, lo: int, len: int) -> bool {
    lo <= v < lo + len
}

/// The letter key of a row under `x`: key `i` spans
/// `[x0 + i*KEY_STEP, x0 + i*KEY_STEP + KEY_W)`.
pub open spec fn row_key(x: int, x0: int, row: Seq<u8>) -> Option<u8> {
    if x >= x0 && (x - x0) / (KEY_STEP as int) < row.len() && (x - x0) % (KEY_STEP as int) < KEY_W {
        Some(row[(x - x0) / (KEY_STEP as int)])
    } else {
        None
    }
}

/// The key under `(x, y)`: letter rows first, then Backspace beside the
/// last row, Space and Backspace on the bottom row, Skip and Confirm.
pub open spec fn key_at_spec(x: int, y: int) -> Option<KeyPress> {
    if in_span(y, ROW0_Y as int, KEY_H as int) && row_key(x, ROW0_X as int, row0()) is Some {
        Some(KeyPress::Char(row_key(x, ROW0_X as int, row0())->Some_0))
    } else if in_span(y, ROW1_Y as int, KEY_H as int) && row_key(x, ROW1_X as int, row1()) is Some {
        Some(KeyPress::Char(row_key(x, ROW1_X as int, row1())->Some_0))
    } else if in_span(y, ROW2_Y as int, KEY_H as int) && row_key(x, ROW2_X as int, row2()) is Some {
        Some(KeyPress::Char(row_key(x, ROW2_X as int, row2())->Some_0))
    } else if in_span(y, ROW2_Y as int, KEY_H as int) && in_span(x, BKSP_X as int, BKSP_W as int) {
        Some(KeyPress::Backspace)
    } else if in_span(y, ROW3_Y as int, KEY_H as int) && in_span(x, SPACE_X as int, SPACE_W as int) {
        Some(KeyPress::Space)
    } else if in_span(y, ROW3_Y as int, KEY_H as int) && in_span(x, BKSP_X as int, BKSP_W as int) {
        Some(KeyPress::Backspace)
    } else if in_span(y, PP_BTN_Y as int, PP_BTN_H as int) && in_span(
        x,
        PP_SKIP_X as int,
        PP_BTN_W as int,
    ) {
        Some(KeyPress::Skip)
    } else if in_span(y, PP_BTN_Y as int, PP_BTN_H as int) && in_span(
        x,
        PP_CONFIRM_X as int,
        PP_BTN_W as int,
    ) {
        Some(KeyPress::Confirm)
    } else {
        None
    }
}

fn span(v: i32, lo: i32, len: i32) -> (r: bool)
    requires
        -1000000 <= lo <= 1000000,
        0 <= len <= 1000000,
    ensures
        r == in_span(v as int, lo as int, len as int),
{
    lo <= v && v < lo + len
}

/// Finds the key of `row` under `x`.
fn row_key_exec(x: i32, x0: i32, row: &[u8]) -> (r: Option<u8>)
    requires
        0 <= x0 <= 1000,
        row@.len() <= 10,
    ensures
        r == row_key(x as int, x0 as int, row@),
{
    if x < x0 {
        return None;
    }
    let d = x - x0;
    let i = (d / KEY_STEP) as usize;
    if i < row.len() && d % KEY_STEP < KEY_W {
        Some(row[i])
    } else {
        None
    }
}

/// The key under a touch at `(x, y)`, if any.
pub fn passphrase_key_at(x: i32, y: i32) -> (r: Option<KeyPress>)
    ensures
        r == key_at_spec(x as int, y as int),
{
    let r0: [u8; 10] = [81u8, 87u8, 69u8, 82u8, 84u8, 89u8, 85u8, 73u8, 79u8, 80u8];
    let r1: [u8; 9] = [65u8, 83u8, 68u8, 70u8, 71u8, 72u8, 74u8, 75u8, 76u8];
    let r2: [u8; 7] = [90u8, 88u8, 67u8, 86u8, 66u8, 78u8, 77u8];
    assert(r0@ =~= row0());
    assert(r1@ =~= row1());
    assert(r2@ =~= row2());
    if span(y, ROW0_Y, KEY_H) {
        if let Some(c) = row_key_exec(x, ROW0_X, &r0) {
            return Some(KeyPress::Char(c));
        }
    }
    if span(y, ROW1_Y, KEY_H) {
        if let Some(c) = row_key_exec(x, ROW1_X, &r1) {
            return Some(KeyPress::Char(c));
        }
    }
    if span(y, ROW2_Y, KEY_H) {
        if let Some(c) = row_key_exec(x, ROW2_X, &r2) {
            return Some(KeyPress::Char(c));
        }
        if span(x, BKSP_X, BKSP_W) {
            return Some(KeyPress::Backspace);
        }
    }
    if span(y, ROW3_Y, KEY_H) {
        if span(x, SPACE_X, SPACE_W) {
            return Some(KeyPress::Space);
        }
        if span(x, BKSP_X, BKSP_W) {
            return Some(KeyPress::Backspace);
        }
    }
    if span(y, PP_BTN_Y, PP_BTN_H) {
        if span(x, PP_SKIP_X, PP_BTN_W) {
            return Some(KeyPress::Skip);
        }
        if span(x, PP_CONFIRM_X, PP_BTN_W) {
            return Some(KeyPress::Confirm);
        }
    }
    None
}

/// The letters of keyboard row `row` (0 to 2), left to right.
pub fn key_row_letters(row: usize) -> (r: Vec<u8>)
    requires
        row < 3,
    ensures
        r@ == if row == 0 {
            row0()
        } else if row == 1 {
            row1()
        } else {
            row2()
        },
{
    if row == 0 {
        let v = vec![81u8, 87u8, 69u8, 82u8, 84u8, 89u8, 85u8, 73u8, 79u8, 80u8];
        assert(v@ =~= row0());
        v
    } else if row == 1 {
        let v = vec![65u8, 83u8, 68u8, 70u8, 71u8, 72u8, 74u8, 75u8, 76u8];
        assert(v@ =~= row1());
        v
    } else {
        let v = vec![90u8, 88u8, 67u8, 86u8, 66u8, 78u8, 77u8];
        assert(v@ =~= row2());
        v
    }
}

} // verus!

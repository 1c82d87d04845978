//! QR codes for display: the modules of a code (from the `qrcode` crate)
//! and where each dark module is drawn inside a square.
use vstd::prelude::*;

verus! {

/// The modules of the QR code of `data` at error-correction level L, row by
/// row (`true` for dark), as the `qrcode` crate lays them out; `None` when
/// the data does not fit a QR code.
pub uninterp spec fn qr_code_l(data: Seq<u8>) -> Option<Seq<bool>>;

/// A QR code: `width` modules a side, `dark[row * width + col]`.
pub struct QrMatrix {
    pub width: usize,
    pub dark: Vec<bool>,
}

/// `qrcode::QrCode::with_error_correction_level(data, EcLevel::L)`, read out
/// with `width()` and `to_colors()`. Trusted: the result is the named
/// function `qr_code_l` of the data, and the crate's canvas holds
/// `width * width` modules.
#[verifier::external_body]
fn qr_encode_l(data: &[u8]) -> (r: Option<(usize, Vec<bool>)>)
    ensures
        match qr_code_l(data@) {
            Some(cells) => r matches Some((w, v)) && v@ == cells && cells.len() == w * w,
            None => r is None,
        },
{
    match qrcode::QrCode::with_error_correction_level(data, qrcode::EcLevel::L) {
        Ok(q) => Some((
            q.width(),
            q.to_colors().iter().map(|c| matches!(c, qrcode::Color::Dark)).collect(),
        )),
        Err(_) => None,
    }
}

/// The QR code of `data`, or `None` when it does not fit one.
pub fn qr_matrix(data: &[u8]) -> (r: Option<QrMatrix>)
    ensures
        match qr_code_l(data@) {
            Some(cells) => r matches Some(m) && m.dark@ == cells && cells.len() == m.width
                * m.width,
            None => r is None,
        },
{
    match qr_encode_l(data) {
        Some((width, dark)) => Some(QrMatrix { width, dark }),
        None => None,
    }
}

/// Pixels per module: as many as fit `modules` plus a 4-module quiet zone
/// on each side into `size`, at least one.
pub open spec fn qr_module_px(modules: int, size: int) -> int {
    if size / (modules + 8) >= 1 {
        size / (modules + 8)
    } else {
        1
    }
}

/// The margin that centres the code (quiet zone included) in `size`.
pub open spec fn qr_border(modules: int, size: int) -> int {
    let used = (modules + 8) * qr_module_px(modules, size);
    if size >= used {
        (size - used) / 2
    } else {
        0
    }
}

/// Where the first module goes: the square's corner, the centring border
/// and the quiet zone.
pub open spec fn qr_origin(at: int, modules: int, size: int) -> int {
    at + qr_border(modules, size) + 4 * qr_module_px(modules, size)
}

/// How a QR code of `modules` modules a side sits in a square of `size`
/// pixels whose corner is `(x, y)`.
pub struct QrLayout {
    pub module_px: i32,
    pub origin_x: i32,
    pub origin_y: i32,
}

pub fn qr_layout(modules: usize, x: i32, y: i32, size: i32) -> (r: QrLayout)
    requires
        0 <= size,
        size + 4 <= i32::MAX,
        modules + 8 <= i32::MAX,
        x + size + 4 <= i32::MAX,
        y + size + 4 <= i32::MAX,
    ensures
        r.module_px == qr_module_px(modules as int, size as int),
        r.origin_x == qr_origin(x as int, modules as int, size as int),
        r.origin_y == qr_origin(y as int, modules as int, size as int),
{
    let total: u64 = modules as u64 + 8;
    let s: u64 = size as u64;
    let px: u64 = if s / total >= 1 {
        s / total
    } else {
        1
    };
    proof {
        if s / total >= 1 {
            assert(total * (s / total) <= s) by (nonlinear_arith)
                requires
                    total > 0,
            ;
        }
    }
    let used: u64 = total * px;
    let border: u64 = if s >= used {
        (s - used) / 2
    } else {
        0
    };
    assert(4 * px + border <= s + 4) by (nonlinear_arith)
        requires
            total >= 8,
            px == if s / total >= 1 { s / total } else { 1 },
            used == total * px,
            border == if s >= used { (s - used) / 2 } else { 0 },
            s >= 0,
    ;
    let off: u64 = border + 4 * px;
    let off32: i32 = off as i32;
    QrLayout { module_px: px as i32, origin_x: x + off32, origin_y: y + off32 }
}

/// The top-left pixel of module `(col, row)`.
pub fn qr_cell_origin(layout: &QrLayout, col: usize, row: usize) -> (r: (i32, i32))
    requires
        layout.module_px >= 0,
        layout.origin_x + col * layout.module_px <= i32::MAX,
        layout.origin_y + row * layout.module_px <= i32::MAX,
        layout.origin_x >= 0,
        layout.origin_y >= 0,
    ensures
        r.0 == layout.origin_x + col * layout.module_px,
        r.1 == layout.origin_y + row * layout.module_px,
{
    let px = layout.module_px;
    if px == 0 {
        assert(col * px == 0 && row * px == 0) by (nonlinear_arith)
            requires
                px == 0,
        ;
        return (layout.origin_x, layout.origin_y);
    }
    assert(col <= col * px <= i32::MAX - layout.origin_x) by (nonlinear_arith)
        requires
            px >= 1,
            layout.origin_x + col * px <= i32::MAX,
    ;
    assert(row <= row * px <= i32::MAX - layout.origin_y) by (nonlinear_arith)
        requires
            px >= 1,
            layout.origin_y + row * px <= i32::MAX,
    ;
    let dx: i32 = (col as i32) * px;
    let dy: i32 = (row as i32) * px;
    (layout.origin_x + dx, layout.origin_y + dy)
}

} // verus!

use vstd::prelude::*;

verus! {

/// A point in buffer pixel space; it may lie outside the buffer.
pub type Point = (i32, i32);

/// `n / d` rounded toward zero.
pub open spec fn trunc_div(n: int, d: int) -> int {
    if n >= 0 {
        n / d
    } else {
        -((-n) / d)
    }
}

/// `v` saturated to the range of `i32`.
pub open spec fn saturate_i32(v: int) -> int {
    if v < i32::MIN {
        i32::MIN as int
    } else if v > i32::MAX {
        i32::MAX as int
    } else {
        v
    }
}

/// Whether the window is wider, relative to its height, than the buffer.
pub open spec fn window_wider(ww: int, wh: int, bw: int, bh: int) -> bool {
    ww * bh > bw * wh
}

/// Twice the width of the bar left of the buffer when the window is wider:
/// `ww - bw * wh / bh`, scaled by `bh`.
pub open spec fn bar_left_scaled(ww: int, wh: int, bw: int, bh: int) -> int {
    ww * bh - bw * wh
}

/// Twice the height of the bar above the buffer when the window is taller:
/// `wh - bh * ww / bw`, scaled by `bw`.
pub open spec fn bar_above_scaled(ww: int, wh: int, bw: int, bh: int) -> int {
    wh * bw - bh * ww
}

/// Buffer column of window column `x`. The buffer is shown at the scale
/// `wh / bh` when the window is wider and at `ww / bw` otherwise; the bar
/// offset is exact and only the result is truncated:
/// `(x - (ww - bw * wh / bh) / 2) * bh / wh` when the window is wider.
pub open spec fn map_x(x: int, ww: int, wh: int, bw: int, bh: int) -> int {
    if window_wider(ww, wh, bw, bh) {
        trunc_div(2 * x * bh - bar_left_scaled(ww, wh, bw, bh), 2 * wh)
    } else {
        trunc_div(x * bw, ww)
    }
}

/// Buffer row of window row `y`:
/// `(y - (wh - bh * ww / bw) / 2) * bw / ww` when the window is taller.
pub open spec fn map_y(y: int, ww: int, wh: int, bw: int, bh: int) -> int {
    if window_wider(ww, wh, bw, bh) {
        trunc_div(y * bh, wh)
    } else {
        trunc_div(2 * y * bw - bar_above_scaled(ww, wh, bw, bh), 2 * ww)
    }
}

fn trunc_div_wide(n: i128, d: i128) -> (r: i128)
    requires
        d > 0,
        -0x1_0000_0000_0000_0000_0000 <= n <= 0x1_0000_0000_0000_0000_0000,
    ensures
        r == trunc_div(n as int, d as int),
{
    if n >= 0 {
        n / d
    } else {
        -((-n) / d)
    }
}

fn saturate_wide(v: i128) -> (r: i32)
    ensures
        r == saturate_i32(v as int),
{
    if v < i32::MIN as i128 {
        i32::MIN
    } else if v > i32::MAX as i128 {
        i32::MAX
    } else {
        v as i32
    }
}

/// Maps the window point `(x, y)` of a `ww` by `wh` window to the buffer
/// point under it, where a `bw` by `bh` buffer is scaled to fit the window
/// with its aspect kept and centred between two bars. Coordinates are
/// truncated toward zero and saturated to `i32`.
pub fn window_point_to_buffer_point(x: i32, y: i32, ww: i32, wh: i32, bw: i32, bh: i32) -> (r:
    Point)
    requires
        ww > 0,
        wh > 0,
        bw > 0,
        bh > 0,
    ensures
        r.0 == saturate_i32(map_x(x as int, ww as int, wh as int, bw as int, bh as int)),
        r.1 == saturate_i32(map_y(y as int, ww as int, wh as int, bw as int, bh as int)),
{
    let (x, y) = (x as i128, y as i128);
    let (ww, wh, bw, bh) = (ww as i128, wh as i128, bw as i128, bh as i128);
    proof {
        assert(0 < ww * bh < 0x1_0000_0000_0000_0000) by (nonlinear_arith)
            requires 0 < ww < 0x1_0000_0000, 0 < bh < 0x1_0000_0000;
        assert(0 < bw * wh < 0x1_0000_0000_0000_0000) by (nonlinear_arith)
            requires 0 < bw < 0x1_0000_0000, 0 < wh < 0x1_0000_0000;
    }
    if ww * bh > bw * wh {
        proof {
            assert(-0x1_0000_0000_0000_0000_0000 <= 2 * x * bh - (ww * bh - bw * wh) <= 0x1_0000_0000_0000_0000_0000) by (nonlinear_arith)
                requires -0x1_0000_0000 <= x <= 0x1_0000_0000, 0 < bh < 0x1_0000_0000,
                    0 < ww * bh < 0x1_0000_0000_0000_0000, 0 < bw * wh < 0x1_0000_0000_0000_0000;
            assert(-0x1_0000_0000_0000_0000_0000 <= y * bh <= 0x1_0000_0000_0000_0000_0000) by (nonlinear_arith)
                requires -0x1_0000_0000 <= y <= 0x1_0000_0000, 0 < bh < 0x1_0000_0000;
        }
        let rx = trunc_div_wide(2 * x * bh - (ww * bh - bw * wh), 2 * wh);
        let ry = trunc_div_wide(y * bh, wh);
        (saturate_wide(rx), saturate_wide(ry))
    } else {
        proof {
            assert(wh * bw == bw * wh && bh * ww == ww * bh) by (nonlinear_arith);
            assert(-0x1_0000_0000_0000_0000_0000 <= 2 * y * bw - (wh * bw - bh * ww) <= 0x1_0000_0000_0000_0000_0000) by (nonlinear_arith)
                requires -0x1_0000_0000 <= y <= 0x1_0000_0000, 0 < bw < 0x1_0000_0000,
                    0 < ww * bh < 0x1_0000_0000_0000_0000, 0 < bw * wh < 0x1_0000_0000_0000_0000;
            assert(-0x1_0000_0000_0000_0000_0000 <= x * bw <= 0x1_0000_0000_0000_0000_0000) by (nonlinear_arith)
                requires -0x1_0000_0000 <= x <= 0x1_0000_0000, 0 < bw < 0x1_0000_0000;
        }
        let rx = trunc_div_wide(x * bw, ww);
        let ry = trunc_div_wide(2 * y * bw - (wh * bw - bh * ww), 2 * ww);
        (saturate_wide(rx), saturate_wide(ry))
    }
}

/// `(b * w) / (2 * w)` is `b / 2`.
proof fn lemma_half_of_scaled(b: int, w: int)
    requires
        b >= 0,
        w > 0,
    ensures
        (b * w) / (2 * w) == b / 2,
{
    let q = b / 2;
    let r = b % 2;
    vstd::arithmetic::div_mod::lemma_fundamental_div_mod(b, 2);
    assert(b * w == (2 * w) * q + r * w && 0 <= r * w < 2 * w) by (nonlinear_arith)
        requires b == 2 * q + r, 0 <= r < 2, w > 0;
    vstd::arithmetic::div_mod::lemma_fundamental_div_mod_converse(b * w, 2 * w, q, r * w);
}

/// For a window of even width and height, the centre of the window maps to
/// the centre of the buffer, both when the window is wider than the buffer
/// and when it is taller, whatever the scale.
pub proof fn lemma_center_maps_to_center(ww: int, wh: int, bw: int, bh: int)
    requires
        ww > 0,
        wh > 0,
        bw > 0,
        bh > 0,
        ww % 2 == 0,
        wh % 2 == 0,
    ensures
        map_x(ww / 2, ww, wh, bw, bh) == bw / 2,
        map_y(wh / 2, ww, wh, bw, bh) == bh / 2,
{
    let (cx, cy) = (ww / 2, wh / 2);
    assert(2 * cx == ww && 2 * cy == wh);
    if window_wider(ww, wh, bw, bh) {
        assert(2 * cx * bh - bar_left_scaled(ww, wh, bw, bh) == bw * wh) by (nonlinear_arith)
            requires 2 * cx == ww;
        assert(bw * wh >= 0) by (nonlinear_arith) requires bw > 0, wh > 0;
        lemma_half_of_scaled(bw, wh);
        assert(cy * bh == bh * cy) by (nonlinear_arith);
        assert((bh * cy) / wh == bh / 2) by {
            lemma_half_of_scaled(bh, cy);
        }
        assert(cy * bh >= 0) by (nonlinear_arith) requires cy > 0, bh > 0;
    } else {
        assert(2 * cy * bw - bar_above_scaled(ww, wh, bw, bh) == bh * ww) by (nonlinear_arith)
            requires 2 * cy == wh;
        assert(bh * ww >= 0) by (nonlinear_arith) requires bh > 0, ww > 0;
        lemma_half_of_scaled(bh, ww);
        assert(cx * bw == bw * cx) by (nonlinear_arith);
        assert((bw * cx) / ww == bw / 2) by {
            lemma_half_of_scaled(bw, cx);
        }
        assert(cx * bw >= 0) by (nonlinear_arith) requires cx > 0, bw > 0;
    }
}

} // verus!

use vstd::prelude::*;

use crate::canvas::{guide_col, guide_row, half_toward_zero, in_rect, CanvasBuffer};
use crate::color::invert;
use crate::color::{packed_of, BufColor, RgbColor};
use crate::geometry::Point;

verus! {

/// The active tool and its transient state.
#[derive(Clone, Copy, PartialEq, Eq, Debug)]
pub enum Mode {
    Brush { last_brush_pos: Option<Point> },
    Crop { selection: Option<CropSelection> },
    View,
}

/// Brush side length and colour.
#[derive(Clone, Copy, PartialEq, Eq, Debug)]
pub struct Brush {
    pub size: u32,
    pub color: RgbColor,
}

/// Whether a tick ended a gesture whose result becomes a new version.
#[derive(Clone, Copy, PartialEq, Eq, Debug, Structural)]
pub enum ShouldSave {
    Continue,
    Save,
}

/// The pointer input of one tick, in buffer coordinates.
#[derive(Clone, Copy, PartialEq, Eq, Debug)]
pub struct Input {
    pub mouse_pos: Option<Point>,
    pub mouse_down: bool,
    pub scroll: i32,
}

/// A drag rectangle between two corners.
#[derive(Clone, Copy, PartialEq, Eq, Debug)]
pub struct CropSelection {
    pub start: Point,
    pub end: Point,
}

/// The point that paints or selects this tick: the pointer while the button
/// is held.
pub open spec fn held_point(input: Input) -> Option<Point> {
    if input.mouse_down {
        input.mouse_pos
    } else {
        None
    }
}

/// A brush gesture ends, and is saved, when a held point gives way to none.
pub open spec fn brush_saves(last: Option<Point>, now: Option<Point>) -> bool {
    last.is_some() && now.is_none()
}

/// Brush size after a scroll of `scroll`, kept within `2..=i32::MAX`.
pub open spec fn scrolled_size(size: int, scroll: int) -> int {
    if size + scroll < 2 {
        2
    } else if size + scroll > i32::MAX {
        i32::MAX as int
    } else {
        size + scroll
    }
}

/// `m` is `floor(sqrt(t / d))`.
pub open spec fn is_floor_root(m: int, t: int, d: int) -> bool {
    0 <= m && m * m * d <= t < (m + 1) * (m + 1) * d
}

/// `floor(sqrt(t / d))`, for `t >= 0` and `d > 0`.
pub open spec fn floor_root(t: int, d: int) -> int {
    choose|m: int| is_floor_root(m, t, d)
}

/// Squared length of the step from `a` to `b`.
pub open spec fn dist2(a: Point, b: Point) -> int {
    (b.0 - a.0) * (b.0 - a.0) + (b.1 - a.1) * (b.1 - a.1)
}

/// Number of unit steps painted from `a` toward `b`: the distance rounded down.
pub open spec fn stroke_steps(a: Point, b: Point) -> int {
    floor_root(dist2(a, b), 1)
}

/// Coordinate `start + d * i / sqrt(d2)`, truncated toward zero: the `i`-th
/// unit step along a move of `d` on this axis, out of a move whose squared
/// length is `d2`.
pub open spec fn stroke_coord(start: int, d: int, i: int, d2: int) -> int {
    let m = floor_root(d * d * i * i, d2);
    let exact = m * m * d2 == d * d * i * i;
    let below = if d >= 0 {
        m
    } else if exact {
        -m
    } else {
        -m - 1
    };
    let above = if d < 0 {
        -m
    } else if exact {
        m
    } else {
        m + 1
    };
    if start + below >= 0 {
        start + below
    } else {
        start + above
    }
}

/// The `i`-th unit step of a stroke from `a` toward `b`.
pub open spec fn stroke_point(a: Point, b: Point, i: int) -> (int, int) {
    (
        stroke_coord(a.0 as int, b.0 - a.0, i, dist2(a, b)),
        stroke_coord(a.1 as int, b.1 - a.1, i, dist2(a, b)),
    )
}

/// Whether the interpolation between `a` and `b` is carried out: each axis
/// moves less than `2^31`.
pub open spec fn stroke_in_range(a: Point, b: Point) -> bool {
    -0x8000_0000 < b.0 - a.0 < 0x8000_0000 && -0x8000_0000 < b.1 - a.1 < 0x8000_0000
}

/// Whether `(px, py)` is covered by a brush stamp of side `size` at `(cx, cy)`.
pub open spec fn in_stamp(cx: int, cy: int, size: int, px: int, py: int) -> bool {
    in_rect(
        px,
        py,
        cx - half_toward_zero(size),
        cy - half_toward_zero(size),
        size,
        size,
    )
}

/// Whether the brush stamps of this tick cover `(px, py)`: one stamp at the
/// new point, and, when a gesture goes on, one at each unit step from the
/// last point toward the new one.
pub open spec fn stroke_covers(last: Option<Point>, now: Point, size: int, px: int, py: int) -> bool {
    match last {
        Some(l) => if stroke_in_range(l, now) {
            in_stamp(now.0 as int, now.1 as int, size, px, py) || exists|i: int| 1 <= i <= stroke_steps(l, now) && #[trigger] in_stamp(
                stroke_point(l, now, i).0,
                stroke_point(l, now, i).1,
                size,
                px,
                py,
            )
        } else {
            in_stamp(now.0 as int, now.1 as int, size, px, py)
        },
        None => in_stamp(now.0 as int, now.1 as int, size, px, py),
    }
}

proof fn lemma_floor_root_unique(m: int, t: int, d: int)
    requires
        d > 0,
        is_floor_root(m, t, d),
    ensures
        floor_root(t, d) == m,
{
    let k = floor_root(t, d);
    assert(is_floor_root(k, t, d));
    if k < m {
        assert((k + 1) * (k + 1) * d <= m * m * d) by (nonlinear_arith)
            requires 0 <= k < m, d > 0;
    } else if m < k {
        assert((m + 1) * (m + 1) * d <= k * k * d) by (nonlinear_arith)
            requires 0 <= m < k, d > 0;
    }
}

/// `floor(sqrt(t / d))`, searched for below `hi + 1`.
fn floor_root_exec(t: u128, d: u128, hi: u128) -> (r: u128)
    requires
        d > 0,
        hi < 0x1_0000_0000_0000_0000,
        (hi + 1) * (hi + 1) * d > t,
        (hi + 1) * (hi + 1) * d < 0x1_0000_0000_0000_0000_0000_0000_0000_0000,
    ensures
        is_floor_root(r as int, t as int, d as int),
        r == floor_root(t as int, d as int),
{
    let mut lo: u128 = 0;
    let mut top: u128 = hi;
    proof {
        assert(0 * 0 * d == 0);
    }
    while lo < top
        invariant
            d > 0,
            lo <= top <= hi,
            hi < 0x1_0000_0000_0000_0000,
            lo * lo * d <= t,
            (top + 1) * (top + 1) * d > t,
            (hi + 1) * (hi + 1) * d < 0x1_0000_0000_0000_0000_0000_0000_0000_0000,
        decreases top - lo,
    {
        let mid = lo + (top - lo + 1) / 2;
        proof {
            assert(mid * mid <= mid * mid * d <= (hi + 1) * (hi + 1) * d) by (nonlinear_arith)
                requires mid <= hi, d > 0, mid >= 0;
        }
        if mid * mid * d <= t {
            lo = mid;
        } else {
            top = mid - 1;
        }
    }
    proof {
        lemma_floor_root_unique(lo as int, t as int, d as int);
    }
    lo
}

/// Coordinate `i` unit steps from `start` along a move of `d` on this axis,
/// out of a move whose squared length is `d2`.
fn stroke_coord_exec(start: i32, d: i64, i: u64, d2: u64) -> (r: i64)
    requires
        -0x8000_0000 < d < 0x8000_0000,
        d * d <= d2,
        i * i <= d2,
        1 <= d2 < 0x8000_0000_0000_0000,
    ensures
        r == stroke_coord(start as int, d as int, i as int, d2 as int),
        start - 0x8000_0000 <= r <= start + 0x8000_0000,
{
    let a: u128 = if d >= 0 { d as u128 } else { (-d) as u128 };
    proof {
        assert(a * a == d * d) by (nonlinear_arith) requires a == d || a == -d;
        assert(a * a * i * i <= a * a * d2) by (nonlinear_arith) requires i * i <= d2;
        assert(a * a * d2 < (a + 1) * (a + 1) * d2) by (nonlinear_arith) requires d2 >= 1, a >= 0;
        assert((a + 1) * (a + 1) * d2 <= 0x8000_0000 * 0x8000_0000 * 0x8000_0000_0000_0000) by (nonlinear_arith)
            requires a < 0x8000_0000, d2 < 0x8000_0000_0000_0000;
        assert(a * a * i * i == d * d * i * i);
        assert(a * a * i <= 0x8000_0000 * 0x8000_0000 * 0x1_0000_0000) by (nonlinear_arith)
            requires a < 0x8000_0000, i * i <= d2, d2 < 0x8000_0000_0000_0000, i >= 0;
    }
    let t: u128 = a * a * (i as u128) * (i as u128);
    let m = floor_root_exec(t, d2 as u128, a);
    proof {
        assert(m <= a) by (nonlinear_arith)
            requires m * m * d2 <= a * a * d2, d2 >= 1, m >= 0, a >= 0;
        assert(m * m * d2 <= a * a * d2) by (nonlinear_arith)
            requires m * m * d2 <= t, t <= a * a * d2;
        assert(m * m <= m * m * d2) by (nonlinear_arith) requires d2 >= 1;
    }
    let exact = m * m * (d2 as u128) == t;
    let mi = m as i64;
    let below: i64 = if d >= 0 {
        mi
    } else if exact {
        -mi
    } else {
        -mi - 1
    };
    let above: i64 = if d < 0 {
        -mi
    } else if exact {
        mi
    } else {
        mi + 1
    };
    if start as i64 + below >= 0 {
        start as i64 + below
    } else {
        start as i64 + above
    }
}

fn same_held(a: Option<Point>, b: Option<Point>) -> (r: bool)
    ensures
        r == (a == b),
{
    match (a, b) {
        (Some(p), Some(q)) => p.0 == q.0 && p.1 == q.1,
        (None, None) => true,
        _ => false,
    }
}

/// Paints one stamp at each unit step from `last` toward `now`.
fn paint_stroke(buffer: &mut CanvasBuffer, last: Point, now: Point, size: i32, color: BufColor)
    requires
        old(buffer).wf(),
        stroke_in_range(last, now),
        last != now,
    ensures
        final(buffer).wf(),
        final(buffer).spec_width() == old(buffer).spec_width(),
        final(buffer).spec_height() == old(buffer).spec_height(),
        forall|px: int, py: int| final(buffer).contains(px, py) ==> #[trigger] final(buffer).pixel(px, py) == if exists|i: int| 1 <= i <= stroke_steps(last, now) && #[trigger] in_stamp(
                stroke_point(last, now, i).0,
                stroke_point(last, now, i).1,
                size as int,
                px,
                py,
            ) {
            color
        } else {
            old(buffer).pixel(px, py)
        },
{
    let ghost before = *buffer;
    let dx = now.0 as i64 - last.0 as i64;
    let dy = now.1 as i64 - last.1 as i64;
    let ax: u64 = if dx >= 0 { dx as u64 } else { (-dx) as u64 };
    let ay: u64 = if dy >= 0 { dy as u64 } else { (-dy) as u64 };
    proof {
        assert(ax * ax == dx * dx) by (nonlinear_arith) requires ax == dx || ax == -dx;
        assert(ay * ay == dy * dy) by (nonlinear_arith) requires ay == dy || ay == -dy;
        assert(ax * ax < 0x4000_0000_0000_0000) by (nonlinear_arith) requires ax < 0x8000_0000;
        assert(ay * ay < 0x4000_0000_0000_0000) by (nonlinear_arith) requires ay < 0x8000_0000;
        assert(dx * dx + dy * dy >= 1) by (nonlinear_arith) requires dx != 0 || dy != 0;
        assert(dx * dx + dy * dy < (ax + ay + 1) * (ax + ay + 1)) by (nonlinear_arith)
            requires ax * ax == dx * dx, ay * ay == dy * dy, ax >= 0, ay >= 0;
        assert((ax + ay + 1) * (ax + ay + 1) <= 0x1_0000_0000 * 0x1_0000_0000) by (nonlinear_arith)
            requires ax < 0x8000_0000, ay < 0x8000_0000;
        assert(dist2(last, now) == dx * dx + dy * dy);
    }
    let d2: u64 = ax * ax + ay * ay;
    let steps = floor_root_exec(d2 as u128, 1, (ax + ay) as u128);
    proof {
        assert(steps * steps <= d2);
        assert(steps <= 0x1_0000_0000) by (nonlinear_arith)
            requires steps * steps <= d2, d2 < 0x8000_0000_0000_0000, steps >= 0;
    }
    let steps = steps as u64;
    let mut i: u64 = 1;
    while i <= steps
        invariant
            buffer.wf(),
            buffer.spec_width() == before.spec_width(),
            buffer.spec_height() == before.spec_height(),
            1 <= i <= steps + 1,
            steps == stroke_steps(last, now),
            steps * steps <= d2,
            steps <= 0x1_0000_0000,
            d2 == dist2(last, now),
            1 <= d2 < 0x8000_0000_0000_0000,
            dx == now.0 - last.0,
            dy == now.1 - last.1,
            dx * dx <= d2,
            dy * dy <= d2,
            -0x8000_0000 < dx < 0x8000_0000,
            -0x8000_0000 < dy < 0x8000_0000,
            forall|px: int, py: int| buffer.contains(px, py) ==> #[trigger] buffer.pixel(px, py) == if exists|j: int| 1 <= j < i && #[trigger] in_stamp(
                    stroke_point(last, now, j).0,
                    stroke_point(last, now, j).1,
                    size as int,
                    px,
                    py,
                ) {
                color
            } else {
                before.pixel(px, py)
            },
        decreases steps + 1 - i,
    {
        proof {
            assert(i * i <= d2) by (nonlinear_arith) requires 1 <= i <= steps, steps * steps <= d2;
        }
        let x = stroke_coord_exec(last.0, dx, i, d2);
        let y = stroke_coord_exec(last.1, dy, i, d2);
        let ghost mid = *buffer;
        buffer.draw_square_wide(x, y, size, color);
        proof {
            assert forall|px: int, py: int| buffer.contains(px, py) implies #[trigger] buffer.pixel(px, py) == if exists|j: int| 1 <= j < i + 1 && #[trigger] in_stamp(
                    stroke_point(last, now, j).0,
                    stroke_point(last, now, j).1,
                    size as int,
                    px,
                    py,
                ) {
                color
            } else {
                before.pixel(px, py)
            } by {
                assert(mid.pixel(px, py) == mid.pixel(px, py));
                if in_stamp(x as int, y as int, size as int, px, py) {
                    assert(in_stamp(stroke_point(last, now, i as int).0, stroke_point(last, now, i as int).1, size as int, px, py));
                } else if exists|j: int| 1 <= j < i + 1 && #[trigger] in_stamp(
                    stroke_point(last, now, j).0,
                    stroke_point(last, now, j).1,
                    size as int,
                    px,
                    py,
                ) {
                    let j = choose|j: int| 1 <= j < i + 1 && #[trigger] in_stamp(
                        stroke_point(last, now, j).0,
                        stroke_point(last, now, j).1,
                        size as int,
                        px,
                        py,
                    );
                    assert(j != i);
                }
            }
        }
        i = i + 1;
    }
}

/// `after` is `before` with this tick's brush stamps: those of
/// `stroke_covers` from `last` to the held point, when there is one and it
/// moved.
pub open spec fn brush_painted(
    before: CanvasBuffer,
    after: CanvasBuffer,
    last: Option<Point>,
    input: Input,
    brush: Brush,
) -> bool {
    &&& after.wf()
    &&& after.spec_width() == before.spec_width()
    &&& after.spec_height() == before.spec_height()
    &&& forall|px: int, py: int| after.contains(px, py) ==> #[trigger] after.pixel(px, py) == match held_point(input) {
        Some(p) => if last != held_point(input) && stroke_covers(last, p, brush.size as int, px, py) {
            packed_of(brush.color)
        } else {
            before.pixel(px, py)
        },
        None => before.pixel(px, py),
    }
}

/// `after` is `before` with a brush stamp of side `size` at the pointer,
/// when the pointer is known.
pub open spec fn brush_previewed(
    before: CanvasBuffer,
    after: CanvasBuffer,
    input: Input,
    size: int,
    color: RgbColor,
) -> bool {
    &&& after.wf()
    &&& after.spec_width() == before.spec_width()
    &&& after.spec_height() == before.spec_height()
    &&& forall|px: int, py: int| after.contains(px, py) ==> #[trigger] after.pixel(px, py) == match input.mouse_pos {
        Some(q) => if in_stamp(q.0 as int, q.1 as int, size, px, py) {
            packed_of(color)
        } else {
            before.pixel(px, py)
        },
        None => before.pixel(px, py),
    }
}

/// One tick of the brush tool. While the button is held the brush paints on
/// `temporal_buffer`: a stamp at the first point of a gesture, then stamps at
/// unit steps toward each new point. A gesture ends with `Save` on the tick
/// the button is let go. The scroll changes the brush size, and a preview of
/// the brush is drawn on `composite_buffer` at the pointer.
pub fn brush_mode(
    input: &Input,
    brush: &mut Brush,
    last_brush_pos: &mut Option<Point>,
    temporal_buffer: &mut CanvasBuffer,
    composite_buffer: &mut CanvasBuffer,
) -> (r: ShouldSave)
    requires
        old(temporal_buffer).wf(),
        old(composite_buffer).wf(),
        old(brush).size <= i32::MAX,
    ensures
        *final(last_brush_pos) == held_point(*input),
        (r == ShouldSave::Save) == brush_saves(*old(last_brush_pos), held_point(*input)),
        final(brush).color == old(brush).color,
        final(brush).size == scrolled_size(old(brush).size as int, input.scroll as int),
        brush_painted(*old(temporal_buffer), *final(temporal_buffer), *old(last_brush_pos), *input, *old(brush)),
        brush_previewed(*old(composite_buffer), *final(composite_buffer), *input, final(brush).size as int, old(brush).color),

{
    let brush_pos = if input.mouse_down {
        input.mouse_pos
    } else {
        None
    };
    let mut should_save = ShouldSave::Continue;
    let color = BufColor::from(brush.color);
    if !same_held(*last_brush_pos, brush_pos) {
        match brush_pos {
            Some(pos) => {
                match *last_brush_pos {
                    Some(last) => {
                        let dx = pos.0 as i64 - last.0 as i64;
                        let dy = pos.1 as i64 - last.1 as i64;
                        if -0x8000_0000 < dx && dx < 0x8000_0000 && -0x8000_0000 < dy && dy
                            < 0x8000_0000 {
                            let ghost before = *temporal_buffer;
                            paint_stroke(temporal_buffer, last, pos, brush.size as i32, color);
                            let ghost mid = *temporal_buffer;
                            temporal_buffer.draw_square_s(pos.0, pos.1, brush.size as i32, color);
                            proof {
                                assert forall|px: int, py: int| temporal_buffer.contains(px, py) implies #[trigger] temporal_buffer.pixel(px, py) == if stroke_covers(Some(last), pos, brush.size as int, px, py) {
                                    color
                                } else {
                                    before.pixel(px, py)
                                } by {
                                    assert(mid.pixel(px, py) == mid.pixel(px, py));
                                }
                            }
                        } else {
                            temporal_buffer.draw_square_s(pos.0, pos.1, brush.size as i32, color);
                        }
                    },
                    None => {
                        temporal_buffer.draw_square_s(pos.0, pos.1, brush.size as i32, color);
                    },
                }
            },
            None => {
                should_save = ShouldSave::Save;
            },
        }
    }
    let grown = brush.size as i64 + input.scroll as i64;
    brush.size = if grown < 2 {
        2
    } else if grown > i32::MAX as i64 {
        i32::MAX as u32
    } else {
        grown as u32
    };
    if let Some(q) = input.mouse_pos {
        composite_buffer.draw_square_s(q.0, q.1, brush.size as i32, color);
    }
    *last_brush_pos = brush_pos;
    should_save
}

/// Number of `Save`s the brush signals over `inputs`, from last point `last`.
pub open spec fn brush_save_count(last: Option<Point>, inputs: Seq<Input>) -> nat
    decreases inputs.len(),
{
    if inputs.len() == 0 {
        0
    } else {
        (if brush_saves(last, held_point(inputs[0])) {
            1nat
        } else {
            0nat
        }) + brush_save_count(held_point(inputs[0]), inputs.drop_first())
    }
}

/// A gesture: the button held on every tick but the last, on which it is
/// let go.
pub open spec fn is_gesture(inputs: Seq<Input>) -> bool {
    &&& inputs.len() >= 2
    &&& forall|i: int| 0 <= i < inputs.len() - 1 ==> (#[trigger] held_point(inputs[i])).is_some()
    &&& held_point(inputs[inputs.len() - 1]).is_none()
}

proof fn lemma_held_then_released(last: Point, inputs: Seq<Input>)
    requires
        inputs.len() >= 1,
        forall|i: int| 0 <= i < inputs.len() - 1 ==> (#[trigger] held_point(inputs[i])).is_some(),
        held_point(inputs[inputs.len() - 1]).is_none(),
    ensures
        brush_save_count(Some(last), inputs) == 1,
    decreases inputs.len(),
{
    reveal_with_fuel(brush_save_count, 2);
    if inputs.len() == 1 {
        assert(inputs.drop_first().len() == 0);
    } else {
        let rest = inputs.drop_first();
        assert(held_point(inputs[0]).is_some());
        assert forall|i: int| 0 <= i < rest.len() - 1 implies (#[trigger] held_point(rest[i])).is_some() by {
            assert(rest[i] == inputs[i + 1]);
        }
        assert(rest[rest.len() - 1] == inputs[inputs.len() - 1]);
        lemma_held_then_released(held_point(inputs[0])->Some_0, rest);
    }
}

/// Over one brush gesture, begun with no point held, the brush signals
/// exactly one `Save`, whatever the gesture's length.
pub proof fn lemma_one_save_per_gesture(inputs: Seq<Input>)
    requires
        is_gesture(inputs),
    ensures
        brush_save_count(None, inputs) == 1,
{
    let rest = inputs.drop_first();
    assert(held_point(inputs[0]).is_some());
    assert forall|i: int| 0 <= i < rest.len() - 1 implies (#[trigger] held_point(rest[i])).is_some() by {
        assert(rest[i] == inputs[i + 1]);
    }
    assert(rest[rest.len() - 1] == inputs[inputs.len() - 1]);
    lemma_held_then_released(held_point(inputs[0])->Some_0, rest);
}

/// Left edge of the rectangle between the corners of `sel`.
pub open spec fn sel_x(sel: CropSelection) -> int {
    if sel.start.0 <= sel.end.0 { sel.start.0 as int } else { sel.end.0 as int }
}

/// Top edge of the rectangle between the corners of `sel`.
pub open spec fn sel_y(sel: CropSelection) -> int {
    if sel.start.1 <= sel.end.1 { sel.start.1 as int } else { sel.end.1 as int }
}

/// Width of the rectangle between the corners of `sel`.
pub open spec fn sel_w(sel: CropSelection) -> int {
    if sel.start.0 <= sel.end.0 { sel.end.0 - sel.start.0 } else { sel.start.0 - sel.end.0 }
}

/// Height of the rectangle between the corners of `sel`.
pub open spec fn sel_h(sel: CropSelection) -> int {
    if sel.start.1 <= sel.end.1 { sel.end.1 - sel.start.1 } else { sel.start.1 - sel.end.1 }
}

/// Whether a released selection is cropped to: it has an area and is
/// smaller than the buffer in both dimensions.
pub open spec fn crop_wanted(sel: CropSelection, w: int, h: int) -> bool {
    0 < sel_w(sel) < w && 0 < sel_h(sel) < h
}

/// Whether the crop of a wanted selection lies in the buffer and so changes it.
pub open spec fn crop_fits(sel: CropSelection, w: int, h: int) -> bool {
    0 <= sel_x(sel) && 0 <= sel_y(sel) && sel_x(sel) + sel_w(sel) < w && sel_y(sel) + sel_h(
        sel,
    ) < h
}

/// One crop-tool tick from selection `old_sel` on `input`, taking the
/// working and composite buffers from `old_work` and `old_comp` to
/// `new_work` and `new_comp` and signalling `r`.
pub open spec fn crop_stepped(
    old_sel: Option<CropSelection>,
    new_sel: Option<CropSelection>,
    input: Input,
    old_work: CanvasBuffer,
    new_work: CanvasBuffer,
    old_comp: CanvasBuffer,
    new_comp: CanvasBuffer,
    r: ShouldSave,
) -> bool {
    match old_sel {
        None => {
            &&& new_sel == match held_point(input) {
                Some(a) => Some(CropSelection { start: a, end: a }),
                None => None,
            }
            &&& r == ShouldSave::Continue
            &&& new_work == old_work
            &&& new_comp == old_comp
        },
        Some(sel) => match held_point(input) {
            Some(e) => {
                &&& new_sel == Some(CropSelection { start: sel.start, end: e })
                &&& r == ShouldSave::Continue
                &&& new_work == old_work
                &&& new_comp.spec_width() == old_comp.spec_width()
                &&& new_comp.spec_height() == old_comp.spec_height()
                &&& forall|px: int, py: int| new_comp.contains(px, py) ==> #[trigger] new_comp.pixel(px, py) == if guide_row(sel.start, e, old_comp.spec_height(), py) != guide_col(sel.start, e, old_comp.spec_width(), px) {
                    BufColor(invert(old_comp.pixel(px, py).0))
                } else {
                    old_comp.pixel(px, py)
                }
            },
            None => {
                &&& new_sel == None::<CropSelection>
                &&& (r == ShouldSave::Save) == crop_wanted(sel, old_work.spec_width(), old_work.spec_height())
                &&& new_comp == old_comp
                &&& if crop_wanted(sel, old_work.spec_width(), old_work.spec_height()) && crop_fits(sel, old_work.spec_width(), old_work.spec_height()) {
                    &&& new_work.spec_width() == sel_w(sel)
                    &&& new_work.spec_height() == sel_h(sel)
                    &&& forall|i: int, j: int| new_work.contains(i, j) ==> #[trigger] new_work.pixel(i, j) == old_work.pixel(sel_x(sel) + i, sel_y(sel) + j)
                } else {
                    new_work == old_work
                }
            },
        },
    }
}

/// One tick of the crop tool. Pressing the button starts a selection at the
/// pointer; while it is held the far corner follows the pointer and guides
/// are drawn on `composite_buffer`; letting go crops `temporal_buffer` to the
/// selection and signals `Save` when the selection has an area and is
/// smaller than the buffer, and clears the selection in any case.
pub fn crop_mode(
    input: &Input,
    selection: &mut Option<CropSelection>,
    temporal_buffer: &mut CanvasBuffer,
    composite_buffer: &mut CanvasBuffer,
) -> (r: ShouldSave)
    requires
        old(temporal_buffer).wf(),
        old(composite_buffer).wf(),
    ensures
        final(temporal_buffer).wf(),
        final(composite_buffer).wf(),
        final(composite_buffer).spec_width() == old(composite_buffer).spec_width(),
        final(composite_buffer).spec_height() == old(composite_buffer).spec_height(),
        crop_stepped(*old(selection), *final(selection), *input, *old(temporal_buffer), *final(temporal_buffer), *old(composite_buffer), *final(composite_buffer), r),

{
    let mut should_save = ShouldSave::Continue;
    let select_pos = if input.mouse_down {
        input.mouse_pos
    } else {
        None
    };
    match *selection {
        Some(sel) => {
            match select_pos {
                Some(end) => {
                    *selection = Some(CropSelection { start: sel.start, end });
                    composite_buffer.draw_guides(sel.start, end);
                },
                None => {
                    let (start, end) = (sel.start, sel.end);
                    let x: i64 = if start.0 <= end.0 { start.0 as i64 } else { end.0 as i64 };
                    let y: i64 = if start.1 <= end.1 { start.1 as i64 } else { end.1 as i64 };
                    let w: i64 = if start.0 <= end.0 { end.0 as i64 - start.0 as i64 } else { start.0 as i64 - end.0 as i64 };
                    let h: i64 = if start.1 <= end.1 { end.1 as i64 - start.1 as i64 } else { start.1 as i64 - end.1 as i64 };
                    if w > 0 && h > 0 && w < temporal_buffer.width() as i64 && h < temporal_buffer.height() as i64 {
                        if x >= 0 && y >= 0 {
                            temporal_buffer.crop(x as u32, y as u32, w as u32, h as u32);
                        }
                        should_save = ShouldSave::Save;
                    }
                    *selection = None;
                },
            }
        },
        None => {
            *selection = match select_pos {
                Some(a) => Some(CropSelection { start: a, end: a }),
                None => None,
            };
        },
    }
    should_save
}

} // verus!

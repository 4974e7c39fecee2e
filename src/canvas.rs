use vstd::prelude::*;

use crate::color::{invert, packed_of, BufColor, RgbColor};
use crate::geometry::Point;

verus! {

/// A pixel grid of `width` by `height` packed colours, stored row by row.
#[derive(Clone)]
pub struct CanvasBuffer {
    data: Vec<BufColor>,
    width: u32,
    height: u32,
}

/// Where the palette bar is laid out.
#[derive(Clone, Copy, PartialEq, Eq, Debug, Structural)]
pub enum ColorbarPos {
    Top,
    Bottom,
}

/// Whether `(px, py)` lies in the rectangle at `(x, y)` of size `w` by `h`.
pub open spec fn in_rect(px: int, py: int, x: int, y: int, w: int, h: int) -> bool {
    x <= px < x + w && y <= py < y + h
}

/// Half of `s`, rounded toward zero.
pub open spec fn half_toward_zero(s: int) -> int {
    if s >= 0 {
        s / 2
    } else {
        -((-s) / 2)
    }
}

/// The cell of `(x, y)` in a row-major grid `w` cells wide.
pub open spec fn cell(w: int, x: int, y: int) -> int {
    y * w + x
}

proof fn lemma_cell_in_range(w: int, h: int, x: int, y: int)
    requires
        0 <= x < w,
        0 <= y < h,
    ensures
        0 <= cell(w, x, y) < w * h,
{
    assert(0 <= y * w + x < w * h) by (nonlinear_arith)
        requires
            0 <= x < w,
            0 <= y < h,
    ;
}

proof fn lemma_cell_unique(w: int, x1: int, y1: int, x2: int, y2: int)
    requires
        0 <= x1 < w,
        0 <= x2 < w,
        0 <= y1,
        0 <= y2,
        x1 != x2 || y1 != y2,
    ensures
        cell(w, x1, y1) != cell(w, x2, y2),
{
    if y1 < y2 {
        assert(y1 * w + x1 < y2 * w + x2) by (nonlinear_arith)
            requires
                0 <= x1 < w,
                0 <= x2,
                y1 < y2,
        ;
    } else if y2 < y1 {
        assert(y2 * w + x2 < y1 * w + x1) by (nonlinear_arith)
            requires
                0 <= x2 < w,
                0 <= x1,
                y2 < y1,
        ;
    }
}

/// Whether row `y` carries a guide through `a` or `b` in a buffer `h` high.
pub open spec fn guide_row(a: Point, b: Point, h: int, y: int) -> bool {
    (0 < a.1 < h && y == a.1) || (0 < b.1 < h && b.1 != a.1 && y == b.1)
}

/// Whether column `x` carries a guide through `a` or `b` in a buffer `w` wide.
pub open spec fn guide_col(a: Point, b: Point, w: int, x: int) -> bool {
    (0 < a.0 < w && x == a.0) || (0 < b.0 < w && b.0 != a.0 && x == b.0)
}

pub open spec fn min_int(a: int, b: int) -> int {
    if a <= b {
        a
    } else {
        b
    }
}

pub open spec fn max_int(a: int, b: int) -> int {
    if a >= b {
        a
    } else {
        b
    }
}

/// Side of one palette swatch in a buffer `w` wide holding `count` swatches.
pub open spec fn bar_box(w: int, count: int) -> int {
    min_int(32, max_int(3, w / count))
}

/// Gap between two swatches.
pub open spec fn bar_padding(w: int, count: int) -> int {
    min_int(2, max_int(0, w - bar_box(w, count) * count) / count)
}

/// Distance of the bar from the buffer's edges.
pub open spec fn bar_margin(w: int, count: int) -> int {
    min_int(2, bar_padding(w, count))
}

/// Width of a swatch's border.
pub open spec fn bar_border(w: int, count: int) -> int {
    min_int(2, bar_box(w, count) / 3)
}

/// Top row of the bar.
pub open spec fn bar_top(w: int, h: int, count: int, pos: ColorbarPos) -> int {
    match pos {
        ColorbarPos::Top => bar_margin(w, count),
        ColorbarPos::Bottom => h - bar_margin(w, count) - bar_box(w, count),
    }
}

/// Left column of swatch `i`.
pub open spec fn swatch_left(w: int, count: int, i: int) -> int {
    bar_margin(w, count) + (bar_box(w, count) + bar_padding(w, count)) * i
}

/// Whether `(px, py)` lies in the square of swatch `i`.
pub open spec fn in_swatch(w: int, count: int, top: int, i: int, px: int, py: int) -> bool {
    in_rect(px, py, swatch_left(w, count, i), top, bar_box(w, count), bar_box(w, count))
}

/// Whether `(px, py)` lies in the inset fill of swatch `i`.
pub open spec fn in_swatch_fill(w: int, count: int, top: int, i: int, px: int, py: int) -> bool {
    let bw = bar_border(w, count);
    let side = bar_box(w, count) - 2 * bw;
    in_rect(px, py, swatch_left(w, count, i) + bw, top + bw, side, side)
}

/// Border colour of swatch `i` when swatch `selected` is selected.
pub open spec fn swatch_border_color(color: BufColor, i: int, selected: int) -> BufColor {
    if i == selected {
        BufColor(invert(color.0))
    } else {
        BufColor(0)
    }
}

proof fn lemma_swatches_apart(w: int, count: int, top: int, i: int, k: int, px: int, py: int)
    requires
        count > 0,
        0 <= i,
        0 <= k,
        i != k,
        in_swatch(w, count, top, i, px, py),
    ensures
        !in_swatch(w, count, top, k, px, py),
{
    let step = bar_box(w, count) + bar_padding(w, count);
    let b = bar_box(w, count);
    assert(bar_padding(w, count) >= 0) by {
        assert(max_int(0, w - bar_box(w, count) * count) / count >= 0) by (nonlinear_arith)
            requires count > 0;
    }
    if i < k {
        assert(step * i + b <= step * k) by (nonlinear_arith)
            requires i < k, 0 <= b <= step;
    } else {
        assert(step * k + b <= step * i) by (nonlinear_arith)
            requires k < i, 0 <= b <= step;
    }
}

/// `after` is `before` with the palette bar of `colors` drawn at `pos`,
/// swatch `selected` marked.
pub open spec fn colorbar_drawn(
    before: CanvasBuffer,
    after: CanvasBuffer,
    colors: Seq<RgbColor>,
    selected: int,
    pos: ColorbarPos,
) -> bool {
    &&& after.wf()
    &&& after.spec_width() == before.spec_width()
    &&& after.spec_height() == before.spec_height()
    &&& forall|i: int, px: int, py: int|
        #![trigger in_swatch(before.spec_width(), colors.len() as int, bar_top(before.spec_width(), before.spec_height(), colors.len() as int, pos), i, px, py), after.pixel(px, py)]
        0 <= i < colors.len() && after.contains(px, py) && in_swatch(before.spec_width(), colors.len() as int, bar_top(before.spec_width(), before.spec_height(), colors.len() as int, pos), i, px, py) ==> after.pixel(px, py) == if in_swatch_fill(before.spec_width(), colors.len() as int, bar_top(before.spec_width(), before.spec_height(), colors.len() as int, pos), i, px, py) {
            packed_of(colors[i])
        } else {
            swatch_border_color(packed_of(colors[i]), i, selected)
        }
    &&& forall|px: int, py: int|
        after.contains(px, py) && (forall|i: int| 0 <= i < colors.len() ==> !#[trigger] in_swatch(before.spec_width(), colors.len() as int, bar_top(before.spec_width(), before.spec_height(), colors.len() as int, pos), i, px, py)) ==> #[trigger] after.pixel(px, py) == before.pixel(px, py)
}

impl View for CanvasBuffer {
    type V = (int, int, Seq<BufColor>);

    /// Width, height and grid.
    closed spec fn view(&self) -> (int, int, Seq<BufColor>) {
        (self.width as int, self.height as int, self.data@)
    }
}

impl CanvasBuffer {
    /// Width in pixels.
    pub closed spec fn spec_width(&self) -> int {
        self.width as int
    }

    /// Height in pixels.
    pub closed spec fn spec_height(&self) -> int {
        self.height as int
    }

    /// The grid of colours, row by row.
    pub closed spec fn grid(&self) -> Seq<BufColor> {
        self.data@
    }

    /// Buffers with the same view have the same size and pixels.
    pub proof fn lemma_view_determines(&self, other: &CanvasBuffer)
        requires
            self@ == other@,
        ensures
            self.spec_width() == other.spec_width(),
            self.spec_height() == other.spec_height(),
            self.grid() == other.grid(),
    {
    }

    /// The grid holds exactly one colour per pixel.
    pub open spec fn wf(&self) -> bool {
        self.grid().len() == self.spec_width() * self.spec_height()
    }

    /// Whether `(x, y)` is a pixel of the buffer.
    pub open spec fn contains(&self, x: int, y: int) -> bool {
        0 <= x < self.spec_width() && 0 <= y < self.spec_height()
    }

    /// The colour at `(x, y)`.
    pub open spec fn pixel(&self, x: int, y: int) -> BufColor {
        self.grid()[cell(self.spec_width(), x, y)]
    }

    /// A buffer of `width` by `height` pixels holding `data` row by row.
    pub fn new(data: Vec<BufColor>, width: u32, height: u32) -> (r: Self)
        requires
            data@.len() == width as int * height as int,
        ensures
            r.wf(),
            r.spec_width() == width,
            r.spec_height() == height,
            r.grid() == data@,
    {
        Self { data, width, height }
    }

    /// A copy of the buffer.
    pub fn duplicate(&self) -> (r: Self)
        ensures
            r@ == self@,
            r.wf() == self.wf(),
            r.spec_width() == self.spec_width(),
            r.spec_height() == self.spec_height(),
            r.grid() == self.grid(),
    {
        let data = self.data.clone();
        proof {
            assert(data@ =~= self.data@);
        }
        CanvasBuffer { data, width: self.width, height: self.height }
    }

    pub fn width(&self) -> (r: u32)
        ensures
            r == self.spec_width(),
    {
        self.width
    }

    pub fn height(&self) -> (r: u32)
        ensures
            r == self.spec_height(),
    {
        self.height
    }

    /// The colours, row by row.
    pub fn data(&self) -> (r: &[BufColor])
        ensures
            r@ == self.grid(),
    {
        self.data.as_slice()
    }

    fn index(&self, x: u32, y: u32) -> (r: usize)
        requires
            self.wf(),
            self.contains(x as int, y as int),
        ensures
            r == cell(self.spec_width(), x as int, y as int),
            r < self.grid().len(),
    {
        proof {
            lemma_cell_in_range(self.width as int, self.height as int, x as int, y as int);
        }
        // the grid's length, a usize, bounds the cell index
        let _len = self.data.len();
        y as usize * self.width as usize + x as usize
    }

    pub fn in_bounds(&self, x: u32, y: u32) -> (r: bool)
        ensures
            r == self.contains(x as int, y as int),
    {
        x < self.width && y < self.height
    }

    /// Sets the pixel `(x, y)`; every other pixel stays.
    pub fn put_pixel(&mut self, x: u32, y: u32, color: BufColor)
        requires
            old(self).wf(),
            old(self).contains(x as int, y as int),
        ensures
            final(self).wf(),
            final(self).spec_width() == old(self).spec_width(),
            final(self).spec_height() == old(self).spec_height(),
            final(self).grid() == old(self).grid().update(
                cell(old(self).spec_width(), x as int, y as int),
                color,
            ),
            forall|px: int, py: int| final(self).contains(px, py) ==> #[trigger] final(self).pixel(px, py) == if px == x && py
                    == y {
                    color
                } else {
                    old(self).pixel(px, py)
                },
    {
        let index = self.index(x, y);
        self.data.set(index, color);
        proof {
            assert forall|px: int, py: int| #[trigger]
                self.contains(px, py) implies self.pixel(px, py) == if px == x && py == y {
                color
            } else {
                old(self).pixel(px, py)
            } by {
                lemma_cell_in_range(self.width as int, self.height as int, px, py);
                if px != x || py != y {
                    lemma_cell_unique(self.width as int, px, py, x as int, y as int);
                }
            }
        }
    }

    pub fn get_pixel(&self, x: u32, y: u32) -> (r: BufColor)
        requires
            self.wf(),
            self.contains(x as int, y as int),
        ensures
            r == self.pixel(x as int, y as int),
    {
        let index = self.index(x, y);
        self.data[index]
    }
    /// A mutable reference to the colour at `(x, y)`; what is written through
    /// it becomes that pixel and every other pixel stays.
    pub fn get_pixel_mut(&mut self, x: u32, y: u32) -> (r: &mut BufColor)
        requires
            old(self).wf(),
            old(self).contains(x as int, y as int),
        ensures
            *r == old(self).pixel(x as int, y as int),
            final(self).spec_width() == old(self).spec_width(),
            final(self).spec_height() == old(self).spec_height(),
            final(self).grid() == old(self).grid().update(
                cell(old(self).spec_width(), x as int, y as int),
                *final(r),
            ),
    {
        let index = self.index(x, y);
        &mut self.data[index]
    }

    /// Fills the pixels with `x_min <= x < x_max` and `y_min <= y < y_max`.
    fn fill_clamped(&mut self, x_min: u32, x_max: u32, y_min: u32, y_max: u32, color: BufColor)
        requires
            old(self).wf(),
            x_max <= old(self).spec_width(),
            y_max <= old(self).spec_height(),
        ensures
            final(self).wf(),
            final(self).spec_width() == old(self).spec_width(),
            final(self).spec_height() == old(self).spec_height(),
            forall|px: int, py: int| final(self).contains(px, py) ==> #[trigger] final(self).pixel(px, py) == if x_min <= px
                    < x_max && y_min <= py < y_max {
                    color
                } else {
                    old(self).pixel(px, py)
                },
    {
        let ghost before = *self;
        let mut cx: u32 = x_min;
        while cx < x_max
            invariant
                self.wf(),
                self.spec_width() == before.spec_width(),
                self.spec_height() == before.spec_height(),
                x_max <= self.spec_width(),
                y_max <= self.spec_height(),
                x_min <= cx,
                cx <= x_max || cx == x_min,
                forall|px: int, py: int| self.contains(px, py) ==> #[trigger] self.pixel(px, py) == if x_min <= px < cx && y_min
                        <= py < y_max {
                        color
                    } else {
                        before.pixel(px, py)
                    },
            decreases x_max - cx,
        {
            let mut cy: u32 = y_min;
            while cy < y_max
                invariant
                    self.wf(),
                    self.spec_width() == before.spec_width(),
                    self.spec_height() == before.spec_height(),
                    x_min <= cx < x_max,
                    x_max <= self.spec_width(),
                    y_max <= self.spec_height(),
                    y_min <= cy,
                    cy <= y_max || cy == y_min,
                    forall|px: int, py: int| self.contains(px, py) ==> #[trigger] self.pixel(px, py) == if (x_min <= px < cx
                            && y_min <= py < y_max) || (px == cx && y_min <= py < cy) {
                            color
                        } else {
                            before.pixel(px, py)
                        },
                decreases y_max - cy,
            {
                self.put_pixel(cx, cy, color);
                cy = cy + 1;
            }
            cx = cx + 1;
        }
    }

    /// Fills the rectangle at `(x, y)` of size `w` by `h`, clipped to the buffer.
    fn fill_rect_wide(&mut self, x: i64, y: i64, w: i64, h: i64, color: BufColor)
        requires
            old(self).wf(),
            -0x1_0000_0000_0000 <= x <= 0x1_0000_0000_0000,
            -0x1_0000_0000_0000 <= y <= 0x1_0000_0000_0000,
            -0x1_0000_0000_0000 <= w <= 0x1_0000_0000_0000,
            -0x1_0000_0000_0000 <= h <= 0x1_0000_0000_0000,
        ensures
            final(self).wf(),
            final(self).spec_width() == old(self).spec_width(),
            final(self).spec_height() == old(self).spec_height(),
            forall|px: int, py: int| final(self).contains(px, py) ==> #[trigger] final(self).pixel(px, py) == if in_rect(
                    px,
                    py,
                    x as int,
                    y as int,
                    w as int,
                    h as int,
                ) {
                    color
                } else {
                    old(self).pixel(px, py)
                },
    {
        let bx = self.width as i64;
        let by = self.height as i64;
        let x_min = clamp_wide(x, bx);
        let x_max = clamp_wide(x + w, bx);
        let y_min = clamp_wide(y, by);
        let y_max = clamp_wide(y + h, by);
        self.fill_clamped(x_min, x_max, y_min, y_max, color);
    }

    /// Fills the rectangle at `(x, y)` of size `w` by `h`; the part outside the
    /// buffer is left out.
    pub fn draw_rect(&mut self, x: u32, y: u32, w: u32, h: u32, color: BufColor)
        requires
            old(self).wf(),
        ensures
            final(self).wf(),
            final(self).spec_width() == old(self).spec_width(),
            final(self).spec_height() == old(self).spec_height(),
            forall|px: int, py: int| final(self).contains(px, py) ==> #[trigger] final(self).pixel(px, py) == if in_rect(
                    px,
                    py,
                    x as int,
                    y as int,
                    w as int,
                    h as int,
                ) {
                    color
                } else {
                    old(self).pixel(px, py)
                },
    {
        self.fill_rect_wide(x as i64, y as i64, w as i64, h as i64, color);
    }

    /// Fills the rectangle at `(x, y)` of size `w` by `h` in signed
    /// coordinates; the part outside the buffer is left out.
    pub fn draw_rect_s(&mut self, x: i32, y: i32, w: i32, h: i32, color: BufColor)
        requires
            old(self).wf(),
        ensures
            final(self).wf(),
            final(self).spec_width() == old(self).spec_width(),
            final(self).spec_height() == old(self).spec_height(),
            forall|px: int, py: int| final(self).contains(px, py) ==> #[trigger] final(self).pixel(px, py) == if in_rect(
                    px,
                    py,
                    x as int,
                    y as int,
                    w as int,
                    h as int,
                ) {
                    color
                } else {
                    old(self).pixel(px, py)
                },
    {
        self.fill_rect_wide(x as i64, y as i64, w as i64, h as i64, color);
    }

    /// Fills a `size` by `size` square whose corner lies half a size (rounded
    /// toward zero) up and left of `(x, y)`.
    pub fn draw_square_s(&mut self, x: i32, y: i32, size: i32, color: BufColor)
        requires
            old(self).wf(),
        ensures
            final(self).wf(),
            final(self).spec_width() == old(self).spec_width(),
            final(self).spec_height() == old(self).spec_height(),
            forall|px: int, py: int| final(self).contains(px, py) ==> #[trigger] final(self).pixel(px, py) == if in_rect(
                    px,
                    py,
                    x - half_toward_zero(size as int),
                    y - half_toward_zero(size as int),
                    size as int,
                    size as int,
                ) {
                    color
                } else {
                    old(self).pixel(px, py)
                },
    {
        self.draw_square_wide(x as i64, y as i64, size, color);
    }

    /// `draw_square_s` on a centre with wider coordinates.
    pub(crate) fn draw_square_wide(&mut self, x: i64, y: i64, size: i32, color: BufColor)
        requires
            old(self).wf(),
            -0x100_0000_0000 <= x <= 0x100_0000_0000,
            -0x100_0000_0000 <= y <= 0x100_0000_0000,
        ensures
            final(self).wf(),
            final(self).spec_width() == old(self).spec_width(),
            final(self).spec_height() == old(self).spec_height(),
            forall|px: int, py: int| final(self).contains(px, py) ==> #[trigger] final(self).pixel(px, py) == if in_rect(
                    px,
                    py,
                    x - half_toward_zero(size as int),
                    y - half_toward_zero(size as int),
                    size as int,
                    size as int,
                ) {
                    color
                } else {
                    old(self).pixel(px, py)
                },
    {
        let s = size as i64;
        let half: i64 = if s >= 0 {
            s / 2
        } else {
            -((-s) / 2)
        };
        self.fill_rect_wide(x - half, y - half, s, s, color);
    }

    /// Keeps only the `w` by `h` rectangle at `(x, y)`, moved to the origin.
    /// Returns false, leaving the buffer as it was, unless both `(x, y)` and
    /// `(x + w, y + h)` lie in the buffer.
    pub fn crop(&mut self, x: u32, y: u32, w: u32, h: u32) -> (r: bool)
        requires
            old(self).wf(),
        ensures
            final(self).wf(),
            r == (old(self).contains(x as int, y as int) && old(self).contains(
                x + w,
                y + h,
            )),
            r ==> final(self).spec_width() == w && final(self).spec_height() == h && forall|
                i: int,
                j: int,
            | final(self).contains(i, j) ==> #[trigger] final(self).pixel(i, j) == old(
                self,
            ).pixel(x + i, y + j),
            !r ==> *final(self) == *old(self),
    {
        if !self.in_bounds(x, y) || (x as u64 + w as u64) >= self.width as u64 || (y as u64
            + h as u64) >= self.height as u64 {
            return false;
        }
        let ghost before = *self;
        let mut new_buf: Vec<BufColor> = Vec::new();
        let mut j: u32 = 0;
        while j < h
            invariant
                before == *self,
                self.wf(),
                x + w < self.spec_width(),
                y + h < self.spec_height(),
                j <= h,
                new_buf@.len() == j * w,
                forall|i: int, jj: int|
                    0 <= i < w && 0 <= jj < j ==> #[trigger] new_buf@[cell(w as int, i, jj)]
                        == self.pixel(x + i, y + jj),
            decreases h - j,
        {
            let mut i: u32 = 0;
            while i < w
                invariant
                    before == *self,
                    self.wf(),
                    x + w < self.spec_width(),
                    y + h < self.spec_height(),
                    j < h,
                    i <= w,
                    new_buf@.len() == j * w + i,
                    forall|ii: int, jj: int|
                        (0 <= ii < w && 0 <= jj < j) || (0 <= ii < i && jj == j) ==> #[trigger]
                            new_buf@[cell(w as int, ii, jj)] == self.pixel(x + ii, y + jj),
                decreases w - i,
            {
                let c = self.get_pixel(x + i, y + j);
                proof {
                    assert forall|ii: int, jj: int|
                        (0 <= ii < w && 0 <= jj < j) || (0 <= ii < i && jj == j) implies
                            cell(w as int, ii, jj) < new_buf@.len() by {
                        if jj < j {
                            lemma_cell_in_range(w as int, j as int, ii, jj);
                            assert(w * j == j * w) by (nonlinear_arith);
                        }
                    }
                }
                new_buf.push(c);
                i = i + 1;
            }
            proof {
                assert((j + 1) * w == j * w + w) by (nonlinear_arith);
            }
            j = j + 1;
        }
        proof {
            assert(h * w == w * h) by (nonlinear_arith);
        }
        self.data = new_buf;
        self.width = w;
        self.height = h;
        true
    }
    fn invert_pixel(&mut self, x: u32, y: u32)
        requires
            old(self).wf(),
            old(self).contains(x as int, y as int),
        ensures
            final(self).wf(),
            final(self).spec_width() == old(self).spec_width(),
            final(self).spec_height() == old(self).spec_height(),
            forall|px: int, py: int| final(self).contains(px, py) ==> #[trigger] final(self).pixel(px, py) == if px == x && py == y {
                BufColor(invert(old(self).pixel(px, py).0))
            } else {
                old(self).pixel(px, py)
            },
    {
        let c = self.get_pixel(x, y);
        self.put_pixel(x, y, BufColor(c.0 ^ 0xFFFFFFu32));
    }

    fn invert_row(&mut self, y: u32)
        requires
            old(self).wf(),
            y < old(self).spec_height(),
        ensures
            final(self).wf(),
            final(self).spec_width() == old(self).spec_width(),
            final(self).spec_height() == old(self).spec_height(),
            forall|px: int, py: int| final(self).contains(px, py) ==> #[trigger] final(self).pixel(px, py) == if py == y {
                BufColor(invert(old(self).pixel(px, py).0))
            } else {
                old(self).pixel(px, py)
            },
    {
        let ghost before = *self;
        let mut x: u32 = 0;
        while x < self.width
            invariant
                self.wf(),
                self.spec_width() == before.spec_width(),
                self.spec_height() == before.spec_height(),
                y < self.spec_height(),
                x <= self.spec_width(),
                forall|px: int, py: int| self.contains(px, py) ==> #[trigger] self.pixel(px, py) == if py == y && px < x {
                    BufColor(invert(before.pixel(px, py).0))
                } else {
                    before.pixel(px, py)
                },
            decreases self.spec_width() - x,
        {
            self.invert_pixel(x, y);
            x = x + 1;
        }
    }

    fn invert_col(&mut self, x: u32)
        requires
            old(self).wf(),
            x < old(self).spec_width(),
        ensures
            final(self).wf(),
            final(self).spec_width() == old(self).spec_width(),
            final(self).spec_height() == old(self).spec_height(),
            forall|px: int, py: int| final(self).contains(px, py) ==> #[trigger] final(self).pixel(px, py) == if px == x {
                BufColor(invert(old(self).pixel(px, py).0))
            } else {
                old(self).pixel(px, py)
            },
    {
        let ghost before = *self;
        let mut y: u32 = 0;
        while y < self.height
            invariant
                self.wf(),
                self.spec_width() == before.spec_width(),
                self.spec_height() == before.spec_height(),
                x < self.spec_width(),
                y <= self.spec_height(),
                forall|px: int, py: int| self.contains(px, py) ==> #[trigger] self.pixel(px, py) == if px == x && py < y {
                    BufColor(invert(before.pixel(px, py).0))
                } else {
                    before.pixel(px, py)
                },
            decreases self.spec_height() - y,
        {
            self.invert_pixel(x, y);
            y = y + 1;
        }
    }

    /// Inverts the rows through `a` and `b` and the columns through `a` and
    /// `b`; a line on the buffer's first row or column, or outside it, is
    /// skipped, and a line shared by both points is inverted once. Where a
    /// row meets a column the pixel is inverted twice.
    pub fn draw_guides(&mut self, a: Point, b: Point)
        requires
            old(self).wf(),
        ensures
            final(self).wf(),
            final(self).spec_width() == old(self).spec_width(),
            final(self).spec_height() == old(self).spec_height(),
            forall|px: int, py: int| final(self).contains(px, py) ==> #[trigger] final(self).pixel(px, py) == if guide_row(a, b, old(self).spec_height(), py) != guide_col(a, b, old(self).spec_width(), px) {
                BufColor(invert(old(self).pixel(px, py).0))
            } else {
                old(self).pixel(px, py)
            },
    {
        let ghost s0 = *self;
        let bw = self.width as i64;
        let bh = self.height as i64;
        if a.1 > 0 && (a.1 as i64) < bh {
            self.invert_row(a.1 as u32);
        }
        let ghost s1 = *self;
        if b.1 > 0 && (b.1 as i64) < bh && a.1 != b.1 {
            self.invert_row(b.1 as u32);
        }
        let ghost s2 = *self;
        if a.0 > 0 && (a.0 as i64) < bw {
            self.invert_col(a.0 as u32);
        }
        let ghost s3 = *self;
        if b.0 > 0 && (b.0 as i64) < bw && a.0 != b.0 {
            self.invert_col(b.0 as u32);
        }
        proof {
            assert forall|px: int, py: int| self.contains(px, py) implies #[trigger] self.pixel(px, py) == if guide_row(a, b, s0.spec_height(), py) != guide_col(a, b, s0.spec_width(), px) {
                BufColor(invert(s0.pixel(px, py).0))
            } else {
                s0.pixel(px, py)
            } by {
                crate::color::lemma_invert_twice(s0.pixel(px, py).0);
                assert(s1.pixel(px, py) == s1.pixel(px, py));
                assert(s2.pixel(px, py) == s2.pixel(px, py));
                assert(s3.pixel(px, py) == s3.pixel(px, py));
            }
        }
    }

    /// Draws one square swatch per colour, left to right, at the top or the
    /// bottom of the buffer: an inset fill of the colour inside a border that
    /// is the inverted colour for the swatch `selected` and black for the
    /// others. The parts of swatches outside the buffer are left out.
    pub fn draw_colorbar(&mut self, colors: &[RgbColor], selected: u32, pos: ColorbarPos)
        requires
            old(self).wf(),
            0 < colors@.len() <= u32::MAX,
        ensures
            colorbar_drawn(*old(self), *final(self), colors@, selected as int, pos),
    {
        let ghost before = *self;
        let ghost wi = self.spec_width();
        let ghost n = colors@.len() as int;
        let count = colors.len() as u64;
        let w = self.width as u64;
        let q = w / count;
        let box_size: u64 = if q < 3 { 3 } else if q > 32 { 32 } else { q };
        proof {
            assert(box_size * count <= 32 * count) by (nonlinear_arith)
                requires box_size <= 32;
        }
        let used = box_size * count;
        let rest: u64 = if w > used { w - used } else { 0 };
        let pq = rest / count;
        let padding: u64 = if pq < 2 { pq } else { 2 };
        let margin: u64 = if padding < 2 { padding } else { 2 };
        let third = box_size / 3;
        let bw: u64 = if third < 2 { third } else { 2 };
        let y: i64 = match pos {
            ColorbarPos::Top => margin as i64,
            ColorbarPos::Bottom => self.height as i64 - margin as i64 - box_size as i64,
        };
        let ghost top = bar_top(wi, self.spec_height(), n, pos);
        proof {
            assert(box_size == bar_box(wi, n));
            assert(padding == bar_padding(wi, n));
            assert(margin == bar_margin(wi, n));
            assert(bw == bar_border(wi, n));
            assert(y == top);
        }
        let mut i: u64 = 0;
        while i < count
            invariant
                self.wf(),
                self.spec_width() == before.spec_width(),
                self.spec_height() == before.spec_height(),
                wi == before.spec_width(),
                n == colors@.len(),
                count == n,
                0 < n <= u32::MAX,
                i <= count,
                box_size == bar_box(wi, n),
                padding == bar_padding(wi, n),
                margin == bar_margin(wi, n),
                bw == bar_border(wi, n),
                y == top,
                top == bar_top(wi, before.spec_height(), n, pos),
                -0x100 <= y <= 0x1_0000_0000,
                3 <= box_size <= 32,
                padding <= 2,
                margin <= 2,
                bw <= 2,
                forall|k: int, px: int, py: int|
                    #![trigger in_swatch(wi, n, top, k, px, py), self.pixel(px, py)]
                    0 <= k < i && self.contains(px, py) && in_swatch(wi, n, top, k, px, py) ==> self.pixel(px, py) == if in_swatch_fill(wi, n, top, k, px, py) {
                        packed_of(colors@[k])
                    } else {
                        swatch_border_color(packed_of(colors@[k]), k, selected as int)
                    },
                forall|px: int, py: int|
                    self.contains(px, py) && (forall|k: int| 0 <= k < i ==> !#[trigger] in_swatch(wi, n, top, k, px, py)) ==> #[trigger] self.pixel(px, py) == before.pixel(px, py),
            decreases count - i,
        {
            let color = BufColor::from(colors[i as usize]);
            let bc = if i == selected as u64 {
                BufColor(color.0 ^ 0xFFFFFFu32)
            } else {
                BufColor(0)
            };
            proof {
                assert((box_size + padding) * i <= 34 * 0x1_0000_0000) by (nonlinear_arith)
                    requires box_size + padding <= 34, i <= 0x1_0000_0000;
            }
            let x = margin + (box_size + padding) * i;
            proof {
                assert(x == swatch_left(wi, n, i as int));
            }
            let ghost mid0 = *self;
            self.fill_rect_wide(x as i64, y, box_size as i64, box_size as i64, bc);
            let ghost mid1 = *self;
            let side = box_size - 2 * bw;
            self.fill_rect_wide((x + bw) as i64, y + bw as i64, side as i64, side as i64, color);
            proof {
                assert forall|k: int, px: int, py: int|
                    0 <= k < i + 1 && self.contains(px, py) && #[trigger] in_swatch(wi, n, top, k, px, py) implies #[trigger] self.pixel(px, py) == if in_swatch_fill(wi, n, top, k, px, py) {
                        packed_of(colors@[k])
                    } else {
                        swatch_border_color(packed_of(colors@[k]), k, selected as int)
                    } by {
                    assert(mid0.pixel(px, py) == mid0.pixel(px, py));
                    assert(mid1.pixel(px, py) == mid1.pixel(px, py));
                    if k < i {
                        lemma_swatches_apart(wi, n, top, k, i as int, px, py);
                    }
                }
                assert forall|px: int, py: int|
                    self.contains(px, py) && (forall|k: int| 0 <= k < i + 1 ==> !#[trigger] in_swatch(wi, n, top, k, px, py)) implies #[trigger] self.pixel(px, py) == before.pixel(px, py) by {
                    assert(!in_swatch(wi, n, top, i as int, px, py));
                    assert(forall|k: int| 0 <= k < i ==> !#[trigger] in_swatch(wi, n, top, k, px, py));
                    assert(mid0.pixel(px, py) == before.pixel(px, py));
                    assert(mid1.pixel(px, py) == mid0.pixel(px, py));
                }
            }
            i = i + 1;
        }
    }
}

/// `v` clamped to `0..=bound`.
fn clamp_wide(v: i64, bound: i64) -> (r: u32)
    requires
        0 <= bound <= u32::MAX,
    ensures
        r == if v < 0 {
            0
        } else if v > bound {
            bound as int
        } else {
            v as int
        },
{
    if v < 0 {
        0
    } else if v > bound {
        bound as u32
    } else {
        v as u32
    }
}


} // verus!

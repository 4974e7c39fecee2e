use canved::canvas::{CanvasBuffer, ColorbarPos};
use canved::color::{BufColor, RgbColor};

fn filled(w: u32, h: u32, c: u32) -> CanvasBuffer {
    CanvasBuffer::new(vec![BufColor(c); (w * h) as usize], w, h)
}

fn numbered(w: u32, h: u32) -> CanvasBuffer {
    CanvasBuffer::new((0..w * h).map(BufColor).collect(), w, h)
}

#[test]
fn grid_length_matches_dimensions_after_operations() {
    let mut b = numbered(6, 4);
    assert_eq!(b.data().len(), 24);
    b.draw_rect(1, 1, 10, 10, BufColor(7));
    assert_eq!(b.data().len(), (b.width() * b.height()) as usize);
    assert!(b.crop(1, 1, 3, 2));
    assert_eq!(b.data().len(), (b.width() * b.height()) as usize);
    assert_eq!(b.data().len(), 6);
}

#[test]
fn crop_out_of_bounds_fails_and_keeps_buffer() {
    let mut b = numbered(10, 10);
    let before: Vec<BufColor> = b.data().to_vec();
    assert!(!b.crop(5, 5, 10, 10));
    assert_eq!(b.width(), 10);
    assert_eq!(b.height(), 10);
    assert_eq!(b.data(), &before[..]);
}

#[test]
fn crop_moves_corner_pixels() {
    let a = BufColor(0xAA0000);
    let bb = BufColor(0x0000BB);
    let mut b = filled(5, 5, 0);
    b.put_pixel(1, 1, a);
    b.put_pixel(3, 3, bb);
    assert!(b.crop(1, 1, 3, 3));
    assert_eq!(b.width(), 3);
    assert_eq!(b.height(), 3);
    assert_eq!(b.get_pixel(0, 0), a);
    assert_eq!(b.get_pixel(2, 2), bb);
}

#[test]
fn crop_keeps_row_major_order() {
    let mut b = numbered(4, 4);
    assert!(b.crop(1, 2, 2, 1));
    assert_eq!(b.data(), &[BufColor(9), BufColor(10)][..]);
}

#[test]
fn crop_far_corner_on_edge_fails() {
    let mut b = numbered(4, 4);
    assert!(!b.crop(0, 0, 4, 4));
    assert!(!b.crop(4, 0, 0, 0));
}

#[test]
fn color_round_trip_boundaries() {
    for rgb in [[0u8, 0, 0], [255, 255, 255], [255, 0, 0], [0, 255, 0], [0, 0, 255], [1, 128, 254]] {
        let packed = BufColor::from(RgbColor(rgb));
        assert_eq!(RgbColor::from(packed), RgbColor(rgb));
    }
    for c in [0u32, 0xFFFFFF, 0x123456, 0xFF0000, 0x0000FF] {
        assert_eq!(BufColor::from(RgbColor::from(BufColor(c))), BufColor(c));
    }
    assert_eq!(BufColor::from(RgbColor([0x12, 0x34, 0x56])), BufColor(0x123456));
}

#[test]
fn draw_rect_clamps_and_ignores_outside() {
    let mut b = filled(4, 4, 0);
    b.draw_rect(2, 2, 100, 100, BufColor(5));
    assert_eq!(b.get_pixel(1, 1), BufColor(0));
    assert_eq!(b.get_pixel(2, 2), BufColor(5));
    assert_eq!(b.get_pixel(3, 3), BufColor(5));
    let before = b.data().to_vec();
    b.draw_rect(10, 10, 3, 3, BufColor(9));
    assert_eq!(b.data(), &before[..]);
}

#[test]
fn draw_rect_s_negative_corner() {
    let mut b = filled(4, 4, 0);
    b.draw_rect_s(-1, -1, 2, 3, BufColor(8));
    assert_eq!(b.get_pixel(0, 0), BufColor(8));
    assert_eq!(b.get_pixel(0, 1), BufColor(8));
    assert_eq!(b.get_pixel(1, 0), BufColor(0));
    assert_eq!(b.get_pixel(0, 2), BufColor(0));
    let before = b.data().to_vec();
    b.draw_rect_s(-5, -5, 2, 2, BufColor(1));
    assert_eq!(b.data(), &before[..]);
}

#[test]
fn draw_square_s_odd_size_rounds_toward_zero() {
    let mut b = filled(6, 6, 0);
    b.draw_square_s(2, 2, 3, BufColor(4));
    // half = 1: the square covers 1..=3 on both axes
    assert_eq!(b.get_pixel(1, 1), BufColor(4));
    assert_eq!(b.get_pixel(3, 3), BufColor(4));
    assert_eq!(b.get_pixel(0, 0), BufColor(0));
    assert_eq!(b.get_pixel(4, 4), BufColor(0));
    let mut c = filled(6, 6, 0);
    c.draw_square_s(2, 2, 2, BufColor(4));
    assert_eq!(c.get_pixel(1, 1), BufColor(4));
    assert_eq!(c.get_pixel(2, 2), BufColor(4));
    assert_eq!(c.get_pixel(3, 3), BufColor(0));
}

#[test]
fn draw_guides_inverts_lines_once() {
    let mut b = filled(5, 5, 0x000000);
    b.draw_guides((1, 1), (3, 3));
    assert_eq!(b.get_pixel(0, 1), BufColor(0xFFFFFF));
    assert_eq!(b.get_pixel(1, 0), BufColor(0xFFFFFF));
    assert_eq!(b.get_pixel(1, 1), BufColor(0));
    assert_eq!(b.get_pixel(1, 3), BufColor(0));
    assert_eq!(b.get_pixel(0, 0), BufColor(0));
    assert_eq!(b.get_pixel(4, 3), BufColor(0xFFFFFF));
    assert_eq!(b.get_pixel(2, 2), BufColor(0));
}

#[test]
fn draw_guides_skips_edge_and_shared_lines() {
    let mut b = filled(4, 4, 0x000010);
    b.draw_guides((0, 2), (0, 2));
    assert_eq!(b.get_pixel(0, 2), BufColor(0xFFFFEF));
    assert_eq!(b.get_pixel(3, 2), BufColor(0xFFFFEF));
    assert_eq!(b.get_pixel(0, 0), BufColor(0x000010));
    assert_eq!(b.get_pixel(0, 1), BufColor(0x000010));
}

#[test]
fn colorbar_border_inverted_only_for_selected() {
    let colors = [RgbColor([10, 20, 30]), RgbColor([200, 100, 50]), RgbColor([0, 0, 0])];
    for selected in 0..3u32 {
        let mut b = filled(104, 60, 0x777777);
        b.draw_colorbar(&colors, selected, ColorbarPos::Top);
        // box = 32, padding = 2, margin = 2, border = 2
        for i in 0..3u32 {
            let x = 2 + 34 * i;
            let c = BufColor::from(colors[i as usize]);
            let border = b.get_pixel(x, 2);
            if i == selected {
                assert_eq!(border, BufColor(0xFFFFFF ^ c.0));
            } else {
                assert_eq!(border, BufColor(0));
            }
            assert_eq!(b.get_pixel(x + 2, 4), c);
            assert_eq!(b.get_pixel(x + 29, 31), c);
            assert_eq!(b.get_pixel(x + 31, 31), border);
            assert_eq!(b.get_pixel(x + 2, 32), border);
        }
        assert_eq!(b.get_pixel(0, 0), BufColor(0x777777));
        assert_eq!(b.get_pixel(2, 40), BufColor(0x777777));
        assert_eq!(b.get_pixel(34, 10), BufColor(0x777777));
    }
}

#[test]
fn colorbar_small_buffer_bottom() {
    let colors = [RgbColor([1, 2, 3]), RgbColor([4, 5, 6])];
    let mut b = filled(8, 10, 0x777777);
    b.draw_colorbar(&colors, 1, ColorbarPos::Bottom);
    // box = 4, padding = 0, margin = 0, border = 1, top row = 6
    assert_eq!(b.get_pixel(0, 6), BufColor(0));
    assert_eq!(b.get_pixel(1, 7), BufColor(0x010203));
    assert_eq!(b.get_pixel(4, 6), BufColor(0xFFFFFF ^ 0x040506));
    assert_eq!(b.get_pixel(5, 7), BufColor(0x040506));
    assert_eq!(b.get_pixel(0, 5), BufColor(0x777777));
}

#[test]
fn get_pixel_mut_writes_through() {
    let mut b = filled(3, 3, 0);
    *b.get_pixel_mut(2, 1) = BufColor(42);
    assert_eq!(b.get_pixel(2, 1), BufColor(42));
    assert_eq!(b.get_pixel(1, 2), BufColor(0));
    assert!(b.in_bounds(2, 2));
    assert!(!b.in_bounds(3, 0));
}

#[test]
fn colorbar_bottom_on_short_buffer_is_clipped() {
    let colors = [RgbColor([1, 2, 3]), RgbColor([4, 5, 6]), RgbColor([7, 8, 9])];
    let mut b = filled(100, 10, 0x777777);
    b.draw_colorbar(&colors, 0, ColorbarPos::Bottom);
    // box = 32, padding = 1, margin = 1, border = 2, top row = 10 - 1 - 32 = -23
    assert_eq!(b.get_pixel(3, 3), BufColor(0x010203));
    assert_eq!(b.get_pixel(1, 8), BufColor(0xFFFFFF ^ 0x010203));
    assert_eq!(b.get_pixel(36, 8), BufColor(0));
    assert_eq!(b.get_pixel(36, 3), BufColor(0x040506));
    assert_eq!(b.get_pixel(0, 0), BufColor(0x777777));
    assert_eq!(b.get_pixel(5, 9), BufColor(0x777777));
}

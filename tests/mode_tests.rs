use canved::canvas::CanvasBuffer;
use canved::color::{BufColor, RgbColor};
use canved::mode::{brush_mode, crop_mode, Brush, CropSelection, Input, ShouldSave};

fn filled(w: u32, h: u32, c: u32) -> CanvasBuffer {
    CanvasBuffer::new(vec![BufColor(c); (w * h) as usize], w, h)
}

fn held(x: i32, y: i32) -> Input {
    Input { mouse_pos: Some((x, y)), mouse_down: true, scroll: 0 }
}

fn released(x: i32, y: i32) -> Input {
    Input { mouse_pos: Some((x, y)), mouse_down: false, scroll: 0 }
}

fn red_brush(size: u32) -> Brush {
    Brush { size, color: RgbColor([255, 0, 0]) }
}

#[test]
fn stroke_paints_every_x_without_gaps() {
    let mut brush = red_brush(2);
    let mut last = None;
    let mut work = filled(20, 5, 0);
    let mut comp = filled(20, 5, 0);
    assert_eq!(brush_mode(&held(0, 0), &mut brush, &mut last, &mut work, &mut comp), ShouldSave::Continue);
    assert_eq!(brush_mode(&held(10, 0), &mut brush, &mut last, &mut work, &mut comp), ShouldSave::Continue);
    for x in 0..=10 {
        assert_eq!(work.get_pixel(x, 0), BufColor(0xFF0000), "gap at x = {}", x);
    }
    assert_eq!(work.get_pixel(12, 0), BufColor(0));
}

#[test]
fn diagonal_stroke_is_continuous() {
    let mut brush = red_brush(2);
    let mut last = None;
    let mut work = filled(20, 20, 0);
    let mut comp = filled(20, 20, 0);
    brush_mode(&held(2, 2), &mut brush, &mut last, &mut work, &mut comp);
    brush_mode(&held(12, 9), &mut brush, &mut last, &mut work, &mut comp);
    // each unit step stamps a 2x2 square; consecutive steps overlap or touch
    assert_eq!(work.get_pixel(2, 2), BufColor(0xFF0000));
    assert_eq!(work.get_pixel(7, 5), BufColor(0xFF0000));
    assert_eq!(work.get_pixel(11, 8), BufColor(0xFF0000));
    assert_eq!(work.get_pixel(2, 12), BufColor(0));
}

#[test]
fn one_save_per_gesture() {
    for len in 1..30 {
        let mut brush = red_brush(3);
        let mut last = None;
        let mut work = filled(40, 40, 0);
        let mut comp = filled(40, 40, 0);
        let mut saves = 0;
        for i in 0..len {
            if brush_mode(&held(i, i), &mut brush, &mut last, &mut work, &mut comp) == ShouldSave::Save {
                saves += 1;
            }
        }
        for _ in 0..3 {
            if brush_mode(&released(5, 5), &mut brush, &mut last, &mut work, &mut comp) == ShouldSave::Save {
                saves += 1;
            }
        }
        assert_eq!(saves, 1);
    }
}

#[test]
fn held_still_pointer_saves_once() {
    let mut brush = red_brush(2);
    let mut last = None;
    let mut work = filled(10, 10, 0);
    let mut comp = filled(10, 10, 0);
    let mut saves = 0;
    for _ in 0..5 {
        if brush_mode(&held(4, 4), &mut brush, &mut last, &mut work, &mut comp) == ShouldSave::Save {
            saves += 1;
        }
    }
    if brush_mode(&released(4, 4), &mut brush, &mut last, &mut work, &mut comp) == ShouldSave::Save {
        saves += 1;
    }
    assert_eq!(saves, 1);
}

#[test]
fn scroll_resizes_brush_with_minimum() {
    let mut brush = red_brush(3);
    let mut last = None;
    let mut work = filled(10, 10, 0);
    let mut comp = filled(10, 10, 0);
    let up = Input { mouse_pos: None, mouse_down: false, scroll: 1 };
    brush_mode(&up, &mut brush, &mut last, &mut work, &mut comp);
    assert_eq!(brush.size, 4);
    let down = Input { mouse_pos: None, mouse_down: false, scroll: -1 };
    for _ in 0..5 {
        brush_mode(&down, &mut brush, &mut last, &mut work, &mut comp);
    }
    assert_eq!(brush.size, 2);
}

#[test]
fn brush_preview_only_on_composite() {
    let mut brush = red_brush(2);
    let mut last = None;
    let mut work = filled(10, 10, 0);
    let mut comp = filled(10, 10, 0);
    brush_mode(&released(5, 5), &mut brush, &mut last, &mut work, &mut comp);
    assert_eq!(comp.get_pixel(5, 5), BufColor(0xFF0000));
    assert_eq!(comp.get_pixel(4, 4), BufColor(0xFF0000));
    assert_eq!(work.get_pixel(5, 5), BufColor(0));
}

#[test]
fn crop_gesture_crops_on_release() {
    let mut sel = None;
    let mut work = CanvasBuffer::new((0..100).map(BufColor).collect(), 10, 10);
    let mut comp = filled(10, 10, 0);
    assert_eq!(crop_mode(&held(6, 7), &mut sel, &mut work, &mut comp), ShouldSave::Continue);
    assert_eq!(sel, Some(CropSelection { start: (6, 7), end: (6, 7) }));
    assert_eq!(crop_mode(&held(2, 3), &mut sel, &mut work, &mut comp), ShouldSave::Continue);
    assert_eq!(sel, Some(CropSelection { start: (6, 7), end: (2, 3) }));
    assert_eq!(comp.get_pixel(0, 3), BufColor(0xFFFFFF));
    assert_eq!(work.width(), 10);
    assert_eq!(crop_mode(&released(2, 3), &mut sel, &mut work, &mut comp), ShouldSave::Save);
    assert_eq!(sel, None);
    assert_eq!(work.width(), 4);
    assert_eq!(work.height(), 4);
    assert_eq!(work.get_pixel(0, 0), BufColor(32));
}

#[test]
fn degenerate_crop_is_discarded() {
    let mut sel = Some(CropSelection { start: (3, 3), end: (3, 8) });
    let mut work = filled(10, 10, 1);
    let mut comp = filled(10, 10, 0);
    assert_eq!(crop_mode(&released(0, 0), &mut sel, &mut work, &mut comp), ShouldSave::Continue);
    assert_eq!(sel, None);
    assert_eq!(work.width(), 10);
}

#[test]
fn short_move_stamps_the_new_point() {
    let mut brush = red_brush(2);
    let mut last = None;
    let mut work = filled(5, 5, 0);
    let mut comp = filled(5, 5, 0);
    brush_mode(&held(0, 0), &mut brush, &mut last, &mut work, &mut comp);
    brush_mode(&held(2, 2), &mut brush, &mut last, &mut work, &mut comp);
    assert_eq!(work.get_pixel(2, 2), BufColor(0xFF0000));
    assert_eq!(work.get_pixel(1, 1), BufColor(0xFF0000));
    assert_eq!(work.get_pixel(3, 3), BufColor(0));
}

use canved::canvas::CanvasBuffer;
use canved::color::BufColor;
use canved::editor::{Command, Editor, EditorOptions};
use canved::history::VersionHistory;
use canved::mode::{Input, Mode, ShouldSave};

fn version(tag: u32) -> CanvasBuffer {
    CanvasBuffer::new(vec![BufColor(tag); 4], 2, 2)
}

fn tag(b: &CanvasBuffer) -> u32 {
    b.get_pixel(0, 0).0
}

#[test]
fn undo_twice_then_commit_drops_redo_branch() {
    let mut h = VersionHistory::new(version(0));
    h.commit(version(1));
    h.commit(version(2));
    h.commit(version(3));
    assert_eq!(h.cursor(), 3);
    h.undo();
    h.undo();
    assert_eq!(h.cursor(), 1);
    assert_eq!(tag(h.current()), 1);
    h.commit(version(9));
    assert_eq!(h.len(), 3);
    assert_eq!(h.cursor(), 2);
    assert_eq!(tag(h.current()), 9);
    h.undo();
    assert_eq!(tag(h.current()), 1);
    h.undo();
    assert_eq!(tag(h.current()), 0);
}

#[test]
fn undo_and_redo_clamp() {
    let mut h = VersionHistory::new(version(0));
    h.undo();
    assert_eq!(h.cursor(), 0);
    h.commit(version(1));
    h.redo();
    assert_eq!(h.cursor(), 1);
    h.undo();
    h.redo();
    h.redo();
    assert_eq!(h.cursor(), 1);
}

#[test]
fn default_options() {
    let o = EditorOptions::default();
    assert_eq!(o.brush.size, 2);
    assert_eq!(o.brush.color.0, [255, 0, 0]);
    assert_eq!(o.colors.len(), 8);
    assert!(matches!(o.mode, Mode::Brush { last_brush_pos: None }));
}

#[test]
fn editor_stroke_undo_redo() {
    let start = CanvasBuffer::new(vec![BufColor(0); 100], 10, 10);
    let mut ed = Editor::new(start, EditorOptions::default());
    let down = Input { mouse_pos: Some((5, 5)), mouse_down: true, scroll: 0 };
    let up = Input { mouse_pos: Some((5, 5)), mouse_down: false, scroll: 0 };
    let comp = ed.tick(&down, &[]);
    assert_eq!(comp.width(), 10);
    assert_eq!(ed.history().len(), 1);
    ed.tick(&up, &[]);
    assert_eq!(ed.history().len(), 2);
    assert_eq!(ed.working().get_pixel(5, 5), BufColor(0xFF0000));
    ed.tick(&up, &[Command::Undo]);
    assert_eq!(ed.working().get_pixel(5, 5), BufColor(0));
    ed.tick(&up, &[Command::Redo]);
    assert_eq!(ed.working().get_pixel(5, 5), BufColor(0xFF0000));
}

#[test]
fn editor_colour_and_tool_commands() {
    let start = CanvasBuffer::new(vec![BufColor(0); 100], 10, 10);
    let mut ed = Editor::new(start, EditorOptions::default());
    ed.apply(Command::SelectColor(4));
    assert_eq!(ed.selected_color(), 4);
    assert_eq!(ed.brush().color.0, [0, 0, 255]);
    ed.apply(Command::SelectColor(8));
    assert_eq!(ed.selected_color(), 4);
    ed.apply(Command::SelectCrop);
    assert!(matches!(ed.mode(), Mode::Crop { selection: None }));
    ed.apply(Command::SelectView);
    let idle = Input { mouse_pos: Some((1, 1)), mouse_down: true, scroll: 0 };
    let mut comp = ed.working().duplicate();
    assert_eq!(ed.step_mode(&idle, &mut comp), ShouldSave::Continue);
    let buf = ed.into_buffer();
    assert_eq!(buf.get_pixel(1, 1), BufColor(0));
}

#[test]
fn editor_draws_palette_in_brush_mode_only() {
    let start = CanvasBuffer::new(vec![BufColor(0x777777); 64 * 40], 64, 40);
    let mut ed = Editor::new(start, EditorOptions::default());
    let away = Input { mouse_pos: None, mouse_down: false, scroll: 0 };
    let comp = ed.tick(&away, &[]);
    // 8 swatches of 8 pixels: the first is black, selected, with a white border
    assert_eq!(comp.get_pixel(0, 0), BufColor(0xFFFFFF));
    assert_eq!(ed.working().get_pixel(0, 0), BufColor(0x777777));
    // the tool switch applies before the bar is drawn
    let comp = ed.tick(&away, &[Command::SelectView]);
    assert_eq!(comp.get_pixel(0, 0), BufColor(0x777777));
    let comp = ed.tick(&away, &[Command::SelectBrush]);
    assert_eq!(comp.get_pixel(0, 0), BufColor(0xFFFFFF));
}

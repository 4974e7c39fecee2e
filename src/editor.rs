use vstd::prelude::*;

use crate::canvas::{colorbar_drawn, CanvasBuffer, ColorbarPos};
use crate::color::RgbColor;
use crate::history::{committed, redone, undone, VersionHistory};
use crate::mode::{
    brush_mode, brush_painted, brush_previewed, brush_saves, crop_mode, crop_stepped, held_point,
    scrolled_size, Brush, Input, Mode, ShouldSave,
};

verus! {

/// Brush, starting tool and palette of an editing session.
pub struct EditorOptions {
    pub brush: Brush,
    pub mode: Mode,
    pub colors: Vec<RgbColor>,
}

/// Whether `c` holds the components `r`, `g`, `b`.
pub open spec fn is_rgb(c: RgbColor, r: u8, g: u8, b: u8) -> bool {
    c.0@ == seq![r, g, b]
}

impl Default for EditorOptions {
    /// A red brush of size 2, the brush tool, and a palette of black, white,
    /// red, green, blue, yellow, magenta and cyan.
    fn default() -> (r: Self)
        ensures
            r.brush.size == 2,
            is_rgb(r.brush.color, 255, 0, 0),
            r.mode == (Mode::Brush { last_brush_pos: None }),
            r.colors@.len() == 8,
            is_rgb(r.colors@[0], 0, 0, 0),
            is_rgb(r.colors@[1], 255, 255, 255),
            is_rgb(r.colors@[2], 255, 0, 0),
            is_rgb(r.colors@[3], 0, 255, 0),
            is_rgb(r.colors@[4], 0, 0, 255),
            is_rgb(r.colors@[5], 255, 255, 0),
            is_rgb(r.colors@[6], 255, 0, 255),
            is_rgb(r.colors@[7], 0, 255, 255),
    {
        let brush = Brush { size: 2, color: RgbColor([0xFF, 0x00, 0x00]) };
        let colors = vec![
            RgbColor([0, 0, 0]),
            RgbColor([255, 255, 255]),
            RgbColor([255, 0, 0]),
            RgbColor([0, 255, 0]),
            RgbColor([0, 0, 255]),
            RgbColor([255, 255, 0]),
            RgbColor([255, 0, 255]),
            RgbColor([0, 255, 255]),
        ];
        proof {
            assert(brush.color.0@ =~= seq![255u8, 0u8, 0u8]);
            assert(colors@[0].0@ =~= seq![0u8, 0u8, 0u8]);
            assert(colors@[1].0@ =~= seq![255u8, 255u8, 255u8]);
            assert(colors@[2].0@ =~= seq![255u8, 0u8, 0u8]);
            assert(colors@[3].0@ =~= seq![0u8, 255u8, 0u8]);
            assert(colors@[4].0@ =~= seq![0u8, 0u8, 255u8]);
            assert(colors@[5].0@ =~= seq![255u8, 255u8, 0u8]);
            assert(colors@[6].0@ =~= seq![255u8, 0u8, 255u8]);
            assert(colors@[7].0@ =~= seq![0u8, 255u8, 255u8]);
        }
        EditorOptions { brush, mode: Mode::Brush { last_brush_pos: None }, colors }
    }
}

/// A user command of one tick, besides pointer input.
#[derive(Clone, Copy, PartialEq, Eq, Debug, Structural)]
pub enum Command {
    Undo,
    Redo,
    SelectBrush,
    SelectCrop,
    SelectView,
    SelectColor(u32),
}

/// The state of an editing session: tool, brush, palette, working buffer
/// and its version history.
pub struct Editor {
    mode: Mode,
    brush: Brush,
    colors: Vec<RgbColor>,
    selected_color: u32,
    working: CanvasBuffer,
    history: VersionHistory,
}

/// `step_mode` takes `before`, with `comp_before` to draw on, to `after` and
/// `comp_after`, returning `r`.
pub open spec fn mode_stepped(before: Editor, comp_before: CanvasBuffer, input: Input, after: Editor, comp_after: CanvasBuffer, r: ShouldSave) -> bool {
    &&& after.wf()
    &&& comp_after.wf()
    &&& comp_after.spec_width() == comp_before.spec_width()
    &&& comp_after.spec_height() == comp_before.spec_height()
    &&& after.spec_history() == before.spec_history()
    &&& after.spec_colors() == before.spec_colors()
    &&& after.spec_selected() == before.spec_selected()
    &&& match before.spec_mode() {
        Mode::Brush { last_brush_pos } => {
            &&& after.spec_mode() == (Mode::Brush { last_brush_pos: held_point(input) })
            &&& (r == ShouldSave::Save) == brush_saves(last_brush_pos, held_point(input))
            &&& after.spec_brush().color == before.spec_brush().color
            &&& after.spec_brush().size == scrolled_size(before.spec_brush().size as int, input.scroll as int)
            &&& brush_painted(before.spec_working(), after.spec_working(), last_brush_pos, input, before.spec_brush())
            &&& brush_previewed(comp_before, comp_after, input, after.spec_brush().size as int, before.spec_brush().color)
        },
        Mode::Crop { selection } => {
            &&& after.spec_mode() is Crop
            &&& after.spec_brush() == before.spec_brush()
            &&& crop_stepped(selection, after.spec_mode()->Crop_selection, input, before.spec_working(), after.spec_working(), comp_before, comp_after, r)
        },
        Mode::View => {
            &&& after.spec_mode() == Mode::View
            &&& r == ShouldSave::Continue
            &&& after.spec_working() == before.spec_working()
            &&& comp_after == comp_before
        }
    }
}

/// `record(save)` takes `before` to `after`.
pub open spec fn recorded(before: Editor, save: ShouldSave, after: Editor) -> bool {
    &&& after.wf()
    &&& after.spec_working() == before.spec_working()
    &&& after.spec_mode() == before.spec_mode()
    &&& after.spec_brush() == before.spec_brush()
    &&& after.spec_colors() == before.spec_colors()
    &&& after.spec_selected() == before.spec_selected()
    &&& save == ShouldSave::Save ==> exists|snapshot: CanvasBuffer| {
        &&& snapshot@ == before.spec_working()@
        &&& #[trigger] after.spec_history().entries() == committed(
            before.spec_history().entries(),
            before.spec_history().spec_cursor(),
            snapshot,
        )
        &&& after.spec_history().spec_cursor() == before.spec_history().spec_cursor() + 1
    }
    &&& save == ShouldSave::Continue ==> after.spec_history() == before.spec_history()
}

/// `apply(command)` takes `before` to `after`.
pub open spec fn applied(before: Editor, command: Command, after: Editor) -> bool {
    &&& after.wf()
    &&& after.spec_colors() == before.spec_colors()
    &&& match command {
        Command::Undo => {
            &&& after.spec_history().entries() == before.spec_history().entries()
            &&& after.spec_history().spec_cursor() == undone(before.spec_history().spec_cursor())
            &&& after.spec_working()@ == after.spec_history().entries()[after.spec_history().spec_cursor()]@
            &&& after.spec_mode() == before.spec_mode()
            &&& after.spec_brush() == before.spec_brush()
        },
        Command::Redo => {
            &&& after.spec_history().entries() == before.spec_history().entries()
            &&& after.spec_history().spec_cursor() == redone(before.spec_history().spec_cursor(), before.spec_history().entries().len() as int)
            &&& after.spec_working()@ == after.spec_history().entries()[after.spec_history().spec_cursor()]@
            &&& after.spec_mode() == before.spec_mode()
            &&& after.spec_brush() == before.spec_brush()
        },
        Command::SelectBrush => {
            &&& after.spec_mode() == (Mode::Brush { last_brush_pos: None })
            &&& after.spec_working() == before.spec_working()
            &&& after.spec_history() == before.spec_history()
        },
        Command::SelectCrop => {
            &&& after.spec_mode() == (Mode::Crop { selection: None })
            &&& after.spec_working() == before.spec_working()
            &&& after.spec_history() == before.spec_history()
        },
        Command::SelectView => {
            &&& after.spec_mode() == Mode::View
            &&& after.spec_working() == before.spec_working()
            &&& after.spec_history() == before.spec_history()
        },
        Command::SelectColor(i) => {
            &&& after.spec_mode() == before.spec_mode()
            &&& after.spec_working() == before.spec_working()
            &&& after.spec_history() == before.spec_history()
            &&& after.spec_brush().size == before.spec_brush().size
            &&& if i < before.spec_colors().len() {
                &&& after.spec_selected() == i
                &&& after.spec_brush().color == before.spec_colors()[i as int]
            } else {
                &&& after.spec_selected() == before.spec_selected()
                &&& after.spec_brush() == before.spec_brush()
            }
        }
    }
}

/// `states` runs from `before` through one state per command of
/// `commands`, each taken to the next by that command.
pub open spec fn command_trace(states: Seq<Editor>, commands: Seq<Command>) -> bool {
    &&& states.len() == commands.len() + 1
    &&& forall|i: int| 0 <= i < commands.len() ==> applied(#[trigger] states[i], commands[i], states[i + 1])
}

/// The commands `commands`, applied in order, take `before` to `after`.
pub open spec fn applied_all(before: Editor, commands: Seq<Command>, after: Editor) -> bool {
    exists|states: Seq<Editor>|
        #[trigger] command_trace(states, commands) && states[0] == before && states.last() == after
}

/// The stages of one tick: the tool runs on `before` with `start`, a copy of
/// the working buffer, giving `stepped` and `drawn`; the result `save` is
/// recorded, giving `kept`; the commands take `kept` to `after`; and the
/// buffer shown, `shown`, is `drawn` with the palette bar when the tool is
/// then the brush and the palette is not empty.
pub open spec fn tick_stages(
    before: Editor,
    input: Input,
    commands: Seq<Command>,
    after: Editor,
    shown: CanvasBuffer,
    start: CanvasBuffer,
    stepped: Editor,
    drawn: CanvasBuffer,
    save: ShouldSave,
    kept: Editor,
) -> bool {
    &&& start@ == before.spec_working()@
    &&& start.wf()
    &&& mode_stepped(before, start, input, stepped, drawn, save)
    &&& recorded(stepped, save, kept)
    &&& applied_all(kept, commands, after)
    &&& if after.spec_mode() is Brush && after.spec_colors().len() > 0 {
        colorbar_drawn(drawn, shown, after.spec_colors(), after.spec_selected(), ColorbarPos::Top)
    } else {
        shown == drawn
    }
}

/// One tick takes `before` to `after` and shows `shown`.
pub open spec fn ticked(
    before: Editor,
    input: Input,
    commands: Seq<Command>,
    after: Editor,
    shown: CanvasBuffer,
) -> bool {
    exists|
        start: CanvasBuffer,
        stepped: Editor,
        drawn: CanvasBuffer,
        save: ShouldSave,
        kept: Editor,
    |
        #[trigger] tick_stages(before, input, commands, after, shown, start, stepped, drawn, save, kept)
}

impl Editor {
    pub closed spec fn spec_mode(&self) -> Mode {
        self.mode
    }

    pub closed spec fn spec_brush(&self) -> Brush {
        self.brush
    }

    pub closed spec fn spec_colors(&self) -> Seq<RgbColor> {
        self.colors@
    }

    pub closed spec fn spec_selected(&self) -> int {
        self.selected_color as int
    }

    /// The working buffer: the image as edited so far.
    pub closed spec fn spec_working(&self) -> CanvasBuffer {
        self.working
    }

    pub closed spec fn spec_history(&self) -> VersionHistory {
        self.history
    }

    /// Well-formed buffers and history, a brush size that fits `i32`, and a
    /// selected colour inside the palette.
    pub open spec fn wf(&self) -> bool {
        &&& self.spec_working().wf()
        &&& self.spec_history().wf()
        &&& self.spec_brush().size <= i32::MAX
        &&& self.spec_colors().len() <= u32::MAX
        &&& (self.spec_colors().len() == 0 || self.spec_selected() < self.spec_colors().len())
    }

    /// A session on `initial`, whose history holds `initial` alone.
    pub fn new(initial: CanvasBuffer, options: EditorOptions) -> (r: Self)
        requires
            initial.wf(),
            options.brush.size <= i32::MAX,
            options.colors@.len() <= u32::MAX,
        ensures
            r.wf(),
            r.spec_working() == initial,
            r.spec_history().entries().len() == 1,
            r.spec_history().entries()[0]@ == initial@,
            r.spec_history().spec_cursor() == 0,
            r.spec_mode() == options.mode,
            r.spec_brush() == options.brush,
            r.spec_colors() == options.colors@,
            r.spec_selected() == 0,
    {
        let history = VersionHistory::new(initial.duplicate());
        Editor {
            mode: options.mode,
            brush: options.brush,
            colors: options.colors,
            selected_color: 0,
            working: initial,
            history,
        }
    }

    /// The working buffer.
    pub fn working(&self) -> (r: &CanvasBuffer)
        ensures
            *r == self.spec_working(),
    {
        &self.working
    }

    /// The version history.
    pub fn history(&self) -> (r: &VersionHistory)
        ensures
            *r == self.spec_history(),
    {
        &self.history
    }

    pub fn mode(&self) -> (r: Mode)
        ensures
            r == self.spec_mode(),
    {
        self.mode
    }

    pub fn brush(&self) -> (r: Brush)
        ensures
            r == self.spec_brush(),
    {
        self.brush
    }

    pub fn selected_color(&self) -> (r: u32)
        ensures
            r == self.spec_selected(),
    {
        self.selected_color
    }

    /// Ends the session, handing back the working buffer.
    pub fn into_buffer(self) -> (r: CanvasBuffer)
        ensures
            r == self.spec_working(),
    {
        self.working
    }

    /// Runs the active tool on one tick of input; `composite` receives the
    /// tool's overlays. The view tool does nothing.
    pub fn step_mode(&mut self, input: &Input, composite: &mut CanvasBuffer) -> (r: ShouldSave)
        requires
            old(self).wf(),
            old(composite).wf(),
        ensures
            mode_stepped(*old(self), *old(composite), *input, *final(self), *final(composite), r),

    {
        match self.mode {
            Mode::Brush { last_brush_pos } => {
                let mut last = last_brush_pos;
                let r = brush_mode(input, &mut self.brush, &mut last, &mut self.working, composite);
                self.mode = Mode::Brush { last_brush_pos: last };
                r
            },
            Mode::Crop { selection } => {
                let mut sel = selection;
                let r = crop_mode(input, &mut sel, &mut self.working, composite);
                self.mode = Mode::Crop { selection: sel };
                r
            },
            Mode::View => ShouldSave::Continue,
        }
    }

    /// Appends a snapshot of the working buffer to the history when `save`
    /// is `Save`, dropping the snapshots after the cursor.
    pub fn record(&mut self, save: ShouldSave)
        requires
            old(self).wf(),
        ensures
            recorded(*old(self), save, *final(self)),

    {
        if save == ShouldSave::Save {
            let snapshot = self.working.duplicate();
            self.history.commit(snapshot);
            proof {
                assert(self.history.entries() == committed(
                    old(self).spec_history().entries(),
                    old(self).spec_history().spec_cursor(),
                    snapshot,
                ));
            }
        }
    }

    /// Applies one command: undo and redo move the history's cursor and
    /// restore the working buffer from it; a tool command switches tools,
    /// dropping the old tool's state; a colour command picks a palette entry
    /// as the brush colour, and is ignored for an index outside the palette.
    pub fn apply(&mut self, command: Command)
        requires
            old(self).wf(),
        ensures
            applied(*old(self), command, *final(self)),

    {
        match command {
            Command::Undo => {
                self.history.undo();
                self.working = self.history.current().duplicate();
            },
            Command::Redo => {
                self.history.redo();
                self.working = self.history.current().duplicate();
            },
            Command::SelectBrush => {
                self.mode = Mode::Brush { last_brush_pos: None };
            },
            Command::SelectCrop => {
                self.mode = Mode::Crop { selection: None };
            },
            Command::SelectView => {
                self.mode = Mode::View;
            },
            Command::SelectColor(i) => {
                if (i as usize) < self.colors.len() {
                    self.selected_color = i;
                    self.brush.color = self.colors[i as usize];
                }
            },
        }
    }

    /// One tick of the session: the active tool handles `input`, a finished
    /// gesture becomes a new version, then `commands` apply in order. Returns
    /// the buffer to display: the working buffer as it was at the start of
    /// the tick, with the tool's overlays and, under the brush tool, the
    /// palette bar.
    pub fn tick(&mut self, input: &Input, commands: &[Command]) -> (r: CanvasBuffer)
        requires
            old(self).wf(),
        ensures
            final(self).wf(),
            r.wf(),
            ticked(*old(self), *input, commands@, *final(self), r),
            final(self).spec_history().entries().len() <= old(self).spec_history().entries().len() + 1,
    {
        let ghost before = *self;
        let mut composite = self.working.duplicate();
        let ghost start = composite;
        let save = self.step_mode(input, &mut composite);
        let ghost stepped = *self;
        let ghost drawn = composite;
        self.record(save);
        let ghost kept = *self;
        let ghost mut states: Seq<Editor> = seq![kept];
        let mut k: usize = 0;
        while k < commands.len()
            invariant
                self.wf(),
                composite == drawn,
                k <= commands@.len(),
                command_trace(states, commands@.take(k as int)),
                states[0] == kept,
                states.last() == *self,
                self.spec_history().entries() == kept.spec_history().entries(),
            decreases commands@.len() - k,
        {
            let ghost prev = *self;
            self.apply(commands[k]);
            proof {
                let next = states.push(*self);
                let cs = commands@.take(k as int + 1);
                assert forall|i: int| 0 <= i < cs.len() implies applied(#[trigger] next[i], cs[i], next[i + 1]) by {
                    if i < k {
                        assert(cs[i] == commands@.take(k as int)[i]);
                        assert(next[i] == states[i] && next[i + 1] == states[i + 1]);
                    }
                }
                states = next;
            }
            k = k + 1;
        }
        proof {
            assert(commands@.take(commands@.len() as int) =~= commands@);
            assert(command_trace(states, commands@));
        }
        let draw_bar = match self.mode {
            Mode::Brush { .. } => true,
            _ => false,
        };
        if draw_bar && self.colors.len() > 0 {
            composite.draw_colorbar(self.colors.as_slice(), self.selected_color, ColorbarPos::Top);
        }
        proof {
            assert(tick_stages(before, *input, commands@, *self, composite, start, stepped, drawn, save, kept));
        }
        composite
    }
}

/// The working buffer and every snapshot are at most `w` by `h`.
pub open spec fn fits_within(e: Editor, w: int, h: int) -> bool {
    &&& e.spec_working().spec_width() <= w
    &&& e.spec_working().spec_height() <= h
    &&& forall|i: int|
        0 <= i < e.spec_history().entries().len() ==> (#[trigger] e.spec_history().entries()[i]).spec_width() <= w
            && e.spec_history().entries()[i].spec_height() <= h
}

proof fn lemma_step_fits(b: Editor, c0: CanvasBuffer, input: Input, a: Editor, c1: CanvasBuffer, r: ShouldSave, w: int, h: int)
    requires
        mode_stepped(b, c0, input, a, c1, r),
        fits_within(b, w, h),
    ensures
        fits_within(a, w, h),
{
}

proof fn lemma_record_fits(b: Editor, save: ShouldSave, a: Editor, w: int, h: int)
    requires
        b.wf(),
        recorded(b, save, a),
        fits_within(b, w, h),
    ensures
        fits_within(a, w, h),
{
    if save == ShouldSave::Save {
        let snapshot = choose|snapshot: CanvasBuffer| {
            &&& snapshot@ == b.spec_working()@
            &&& #[trigger] a.spec_history().entries() == committed(
                b.spec_history().entries(),
                b.spec_history().spec_cursor(),
                snapshot,
            )
            &&& a.spec_history().spec_cursor() == b.spec_history().spec_cursor() + 1
        };
        snapshot.lemma_view_determines(&b.spec_working());
        let es = a.spec_history().entries();
        assert forall|i: int| 0 <= i < es.len() implies (#[trigger] es[i]).spec_width() <= w && es[i].spec_height() <= h by {
            if i < b.spec_history().spec_cursor() + 1 {
                assert(es[i] == b.spec_history().entries()[i]);
            }
        }
    }
}

proof fn lemma_apply_fits(b: Editor, command: Command, a: Editor, w: int, h: int)
    requires
        applied(b, command, a),
        fits_within(b, w, h),
    ensures
        fits_within(a, w, h),
{
    match command {
        Command::Undo | Command::Redo => {
            let cur = a.spec_history().entries()[a.spec_history().spec_cursor()];
            a.spec_working().lemma_view_determines(&cur);
        },
        _ => {},
    }
}

proof fn lemma_trace_fits(states: Seq<Editor>, commands: Seq<Command>, i: int, w: int, h: int)
    requires
        command_trace(states, commands),
        0 <= i <= commands.len(),
        fits_within(states[i], w, h),
    ensures
        fits_within(states.last(), w, h),
    decreases commands.len() - i,
{
    if i < commands.len() {
        lemma_apply_fits(states[i], commands[i], states[i + 1], w, h);
        lemma_trace_fits(states, commands, i + 1, w, h);
    }
}

/// Over one tick the working buffer and the snapshots stay within any size
/// they were all within before: a tick only crops to a smaller size, records
/// snapshots of the working buffer, and restores snapshots.
pub proof fn lemma_tick_never_grows(
    before: Editor,
    input: Input,
    commands: Seq<Command>,
    after: Editor,
    shown: CanvasBuffer,
    w: int,
    h: int,
)
    requires
        before.wf(),
        ticked(before, input, commands, after, shown),
        fits_within(before, w, h),
    ensures
        fits_within(after, w, h),
{
    let (start, stepped, drawn, save, kept) = choose|
        start: CanvasBuffer,
        stepped: Editor,
        drawn: CanvasBuffer,
        save: ShouldSave,
        kept: Editor,
    | #[trigger] tick_stages(before, input, commands, after, shown, start, stepped, drawn, save, kept);
    lemma_step_fits(before, start, input, stepped, drawn, save, w, h);
    lemma_record_fits(stepped, save, kept, w, h);
    let states = choose|states: Seq<Editor>|
        #[trigger] command_trace(states, commands) && states[0] == kept && states.last() == after;
    lemma_trace_fits(states, commands, 0, w, h);
}

} // verus!

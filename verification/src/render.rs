//! The plan of a frame: where the folder panel, the text, the status bar and
//! the command line stand, how far the text is scrolled, which of its lines
//! are shown, where the terminal cursor goes and how the title marks unsaved
//! work. Drawing the plan is left to the terminal side.
use vstd::prelude::*;

use vstd::utf8::encode_utf8;

use crate::highlight::{highlight, highlight_from, text_view};
use crate::styling::StyledChar;
use crate::text::{join_sep, join_strings, string_of, strings_of};
use crate::textblock::lines_of;
use crate::{App, Highlight, Mode};

use tui::layout::Layout;
use tui::layout::Rect as TuiRect;
use tui::layout::Constraint as Tc;
use tui::layout::Direction as Dir;

verus! {

/// A rectangle of the terminal, in cells.
#[derive(Clone, Copy, Debug, PartialEq, Eq, Structural)]
pub struct Rect {
    pub x: u16,
    pub y: u16,
    pub width: u16,
    pub height: u16,
}

/// How much room a part of a layout asks for.
#[derive(Clone, Copy, Debug, PartialEq, Eq, Structural)]
pub enum Constraint {
    Percentage(u16),
    Length(u16),
    Max(u16),
    Min(u16),
}

/// The direction in which a layout cuts its area.
#[derive(Clone, Copy, Debug, PartialEq, Eq, Structural)]
pub enum Axis {
    Horizontal,
    Vertical,
}

/// The size of `area` along `axis`.
pub open spec fn extent(axis: Axis, area: Rect) -> int {
    match axis {
        Axis::Horizontal => area.width as int,
        Axis::Vertical => area.height as int,
    }
}

/// No percentage of the size overflows a 16-bit number.
pub open spec fn percents_fit(constraints: Seq<Constraint>, size: int) -> bool {
    forall|i: int|
        0 <= i < constraints.len() ==> (#[trigger] constraints[i] matches Constraint::Percentage(p) ==> p * size
            <= u16::MAX)
}

/// `parts` is a layout that the terminal's solver can give when it cuts
/// `area` along `axis` under `constraints`, without margin. (The solver may
/// settle ties between equally good layouts differently from one run to
/// the next, so this is a relation, not a function.)
pub uninterp spec fn layout_of(axis: Axis, constraints: Seq<Constraint>, area: Rect, parts: Seq<Rect>) -> bool;

/// Calls `tui::layout::Layout::split` with the direction, the constraints
/// and no margin. Claimed: there is one part per constraint, and the parts
/// are a layout of these arguments (`layout_of`). Nothing more is said of
/// their sizes. The solver multiplies each percentage by the size in 16
/// bits, hence the bound on percentages.
#[verifier::external_body]
fn split_area(axis: Axis, constraints: &Vec<Constraint>, area: Rect) -> (parts: Vec<Rect>)
    requires
        percents_fit(constraints@, extent(axis, area)),
    ensures
        parts@.len() == constraints@.len(),
        layout_of(axis, constraints@, area, parts@),
{
    let cs = constraints.iter().map(|c| match *c {
        Constraint::Percentage(p) => Tc::Percentage(p),
        Constraint::Length(l) => Tc::Length(l),
        Constraint::Max(m) => Tc::Max(m),
        Constraint::Min(m) => Tc::Min(m),
    });
    let l = Layout::default().direction(match axis { Axis::Horizontal => Dir::Horizontal, Axis::Vertical => Dir::Vertical });
    let r = TuiRect { x: area.x, y: area.y, width: area.width, height: area.height };
    l.constraints(Vec::from_iter(cs)).split(r).iter().map(|r| Rect { x: r.x, y: r.y, width: r.width, height: r.height }).collect()
}

/// How the screen is shared between the folder panel and the editor: the
/// panel shows only while the command line is active and a folder is open,
/// wider when it has the focus.
pub open spec fn panel_constraints(folder_open: bool, mode: Mode, targets_folder: bool) -> Seq<Constraint> {
    if folder_open && mode == Mode::Command {
        if targets_folder {
            seq![Constraint::Max(30), Constraint::Percentage(70)]
        } else {
            seq![Constraint::Max(15), Constraint::Percentage(70)]
        }
    } else {
        seq![Constraint::Percentage(0), Constraint::Percentage(100)]
    }
}

/// How the editor is shared between the text, the status bar and the
/// command line; the command line is hidden while editing.
pub open spec fn block_constraints(mode: Mode) -> Seq<Constraint> {
    if mode == Mode::Edit {
        seq![Constraint::Min(4), Constraint::Length(3), Constraint::Percentage(0)]
    } else {
        seq![Constraint::Min(4), Constraint::Length(3), Constraint::Length(3)]
    }
}

fn panel_constraints_exec(folder_open: bool, mode: Mode, targets_folder: bool) -> (r: Vec<Constraint>)
    ensures
        r@ == panel_constraints(folder_open, mode, targets_folder),
{
    if folder_open && mode == Mode::Command {
        if targets_folder {
            vec![Constraint::Max(30), Constraint::Percentage(70)]
        } else {
            vec![Constraint::Max(15), Constraint::Percentage(70)]
        }
    } else {
        vec![Constraint::Percentage(0), Constraint::Percentage(100)]
    }
}

fn block_constraints_exec(mode: Mode) -> (r: Vec<Constraint>)
    ensures
        r@ == block_constraints(mode),
{
    if mode == Mode::Edit {
        vec![Constraint::Min(4), Constraint::Length(3), Constraint::Percentage(0)]
    } else {
        vec![Constraint::Min(4), Constraint::Length(3), Constraint::Length(3)]
    }
}

/// The scroll offset that keeps the cursor in a window of `size` cells with
/// a border on each side: scrolled on just far enough for the cursor to be
/// no further than `size - 3` past it, and back to the cursor where the
/// cursor stands before it.
pub open spec fn scroll_for(cursor: int, scroll: int, size: int) -> int {
    let on = if cursor > scroll + size - 3 { cursor + 3 - size } else { scroll };
    if cursor < on { cursor } else { on }
}

/// The new scroll offset for a cursor in a window of `size` cells.
pub fn adjust_scroll(cursor: usize, scroll: usize, size: u16) -> (r: usize)
    requires
        scroll + size >= 3,
        scroll + size <= usize::MAX,
        cursor + 3 <= usize::MAX,
    ensures
        r == scroll_for(cursor as int, scroll as int, size as int),
        size >= 3 ==> r <= cursor <= r + size - 3,
{
    let top = scroll + (size as usize) - 3;
    let on = if cursor > top { cursor - top + scroll } else { scroll };
    if cursor < on { cursor } else { on }
}

/// Where the shown lines end: all the rest where the text ends within the
/// window, else one line less than the window is high.
pub open spec fn visible_end(n_input: int, n_lines: int, scroll: int, height: int) -> int {
    if n_input <= scroll + height + 2 {
        n_lines
    } else {
        scroll + height - 1
    }
}

/// How the title of the text block marks the state of the text.
#[derive(Clone, Copy, Debug, PartialEq, Eq, Structural)]
pub enum TitleMark {
    /// The saved state was forced: a struck-through mark.
    Forced,
    /// Unsaved changes: a plain mark.
    Unsaved,
    /// Saved: no mark.
    Clean,
}

pub open spec fn title_mark_spec(forced_save: bool, saved: bool) -> TitleMark {
    if forced_save {
        TitleMark::Forced
    } else if saved {
        TitleMark::Clean
    } else {
        TitleMark::Unsaved
    }
}

/// The cursor stands in the text while editing or finding.
pub open spec fn cursor_in_text(mode: Mode) -> bool {
    mode matches Mode::Edit || mode matches Mode::Find(_, _)
}

/// The terminal cursor in the text block: one cell in from its border,
/// less the scroll offsets.
pub open spec fn text_cursor(area: Rect, vert: usize, edit: usize, scroll: usize, scroll_x: usize) -> (int, int) {
    (
        area.x + (edit as u16) + 1 - (scroll_x as u16),
        (vert as u16) + area.y + 1 - (scroll as u16),
    )
}

/// The terminal cursor on the command line: after the command's bytes.
pub open spec fn command_cursor(area: Rect, command_len: int) -> (int, int) {
    (area.x + 1 + (command_len as u16), area.y + 1)
}

/// What a frame plan is made from: the editor's state as plain values.
pub struct FrameInput {
    pub mode: Mode,
    pub vert: usize,
    pub edit: usize,
    pub scroll: usize,
    pub scroll_x: usize,
    pub n_input: usize,
    pub n_lines: usize,
    pub command_len: usize,
    pub forced_save: bool,
    pub saved: bool,
}

/// Where the parts of a frame stand and what the text block shows.
pub struct FramePlan {
    pub folder_area: Rect,
    pub text_area: Rect,
    pub status_area: Rect,
    pub command_area: Rect,
    pub scroll: usize,
    pub scroll_x: usize,
    pub first_line: usize,
    pub end_line: usize,
    pub cursor_x: u16,
    pub cursor_y: u16,
    pub mark: TitleMark,
}

/// The plan can be made without a number leaving its range.
pub open spec fn frame_fits(i: FrameInput, text: Rect, command: Rect) -> bool {
    let s = scroll_for(i.vert as int, i.scroll as int, text.height as int);
    let sx = scroll_for(i.edit as int, i.scroll_x as int, text.width as int);
    let end = visible_end(i.n_input as int, i.n_lines as int, s, text.height as int);
    &&& i.scroll + text.height >= 3
    &&& i.scroll + text.height <= usize::MAX
    &&& i.vert + 3 <= usize::MAX
    &&& i.scroll_x + text.width >= 3
    &&& i.scroll_x + text.width <= usize::MAX
    &&& i.edit + 3 <= usize::MAX
    &&& s + text.height + 2 <= usize::MAX
    &&& s <= end <= i.n_lines
    &&& if cursor_in_text(i.mode) {
        let c = text_cursor(text, i.vert, i.edit, s as usize, sx as usize);
        &&& text.x + (i.edit as u16) + 1 <= u16::MAX
        &&& (i.vert as u16) + text.y + 1 <= u16::MAX
        &&& 0 <= c.0
        &&& 0 <= c.1
    } else {
        &&& command.x + 1 + (i.command_len as u16) <= u16::MAX
        &&& command.y + 1 <= u16::MAX
    }
}

/// The plan made from the editor's state and the parts of the layout.
pub open spec fn plan_of(i: FrameInput, big: Seq<Rect>, chunks: Seq<Rect>) -> FramePlan {
    let text = chunks[0];
    let s = scroll_for(i.vert as int, i.scroll as int, text.height as int);
    let sx = scroll_for(i.edit as int, i.scroll_x as int, text.width as int);
    let c = if cursor_in_text(i.mode) {
        text_cursor(text, i.vert, i.edit, s as usize, sx as usize)
    } else {
        command_cursor(chunks[2], i.command_len as int)
    };
    FramePlan {
        folder_area: big[0],
        text_area: text,
        status_area: chunks[1],
        command_area: chunks[2],
        scroll: s as usize,
        scroll_x: sx as usize,
        first_line: s as usize,
        end_line: visible_end(i.n_input as int, i.n_lines as int, s, text.height as int) as usize,
        cursor_x: c.0 as u16,
        cursor_y: c.1 as u16,
        mark: title_mark_spec(i.forced_save, i.saved),
    }
}

/// The shown lines hold the cursor's line: scrolling keeps the cursor at
/// least two rows above the bottom border, and the window shows all but
/// its last row (or the whole rest of the text).
pub proof fn law_plan_shows_cursor_line(i: FrameInput, big: Seq<Rect>, chunks: Seq<Rect>)
    requires
        chunks.len() == 3,
        chunks[0].height >= 3,
        i.scroll + chunks[0].height <= usize::MAX,
        i.vert < i.n_lines,
    ensures
        plan_of(i, big, chunks).first_line <= i.vert < plan_of(i, big, chunks).end_line,
{
}

/// Whether the plan can be made without a number leaving its range.
pub fn frame_fits_exec(i: &FrameInput, text: Rect, command: Rect) -> (r: bool)
    ensures
        r == frame_fits(*i, text, command),
{
    if !(i.scroll as u128 + text.height as u128 >= 3 && i.scroll as u128 + text.height as u128 <= usize::MAX as u128
        && i.vert as u128 + 3 <= usize::MAX as u128 && i.scroll_x as u128 + text.width as u128 >= 3
        && i.scroll_x as u128 + text.width as u128 <= usize::MAX as u128 && i.edit as u128 + 3 <= usize::MAX as u128) {
        return false;
    }
    let s = adjust_scroll(i.vert, i.scroll, text.height);
    let sx = adjust_scroll(i.edit, i.scroll_x, text.width);
    if s as u128 + text.height as u128 + 2 > usize::MAX as u128 {
        return false;
    }
    let end = if i.n_input <= s + (text.height as usize) + 2 {
        i.n_lines
    } else {
        if text.height == 0 {
            return false;
        }
        s + (text.height as usize) - 1
    };
    if !(s <= end && end <= i.n_lines) {
        return false;
    }
    if matches!(i.mode, Mode::Edit) || matches!(i.mode, Mode::Find(_, _)) {
        let x = text.x as u32 + (i.edit as u16) as u32 + 1;
        let y = (i.vert as u16) as u32 + text.y as u32 + 1;
        x <= u16::MAX as u32 && y <= u16::MAX as u32 && x >= (sx as u16) as u32 && y >= (s as u16) as u32
    } else {
        command.x as u32 + 1 + (i.command_len as u16) as u32 <= u16::MAX as u32 && command.y as u32 + 1 <= u16::MAX as u32
    }
}

/// The plan of a frame from the editor's state and the parts of the
/// layout: the scroll offsets that keep the cursor in view, the shown
/// lines, the terminal cursor and the title mark.
pub fn frame_plan(i: &FrameInput, big: &Vec<Rect>, chunks: &Vec<Rect>) -> (p: FramePlan)
    requires
        big@.len() == 2,
        chunks@.len() == 3,
        frame_fits(*i, chunks@[0], chunks@[2]),
    ensures
        p == plan_of(*i, big@, chunks@),
{
    let text = chunks[0];
    let s = adjust_scroll(i.vert, i.scroll, text.height);
    let sx = adjust_scroll(i.edit, i.scroll_x, text.width);
    let end = if i.n_input <= s + (text.height as usize) + 2 {
        i.n_lines
    } else {
        s + (text.height as usize) - 1
    };
    let (cx, cy) = if matches!(i.mode, Mode::Edit) || matches!(i.mode, Mode::Find(_, _)) {
        (text.x + (i.edit as u16) + 1 - (sx as u16), (i.vert as u16) + text.y + 1 - (s as u16))
    } else {
        (chunks[2].x + 1 + (i.command_len as u16), chunks[2].y + 1)
    };
    let mark = if i.forced_save {
        TitleMark::Forced
    } else if i.saved {
        TitleMark::Clean
    } else {
        TitleMark::Unsaved
    };
    FramePlan {
        folder_area: big[0],
        text_area: text,
        status_area: chunks[1],
        command_area: chunks[2],
        scroll: s,
        scroll_x: sx,
        first_line: s,
        end_line: end,
        cursor_x: cx,
        cursor_y: cy,
        mark,
    }
}

/// Whether no percentage of `size` overflows a 16-bit number.
fn percents_fit_exec(cs: &Vec<Constraint>, size: u16) -> (r: bool)
    ensures
        r == percents_fit(cs@, size as int),
{
    for k in 0..cs.len()
        invariant
            forall|q: int| 0 <= q < k ==> (#[trigger] cs@[q] matches Constraint::Percentage(p) ==> p * size <= u16::MAX),
    {
        if let Constraint::Percentage(p) = cs[k] {
            assert((p as u64) * (size as u64) <= 65535 * 65535) by (nonlinear_arith)
                requires
                    p <= 65535,
                    size <= 65535,
            ;
            if (p as u64) * (size as u64) > u16::MAX as u64 {
                return false;
            }
        }
    }
    true
}

/// The text of the text block: its lines, a newline between each two.
pub open spec fn block_text(app: &App) -> Seq<char> {
    join_sep(lines_of(&app.textbox.input), "\n"@)
}

/// The editor's state as a frame plan reads it.
pub open spec fn frame_input(app: &App, scroll: usize, scroll_x: usize, n_lines: int, forced_save: bool) -> FrameInput {
    FrameInput {
        mode: app.mode,
        vert: app.textbox.vert_cursor,
        edit: app.textbox.edit_cursor,
        scroll,
        scroll_x,
        n_input: app.textbox.input@.len() as usize,
        n_lines: n_lines as usize,
        command_len: encode_utf8(app.command@).len() as usize,
        forced_save,
        saved: app.textbox.saved,
    }
}

/// What planning a frame gives, once the screen is cut into `big` (folder
/// panel, editor) and the editor into `chunks` (text, status bar, command
/// line): the text highlighted for the file's name, the plan made from the
/// parts, and the highlighted lines that the text block shows. Nothing
/// where a step fails: a highlighting that fails, or a number of the plan
/// that leaves its range.
pub open spec fn render_from(
    app: &App,
    big: Seq<Rect>,
    chunks: Seq<Rect>,
    scroll: usize,
    scroll_x: usize,
    config: Seq<(String, Highlight)>,
    forced_save: bool,
) -> Option<(FramePlan, Seq<Seq<StyledChar>>)> {
    let text = block_text(app);
    let hl = highlight_from(text, config, app.file_name@, 0);
    if text.len() > isize::MAX || hl is None {
        None
    } else {
        let lines = hl->0;
        let i = frame_input(app, scroll, scroll_x, lines.len() as int, forced_save);
        if !frame_fits(i, chunks[0], chunks[2]) {
            None
        } else {
            let p = plan_of(i, big, chunks);
            Some((p, lines.subrange(p.first_line as int, p.end_line as int)))
        }
    }
}

/// The result `r` and the scroll offsets after planning are what `expected`
/// says: nothing and the offsets as before, or the plan, the shown lines
/// and the plan's offsets.
pub open spec fn render_outcome(
    r: Option<(FramePlan, Vec<Vec<StyledChar>>)>,
    scroll: usize,
    scroll_x: usize,
    old_scroll: usize,
    old_scroll_x: usize,
    expected: Option<(FramePlan, Seq<Seq<StyledChar>>)>,
) -> bool {
    match expected {
        None => r is None && scroll == old_scroll && scroll_x == old_scroll_x,
        Some((p, lines)) => r matches Some((q, shown)) && q == p && text_view(shown) == lines
            && scroll == p.scroll && scroll_x == p.scroll_x,
    }
}

/// Plans the frame from the parts of the layout: highlights the text, moves
/// the scroll offsets so that the cursor stays in view, and keeps the
/// highlighted lines that the text block shows. Where a step fails, nothing
/// is planned and the scroll offsets stay.
pub fn render_with_layout(
    app: &App,
    big: &Vec<Rect>,
    chunks: &Vec<Rect>,
    scroll: &mut usize,
    scroll_x: &mut usize,
    highlight_config: &Vec<(String, Highlight)>,
    forced_save: bool,
) -> (r: Option<(FramePlan, Vec<Vec<StyledChar>>)>)
    requires
        big@.len() == 2,
        chunks@.len() == 3,
    ensures
        render_outcome(r, *final(scroll), *final(scroll_x), *old(scroll), *old(scroll_x),
            render_from(app, big@, chunks@, *old(scroll), *old(scroll_x), highlight_config@, forced_save)),
{
    let ghost lines_v = lines_of(&app.textbox.input);
    let mut strs: Vec<String> = Vec::new();
    for k in 0..app.textbox.input.len()
        invariant
            lines_v == lines_of(&app.textbox.input),
            strs@.len() == k,
            forall|q: int| 0 <= q < k ==> (#[trigger] strs@[q])@ == lines_v[q],
    {
        strs.push(string_of(&app.textbox.input[k]));
    }
    assert(strings_of(&strs) =~= lines_v);
    let text = join_strings(&strs, "\n");
    let n_chars = crate::text::chars_of(text.as_str()).len();
    if n_chars > isize::MAX as usize {
        return None;
    }
    let hl = match highlight(&text, highlight_config, app.file_name) {
        Some(h) => h,
        None => return None,
    };
    let i = FrameInput {
        mode: app.mode,
        vert: app.textbox.vert_cursor,
        edit: app.textbox.edit_cursor,
        scroll: *scroll,
        scroll_x: *scroll_x,
        n_input: app.textbox.input.len(),
        n_lines: hl.len(),
        command_len: app.command.as_str().len(),
        forced_save,
        saved: app.textbox.saved,
    };
    let ghost hv = text_view(hl);
    assert(hv.len() == hl@.len());
    if !frame_fits_exec(&i, chunks[0], chunks[2]) {
        return None;
    }
    let p = frame_plan(&i, big, chunks);
    let mut shown = hl;
    shown.truncate(p.end_line);
    let shown = shown.split_off(p.first_line);
    assert(text_view(shown) =~= hv.subrange(p.first_line as int, p.end_line as int));
    *scroll = p.scroll;
    *scroll_x = p.scroll_x;
    Some((p, shown))
}

/// Plans the frame of the editor: cuts the screen with the terminal's layout
/// solver, then plans from the parts it gives. Nothing is planned, and the
/// scroll offsets stay, where a percentage of the screen overflows; else
/// the outcome is the plan from a layout of the screen (folder panel and
/// editor, by the panel's constraints) and a layout of the editor (text,
/// status bar, command line, by the mode's constraints) that the solver
/// gives.
pub fn render(
    app: &App,
    area: Rect,
    scroll: &mut usize,
    scroll_x: &mut usize,
    folder_open: bool,
    targets_folder: bool,
    highlight_config: &Vec<(String, Highlight)>,
    forced_save: bool,
) -> (r: Option<(FramePlan, Vec<Vec<StyledChar>>)>)
    ensures
        !percents_fit(panel_constraints(folder_open, app.mode, targets_folder), area.width as int) ==> r is None
            && *final(scroll) == *old(scroll) && *final(scroll_x) == *old(scroll_x),
        percents_fit(panel_constraints(folder_open, app.mode, targets_folder), area.width as int) ==> exists|
            big: Seq<Rect>,
            chunks: Seq<Rect>,
        |
            big.len() == 2 && chunks.len() == 3
                && layout_of(Axis::Horizontal, panel_constraints(folder_open, app.mode, targets_folder), area, big)
                && layout_of(Axis::Vertical, block_constraints(app.mode), big[1], chunks)
                && render_outcome(r, *final(scroll), *final(scroll_x), *old(scroll),
                *old(scroll_x), #[trigger] render_from(app, big, chunks, *old(scroll), *old(scroll_x), highlight_config@, forced_save)),
{
    let panel = panel_constraints_exec(folder_open, app.mode, targets_folder);
    if !percents_fit_exec(&panel, area.width) {
        return None;
    }
    let big = split_area(Axis::Horizontal, &panel, area);
    let blocks = block_constraints_exec(app.mode);
    assert forall|q: int| 0 <= q < blocks@.len() implies (#[trigger] blocks@[q] matches Constraint::Percentage(
        p,
    ) ==> p * extent(Axis::Vertical, big@[1]) <= u16::MAX) by {
        let cs = block_constraints(app.mode);
        assert(blocks@ == cs);
        if q == 0 {
            assert(cs[0] == Constraint::Min(4));
        } else if q == 1 {
            assert(cs[1] == Constraint::Length(3));
        } else {
            assert(cs[2] == Constraint::Percentage(0) || cs[2] == Constraint::Length(3));
            assert(0 * extent(Axis::Vertical, big@[1]) == 0);
        }
    }
    let chunks = split_area(Axis::Vertical, &blocks, big[1]);
    let ghost s0 = *scroll;
    let ghost sx0 = *scroll_x;
    let r = render_with_layout(app, &big, &chunks, scroll, scroll_x, highlight_config, forced_save);
    assert(render_outcome(r, *scroll, *scroll_x, s0, sx0, render_from(app, big@, chunks@, s0, sx0, highlight_config@, forced_save)));
    r
}

} // verus!

use vstd::prelude::*;

use crate::view::ViewRule;

verus! {

/// The lines of a buffer of characters, as mathematical sequences.
pub open spec fn lines_of(v: &Vec<Vec<char>>) -> Seq<Seq<char>> {
    v@.map_values(|l: Vec<char>| l@)
}

/// A cursor position `(vert, edit)` that lies on an existing line and not
/// past that line's end.
pub open spec fn valid_pos(lines: Seq<Seq<char>>, vert: int, edit: int) -> bool {
    &&& 0 <= vert < lines.len()
    &&& 0 <= edit <= lines[vert].len()
}

/// `lines` with line `i` joined onto the end of line `i - 1`.
pub open spec fn join_with_previous(lines: Seq<Seq<char>>, i: int) -> Seq<Seq<char>> {
    lines.subrange(0, i - 1).push(lines[i - 1] + lines[i]) + lines.subrange(i + 1, lines.len() as int)
}

/// `lines` with line `v` cut in two at column `e`.
pub open spec fn split_at_cursor(lines: Seq<Seq<char>>, v: int, e: int) -> Seq<Seq<char>> {
    lines.subrange(0, v).push(lines[v].subrange(0, e)).push(
        lines[v].subrange(e, lines[v].len() as int),
    ) + lines.subrange(v + 1, lines.len() as int)
}

/// `lines` with `s` put into line `v` at column `e`.
pub open spec fn insert_text(lines: Seq<Seq<char>>, v: int, e: int, s: Seq<char>) -> Seq<Seq<char>> {
    lines.update(v, lines[v].subrange(0, e) + s + lines[v].subrange(e, lines[v].len() as int))
}

/// Lines and cursor after typing `x` at `(v, e)`.
pub open spec fn write_result(lines: Seq<Seq<char>>, v: int, e: int, x: char) -> (Seq<Seq<char>>, int, int) {
    (insert_text(lines, v, e, seq![x]), v, e + 1)
}

/// Lines and cursor after a tab at `(v, e)`: four spaces.
pub open spec fn tab_result(lines: Seq<Seq<char>>, v: int, e: int) -> (Seq<Seq<char>>, int, int) {
    (insert_text(lines, v, e, seq![' ', ' ', ' ', ' ']), v, e + 4)
}

/// Lines and cursor after a backspace at `(v, e)`.
pub open spec fn backspace_result(lines: Seq<Seq<char>>, v: int, e: int) -> (Seq<Seq<char>>, int, int) {
    if e != 0 {
        (lines.update(v, lines[v].remove(e - 1)), v, e - 1)
    } else if v != 0 {
        (join_with_previous(lines, v), v - 1, lines[v - 1].len() as int)
    } else {
        (lines, v, e)
    }
}

/// Lines after a delete at `(v, e)`; the cursor stays.
pub open spec fn delete_result(lines: Seq<Seq<char>>, v: int, e: int) -> Seq<Seq<char>> {
    if e != lines[v].len() {
        lines.update(v, lines[v].remove(e))
    } else if v + 1 != lines.len() {
        join_with_previous(lines, v + 1)
    } else {
        lines
    }
}

/// Lines and cursor after a line break at `(v, e)`.
pub open spec fn enter_result(lines: Seq<Seq<char>>, v: int, e: int) -> (Seq<Seq<char>>, int, int) {
    (split_at_cursor(lines, v, e), v + 1, 0)
}

/// Cursor after a move left over the lines `tl`.
pub open spec fn left_result(tl: Seq<Seq<char>>, v: int, e: int) -> (int, int) {
    if e != 0 {
        (v, e - 1)
    } else if v != 0 {
        (v - 1, tl[v - 1].len() as int)
    } else {
        (v, e)
    }
}

/// Cursor after a move right over the lines `tl`.
pub open spec fn right_result(tl: Seq<Seq<char>>, v: int, e: int) -> (int, int) {
    if e + 1 <= tl[v].len() {
        (v, e + 1)
    } else if v + 1 != tl.len() {
        (v + 1, 0)
    } else {
        (v, e)
    }
}

/// The column kept when the cursor lands on a line of length `len`.
pub open spec fn clamp_column(len: int, e: int) -> int {
    if len < e + 2 { len } else { e }
}

/// Cursor after a move up over the lines `tl`.
pub open spec fn up_result(tl: Seq<Seq<char>>, v: int, e: int) -> (int, int) {
    if v != 0 {
        (v - 1, clamp_column(tl[v - 1].len() as int, e))
    } else {
        (v, e)
    }
}

/// Cursor after a move down over the lines `tl`.
pub open spec fn down_result(tl: Seq<Seq<char>>, v: int, e: int) -> (int, int) {
    if v + 2 <= tl.len() {
        (v + 1, clamp_column(tl[v + 1].len() as int, e))
    } else {
        (v, e)
    }
}

pub struct TextBlock {
    pub input: Vec<Vec<char>>,
    pub vert_cursor: usize,
    pub edit_cursor: usize,
    pub saved: bool,
    pub view: Vec<Vec<char>>,
    pub view_info: Vec<(usize, ViewRule)>,
}

/// Which buffer a cursor movement walks over.
pub enum Target {
    Input,
    View,
}

impl TextBlock {
    /// The lines that a movement over `target` walks over.
    pub open spec fn target_lines(&self, target: Target) -> Seq<Seq<char>> {
        match target {
            Target::View => lines_of(&self.view),
            Target::Input => lines_of(&self.input),
        }
    }

    /// The input lines and the cursor.
    pub open spec fn state(&self) -> (Seq<Seq<char>>, int, int) {
        (lines_of(&self.input), self.vert_cursor as int, self.edit_cursor as int)
    }

    /// The cursor lies within the input.
    pub open spec fn cursor_in_input(&self) -> bool {
        valid_pos(lines_of(&self.input), self.vert_cursor as int, self.edit_cursor as int)
    }

    /// Everything but the cursor is as in `other`.
    pub open spec fn same_but_cursor(&self, other: &TextBlock) -> bool {
        &&& lines_of(&self.input) == lines_of(&other.input)
        &&& lines_of(&self.view) == lines_of(&other.view)
        &&& self.saved == other.saved
        &&& self.view_info@ == other.view_info@
    }

    /// The view and its links are as in `other`.
    pub open spec fn same_view(&self, other: &TextBlock) -> bool {
        &&& lines_of(&self.view) == lines_of(&other.view)
        &&& self.view_info@ == other.view_info@
    }

    pub fn new() -> (tb: TextBlock)
        ensures
            lines_of(&tb.input) == seq![Seq::<char>::empty()],
            lines_of(&tb.view) == seq![Seq::<char>::empty()],
            tb.vert_cursor == 0,
            tb.edit_cursor == 0,
            tb.saved,
            tb.view_info@.len() == 0,
    {
        let tb = TextBlock {
            input: vec![Vec::new()],
            vert_cursor: 0,
            edit_cursor: 0,
            saved: true,
            view: vec![Vec::new()],
            view_info: Vec::new(),
        };
        assert(lines_of(&tb.input) =~= seq![Seq::<char>::empty()]);
        assert(lines_of(&tb.view) =~= seq![Seq::<char>::empty()]);
        tb
    }

    /// Inserts `x` at the cursor and moves the cursor past it.
    pub fn write(&mut self, x: char)
        requires
            old(self).cursor_in_input(),
        ensures
            final(self).state() == write_result(lines_of(&old(self).input), old(self).vert_cursor as int, old(self).edit_cursor as int, x),
            !final(self).saved,
            final(self).same_view(old(self)),
    {
        let ghost lines = lines_of(&self.input);
        let v = self.vert_cursor;
        self.input[v].insert(self.edit_cursor, x);
        assert(self.input@[v as int].len() <= usize::MAX);
        self.edit_cursor += 1;
        self.saved = false;
        assert(lines[v as int].insert(old(self).edit_cursor as int, x) =~= lines[v as int].subrange(0, old(self).edit_cursor as int)
            + seq![x] + lines[v as int].subrange(old(self).edit_cursor as int, lines[v as int].len() as int));
        assert(lines_of(&self.input) =~= insert_text(lines, v as int, old(self).edit_cursor as int, seq![x]));
    }

    /// Deletes the character before the cursor; at the start of a line, joins
    /// the line onto the previous one; at the start of the text (even an
    /// empty one) changes nothing.
    pub fn backspace(&mut self)
        requires
            old(self).edit_cursor != 0 ==> old(self).cursor_in_input(),
            old(self).edit_cursor == 0 && old(self).vert_cursor != 0 ==> old(self).vert_cursor < old(self).input.len(),
        ensures
            final(self).state() == backspace_result(lines_of(&old(self).input), old(self).vert_cursor as int, old(self).edit_cursor as int),
            final(self).saved == (old(self).saved && old(self).edit_cursor == 0 && old(self).vert_cursor == 0),
            final(self).same_view(old(self)),
            old(self).edit_cursor == 0 && old(self).vert_cursor == 0 ==> *final(self) == *old(self),
    {
        let ghost lines = lines_of(&self.input);
        let v = self.vert_cursor;
        let e = self.edit_cursor;
        if e != 0 {
            if e == self.input[v].len() {
                let _ = self.input[v].pop();
                self.edit_cursor -= 1;
                self.saved = false;
            } else {
                let _ = self.input[v].remove(e - 1);
                self.edit_cursor -= 1;
                self.saved = false;
            }
            assert(lines_of(&self.input) =~= lines.update(v as int, lines[v as int].remove(e - 1)));
        } else if v != 0 {
            let mut rest = self.input.remove(v);
            let len = rest.len();
            self.input[v - 1].append(&mut rest);
            self.vert_cursor -= 1;
            self.edit_cursor = self.input[self.vert_cursor].len() - len;
            self.saved = false;
            assert(lines_of(&self.input) =~= join_with_previous(lines, v as int));
        }
    }

    /// Deletes the character under the cursor; at the end of a line, joins the
    /// next line onto it.
    pub fn delete(&mut self)
        requires
            old(self).cursor_in_input(),
        ensures
            lines_of(&final(self).input) == delete_result(lines_of(&old(self).input), old(self).vert_cursor as int, old(self).edit_cursor as int),
            final(self).vert_cursor == old(self).vert_cursor,
            final(self).edit_cursor == old(self).edit_cursor,
            !final(self).saved,
            final(self).same_view(old(self)),
    {
        let ghost lines = lines_of(&self.input);
        let v = self.vert_cursor;
        let e = self.edit_cursor;
        assert(v < self.input.len());
        if e != self.input[v].len() {
            if e + 1 == self.input[v].len() {
                let _ = self.input[v].pop();
            } else {
                let _ = self.input[v].remove(e);
            }
            assert(lines_of(&self.input) =~= lines.update(v as int, lines[v as int].remove(e as int)));
        } else if v + 1 != self.input.len() {
            let mut rest = self.input.remove(v + 1);
            self.input[v].append(&mut rest);
            assert(lines_of(&self.input) =~= join_with_previous(lines, v + 1));
        }
        self.saved = false;
    }

    /// Splits the line at the cursor and moves the cursor to the start of
    /// the new line.
    pub fn enter(&mut self)
        requires
            old(self).cursor_in_input(),
        ensures
            final(self).state() == enter_result(lines_of(&old(self).input), old(self).vert_cursor as int, old(self).edit_cursor as int),
            !final(self).saved,
            final(self).same_view(old(self)),
    {
        let ghost lines = lines_of(&self.input);
        let v = self.vert_cursor;
        assert(v < self.input.len());
        let line = self.input[v].split_off(self.edit_cursor);
        self.input.insert(v + 1, line);
        self.vert_cursor += 1;
        self.edit_cursor = 0;
        self.saved = false;
        assert(lines_of(&self.input) =~= split_at_cursor(lines, v as int, old(self).edit_cursor as int));
    }

    /// Moves the cursor one character back, to the end of the previous line
    /// from the start of a line.
    pub fn left(&mut self, target: Target)
        requires
            old(self).edit_cursor == 0 && old(self).vert_cursor != 0
                ==> old(self).vert_cursor - 1 < old(self).target_lines(target).len(),
        ensures
            (final(self).vert_cursor as int, final(self).edit_cursor as int)
                == left_result(old(self).target_lines(target), old(self).vert_cursor as int, old(self).edit_cursor as int),
            final(self).same_but_cursor(old(self)),
    {
        let target = match target {
            Target::View => &self.view,
            Target::Input => &self.input,
        };
        if self.edit_cursor != 0 {
            self.edit_cursor -= 1
        } else if self.vert_cursor != 0 {
            self.vert_cursor -= 1;
            self.edit_cursor = target[self.vert_cursor].len()
        }
    }

    /// Moves the cursor one character forward, to the start of the next line
    /// from the end of a line.
    pub fn right(&mut self, target: Target)
        requires
            old(self).vert_cursor < old(self).target_lines(target).len(),
        ensures
            (final(self).vert_cursor as int, final(self).edit_cursor as int)
                == right_result(old(self).target_lines(target), old(self).vert_cursor as int, old(self).edit_cursor as int),
            final(self).same_but_cursor(old(self)),
    {
        let target = match target {
            Target::View => &self.view,
            Target::Input => &self.input,
        };
        assert(self.vert_cursor < target.len());
        if self.edit_cursor < target[self.vert_cursor].len() {
            self.edit_cursor += 1
        } else if self.vert_cursor + 1 != target.len() {
            self.vert_cursor += 1;
            self.edit_cursor = 0
        }
    }

    /// Moves the cursor one line up; the column moves to the end of the new
    /// line when that line is shorter than the column plus two.
    pub fn up(&mut self, target: Target)
        requires
            old(self).vert_cursor != 0 ==> old(self).vert_cursor - 1 < old(self).target_lines(target).len(),
        ensures
            (final(self).vert_cursor as int, final(self).edit_cursor as int)
                == up_result(old(self).target_lines(target), old(self).vert_cursor as int, old(self).edit_cursor as int),
            final(self).same_but_cursor(old(self)),
    {
        let target = match target {
            Target::View => &self.view,
            Target::Input => &self.input,
        };
        if self.vert_cursor != 0 {
            self.vert_cursor -= 1;
            let len = target[self.vert_cursor].len();
            if len < 2 || len - 2 < self.edit_cursor {
                self.edit_cursor = len
            }
        }
    }

    /// Moves the cursor one line down; the column moves to the end of the new
    /// line when that line is shorter than the column plus two.
    pub fn down(&mut self, target: Target)
        ensures
            (final(self).vert_cursor as int, final(self).edit_cursor as int)
                == down_result(old(self).target_lines(target), old(self).vert_cursor as int, old(self).edit_cursor as int),
            final(self).same_but_cursor(old(self)),
    {
        let target = match target {
            Target::View => &self.view,
            Target::Input => &self.input,
        };
        if target.len() >= 2 && self.vert_cursor <= target.len() - 2 {
            self.vert_cursor += 1;
            let len = target[self.vert_cursor].len();
            if len < 2 || len - 2 < self.edit_cursor {
                self.edit_cursor = len
            }
        }
    }

    /// Inserts four spaces at the cursor and moves the cursor past them.
    pub fn tab(&mut self)
        requires
            old(self).cursor_in_input(),
        ensures
            final(self).state() == tab_result(lines_of(&old(self).input), old(self).vert_cursor as int, old(self).edit_cursor as int),
            !final(self).saved,
            final(self).same_view(old(self)),
    {
        let ghost lines = lines_of(&self.input);
        let v = self.vert_cursor;
        let e = self.edit_cursor;
        let ghost line = lines[v as int];
        for i in 0..4usize
            invariant
                v < self.input.len(),
                self.input@.len() == lines.len(),
                forall|j: int| 0 <= j < lines.len() && j != v ==> #[trigger] self.input@[j]@ == lines[j],
                self.input@[v as int]@ == line.subrange(0, e as int) + Seq::new(i as nat, |k: int| ' ')
                    + line.subrange(e as int, line.len() as int),
                e <= line.len(),
                self.view == old(self).view,
                self.view_info == old(self).view_info,
                self.vert_cursor == v,
                self.edit_cursor == e,
        {
            self.input[v].insert(e, ' ');
            assert(self.input@[v as int]@ =~= line.subrange(0, e as int) + Seq::new((i + 1) as nat, |k: int| ' ')
                + line.subrange(e as int, line.len() as int));
        }
        assert(self.input@[v as int].len() <= usize::MAX);
        self.edit_cursor += 4;
        self.saved = false;
        assert(Seq::new(4nat, |k: int| ' ') =~= seq![' ', ' ', ' ', ' ']);
        assert(lines_of(&self.input) =~= insert_text(lines, v as int, e as int, seq![' ', ' ', ' ', ' ']));
    }
}

} // verus!

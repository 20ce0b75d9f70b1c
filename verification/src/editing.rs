//! What the editing operations of a text block do to its text, read as one
//! sequence of characters with a newline between lines, and to the cursor's
//! offset in that text.
use vstd::prelude::*;

use crate::lines::{
    join_lines, lemma_after_step, lemma_before_depends_on_prefix, lemma_decompose, lemma_join_head,
    lemma_line_start_step, lemma_offset_bounds, lemma_replace_line, line_start, offset, text_after,
};
use crate::textblock::{
    backspace_result, delete_result, down_result, enter_result, insert_text, join_with_previous,
    left_result, right_result, split_at_cursor, tab_result, up_result, valid_pos, write_result,
};

verus! {

/// Putting `s` into line `v` at column `e` puts it into the text at the
/// cursor's offset.
pub proof fn lemma_insert_text(lines: Seq<Seq<char>>, v: int, e: int, s: Seq<char>)
    requires
        valid_pos(lines, v, e),
    ensures
        ({
            let t = join_lines(lines);
            let o = offset(lines, v, e);
            let n = insert_text(lines, v, e, s);
            &&& join_lines(n) == t.subrange(0, o) + s + t.subrange(o, t.len() as int)
            &&& offset(n, v, e + s.len()) == o + s.len()
            &&& valid_pos(n, v, e + s.len())
        }),
{
    let l = lines[v];
    let l2 = l.subrange(0, e) + s + l.subrange(e, l.len() as int);
    lemma_decompose(lines, v);
    lemma_replace_line(lines, v, l2);
    let t = join_lines(lines);
    let o = offset(lines, v, e);
    assert(join_lines(insert_text(lines, v, e, s)) =~= t.subrange(0, o) + s + t.subrange(o, t.len() as int));
}

/// Removing column `i` of line `v` removes the character at that offset.
pub proof fn lemma_remove_char(lines: Seq<Seq<char>>, v: int, i: int)
    requires
        0 <= v < lines.len(),
        0 <= i < lines[v].len(),
    ensures
        join_lines(lines.update(v, lines[v].remove(i))) == join_lines(lines).remove(offset(lines, v, i)),
        line_start(lines.update(v, lines[v].remove(i)), v) == line_start(lines, v),
{
    lemma_decompose(lines, v);
    lemma_replace_line(lines, v, lines[v].remove(i));
    assert(join_lines(lines.update(v, lines[v].remove(i))) =~= join_lines(lines).remove(offset(lines, v, i)));
}

/// Splitting line `v` at column `e` puts a newline into the text at the
/// cursor's offset.
pub proof fn lemma_split(lines: Seq<Seq<char>>, v: int, e: int)
    requires
        valid_pos(lines, v, e),
    ensures
        join_lines(split_at_cursor(lines, v, e)) == join_lines(lines).insert(offset(lines, v, e), '\n'),
        offset(split_at_cursor(lines, v, e), v + 1, 0) == offset(lines, v, e) + 1,
        valid_pos(split_at_cursor(lines, v, e), v + 1, 0),
{
    let l = lines[v];
    let n = split_at_cursor(lines, v, e);
    let rest = lines.subrange(v + 1, lines.len() as int);
    lemma_decompose(lines, v);
    lemma_decompose(n, v);
    assert(n.subrange(0, v) =~= lines.subrange(0, v));
    lemma_before_depends_on_prefix(n, lines, v);
    assert(n.subrange(v + 1, n.len() as int) =~= seq![l.subrange(e, l.len() as int)] + rest);
    lemma_join_head(l.subrange(e, l.len() as int), rest);
    if rest.len() > 0 {
        assert(text_after(lines, v) =~= seq!['\n'] + join_lines(rest));
    }
    assert(text_after(n, v) =~= seq!['\n'] + l.subrange(e, l.len() as int) + text_after(lines, v));
    assert(join_lines(n) =~= join_lines(lines).insert(offset(lines, v, e), '\n'));
    lemma_line_start_step(n, v);
}

/// Joining line `i` onto line `i - 1` removes the newline just before the
/// start of line `i`.
pub proof fn lemma_join(lines: Seq<Seq<char>>, i: int)
    requires
        0 < i < lines.len(),
    ensures
        join_lines(join_with_previous(lines, i)) == join_lines(lines).remove(offset(lines, i, 0) - 1),
        offset(join_with_previous(lines, i), i - 1, lines[i - 1].len() as int) == offset(lines, i, 0) - 1,
        valid_pos(join_with_previous(lines, i), i - 1, lines[i - 1].len() as int),
{
    let n = join_with_previous(lines, i);
    lemma_decompose(lines, i - 1);
    lemma_decompose(n, i - 1);
    assert(n.subrange(0, i - 1) =~= lines.subrange(0, i - 1));
    lemma_before_depends_on_prefix(n, lines, i - 1);
    assert(n.subrange(i, n.len() as int) =~= lines.subrange(i + 1, lines.len() as int));
    assert(text_after(n, i - 1) == text_after(lines, i));
    lemma_after_step(lines, i - 1);
    lemma_line_start_step(lines, i - 1);
    assert(join_lines(n) =~= join_lines(lines).remove(offset(lines, i, 0) - 1));
}

/// Typing a character inserts it into the text at the cursor's offset, and
/// the cursor moves past it.
pub proof fn law_write_inserts_at_cursor(lines: Seq<Seq<char>>, v: int, e: int, x: char)
    requires
        valid_pos(lines, v, e),
    ensures
        ({
            let (n, v2, e2) = write_result(lines, v, e, x);
            &&& join_lines(n) == join_lines(lines).insert(offset(lines, v, e), x)
            &&& offset(n, v2, e2) == offset(lines, v, e) + 1
            &&& valid_pos(n, v2, e2)
        }),
{
    lemma_insert_text(lines, v, e, seq![x]);
    lemma_offset_bounds(lines, v, e);
    let t = join_lines(lines);
    let o = offset(lines, v, e);
    assert(t.subrange(0, o) + seq![x] + t.subrange(o, t.len() as int) =~= t.insert(o, x));
}

/// A tab inserts four spaces into the text at the cursor's offset, and the
/// cursor moves past them.
pub proof fn law_tab_inserts_spaces_at_cursor(lines: Seq<Seq<char>>, v: int, e: int)
    requires
        valid_pos(lines, v, e),
    ensures
        ({
            let (n, v2, e2) = tab_result(lines, v, e);
            let t = join_lines(lines);
            let o = offset(lines, v, e);
            &&& join_lines(n) == t.subrange(0, o) + seq![' ', ' ', ' ', ' '] + t.subrange(o, t.len() as int)
            &&& offset(n, v2, e2) == o + 4
            &&& valid_pos(n, v2, e2)
        }),
{
    lemma_insert_text(lines, v, e, seq![' ', ' ', ' ', ' ']);
}

/// A line break inserts a newline into the text at the cursor's offset, and
/// the cursor moves past it.
pub proof fn law_enter_inserts_newline_at_cursor(lines: Seq<Seq<char>>, v: int, e: int)
    requires
        valid_pos(lines, v, e),
    ensures
        ({
            let (n, v2, e2) = enter_result(lines, v, e);
            &&& join_lines(n) == join_lines(lines).insert(offset(lines, v, e), '\n')
            &&& offset(n, v2, e2) == offset(lines, v, e) + 1
            &&& valid_pos(n, v2, e2)
        }),
{
    lemma_split(lines, v, e);
}

/// A backspace removes the character before the cursor's offset from the
/// text, and the cursor moves back onto its place; at the very start of the
/// text it changes nothing.
pub proof fn law_backspace_removes_before_cursor(lines: Seq<Seq<char>>, v: int, e: int)
    requires
        valid_pos(lines, v, e),
    ensures
        ({
            let (n, v2, e2) = backspace_result(lines, v, e);
            let o = offset(lines, v, e);
            if o > 0 {
                &&& join_lines(n) == join_lines(lines).remove(o - 1)
                &&& offset(n, v2, e2) == o - 1
                &&& valid_pos(n, v2, e2)
            } else {
                (n, v2, e2) == (lines, v, e)
            }
        }),
{
    lemma_offset_bounds(lines, v, e);
    if e != 0 {
        lemma_remove_char(lines, v, e - 1);
    } else if v != 0 {
        lemma_join(lines, v);
    }
}

/// A delete removes the character at the cursor's offset from the text, and
/// the cursor keeps its offset; at the very end of the text it changes
/// nothing.
pub proof fn law_delete_removes_at_cursor(lines: Seq<Seq<char>>, v: int, e: int)
    requires
        valid_pos(lines, v, e),
    ensures
        ({
            let n = delete_result(lines, v, e);
            let o = offset(lines, v, e);
            if o < join_lines(lines).len() {
                &&& join_lines(n) == join_lines(lines).remove(o)
                &&& offset(n, v, e) == o
                &&& valid_pos(n, v, e)
            } else {
                n == lines
            }
        }),
{
    lemma_offset_bounds(lines, v, e);
    if e != lines[v].len() {
        lemma_remove_char(lines, v, e);
    } else if v + 1 != lines.len() {
        lemma_join(lines, v + 1);
        lemma_line_start_step(lines, v);
    }
}

/// Moving left goes one offset back in the text, and not past its start.
pub proof fn law_left_steps_back(lines: Seq<Seq<char>>, v: int, e: int)
    requires
        valid_pos(lines, v, e),
    ensures
        ({
            let (v2, e2) = left_result(lines, v, e);
            let o = offset(lines, v, e);
            &&& valid_pos(lines, v2, e2)
            &&& offset(lines, v2, e2) == if o > 0 { o - 1 } else { o }
        }),
{
    lemma_offset_bounds(lines, v, e);
    if e == 0 && v != 0 {
        lemma_line_start_step(lines, v - 1);
    }
}

/// Moving right goes one offset forward in the text, and not past its end.
pub proof fn law_right_steps_forward(lines: Seq<Seq<char>>, v: int, e: int)
    requires
        valid_pos(lines, v, e),
    ensures
        ({
            let (v2, e2) = right_result(lines, v, e);
            let o = offset(lines, v, e);
            &&& valid_pos(lines, v2, e2)
            &&& offset(lines, v2, e2) == if o < join_lines(lines).len() { o + 1 } else { o }
        }),
{
    lemma_offset_bounds(lines, v, e);
    if e == lines[v].len() && v + 1 != lines.len() {
        lemma_line_start_step(lines, v);
    }
}

/// Moving up or down keeps the cursor on an existing line and within it.
pub proof fn law_vertical_moves_keep_cursor_valid(lines: Seq<Seq<char>>, v: int, e: int)
    requires
        valid_pos(lines, v, e),
    ensures
        ({
            let (v2, e2) = up_result(lines, v, e);
            valid_pos(lines, v2, e2)
        }),
        ({
            let (v2, e2) = down_result(lines, v, e);
            valid_pos(lines, v2, e2)
        }),
{
}

/// A backspace right after typing a character gives back the lines and the
/// cursor from before.
pub proof fn law_backspace_undoes_write(lines: Seq<Seq<char>>, v: int, e: int, x: char)
    requires
        valid_pos(lines, v, e),
    ensures
        ({
            let (n, v2, e2) = write_result(lines, v, e, x);
            backspace_result(n, v2, e2) == (lines, v, e)
        }),
{
    let (n, v2, e2) = write_result(lines, v, e, x);
    assert(n[v].remove(e) =~= lines[v]);
    assert(n.update(v, n[v].remove(e)) =~= lines);
}

/// A backspace right after a line break gives back the lines and the cursor
/// from before.
pub proof fn law_backspace_undoes_enter(lines: Seq<Seq<char>>, v: int, e: int)
    requires
        valid_pos(lines, v, e),
    ensures
        ({
            let (n, v2, e2) = enter_result(lines, v, e);
            backspace_result(n, v2, e2) == (lines, v, e)
        }),
{
    let (n, v2, e2) = enter_result(lines, v, e);
    let l = lines[v];
    assert(n[v] + n[v + 1] =~= l);
    assert(join_with_previous(n, v + 1) =~= lines);
}

/// Moving left and then right comes back to the same place, unless the
/// cursor stood at the very start.
pub proof fn law_right_undoes_left(lines: Seq<Seq<char>>, v: int, e: int)
    requires
        valid_pos(lines, v, e),
        !(v == 0 && e == 0),
    ensures
        ({
            let (v2, e2) = left_result(lines, v, e);
            right_result(lines, v2, e2) == (v, e)
        }),
{
}

/// Moving right and then left comes back to the same place, unless the
/// cursor stood at the very end.
pub proof fn law_left_undoes_right(lines: Seq<Seq<char>>, v: int, e: int)
    requires
        valid_pos(lines, v, e),
        !(v + 1 == lines.len() && e == lines[v].len()),
    ensures
        ({
            let (v2, e2) = right_result(lines, v, e);
            left_result(lines, v2, e2) == (v, e)
        }),
{
}

} // verus!

use vstd::prelude::*;

verus! {

/// The text of `lines`, with a newline between each two of them.
pub open spec fn join_lines(lines: Seq<Seq<char>>) -> Seq<char>
    decreases lines.len(),
{
    if lines.len() == 0 {
        Seq::empty()
    } else if lines.len() == 1 {
        lines[0]
    } else {
        lines[0] + seq!['\n'] + join_lines(lines.drop_first())
    }
}

/// The offset in `join_lines(lines)` at which line `v` starts.
pub open spec fn line_start(lines: Seq<Seq<char>>, v: int) -> int
    decreases v,
{
    if v <= 0 || lines.len() == 0 {
        0
    } else {
        lines[0].len() + 1 + line_start(lines.drop_first(), v - 1)
    }
}

/// The offset in `join_lines(lines)` of the cursor position `(v, e)`.
pub open spec fn offset(lines: Seq<Seq<char>>, v: int, e: int) -> int {
    line_start(lines, v) + e
}

/// The text before line `v`, the newline that ends it included.
pub open spec fn text_before(lines: Seq<Seq<char>>, v: int) -> Seq<char> {
    if v == 0 {
        Seq::empty()
    } else {
        join_lines(lines.subrange(0, v)) + seq!['\n']
    }
}

/// The text after line `v`, the newline that starts it included.
pub open spec fn text_after(lines: Seq<Seq<char>>, v: int) -> Seq<char> {
    if v + 1 == lines.len() {
        Seq::empty()
    } else {
        seq!['\n'] + join_lines(lines.subrange(v + 1, lines.len() as int))
    }
}

/// Line `v` stands between the text before it and the text after it, and the
/// text before it is as long as the offset at which the line starts.
pub proof fn lemma_decompose(lines: Seq<Seq<char>>, v: int)
    requires
        0 <= v < lines.len(),
    ensures
        join_lines(lines) == text_before(lines, v) + lines[v] + text_after(lines, v),
        text_before(lines, v).len() == line_start(lines, v),
    decreases v,
{
    let rest = lines.drop_first();
    if v == 0 {
        if lines.len() > 1 {
            assert(lines.subrange(1, lines.len() as int) =~= rest);
        }
        assert(join_lines(lines) =~= text_before(lines, v) + lines[v] + text_after(lines, v));
    } else {
        lemma_decompose(rest, v - 1);
        assert(rest.subrange(v, rest.len() as int) =~= lines.subrange(v + 1, lines.len() as int));
        assert(text_after(rest, v - 1) == text_after(lines, v));
        assert(rest[v - 1] == lines[v]);
        if v == 1 {
            assert(lines.subrange(0, 1) =~= seq![lines[0]]);
            assert(join_lines(lines) =~= text_before(lines, v) + lines[v] + text_after(lines, v));
        } else {
            let t = lines.subrange(0, v);
            assert(t.drop_first() =~= rest.subrange(0, v - 1));
            assert(join_lines(t) == t[0] + seq!['\n'] + join_lines(t.drop_first()));
            assert(join_lines(lines) =~= text_before(lines, v) + lines[v] + text_after(lines, v));
        }
    }
}

/// The text before line `v` depends only on the lines before `v`.
pub proof fn lemma_before_depends_on_prefix(a: Seq<Seq<char>>, b: Seq<Seq<char>>, v: int)
    requires
        0 <= v <= a.len(),
        v <= b.len(),
        a.subrange(0, v) == b.subrange(0, v),
    ensures
        text_before(a, v) == text_before(b, v),
        line_start(a, v) == line_start(b, v),
    decreases v,
{
    if v > 0 {
        assert(a[0] == a.subrange(0, v)[0]);
        assert(b[0] == b.subrange(0, v)[0]);
        assert(a.drop_first().subrange(0, v - 1) =~= a.subrange(0, v).drop_first());
        assert(b.drop_first().subrange(0, v - 1) =~= b.subrange(0, v).drop_first());
        lemma_before_depends_on_prefix(a.drop_first(), b.drop_first(), v - 1);
    }
}

/// The offset of a line's start is that of the previous line's start, plus
/// that line and its newline.
pub proof fn lemma_line_start_step(lines: Seq<Seq<char>>, v: int)
    requires
        0 <= v < lines.len(),
    ensures
        line_start(lines, v + 1) == line_start(lines, v) + lines[v].len() + 1,
    decreases v,
{
    if v > 0 {
        lemma_line_start_step(lines.drop_first(), v - 1);
    } else {
        assert(line_start(lines.drop_first(), 0) == 0);
    }
}

/// Replacing line `v` by `l` replaces it in the text, at the same offset.
pub proof fn lemma_replace_line(lines: Seq<Seq<char>>, v: int, l: Seq<char>)
    requires
        0 <= v < lines.len(),
    ensures
        join_lines(lines.update(v, l)) == text_before(lines, v) + l + text_after(lines, v),
        line_start(lines.update(v, l), v) == line_start(lines, v),
        text_before(lines.update(v, l), v) == text_before(lines, v),
        text_after(lines.update(v, l), v) == text_after(lines, v),
{
    let u = lines.update(v, l);
    lemma_decompose(u, v);
    lemma_decompose(lines, v);
    assert(u.subrange(0, v) =~= lines.subrange(0, v));
    assert(u.subrange(v + 1, u.len() as int) =~= lines.subrange(v + 1, lines.len() as int));
    lemma_before_depends_on_prefix(u, lines, v);
}

} // verus!

verus! {

/// The text of a line followed by more lines.
pub proof fn lemma_join_head(x: Seq<char>, rest: Seq<Seq<char>>)
    ensures
        join_lines(seq![x] + rest) == if rest.len() == 0 {
            x
        } else {
            x + seq!['\n'] + join_lines(rest)
        },
{
    let all = seq![x] + rest;
    assert(all[0] == x);
    if rest.len() > 0 {
        assert(all.drop_first() =~= rest);
    }
}

/// The text after line `v`, when a line follows it.
pub proof fn lemma_after_step(lines: Seq<Seq<char>>, v: int)
    requires
        0 <= v,
        v + 1 < lines.len(),
    ensures
        text_after(lines, v) == seq!['\n'] + lines[v + 1] + text_after(lines, v + 1),
{
    let rest = lines.subrange(v + 2, lines.len() as int);
    assert(lines.subrange(v + 1, lines.len() as int) =~= seq![lines[v + 1]] + rest);
    lemma_join_head(lines[v + 1], rest);
    assert(text_after(lines, v) =~= seq!['\n'] + lines[v + 1] + text_after(lines, v + 1));
}

/// A line starts at least one offset per line before it.
/// Lines further down start further on.
pub proof fn lemma_line_start_mono(lines: Seq<Seq<char>>, k: int, v: int)
    requires
        0 <= k <= v <= lines.len(),
    ensures
        line_start(lines, k) <= line_start(lines, v),
    decreases v - k,
{
    if k < v {
        lemma_line_start_step(lines, k);
        lemma_line_start_mono(lines, k + 1, v);
    }
}

pub proof fn lemma_line_start_lower(lines: Seq<Seq<char>>, v: int)
    requires
        0 <= v <= lines.len(),
    ensures
        line_start(lines, v) >= v,
    decreases v,
{
    if v > 0 {
        lemma_line_start_lower(lines.drop_first(), v - 1);
    }
}

/// Where a valid cursor position lies in the text: within it, at its start
/// exactly at the first position, at its end exactly at the last one.
pub proof fn lemma_offset_bounds(lines: Seq<Seq<char>>, v: int, e: int)
    requires
        0 <= v < lines.len(),
        0 <= e <= lines[v].len(),
    ensures
        0 <= offset(lines, v, e) <= join_lines(lines).len(),
        offset(lines, v, e) == 0 <==> (v == 0 && e == 0),
        offset(lines, v, e) == join_lines(lines).len() <==> (v + 1 == lines.len() && e == lines[v].len()),
{
    lemma_decompose(lines, v);
    lemma_line_start_lower(lines, v);
    if v + 1 < lines.len() {
        assert(text_after(lines, v).len() >= 1);
    }
}

} // verus!

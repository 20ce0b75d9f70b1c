//! Syntax highlighting: each character of the text gets a style, from
//! bracket nesting and from regular expressions, and the styled characters
//! are cut into lines.
use vstd::prelude::*;

use vstd::utf8::{is_ascii_chars, is_ascii_chars_encode_utf8};

use crate::search::{compile, find_matches, regex_matches, regex_valid, Pattern};
use crate::styling::{Color, Style, StyledChar, DIM, UNDERLINED};
use crate::text::{chars_of, ends_with, ends_with_exec, lemma_split_char_nonempty, split_char};
use crate::{CustomHighlight, Highlight, HighlightInstr, InclHighlight};

verus! {

/// The characters of `text`, each with `style`.
pub open spec fn styled(cs: Seq<char>, st: Style) -> Seq<StyledChar> {
    cs.map_values(|c: char| styled_char(c, st))
}

pub open spec fn styled_char(c: char, st: Style) -> StyledChar {
    StyledChar { content: c, style: st }
}

/// What `styled` holds at each position.
pub proof fn lemma_styled(cs: Seq<char>, st: Style)
    ensures
        styled(cs, st).len() == cs.len(),
        forall|i: int| 0 <= i < cs.len() ==> #[trigger] styled(cs, st)[i] == (StyledChar { content: cs[i], style: st }),
{
    let a = cs.map_values(|c: char| styled_char(c, st));
    assert(a.len() == cs.len());
    assert(forall|i: int| 0 <= i < cs.len() ==> a[i] == (StyledChar { content: cs[i], style: st }));
}

/// A character with a style.
pub fn styled_char_of(c: char, st: Style) -> (r: StyledChar)
    ensures
        r == styled_char(c, st),
{
    StyledChar { content: c, style: st }
}

/// The characters of `text`, each with `style`.
pub fn spans_of(s: &str, st: Style) -> (r: Vec<StyledChar>)
    ensures
        r@ == styled(s@, st),
{
    let v = chars_of(s);
    let mut r: Vec<StyledChar> = Vec::new();
    for i in 0..v.len()
        invariant
            v@ == s@,
            r@.len() == i,
            forall|k: int| 0 <= k < i ==> #[trigger] r@[k] == (StyledChar { content: v@[k], style: st }),
    {
        r.push(styled_char_of(v[i], st));
    }
    proof {
        lemma_styled(v@, st);
    }
    assert(r@ =~= styled(v@, st));
    r
}

/// The colour of a bracket at nesting depth `j` (from 1): the three bracket
/// colours in turn.
pub open spec fn bracket_color(j: int) -> Color {
    let k = (j - 1) % 3;
    if k == 0 {
        Color::Yellow
    } else if k == 1 {
        Color::Rgb(255, 123, 207)
    } else {
        Color::Rgb(73, 22, 255)
    }
}

/// The character `c` written as a string is `s`.
pub open spec fn is_char_str(s: Seq<char>, c: char) -> bool {
    s == seq![c]
}

/// One step of bracket colouring at position `i`, at depth `j`: an opening
/// bracket goes one deeper and takes that depth's colour; a closing bracket
/// takes the colour of its depth and goes one up, or, with nothing open, is
/// red.
pub open spec fn bracket_step(sp: Seq<StyledChar>, j: int, i: int, start: Seq<char>, end: Seq<char>) -> (Seq<StyledChar>, int) {
    let (sp1, j1) = if is_char_str(start, sp[i].content) {
        (sp.update(i, StyledChar { style: Style::plain().with_fg(bracket_color(j + 1)), ..sp[i] }), j + 1)
    } else {
        (sp, j)
    };
    if is_char_str(end, sp1[i].content) {
        if j1 <= 0 {
            (sp1.update(i, StyledChar { style: Style::plain().with_fg(Color::Rgb(255, 0, 0)), ..sp1[i] }), 0)
        } else {
            (sp1.update(i, StyledChar { style: Style::plain().with_fg(bracket_color(j1)), ..sp1[i] }), j1 - 1)
        }
    } else {
        (sp1, j1)
    }
}

/// The spans and the depth after colouring the first `k` positions.
pub open spec fn brackets_upto(sp: Seq<StyledChar>, start: Seq<char>, end: Seq<char>, k: int) -> (Seq<StyledChar>, int)
    decreases k,
{
    if k <= 0 {
        (sp, 0)
    } else {
        let (s1, j1) = brackets_upto(sp, start, end, k - 1);
        bracket_step(s1, j1, k - 1, start, end)
    }
}

proof fn lemma_brackets_upto_len(sp: Seq<StyledChar>, start: Seq<char>, end: Seq<char>, k: int)
    requires
        0 <= k <= sp.len(),
    ensures
        brackets_upto(sp, start, end, k).0.len() == sp.len(),
        0 <= brackets_upto(sp, start, end, k).1 <= k,
        forall|i: int| k <= i < sp.len() ==> #[trigger] brackets_upto(sp, start, end, k).0[i] == sp[i],
    decreases k,
{
    if k > 0 {
        lemma_brackets_upto_len(sp, start, end, k - 1);
    }
}

/// Colours the brackets `start` and `end` by their nesting depth.
pub fn color_brackets(spans: &mut Vec<StyledChar>, start: &str, end: &str)
    requires
        old(spans)@.len() <= isize::MAX,
    ensures
        final(spans)@ == brackets_upto(old(spans)@, start@, end@, old(spans)@.len() as int).0,
{
    let ghost sp0 = spans@;
    let sv = chars_of(start);
    let ev = chars_of(end);
    let start_one = sv.len() == 1;
    let end_one = ev.len() == 1;
    let mut i: usize = 0;
    let mut j: isize = 0;
    while i < spans.len()
        invariant
            sv@ == start@,
            ev@ == end@,
            start_one == (sv@.len() == 1),
            end_one == (ev@.len() == 1),
            i <= spans@.len(),
            spans@.len() == sp0.len(),
            sp0.len() <= isize::MAX,
            (spans@, j as int) == brackets_upto(sp0, start@, end@, i as int),
        decreases spans@.len() - i,
    {
        proof {
            lemma_brackets_upto_len(sp0, start@, end@, i as int);
        }
        let ghost pre = spans@;
        let c = spans[i].content;
        assert(c == pre[i as int].content);
        if start_one && sv[0] == c {
            assert(sv@ =~= seq![c]);
            j = j + 1;
            let k = ((j - 1) % 3) as usize;
            let color = if k == 0 { Color::Yellow } else if k == 1 { Color::Rgb(255, 123, 207) } else { Color::Rgb(73, 22, 255) };
            spans.set(i, StyledChar { content: c, style: Style::new().fg(color) });
        } else {
            assert(!is_char_str(start@, c));
        }
        let c2 = spans[i].content;
        if end_one && ev[0] == c2 {
            assert(ev@ =~= seq![c2]);
            if j <= 0 {
                spans.set(i, StyledChar { content: c2, style: Style::new().fg(Color::Rgb(255, 0, 0)) });
                j = 0;
            } else {
                let k = ((j - 1) % 3) as usize;
                let color = if k == 0 { Color::Yellow } else if k == 1 { Color::Rgb(255, 123, 207) } else { Color::Rgb(73, 22, 255) };
                spans.set(i, StyledChar { content: c2, style: Style::new().fg(color) });
                j = j - 1;
            }
        } else {
            assert(!is_char_str(end@, c2));
        }
        i = i + 1;
        assert(spans@ =~= brackets_upto(sp0, start@, end@, i as int).0);
    }
}

/// `sp` cut at each newline character, the newlines dropped.
pub open spec fn split_styled(sp: Seq<StyledChar>) -> Seq<Seq<StyledChar>>
    decreases sp.len(),
{
    if sp.len() == 0 {
        seq![Seq::empty()]
    } else {
        let p = split_styled(sp.drop_last());
        if sp.last().content == '\n' {
            p.push(Seq::empty())
        } else {
            p.update(p.len() - 1, p.last().push(sp.last()))
        }
    }
}

proof fn lemma_split_styled_nonempty(sp: Seq<StyledChar>)
    ensures
        split_styled(sp).len() >= 1,
    decreases sp.len(),
{
    if sp.len() > 0 {
        lemma_split_styled_nonempty(sp.drop_last());
    }
}

/// Cuts styled characters into lines at each newline.
pub fn text_from_spans(spans: Vec<StyledChar>) -> (lines: Vec<Vec<StyledChar>>)
    ensures
        lines@.map_values(|l: Vec<StyledChar>| l@) == split_styled(spans@),
{
    let mut out: Vec<Vec<StyledChar>> = Vec::new();
    let mut cur: Vec<StyledChar> = Vec::new();
    for i in 0..spans.len()
        invariant
            out@.map_values(|l: Vec<StyledChar>| l@).push(cur@) == split_styled(spans@.take(i as int)),
    {
        let ghost before = out@.map_values(|l: Vec<StyledChar>| l@).push(cur@);
        assert(spans@.take(i + 1).drop_last() =~= spans@.take(i as int));
        if spans[i].content == '\n' {
            out.push(cur);
            cur = Vec::new();
            assert(out@.map_values(|l: Vec<StyledChar>| l@).push(cur@) =~= before.push(Seq::empty()));
        } else {
            cur.push(spans[i]);
            assert(out@.map_values(|l: Vec<StyledChar>| l@).push(cur@) =~= before.update(
                before.len() - 1,
                before.last().push(spans@[i as int]),
            ));
        }
    }
    out.push(cur);
    assert(spans@.take(spans.len() as int) =~= spans@);
    out
}

/// A line without its final carriage return.
pub open spec fn strip_cr(l: Seq<char>) -> Seq<char> {
    if l.len() > 0 && l.last() == '\r' {
        l.drop_last()
    } else {
        l
    }
}

/// The lines of `s` as `str::lines` gives them: cut at each newline, a
/// carriage return before a newline dropped, and no empty line after a
/// final newline.
pub open spec fn text_lines(s: Seq<char>) -> Seq<Seq<char>> {
    let p = split_char(s, '\n');
    let init = p.drop_last().map_values(|l: Seq<char>| strip_cr(l));
    if p.last().len() == 0 {
        init
    } else {
        init.push(p.last())
    }
}

/// The first `m` characters of `l`, each in the plain style.
fn styled_prefix(l: &Vec<char>, m: usize) -> (r: Vec<StyledChar>)
    requires
        m <= l.len(),
    ensures
        r@ == styled(l@.take(m as int), Style::plain()),
{
    let mut r: Vec<StyledChar> = Vec::new();
    for k in 0..m
        invariant
            m <= l.len(),
            r@.len() == k,
            forall|q: int| 0 <= q < k ==> #[trigger] r@[q] == (StyledChar { content: l@[q], style: Style::plain() }),
    {
        r.push(styled_char_of(l[k], Style::new()));
    }
    proof {
        lemma_styled(l@.take(m as int), Style::plain());
    }
    assert(r@ =~= styled(l@.take(m as int), Style::plain()));
    r
}

/// The lines of `s`, each character in the plain style.
pub fn plain_text(s: &str) -> (lines: Vec<Vec<StyledChar>>)
    ensures
        lines@.len() == text_lines(s@).len(),
        forall|i: int| 0 <= i < lines@.len() ==> (#[trigger] lines@[i])@ == styled(text_lines(s@)[i], Style::plain()),
{
    let pieces = crate::text::split_chars(&chars_of(s), '\n');
    let ghost p = split_char(s@, '\n');
    proof {
        lemma_split_char_nonempty(s@, '\n');
    }
    assert(pieces@.len() == p.len());
    let mut out: Vec<Vec<StyledChar>> = Vec::new();
    let n = pieces.len();
    for i in 0..n - 1
        invariant
            n == pieces@.len(),
            n == p.len(),
            n >= 1,
            forall|k: int| 0 <= k < n ==> (#[trigger] pieces@[k])@ == p[k],
            out@.len() == i,
            forall|k: int| 0 <= k < i ==> (#[trigger] out@[k])@ == styled(strip_cr(p[k]), Style::plain()),
    {
        let l = &pieces[i];
        let mut m = l.len();
        if m > 0 && l[m - 1] == '\r' {
            m = m - 1;
        }
        assert(l@.take(m as int) =~= strip_cr(p[i as int]));
        let line = styled_prefix(l, m);
        out.push(line);
    }
    let last = &pieces[n - 1];
    if last.len() != 0 {
        let line = styled_prefix(last, last.len());
        assert(last@.take(last.len() as int) =~= last@);
        out.push(line);
    }
    out
}


/// `sp` with the positions from `a` up to `b` restyled with `st`.
pub open spec fn restyle(sp: Seq<StyledChar>, a: int, b: int, st: Style) -> Seq<StyledChar> {
    Seq::new(sp.len(), |i: int| if a <= i < b { styled_char(sp[i].content, st) } else { sp[i] })
}

/// `sp` with the positions of each match restyled with `st`, in order.
pub open spec fn apply_matches(sp: Seq<StyledChar>, ms: Seq<(usize, usize, Seq<char>)>, st: Style) -> Seq<StyledChar>
    decreases ms.len(),
{
    if ms.len() == 0 {
        sp
    } else {
        let m = ms.last();
        restyle(apply_matches(sp, ms.drop_last(), st), m.0 as int, m.1 as int, st)
    }
}

/// Every match ends within `n` positions.
pub open spec fn matches_fit(ms: Seq<(usize, usize, Seq<char>)>, n: int) -> bool {
    forall|k: int| 0 <= k < ms.len() ==> (#[trigger] ms[k]).1 <= n
}

proof fn lemma_restyle(sp: Seq<StyledChar>, a: int, b: int, st: Style)
    ensures
        restyle(sp, a, b, st).len() == sp.len(),
        forall|i: int| 0 <= i < sp.len() ==> #[trigger] restyle(sp, a, b, st)[i] == if a <= i < b {
            styled_char(sp[i].content, st)
        } else {
            sp[i]
        },
{
}

proof fn lemma_apply_matches_len(sp: Seq<StyledChar>, ms: Seq<(usize, usize, Seq<char>)>, st: Style)
    ensures
        apply_matches(sp, ms, st).len() == sp.len(),
    decreases ms.len(),
{
    if ms.len() > 0 {
        lemma_apply_matches_len(sp, ms.drop_last(), st);
        let m = ms.last();
        lemma_restyle(apply_matches(sp, ms.drop_last(), st), m.0 as int, m.1 as int, st);
    }
}

/// Restyles the positions of each match of `p` in `text` with `st`, when
/// they all lie within the spans; otherwise leaves the spans and says so.
pub fn color(spans: &mut Vec<StyledChar>, p: &Pattern, st: Style, text: &str) -> (fits: bool)
    ensures
        fits == matches_fit(regex_matches(p.source(), text@), old(spans)@.len() as int),
        fits ==> final(spans)@ == apply_matches(old(spans)@, regex_matches(p.source(), text@), st),
        !fits ==> final(spans)@ == old(spans)@,
        is_ascii_chars(text@) && old(spans)@.len() == text@.len() ==> fits,
{
    let ms = find_matches(p, text);
    let ghost msv = regex_matches(p.source(), text@);
    assert(ms@.len() == msv.len());
    let n = spans.len();
    proof {
        if is_ascii_chars(text@) && n == text@.len() {
            is_ascii_chars_encode_utf8(text@);
            assert forall|q: int| 0 <= q < msv.len() implies (#[trigger] msv[q]).1 <= n by {
                assert(msv[q] == regex_matches(p.source(), text@)[q]);
            }
        }
    }
    for k in 0..ms.len()
        invariant
            ms@.len() == msv.len(),
            msv == ms@.map_values(|m: (usize, usize, String)| (m.0, m.1, m.2@)),
            msv == regex_matches(p.source(), text@),
            n == spans@.len(),
            spans@ == old(spans)@,
            forall|q: int| 0 <= q < k ==> (#[trigger] msv[q]).1 <= n,
            is_ascii_chars(text@) && n == text@.len() ==> forall|q: int| 0 <= q < msv.len() ==> (#[trigger] msv[q]).1 <= n,
    {
        assert(msv[k as int].1 == ms@[k as int].1);
        if ms[k].1 > n {
            assert(!matches_fit(msv, n as int));
            return false;
        }
    }
    assert(matches_fit(msv, n as int));
    let ghost sp0 = spans@;
    for k in 0..ms.len()
        invariant
            ms@.len() == msv.len(),
            msv == ms@.map_values(|m: (usize, usize, String)| (m.0, m.1, m.2@)),
            n == spans@.len(),
            n == sp0.len(),
            matches_fit(msv, n as int),
            spans@ == apply_matches(sp0, msv.take(k as int), st),
    {
        let (a, b) = (ms[k].0, ms[k].1);
        assert(msv[k as int].0 == a && msv[k as int].1 == b);
        assert(msv.take(k + 1).drop_last() =~= msv.take(k as int));
        let ghost before = spans@;
        let mut i = a;
        while i < b
            invariant
                b <= n,
                n == spans@.len(),
                a <= i,
                i == a || i <= b,
                spans@.len() == before.len(),
                forall|q: int| 0 <= q < n ==> #[trigger] spans@[q] == if a <= q < i {
                    styled_char(before[q].content, st)
                } else {
                    before[q]
                },
            decreases b - i,
        {
            let ghost prev = spans@;
            let c = spans[i].content;
            assert(prev[i as int] == before[i as int]);
            spans.set(i, styled_char_of(c, st));
            assert(spans@ == prev.update(i as int, styled_char(c, st)));
            i = i + 1;
            assert forall|q: int| 0 <= q < n implies #[trigger] spans@[q] == if a <= q < i {
                styled_char(before[q].content, st)
            } else {
                before[q]
            } by {
                if q != i - 1 {
                    assert(spans@[q] == prev[q]);
                }
            }
        }
        proof {
            lemma_restyle(before, a as int, b as int, st);
        }
        assert forall|q: int| 0 <= q < n implies #[trigger] spans@[q] == restyle(before, a as int, b as int, st)[q] by {
            assert(a <= q < i <==> a <= q < b);
        }
        assert(spans@ =~= restyle(before, a as int, b as int, st));
    }
    assert(msv.take(ms.len() as int) =~= msv);
    true
}

/// One step of a highlighting: colour brackets, colour the matches of a
/// pattern, or nothing.
pub enum Step {
    Brackets(Seq<char>, Seq<char>),
    Rule(Seq<char>, Style),
    Skip,
}

/// The spans after the steps, in order, or nothing once a rule has a match
/// beyond the end of the spans.
pub open spec fn run_steps(text: Seq<char>, sp: Seq<StyledChar>, steps: Seq<Step>) -> Option<Seq<StyledChar>>
    decreases steps.len(),
{
    if steps.len() == 0 {
        Some(sp)
    } else {
        match run_steps(text, sp, steps.drop_last()) {
            None => None,
            Some(cur) => match steps.last() {
                Step::Brackets(s, e) => Some(brackets_upto(cur, s, e, cur.len() as int).0),
                Step::Rule(p, st) => if matches_fit(regex_matches(p, text), cur.len() as int) {
                    Some(apply_matches(cur, regex_matches(p, text), st))
                } else {
                    None
                },
                Step::Skip => Some(cur),
            },
        }
    }
}

proof fn lemma_run_steps_len(text: Seq<char>, sp: Seq<StyledChar>, steps: Seq<Step>)
    ensures
        run_steps(text, sp, steps) matches Some(r) ==> r.len() == sp.len(),
    decreases steps.len(),
{
    if steps.len() > 0 {
        lemma_run_steps_len(text, sp, steps.drop_last());
        match run_steps(text, sp, steps.drop_last()) {
            None => {},
            Some(cur) => match steps.last() {
                Step::Brackets(s, e) => {
                    lemma_brackets_upto_len(cur, s, e, cur.len() as int);
                },
                Step::Rule(p, st) => {
                    lemma_apply_matches_len(cur, regex_matches(p, text), st);
                },
                Step::Skip => {},
            },
        }
    }
}

/// The styled lines of a highlighting, if its steps all went through.
pub open spec fn highlighted(text: Seq<char>, base: Style, steps: Seq<Step>) -> Option<Seq<Seq<StyledChar>>> {
    match run_steps(text, styled(text, base), steps) {
        Some(sp) => Some(split_styled(sp)),
        None => None,
    }
}

/// The lines of `lines` as sequences.
pub open spec fn text_view(lines: Vec<Vec<StyledChar>>) -> Seq<Seq<StyledChar>> {
    lines@.map_values(|l: Vec<StyledChar>| l@)
}

/// The steps of a configured rule.
pub open spec fn instr_step(i: HighlightInstr) -> Step {
    match i {
        HighlightInstr::Regex(p, c) => Step::Rule(p.source(), Style::plain().with_fg(c)),
        HighlightInstr::Brackets(s, e) => Step::Brackets(s@, e@),
        HighlightInstr::Nothing => Step::Skip,
    }
}

/// The steps of a configured highlighting.
pub open spec fn custom_steps(instrs: Seq<HighlightInstr>) -> Seq<Step> {
    instrs.map_values(|i: HighlightInstr| instr_step(i))
}

/// Highlights `text` by configured rules, on white text; nothing when a rule
/// has a match beyond the text's characters (possible only where positions
/// in bytes and in characters differ).
pub fn custom_highlight(text: &str, instrs: &Vec<HighlightInstr>) -> (r: Option<Vec<Vec<StyledChar>>>)
    requires
        text@.len() <= isize::MAX,
    ensures
        match r {
            Some(lines) => highlighted(text@, Style::plain().with_fg(Color::White), custom_steps(instrs@)) == Some(text_view(lines)),
            None => highlighted(text@, Style::plain().with_fg(Color::White), custom_steps(instrs@)) is None,
        },
        is_ascii_chars(text@) ==> r is Some,
{
    let base = Style::new().fg(Color::White);
    let mut spans = spans_of(text, base);
    let ghost sp0 = spans@;
    let ghost steps = custom_steps(instrs@);
    for k in 0..instrs.len()
        invariant
            sp0 == styled(text@, base),
            base == Style::plain().with_fg(Color::White),
            steps == custom_steps(instrs@),
            steps.len() == instrs@.len(),
            text@.len() <= isize::MAX,
            run_steps(text@, sp0, steps.take(k as int)) == Some(spans@),
            spans@.len() == sp0.len(),
            sp0.len() == text@.len(),
    {
        proof {
            lemma_styled(text@, base);
        }
        assert(steps.take(k + 1).drop_last() =~= steps.take(k as int));
        assert(steps.take(k + 1).last() == instr_step(instrs@[k as int]));
        match &instrs[k] {
            HighlightInstr::Brackets(start, end) => {
                proof {
                    lemma_brackets_upto_len(spans@, start@, end@, spans@.len() as int);
                }
                color_brackets(&mut spans, start.as_str(), end.as_str());
            },
            HighlightInstr::Regex(p, col) => {
                let st = Style::new().fg(*col);
                let ghost cur = spans@;
                assert(instrs@[k as int] == HighlightInstr::Regex(*p, *col));
                assert(steps.take(k + 1).last() == Step::Rule(p.source(), st));
                if !color(&mut spans, p, st, text) {
                    assert(run_steps(text@, sp0, steps.take(k + 1)) is None);
                    proof {
                        lemma_none_stays(text@, sp0, steps, k as int + 1);
                    }
                    assert(base == Style::plain().with_fg(Color::White));
                    assert(highlighted(text@, base, steps) is None);
                    return None;
                }
                proof {
                    lemma_apply_matches_len(cur, regex_matches(p.source(), text@), st);
                }
            },
            HighlightInstr::Nothing => {},
        }
    }
    assert(steps.take(instrs.len() as int) =~= steps);
    Some(text_from_spans(spans))
}

/// Once the steps fail, more steps do not help.
proof fn lemma_none_stays(text: Seq<char>, sp: Seq<StyledChar>, steps: Seq<Step>, k: int)
    requires
        0 <= k <= steps.len(),
        run_steps(text, sp, steps.take(k)) is None,
    ensures
        run_steps(text, sp, steps) is None,
    decreases steps.len() - k,
{
    if k < steps.len() {
        assert(steps.take(k + 1).drop_last() =~= steps.take(k));
        lemma_none_stays(text, sp, steps, k + 1);
    } else {
        assert(steps.take(k) =~= steps);
    }
}


/// A rule of a built-in highlighting, compiled.
pub enum Rule {
    Brackets(String, String),
    Regex(Pattern, Style),
}

pub open spec fn rule_step(r: Rule) -> Step {
    match r {
        Rule::Brackets(s, e) => Step::Brackets(s@, e@),
        Rule::Regex(p, st) => Step::Rule(p.source(), st),
    }
}

/// Highlights `text` by compiled rules, from the base style.
fn run_rules(text: &str, base: Style, rules: &Vec<Rule>) -> (r: Option<Vec<Vec<StyledChar>>>)
    requires
        text@.len() <= isize::MAX,
    ensures
        match r {
            Some(lines) => highlighted(text@, base, rules@.map_values(|x: Rule| rule_step(x))) == Some(text_view(lines)),
            None => highlighted(text@, base, rules@.map_values(|x: Rule| rule_step(x))) is None,
        },
        is_ascii_chars(text@) ==> r is Some,
{
    let mut spans = spans_of(text, base);
    let ghost sp0 = spans@;
    let ghost steps = rules@.map_values(|x: Rule| rule_step(x));
    proof {
        lemma_styled(text@, base);
    }
    for k in 0..rules.len()
        invariant
            sp0 == styled(text@, base),
            steps == rules@.map_values(|x: Rule| rule_step(x)),
            steps.len() == rules@.len(),
            text@.len() <= isize::MAX,
            run_steps(text@, sp0, steps.take(k as int)) == Some(spans@),
            spans@.len() == sp0.len(),
            sp0.len() == text@.len(),
    {
        assert(steps.take(k + 1).drop_last() =~= steps.take(k as int));
        assert(steps.take(k + 1).last() == rule_step(rules@[k as int]));
        match &rules[k] {
            Rule::Brackets(start, end) => {
                proof {
                    lemma_brackets_upto_len(spans@, start@, end@, spans@.len() as int);
                }
                color_brackets(&mut spans, start.as_str(), end.as_str());
            },
            Rule::Regex(p, st) => {
                let ghost cur = spans@;
                if !color(&mut spans, p, *st, text) {
                    assert(run_steps(text@, sp0, steps.take(k + 1)) is None);
                    proof {
                        lemma_none_stays(text@, sp0, steps, k as int + 1);
                    }
                    return None;
                }
                proof {
                    lemma_apply_matches_len(cur, regex_matches(p.source(), text@), *st);
                }
            },
        }
    }
    assert(steps.take(rules.len() as int) =~= steps);
    Some(text_from_spans(spans))
}

pub const RUST_DECLARATIONS: &'static str = "(fn |pub |let [^=]+|use |impl |mod |static [^=]+|const [^=]+)";
pub const RUST_KEYWORDS: &'static str = "(loop |for |in |while |return |match |mut |if )";
pub const RUST_CALLS: &'static str = "([\\w\\-_!]+\\(|\\(|\\))";
pub const RUST_PATHS: &'static str = "([^ ]+::|[A-Z][a-z]+)";
pub const RUST_OPERATORS: &'static str = "(#(!)*\\[[^\\]]+\\]|!|\\?|;|&|(-|\\+|\\*|/)*=(>|<|=)*| >|< |\\+ |\\- |\\*| / |->)";
pub const DIGITS: &'static str = "\\d";
pub const STRINGS: &'static str = "[a-z]*\"[^(\\*\")]*\"";
pub const RUST_COMMENTS: &'static str = "(//[^\\n]+|/\\*[^(*/)]+\\*/)";
pub const JSON_COLONS: &'static str = ":";
pub const JSON_BOOLEANS: &'static str = "(true|false)";

/// The steps of the built-in Rust highlighting.
pub open spec fn rust_steps() -> Seq<Step> {
    seq![
        Step::Brackets("{"@, "}"@),
        Step::Rule(RUST_DECLARATIONS@, Style::plain().with_fg(Color::Rgb(0, 0, 200))),
        Step::Rule(RUST_KEYWORDS@, Style::plain().with_fg(Color::Rgb(173, 12, 170))),
        Step::Rule(RUST_CALLS@, Style::plain().with_fg(Color::Rgb(167, 125, 0))),
        Step::Rule(RUST_PATHS@, Style::plain().with_modifier(UNDERLINED).with_fg(Color::Yellow)),
        Step::Brackets("("@, ")"@),
        Step::Brackets("["@, "]"@),
        Step::Brackets("<"@, ">"@),
        Step::Rule(RUST_OPERATORS@, Style::plain().with_fg(Color::Rgb(156, 1, 10))),
        Step::Rule(DIGITS@, Style::plain().with_fg(Color::Rgb(223, 123, 123))),
        Step::Rule(STRINGS@, Style::plain().with_fg(Color::Rgb(2, 80, 0))),
        Step::Rule(RUST_COMMENTS@, Style::plain().with_modifier(DIM).with_fg(Color::DarkGray)),
    ]
}

/// All patterns of the built-in Rust highlighting compile.
pub open spec fn rust_patterns_valid() -> bool {
    &&& regex_valid(RUST_DECLARATIONS@)
    &&& regex_valid(RUST_KEYWORDS@)
    &&& regex_valid(RUST_CALLS@)
    &&& regex_valid(RUST_PATHS@)
    &&& regex_valid(RUST_OPERATORS@)
    &&& regex_valid(DIGITS@)
    &&& regex_valid(STRINGS@)
    &&& regex_valid(RUST_COMMENTS@)
}

/// The steps of the built-in JSON highlighting.
pub open spec fn json_steps() -> Seq<Step> {
    seq![
        Step::Brackets("{"@, "}"@),
        Step::Brackets("["@, "]"@),
        Step::Rule(JSON_COLONS@, Style::plain().with_fg(Color::Rgb(0, 0, 200))),
        Step::Rule(DIGITS@, Style::plain().with_fg(Color::Rgb(223, 123, 123))),
        Step::Rule(JSON_BOOLEANS@, Style::plain().with_fg(Color::LightMagenta)),
        Step::Rule(STRINGS@, Style::plain().with_fg(Color::Rgb(2, 80, 0))),
    ]
}

/// All patterns of the built-in JSON highlighting compile.
pub open spec fn json_patterns_valid() -> bool {
    &&& regex_valid(JSON_COLONS@)
    &&& regex_valid(DIGITS@)
    &&& regex_valid(JSON_BOOLEANS@)
    &&& regex_valid(STRINGS@)
}

/// What a built-in highlighting gives: nothing when one of its patterns
/// does not compile or a match lies beyond the text's characters.
pub open spec fn builtin_result(text: Seq<char>, valid: bool, steps: Seq<Step>) -> Option<Seq<Seq<StyledChar>>> {
    if valid {
        highlighted(text, Style::plain(), steps)
    } else {
        None
    }
}

fn push_regex(rules: &mut Vec<Rule>, pattern: &str, st: Style) -> (ok: bool)
    ensures
        ok == regex_valid(pattern@),
        ok ==> final(rules)@.map_values(|x: Rule| rule_step(x)) == old(rules)@.map_values(|x: Rule| rule_step(x)).push(Step::Rule(pattern@, st)),
{
    match compile(pattern) {
        Some(p) => {
            rules.push(Rule::Regex(p, st));
            assert(final(rules)@.map_values(|x: Rule| rule_step(x)) =~= old(rules)@.map_values(|x: Rule| rule_step(x)).push(Step::Rule(pattern@, st)));
            true
        },
        None => false,
    }
}

fn push_brackets(rules: &mut Vec<Rule>, start: &str, end: &str)
    ensures
        final(rules)@.map_values(|x: Rule| rule_step(x)) == old(rules)@.map_values(|x: Rule| rule_step(x)).push(Step::Brackets(start@, end@)),
{
    rules.push(Rule::Brackets(start.to_owned(), end.to_owned()));
    assert(final(rules)@.map_values(|x: Rule| rule_step(x)) =~= old(rules)@.map_values(|x: Rule| rule_step(x)).push(Step::Brackets(start@, end@)));
}

/// Highlights Rust code.
pub fn rust_highlight(text: &str) -> (r: Option<Vec<Vec<StyledChar>>>)
    requires
        text@.len() <= isize::MAX,
    ensures
        match r {
            Some(lines) => builtin_result(text@, rust_patterns_valid(), rust_steps()) == Some(text_view(lines)),
            None => builtin_result(text@, rust_patterns_valid(), rust_steps()) is None,
        },
        is_ascii_chars(text@) && rust_patterns_valid() ==> r is Some,
{
    let mut rules: Vec<Rule> = Vec::new();
    assert(rules@.map_values(|x: Rule| rule_step(x)) =~= Seq::<Step>::empty());
    push_brackets(&mut rules, "{", "}");
    if !push_regex(&mut rules, RUST_DECLARATIONS, Style::new().fg(Color::Rgb(0, 0, 200))) { return None; }
    if !push_regex(&mut rules, RUST_KEYWORDS, Style::new().fg(Color::Rgb(173, 12, 170))) { return None; }
    if !push_regex(&mut rules, RUST_CALLS, Style::new().fg(Color::Rgb(167, 125, 0))) { return None; }
    if !push_regex(&mut rules, RUST_PATHS, Style::new().add_modifier(UNDERLINED).fg(Color::Yellow)) { return None; }
    push_brackets(&mut rules, "(", ")");
    push_brackets(&mut rules, "[", "]");
    push_brackets(&mut rules, "<", ">");
    if !push_regex(&mut rules, RUST_OPERATORS, Style::new().fg(Color::Rgb(156, 1, 10))) { return None; }
    if !push_regex(&mut rules, DIGITS, Style::new().fg(Color::Rgb(223, 123, 123))) { return None; }
    if !push_regex(&mut rules, STRINGS, Style::new().fg(Color::Rgb(2, 80, 0))) { return None; }
    if !push_regex(&mut rules, RUST_COMMENTS, Style::new().add_modifier(DIM).fg(Color::DarkGray)) { return None; }
    assert(rules@.map_values(|x: Rule| rule_step(x)) =~= rust_steps());
    run_rules(text, Style::new(), &rules)
}

/// Highlights JSON.
pub fn json_highlight(text: &str) -> (r: Option<Vec<Vec<StyledChar>>>)
    requires
        text@.len() <= isize::MAX,
    ensures
        match r {
            Some(lines) => builtin_result(text@, json_patterns_valid(), json_steps()) == Some(text_view(lines)),
            None => builtin_result(text@, json_patterns_valid(), json_steps()) is None,
        },
        is_ascii_chars(text@) && json_patterns_valid() ==> r is Some,
{
    let mut rules: Vec<Rule> = Vec::new();
    assert(rules@.map_values(|x: Rule| rule_step(x)) =~= Seq::<Step>::empty());
    push_brackets(&mut rules, "{", "}");
    push_brackets(&mut rules, "[", "]");
    if !push_regex(&mut rules, JSON_COLONS, Style::new().fg(Color::Rgb(0, 0, 200))) { return None; }
    if !push_regex(&mut rules, DIGITS, Style::new().fg(Color::Rgb(223, 123, 123))) { return None; }
    if !push_regex(&mut rules, JSON_BOOLEANS, Style::new().fg(Color::LightMagenta)) { return None; }
    if !push_regex(&mut rules, STRINGS, Style::new().fg(Color::Rgb(2, 80, 0))) { return None; }
    assert(rules@.map_values(|x: Rule| rule_step(x)) =~= json_steps());
    run_rules(text, Style::new(), &rules)
}


/// The lines of `s`, each character in the plain style.
pub open spec fn plain_lines(s: Seq<char>) -> Seq<Seq<StyledChar>> {
    text_lines(s).map_values(|l: Seq<char>| styled(l, Style::plain()))
}

/// The highlighting of `text` for a file named `name`: the first entry of
/// the configuration whose suffix ends the name and that names a
/// highlighting decides; with none, the text's lines in the plain style.
pub open spec fn highlight_from(text: Seq<char>, conf: Seq<(String, Highlight)>, name: Seq<char>, k: int) -> Option<Seq<Seq<StyledChar>>>
    decreases conf.len() - k,
{
    if k < 0 || k >= conf.len() {
        Some(plain_lines(text))
    } else if ends_with(name, conf[k].0@) {
        match conf[k].1 {
            Highlight::Incl(InclHighlight::Json) => builtin_result(text, json_patterns_valid(), json_steps()),
            Highlight::Incl(InclHighlight::Rust) => builtin_result(text, rust_patterns_valid(), rust_steps()),
            Highlight::Cstm(c) => highlighted(text, Style::plain().with_fg(Color::White), custom_steps(c.0@)),
            Highlight::Nothing => highlight_from(text, conf, name, k + 1),
        }
    } else {
        highlight_from(text, conf, name, k + 1)
    }
}

/// Highlights `text` for a file named `name`; nothing where highlighting
/// fails (a built-in pattern that does not compile, or a match beyond the
/// text's characters).
pub fn highlight(text: &String, highlight_conf: &Vec<(String, Highlight)>, name: &String) -> (r: Option<Vec<Vec<StyledChar>>>)
    requires
        text@.len() <= isize::MAX,
    ensures
        match r {
            Some(lines) => highlight_from(text@, highlight_conf@, name@, 0) == Some(text_view(lines)),
            None => highlight_from(text@, highlight_conf@, name@, 0) is None,
        },
        is_ascii_chars(text@) && rust_patterns_valid() && json_patterns_valid() ==> r is Some,
{
    let nv = chars_of(name.as_str());
    for k in 0..highlight_conf.len()
        invariant
            nv@ == name@,
            text@.len() <= isize::MAX,
            highlight_from(text@, highlight_conf@, name@, 0) == highlight_from(text@, highlight_conf@, name@, k as int),
    {
        let entry = &highlight_conf[k];
        let suffix = chars_of(entry.0.as_str());
        if ends_with_exec(&nv, &suffix) {
            match &entry.1 {
                Highlight::Incl(InclHighlight::Json) => {
                    return json_highlight(text.as_str());
                },
                Highlight::Incl(InclHighlight::Rust) => {
                    return rust_highlight(text.as_str());
                },
                Highlight::Cstm(custom) => {
                    return custom_highlight(text.as_str(), &custom.0);
                },
                Highlight::Nothing => {},
            }
        }
    }
    let lines = plain_text(text.as_str());
    assert(text_view(lines) =~= plain_lines(text@));
    Some(lines)
}

/// Position `q` lies in the range of some match of `ms`.
pub open spec fn in_some_match(ms: Seq<(usize, usize, Seq<char>)>, q: int) -> bool {
    exists|j: int| 0 <= j < ms.len() && (#[trigger] ms[j]).0 <= q < ms[j].1
}

/// A step can change position `q`, which holds `c`: a rule where one of its
/// matches covers `q`, a bracket step where `c` is one of its brackets.
pub open spec fn step_touches(text: Seq<char>, step: Step, c: char, q: int) -> bool {
    match step {
        Step::Rule(p, _) => in_some_match(regex_matches(p, text), q),
        Step::Brackets(s, e) => is_char_str(s, c) || is_char_str(e, c),
        Step::Skip => false,
    }
}

proof fn lemma_brackets_keep(sp: Seq<StyledChar>, s: Seq<char>, e: Seq<char>, k: int)
    requires
        0 <= k <= sp.len(),
    ensures
        forall|i: int| 0 <= i < sp.len() ==> (#[trigger] brackets_upto(sp, s, e, k).0[i]).content == sp[i].content,
        forall|i: int|
            0 <= i < sp.len() && !is_char_str(s, sp[i].content) && !is_char_str(e, sp[i].content)
                ==> #[trigger] brackets_upto(sp, s, e, k).0[i] == sp[i],
    decreases k,
{
    lemma_brackets_upto_len(sp, s, e, k);
    if k > 0 {
        lemma_brackets_keep(sp, s, e, k - 1);
        lemma_brackets_upto_len(sp, s, e, k - 1);
    }
}

proof fn lemma_apply_matches_keep(sp: Seq<StyledChar>, ms: Seq<(usize, usize, Seq<char>)>, st: Style)
    ensures
        apply_matches(sp, ms, st).len() == sp.len(),
        forall|i: int| 0 <= i < sp.len() ==> (#[trigger] apply_matches(sp, ms, st)[i]).content == sp[i].content,
        forall|i: int| 0 <= i < sp.len() && !in_some_match(ms, i) ==> #[trigger] apply_matches(sp, ms, st)[i] == sp[i],
        forall|i: int| 0 <= i < sp.len() && in_some_match(ms, i) ==> #[trigger] apply_matches(sp, ms, st)[i] == styled_char(sp[i].content, st),
    decreases ms.len(),
{
    lemma_apply_matches_len(sp, ms, st);
    if ms.len() > 0 {
        let prev = ms.drop_last();
        lemma_apply_matches_keep(sp, prev, st);
        let cur = apply_matches(sp, prev, st);
        let m = ms.last();
        lemma_restyle(cur, m.0 as int, m.1 as int, st);
        assert forall|i: int| 0 <= i < sp.len() && !in_some_match(ms, i) implies #[trigger] apply_matches(sp, ms, st)[i] == sp[i] by {
            if in_some_match(prev, i) {
                let j = choose|j: int| 0 <= j < prev.len() && (#[trigger] prev[j]).0 <= i < prev[j].1;
                assert(ms[j] == prev[j]);
            }
            if m.0 <= i < m.1 {
                assert(ms[ms.len() - 1] == m);
            }
        }
        assert forall|i: int| 0 <= i < sp.len() && in_some_match(ms, i) implies #[trigger] apply_matches(sp, ms, st)[i] == styled_char(sp[i].content, st) by {
            let j = choose|j: int| 0 <= j < ms.len() && (#[trigger] ms[j]).0 <= i < ms[j].1;
            if !(m.0 <= i < m.1) {
                assert(j != ms.len() - 1);
                assert(prev[j] == ms[j]);
                assert(in_some_match(prev, i));
            }
        }
    }
}

/// Running steps one after the other is running them all.
proof fn lemma_run_steps_concat(text: Seq<char>, sp: Seq<StyledChar>, a: Seq<Step>, b: Seq<Step>)
    ensures
        run_steps(text, sp, a + b) == match run_steps(text, sp, a) {
            None => None,
            Some(c) => run_steps(text, c, b),
        },
    decreases b.len(),
{
    if b.len() == 0 {
        assert(a + b =~= a);
    } else {
        assert((a + b).drop_last() =~= a + b.drop_last());
        assert((a + b).last() == b.last());
        lemma_run_steps_concat(text, sp, a, b.drop_last());
        if run_steps(text, sp, a) is None {
            lemma_none_stays(text, sp, a + b, a.len() as int + b.len() - 1);
        }
    }
}

/// Steps keep every character, and leave alone a position that none of
/// them touches.
proof fn lemma_run_steps_keep(text: Seq<char>, sp: Seq<StyledChar>, steps: Seq<Step>, q: int)
    requires
        run_steps(text, sp, steps) is Some,
        0 <= q < sp.len(),
    ensures
        run_steps(text, sp, steps)->0.len() == sp.len(),
        forall|i: int| 0 <= i < sp.len() ==> (#[trigger] run_steps(text, sp, steps)->0[i]).content == sp[i].content,
        (forall|k: int| 0 <= k < steps.len() ==> !step_touches(text, #[trigger] steps[k], sp[q].content, q))
            ==> run_steps(text, sp, steps)->0[q] == sp[q],
    decreases steps.len(),
{
    lemma_run_steps_len(text, sp, steps);
    if steps.len() > 0 {
        let prev = steps.drop_last();
        lemma_run_steps_keep(text, sp, prev, q);
        lemma_run_steps_len(text, sp, prev);
        let cur = run_steps(text, sp, prev)->0;
        match steps.last() {
            Step::Brackets(s, e) => {
                lemma_brackets_keep(cur, s, e, cur.len() as int);
            },
            Step::Rule(p, st) => {
                lemma_apply_matches_keep(cur, regex_matches(p, text), st);
            },
            Step::Skip => {},
        }
        if forall|k: int| 0 <= k < steps.len() ==> !step_touches(text, #[trigger] steps[k], sp[q].content, q) {
            assert forall|k: int| 0 <= k < prev.len() implies !step_touches(text, #[trigger] prev[k], sp[q].content, q) by {
                assert(prev[k] == steps[k]);
            }
            assert(!step_touches(text, steps[steps.len() - 1], sp[q].content, q));
        }
    }
}

/// The Rust highlighting colours a control keyword (`loop`, `for`, `in`,
/// `while`, `return`, `match`, `mut`, `if`, each with the space after it)
/// in the keyword colour, wherever no later rule of it (calls, paths,
/// operators, digits, strings, comments) matches and the character is not
/// a round, square or angle bracket.
pub proof fn law_rust_keywords_coloured(text: Seq<char>, q: int)
    requires
        0 <= q < text.len(),
        run_steps(text, styled(text, Style::plain()), rust_steps()) is Some,
        in_some_match(regex_matches(RUST_KEYWORDS@, text), q),
        !in_some_match(regex_matches(RUST_CALLS@, text), q),
        !in_some_match(regex_matches(RUST_PATHS@, text), q),
        !in_some_match(regex_matches(RUST_OPERATORS@, text), q),
        !in_some_match(regex_matches(DIGITS@, text), q),
        !in_some_match(regex_matches(STRINGS@, text), q),
        !in_some_match(regex_matches(RUST_COMMENTS@, text), q),
        text[q] != '(' && text[q] != ')' && text[q] != '[' && text[q] != ']' && text[q] != '<' && text[q] != '>',
    ensures
        run_steps(text, styled(text, Style::plain()), rust_steps())->0[q] == styled_char(
            text[q],
            Style::plain().with_fg(Color::Rgb(173, 12, 170)),
        ),
{
    let sp0 = styled(text, Style::plain());
    lemma_styled(text, Style::plain());
    let steps = rust_steps();
    let pre = steps.take(3);
    let post = steps.skip(3);
    assert(steps =~= pre + post);
    lemma_run_steps_concat(text, sp0, pre, post);
    let two = pre.drop_last();
    assert(two =~= steps.take(2));
    assert(pre.last() == Step::Rule(RUST_KEYWORDS@, Style::plain().with_fg(Color::Rgb(173, 12, 170))));
    let c2 = run_steps(text, sp0, two)->0;
    lemma_run_steps_keep(text, sp0, two, q);
    let kw = regex_matches(RUST_KEYWORDS@, text);
    let kst = Style::plain().with_fg(Color::Rgb(173, 12, 170));
    lemma_apply_matches_keep(c2, kw, kst);
    let c3 = run_steps(text, sp0, pre)->0;
    assert(c3 == apply_matches(c2, kw, kst));
    assert(c3[q] == styled_char(text[q], kst));
    reveal_strlit("(");
    reveal_strlit(")");
    reveal_strlit("[");
    reveal_strlit("]");
    reveal_strlit("<");
    reveal_strlit(">");
    assert forall|k: int| 0 <= k < post.len() implies !step_touches(text, #[trigger] post[k], c3[q].content, q) by {
        assert(post[k] == steps[k + 3]);
        if k == 2 || k == 3 || k == 4 {
            let c = c3[q].content;
            if is_char_str("("@, c) { assert(seq![c][0] == "("@[0]); }
            if is_char_str(")"@, c) { assert(seq![c][0] == ")"@[0]); }
            if is_char_str("["@, c) { assert(seq![c][0] == "["@[0]); }
            if is_char_str("]"@, c) { assert(seq![c][0] == "]"@[0]); }
            if is_char_str("<"@, c) { assert(seq![c][0] == "<"@[0]); }
            if is_char_str(">"@, c) { assert(seq![c][0] == ">"@[0]); }
        }
    }
    lemma_run_steps_len(text, sp0, pre);
    lemma_run_steps_keep(text, c3, post, q);
}

/// A rule colours every position of its matches that no later step
/// touches.
proof fn lemma_rule_wins(text: Seq<char>, sp: Seq<StyledChar>, steps: Seq<Step>, i: int, p: Seq<char>, st: Style, q: int)
    requires
        run_steps(text, sp, steps) is Some,
        0 <= i < steps.len(),
        steps[i] == Step::Rule(p, st),
        0 <= q < sp.len(),
        in_some_match(regex_matches(p, text), q),
        forall|k: int| i < k < steps.len() ==> !step_touches(text, #[trigger] steps[k], sp[q].content, q),
    ensures
        run_steps(text, sp, steps)->0[q] == styled_char(sp[q].content, st),
{
    let pre = steps.take(i + 1);
    let post = steps.skip(i + 1);
    assert(steps =~= pre + post);
    lemma_run_steps_concat(text, sp, pre, post);
    assert(pre.drop_last() =~= steps.take(i));
    assert(pre.last() == Step::Rule(p, st));
    let before = steps.take(i);
    lemma_run_steps_concat(text, sp, pre, post);
    if run_steps(text, sp, pre) is None {
        assert(false);
    }
    assert(run_steps(text, sp, before) is Some);
    let c1 = run_steps(text, sp, before)->0;
    lemma_run_steps_keep(text, sp, before, q);
    lemma_apply_matches_keep(c1, regex_matches(p, text), st);
    let c2 = run_steps(text, sp, pre)->0;
    assert(c2 == apply_matches(c1, regex_matches(p, text), st));
    assert(c2[q] == styled_char(sp[q].content, st));
    assert forall|k: int| 0 <= k < post.len() implies !step_touches(text, #[trigger] post[k], c2[q].content, q) by {
        assert(post[k] == steps[k + i + 1]);
    }
    lemma_run_steps_len(text, sp, pre);
    lemma_run_steps_keep(text, c2, post, q);
}

/// Character `c` is not one of `s`, `e` taken as one-character brackets.
pub open spec fn not_bracket(c: char, s: Seq<char>, e: Seq<char>) -> bool {
    !is_char_str(s, c) && !is_char_str(e, c)
}

proof fn lemma_not_bracket(c: char)
    requires
        c != '(' && c != ')' && c != '[' && c != ']' && c != '<' && c != '>',
    ensures
        not_bracket(c, "("@, ")"@),
        not_bracket(c, "["@, "]"@),
        not_bracket(c, "<"@, ">"@),
{
    reveal_strlit("(");
    reveal_strlit(")");
    reveal_strlit("[");
    reveal_strlit("]");
    reveal_strlit("<");
    reveal_strlit(">");
    if is_char_str("("@, c) { assert(seq![c][0] == "("@[0]); }
    if is_char_str(")"@, c) { assert(seq![c][0] == ")"@[0]); }
    if is_char_str("["@, c) { assert(seq![c][0] == "["@[0]); }
    if is_char_str("]"@, c) { assert(seq![c][0] == "]"@[0]); }
    if is_char_str("<"@, c) { assert(seq![c][0] == "<"@[0]); }
    if is_char_str(">"@, c) { assert(seq![c][0] == ">"@[0]); }
}

/// The Rust highlighting applies each of its rules in order, each
/// overriding the ones before it: a position in a match of a rule takes
/// that rule's colour unless a later rule matches there (or, for the rules
/// before the round, square and angle brackets, the character is one of
/// them). Declarations are dark blue, control keywords purple, calls
/// ochre, paths yellow and underlined, operators dark red, digits pink,
/// strings green, comments dim grey.
pub proof fn law_rust_rules_in_order(text: Seq<char>, q: int)
    requires
        0 <= q < text.len(),
        run_steps(text, styled(text, Style::plain()), rust_steps()) is Some,
    ensures
        ({
            let r = run_steps(text, styled(text, Style::plain()), rust_steps())->0;
            let c = text[q];
            let m = |p: Seq<char>| in_some_match(regex_matches(p, text), q);
            let br = c != '(' && c != ')' && c != '[' && c != ']' && c != '<' && c != '>';
            &&& m(RUST_COMMENTS@) ==> r[q] == styled_char(c, Style::plain().with_modifier(DIM).with_fg(Color::DarkGray))
            &&& m(STRINGS@) && !m(RUST_COMMENTS@) ==> r[q] == styled_char(c, Style::plain().with_fg(Color::Rgb(2, 80, 0)))
            &&& m(DIGITS@) && !m(STRINGS@) && !m(RUST_COMMENTS@) ==> r[q] == styled_char(
                c,
                Style::plain().with_fg(Color::Rgb(223, 123, 123)),
            )
            &&& m(RUST_OPERATORS@) && !m(DIGITS@) && !m(STRINGS@) && !m(RUST_COMMENTS@) ==> r[q] == styled_char(
                c,
                Style::plain().with_fg(Color::Rgb(156, 1, 10)),
            )
            &&& m(RUST_PATHS@) && br && !m(RUST_OPERATORS@) && !m(DIGITS@) && !m(STRINGS@) && !m(RUST_COMMENTS@)
                ==> r[q] == styled_char(c, Style::plain().with_modifier(UNDERLINED).with_fg(Color::Yellow))
            &&& m(RUST_CALLS@) && br && !m(RUST_PATHS@) && !m(RUST_OPERATORS@) && !m(DIGITS@) && !m(STRINGS@)
                && !m(RUST_COMMENTS@) ==> r[q] == styled_char(c, Style::plain().with_fg(Color::Rgb(167, 125, 0)))
            &&& m(RUST_KEYWORDS@) && br && !m(RUST_CALLS@) && !m(RUST_PATHS@) && !m(RUST_OPERATORS@) && !m(DIGITS@)
                && !m(STRINGS@) && !m(RUST_COMMENTS@) ==> r[q] == styled_char(
                c,
                Style::plain().with_fg(Color::Rgb(173, 12, 170)),
            )
            &&& m(RUST_DECLARATIONS@) && br && !m(RUST_KEYWORDS@) && !m(RUST_CALLS@) && !m(RUST_PATHS@) && !m(
                RUST_OPERATORS@,
            ) && !m(DIGITS@) && !m(STRINGS@) && !m(RUST_COMMENTS@) ==> r[q] == styled_char(
                c,
                Style::plain().with_fg(Color::Rgb(0, 0, 200)),
            )
        }),
{
    let sp = styled(text, Style::plain());
    lemma_styled(text, Style::plain());
    let steps = rust_steps();
    let c = text[q];
    assert(sp[q].content == c);
    if c != '(' && c != ')' && c != '[' && c != ']' && c != '<' && c != '>' {
        lemma_not_bracket(c);
    }
    let m = |p: Seq<char>| in_some_match(regex_matches(p, text), q);
    if m(RUST_COMMENTS@) {
        lemma_rule_wins(text, sp, steps, 11, RUST_COMMENTS@, Style::plain().with_modifier(DIM).with_fg(Color::DarkGray), q);
    }
    if m(STRINGS@) && !m(RUST_COMMENTS@) {
        lemma_rule_wins(text, sp, steps, 10, STRINGS@, Style::plain().with_fg(Color::Rgb(2, 80, 0)), q);
    }
    if m(DIGITS@) && !m(STRINGS@) && !m(RUST_COMMENTS@) {
        lemma_rule_wins(text, sp, steps, 9, DIGITS@, Style::plain().with_fg(Color::Rgb(223, 123, 123)), q);
    }
    if m(RUST_OPERATORS@) && !m(DIGITS@) && !m(STRINGS@) && !m(RUST_COMMENTS@) {
        lemma_rule_wins(text, sp, steps, 8, RUST_OPERATORS@, Style::plain().with_fg(Color::Rgb(156, 1, 10)), q);
    }
    let br = c != '(' && c != ')' && c != '[' && c != ']' && c != '<' && c != '>';
    if br && !m(RUST_OPERATORS@) && !m(DIGITS@) && !m(STRINGS@) && !m(RUST_COMMENTS@) {
        if m(RUST_PATHS@) {
            lemma_rule_wins(text, sp, steps, 4, RUST_PATHS@, Style::plain().with_modifier(UNDERLINED).with_fg(Color::Yellow), q);
        }
        if !m(RUST_PATHS@) {
            if m(RUST_CALLS@) {
                lemma_rule_wins(text, sp, steps, 3, RUST_CALLS@, Style::plain().with_fg(Color::Rgb(167, 125, 0)), q);
            }
            if !m(RUST_CALLS@) {
                if m(RUST_KEYWORDS@) {
                    lemma_rule_wins(text, sp, steps, 2, RUST_KEYWORDS@, Style::plain().with_fg(Color::Rgb(173, 12, 170)), q);
                }
                if !m(RUST_KEYWORDS@) && m(RUST_DECLARATIONS@) {
                    lemma_rule_wins(text, sp, steps, 1, RUST_DECLARATIONS@, Style::plain().with_fg(Color::Rgb(0, 0, 200)), q);
                }
            }
        }
    }
}

/// The JSON highlighting applies each of its rules in order, each
/// overriding the ones before it: colons dark blue, digits pink, `true` and
/// `false` light magenta, strings green.
pub proof fn law_json_rules_in_order(text: Seq<char>, q: int)
    requires
        0 <= q < text.len(),
        run_steps(text, styled(text, Style::plain()), json_steps()) is Some,
    ensures
        ({
            let r = run_steps(text, styled(text, Style::plain()), json_steps())->0;
            let c = text[q];
            let m = |p: Seq<char>| in_some_match(regex_matches(p, text), q);
            &&& m(STRINGS@) ==> r[q] == styled_char(c, Style::plain().with_fg(Color::Rgb(2, 80, 0)))
            &&& m(JSON_BOOLEANS@) && !m(STRINGS@) ==> r[q] == styled_char(c, Style::plain().with_fg(Color::LightMagenta))
            &&& m(DIGITS@) && !m(JSON_BOOLEANS@) && !m(STRINGS@) ==> r[q] == styled_char(
                c,
                Style::plain().with_fg(Color::Rgb(223, 123, 123)),
            )
            &&& m(JSON_COLONS@) && !m(DIGITS@) && !m(JSON_BOOLEANS@) && !m(STRINGS@) ==> r[q] == styled_char(
                c,
                Style::plain().with_fg(Color::Rgb(0, 0, 200)),
            )
        }),
{
    let sp = styled(text, Style::plain());
    lemma_styled(text, Style::plain());
    let steps = json_steps();
    let c = text[q];
    assert(sp[q].content == c);
    let m = |p: Seq<char>| in_some_match(regex_matches(p, text), q);
    if m(STRINGS@) {
        lemma_rule_wins(text, sp, steps, 5, STRINGS@, Style::plain().with_fg(Color::Rgb(2, 80, 0)), q);
    }
    if m(JSON_BOOLEANS@) && !m(STRINGS@) {
        lemma_rule_wins(text, sp, steps, 4, JSON_BOOLEANS@, Style::plain().with_fg(Color::LightMagenta), q);
    }
    if m(DIGITS@) && !m(JSON_BOOLEANS@) && !m(STRINGS@) {
        lemma_rule_wins(text, sp, steps, 3, DIGITS@, Style::plain().with_fg(Color::Rgb(223, 123, 123)), q);
    }
    if m(JSON_COLONS@) && !m(DIGITS@) && !m(JSON_BOOLEANS@) && !m(STRINGS@) {
        lemma_rule_wins(text, sp, steps, 2, JSON_COLONS@, Style::plain().with_fg(Color::Rgb(0, 0, 200)), q);
    }
}

} // verus!

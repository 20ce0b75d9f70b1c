//! The view of a text: the places where a link to a web address or to a
//! file of the opened folder stands, how they are shown, and what choosing
//! one does.
use vstd::prelude::*;

use vstd::utf8::encode_utf8;

use crate::highlight::{spans_of, styled, text_from_spans, text_view, split_styled, lemma_styled, styled_char_of, styled_char};
use crate::lines::{line_start, lemma_line_start_mono, lemma_line_start_step};
use crate::search::{
    build_searcher, compile, find_bytes, find_matches, lemma_find_bytes, occurrences, regex_matches, regex_valid, searcher_builds,
    searcher_ranges,
};
use crate::styling::{Color, Style, StyledChar, UNDERLINED};
use crate::text::{chars_of, contains_exec, contains_seq, join_sep, join_strings, string_of, strings_of};
use crate::bytes::{byte_len, str_byte_len};
use crate::session::opt_view;
use crate::textblock::{lines_of, TextBlock};

verus! {

/// What a position of the view text links to.
pub enum ViewRule {
    Url(String),
    File(String),
}

/// A link, as mathematical values.
pub enum RuleView {
    Url(Seq<char>),
    File(Seq<char>),
}

pub open spec fn rule_view(r: ViewRule) -> RuleView {
    match r {
        ViewRule::Url(u) => RuleView::Url(u@),
        ViewRule::File(f) => RuleView::File(f@),
    }
}

pub open spec fn info_view(info: Seq<(usize, ViewRule)>) -> Seq<(usize, RuleView)> {
    info.map_values(|e: (usize, ViewRule)| (e.0, rule_view(e.1)))
}

/// The pattern of a web address.
pub const URL_PATTERN: &'static str = "(http(s)?://.)?(www\\.)?[-a-zA-Z0-9@:%._\\+~#=]{2,256}\\.[a-z]{2,6}\\b([-a-zA-Z0-9@:%_\\+.~#?&//=]*)";

/// Each position from `a` up to `b`, with the link `r`.
pub open spec fn range_entries(a: int, b: int, r: RuleView) -> Seq<(usize, RuleView)> {
    Seq::new(if a <= b { (b - a) as nat } else { 0 }, |k: int| ((a + k) as usize, r))
}

/// The positions of all the ranges, each with the link `r`.
pub open spec fn ranges_entries(rs: Seq<(usize, usize)>, r: RuleView) -> Seq<(usize, RuleView)>
    decreases rs.len(),
{
    if rs.len() == 0 {
        Seq::empty()
    } else {
        ranges_entries(rs.drop_last(), r) + range_entries(rs.last().0 as int, rs.last().1 as int, r)
    }
}

/// The links to the first `k` files of the folder, where their names stand
/// in the text (positions in bytes of its UTF-8 encoding).
pub open spec fn file_entries(folder: Seq<Seq<char>>, hay: Seq<char>, k: int) -> Seq<(usize, RuleView)>
    decreases k,
{
    if k <= 0 {
        Seq::empty()
    } else {
        let f = folder[k - 1];
        file_entries(folder, hay, k - 1) + if f.len() > 0 {
            ranges_entries(occurrences(encode_utf8(hay), encode_utf8(f), 0), RuleView::File(f))
        } else {
            Seq::empty()
        }
    }
}

/// Some link stands at position `i`.
pub open spec fn has_position(info: Seq<(usize, RuleView)>, i: int) -> bool {
    exists|k: int| 0 <= k < info.len() && (#[trigger] info[k]).0 == i
}

/// `info` with a link to `u` at each position from `a` up to `b` that has
/// no link yet.
pub open spec fn add_url_range(info: Seq<(usize, RuleView)>, a: int, b: int, u: Seq<char>) -> Seq<(usize, RuleView)>
    decreases b - a,
{
    if b <= a {
        info
    } else {
        let prev = add_url_range(info, a, b - 1, u);
        if has_position(prev, b - 1) {
            prev
        } else {
            prev.push(((b - 1) as usize, RuleView::Url(u)))
        }
    }
}

/// `info` with the links of the first `k` web addresses found.
pub open spec fn add_urls(info: Seq<(usize, RuleView)>, ms: Seq<(usize, usize, Seq<char>)>, k: int) -> Seq<(usize, RuleView)>
    decreases k,
{
    if k <= 0 {
        info
    } else {
        let m = ms[k - 1];
        add_url_range(add_urls(info, ms, k - 1), m.0 as int, m.1 as int, m.2)
    }
}

/// The links of the view of `lines`: first the files of the folder, in the
/// folder's order, then the web addresses at positions still free.
pub open spec fn view_info_spec(lines: Seq<Seq<char>>, folder: Seq<Seq<char>>) -> Seq<(usize, RuleView)> {
    let hay = join_sep(lines, "\n"@);
    let ms = regex_matches(URL_PATTERN@, hay);
    add_urls(file_entries(folder, hay, folder.len() as int), ms, ms.len() as int)
}

/// The searches that finding the links needs can be built.
pub open spec fn view_searches_build(folder: Seq<Seq<char>>) -> bool {
    &&& regex_valid(URL_PATTERN@)
    &&& forall|i: int| 0 <= i < folder.len() ==> searcher_builds(#[trigger] folder[i])
}

/// A web address link stands only where no earlier link stands.
pub open spec fn urls_at_free_positions(info: Seq<(usize, RuleView)>) -> bool {
    forall|j: int, k: int|
        0 <= j < k < info.len() && (#[trigger] info[k]).1 is Url ==> (#[trigger] info[j]).0 != info[k].0
}

proof fn lemma_ranges_entries_rule(rs: Seq<(usize, usize)>, r: RuleView)
    ensures
        forall|i: int| 0 <= i < ranges_entries(rs, r).len() ==> (#[trigger] ranges_entries(rs, r)[i]).1 == r,
    decreases rs.len(),
{
    if rs.len() > 0 {
        lemma_ranges_entries_rule(rs.drop_last(), r);
        let prev = ranges_entries(rs.drop_last(), r);
        let last = range_entries(rs.last().0 as int, rs.last().1 as int, r);
        assert forall|i: int| 0 <= i < ranges_entries(rs, r).len() implies (#[trigger] ranges_entries(rs, r)[i]).1 == r by {
            if i < prev.len() {
                assert(ranges_entries(rs, r)[i] == prev[i]);
            } else {
                assert(ranges_entries(rs, r)[i] == last[i - prev.len()]);
            }
        }
    }
}

proof fn lemma_file_entries_are_files(folder: Seq<Seq<char>>, hay: Seq<char>, k: int)
    ensures
        forall|i: int| 0 <= i < file_entries(folder, hay, k).len() ==> (#[trigger] file_entries(folder, hay, k)[i]).1 is File,
    decreases k,
{
    if k > 0 {
        lemma_file_entries_are_files(folder, hay, k - 1);
        let f = folder[k - 1];
        let prev = file_entries(folder, hay, k - 1);
        let more = if f.len() > 0 {
            ranges_entries(occurrences(encode_utf8(hay), encode_utf8(f), 0), RuleView::File(f))
        } else {
            Seq::empty()
        };
        lemma_ranges_entries_rule(occurrences(encode_utf8(hay), encode_utf8(f), 0), RuleView::File(f));
        assert(file_entries(folder, hay, k) == prev + more);
        assert forall|i: int| 0 <= i < file_entries(folder, hay, k).len() implies (#[trigger] file_entries(folder, hay, k)[i]).1 is File by {
            if i < prev.len() {
                assert(file_entries(folder, hay, k)[i] == prev[i]);
            } else {
                assert(file_entries(folder, hay, k)[i] == more[i - prev.len()]);
            }
        }
    }
}

proof fn lemma_add_url_range_free(info: Seq<(usize, RuleView)>, a: int, b: int, u: Seq<char>)
    requires
        urls_at_free_positions(info),
        0 <= a,
        b <= usize::MAX,
    ensures
        urls_at_free_positions(add_url_range(info, a, b, u)),
    decreases b - a,
{
    if b > a {
        lemma_add_url_range_free(info, a, b - 1, u);
        let prev = add_url_range(info, a, b - 1, u);
        if !has_position(prev, b - 1) {
            let next = prev.push(((b - 1) as usize, RuleView::Url(u)));
            assert forall|j: int, k: int|
                0 <= j < k < next.len() && (#[trigger] next[k]).1 is Url implies (#[trigger] next[j]).0 != next[k].0 by {
                if k < prev.len() {
                    assert(next[k] == prev[k]);
                    assert(next[j] == prev[j]);
                } else {
                    assert(next[j] == prev[j]);
                    assert(next[k].0 == b - 1);
                    if prev[j].0 == b - 1 {
                        assert(0 <= j < prev.len() && prev[j].0 == b - 1);
                        assert(has_position(prev, b - 1));
                    }
                }
            }
        }
    }
}

proof fn lemma_add_urls_free(info: Seq<(usize, RuleView)>, ms: Seq<(usize, usize, Seq<char>)>, k: int)
    requires
        urls_at_free_positions(info),
    ensures
        urls_at_free_positions(add_urls(info, ms, k)),
    decreases k,
{
    if k > 0 {
        lemma_add_urls_free(info, ms, k - 1);
        let m = ms[k - 1];
        lemma_add_url_range_free(add_urls(info, ms, k - 1), m.0 as int, m.1 as int, m.2);
    }
}

/// A web address never takes a position that a file link, or an earlier
/// web address, already has.
pub proof fn law_urls_take_free_positions(lines: Seq<Seq<char>>, folder: Seq<Seq<char>>)
    ensures
        urls_at_free_positions(view_info_spec(lines, folder)),
{
    let hay = join_sep(lines, "\n"@);
    let files = file_entries(folder, hay, folder.len() as int);
    lemma_file_entries_are_files(folder, hay, folder.len() as int);
    assert(urls_at_free_positions(files));
    let ms = regex_matches(URL_PATTERN@, hay);
    lemma_add_urls_free(files, ms, ms.len() as int);
}

/// Every link of `info` stands before the byte offset `n`.
pub open spec fn links_below(info: Seq<(usize, ViewRule)>, n: int) -> bool {
    forall|k: int| 0 <= k < info.len() ==> ((#[trigger] info[k]).0 as int) < n
}

/// Each place found lies within the text searched.
proof fn lemma_occurrences_within(s: Seq<u8>, p: Seq<u8>, from: int)
    ensures
        forall|j: int| 0 <= j < occurrences(s, p, from).len() ==> (#[trigger] occurrences(s, p, from)[j]).1 <= s.len(),
    decreases s.len() + 1 - from,
{
    let i = find_bytes(s, p, from);
    if !(p.len() == 0 || from < 0 || i < 0) {
        lemma_find_bytes(s, p, from);
        lemma_occurrences_within(s, p, i + p.len());
        let rest = occurrences(s, p, i + p.len());
        let all = occurrences(s, p, from);
        assert forall|j: int| 0 <= j < all.len() implies (#[trigger] all[j]).1 <= s.len() by {
            if j > 0 {
                assert(all[j] == rest[j - 1]);
            }
        }
    }
}

/// Pushes a link at each position from `a` up to `b`.
fn push_range(info: &mut Vec<(usize, ViewRule)>, a: usize, b: usize, name: &String, n: usize)
    requires
        links_below(old(info)@, n as int),
        b <= n,
    ensures
        info_view(final(info)@) == info_view(old(info)@) + range_entries(a as int, b as int, RuleView::File(name@)),
        links_below(final(info)@, n as int),
{
    let ghost start = info_view(info@);
    let mut i = a;
    while i < b
        invariant
            a <= i,
            i == a || i <= b,
            b <= n,
            info_view(info@) == start + range_entries(a as int, i as int, RuleView::File(name@)),
            links_below(info@, n as int),
        decreases b - i,
    {
        let ghost pre = info@;
        let n2 = name.clone();
        info.push((i, ViewRule::File(n2)));
        assert(info@ == pre.push((i, ViewRule::File(n2))));
        assert(info_view(info@) =~= info_view(pre).push((i, RuleView::File(name@))));
        assert(range_entries(a as int, i + 1, RuleView::File(name@)) =~= range_entries(a as int, i as int, RuleView::File(name@)).push((i, RuleView::File(name@))));
        assert(info_view(info@) =~= start + range_entries(a as int, i + 1, RuleView::File(name@)));
        assert forall|k: int| 0 <= k < info@.len() implies ((#[trigger] info@[k]).0 as int) < n by {
            if k < pre.len() {
                assert(info@[k] == pre[k]);
            }
        }
        i = i + 1;
    }
    assert(range_entries(a as int, i as int, RuleView::File(name@)) =~= range_entries(a as int, b as int, RuleView::File(name@)));
}


/// Pushes a link at each position of each range.
fn push_ranges(info: &mut Vec<(usize, ViewRule)>, rs: &Vec<(usize, usize)>, name: &String, n: usize)
    requires
        links_below(old(info)@, n as int),
        forall|j: int| 0 <= j < rs@.len() ==> (#[trigger] rs@[j]).1 <= n,
    ensures
        info_view(final(info)@) == info_view(old(info)@) + ranges_entries(rs@, RuleView::File(name@)),
        links_below(final(info)@, n as int),
{
    let ghost start = info_view(info@);
    for k in 0..rs.len()
        invariant
            info_view(info@) == start + ranges_entries(rs@.take(k as int), RuleView::File(name@)),
            links_below(info@, n as int),
            forall|j: int| 0 <= j < rs@.len() ==> (#[trigger] rs@[j]).1 <= n,
    {
        assert(rs@.take(k + 1).drop_last() =~= rs@.take(k as int));
        assert(rs@.take(k + 1).last() == rs@[k as int]);
        assert(rs@[k as int].1 <= n);
        push_range(info, rs[k].0, rs[k].1, name, n);
        assert(info_view(info@) =~= start + ranges_entries(rs@.take(k + 1), RuleView::File(name@)));
    }
    assert(rs@.take(rs.len() as int) =~= rs@);
}

/// Whether some link stands at position `i`.
fn has_position_exec(info: &Vec<(usize, ViewRule)>, i: usize) -> (r: bool)
    ensures
        r == has_position(info_view(info@), i as int),
{
    let ghost iv = info_view(info@);
    for k in 0..info.len()
        invariant
            iv == info_view(info@),
            forall|q: int| 0 <= q < k ==> (#[trigger] iv[q]).0 != i,
    {
        assert(iv[k as int].0 == info@[k as int].0);
        if info[k].0 == i {
            assert(has_position(iv, i as int));
            return true;
        }
    }
    false
}

/// Pushes a link to `u` at each position from `a` up to `b` that has none.
fn push_url_range(info: &mut Vec<(usize, ViewRule)>, a: usize, b: usize, u: &String, n: usize)
    requires
        links_below(old(info)@, n as int),
        b <= n,
    ensures
        info_view(final(info)@) == add_url_range(info_view(old(info)@), a as int, b as int, u@),
        links_below(final(info)@, n as int),
{
    let ghost start = info_view(info@);
    let mut i = a;
    while i < b
        invariant
            a <= i,
            i == a || i <= b,
            b <= n,
            info_view(info@) == add_url_range(start, a as int, i as int, u@),
            links_below(info@, n as int),
        decreases b - i,
    {
        let ghost pre = info@;
        if !has_position_exec(info, i) {
            let u2 = u.clone();
            info.push((i, ViewRule::Url(u2)));
            assert(info@ == pre.push((i, ViewRule::Url(u2))));
            assert(info_view(info@) =~= info_view(pre).push((i, RuleView::Url(u@))));
            assert forall|k: int| 0 <= k < info@.len() implies ((#[trigger] info@[k]).0 as int) < n by {
                if k < pre.len() {
                    assert(info@[k] == pre[k]);
                }
            }
        }
        i = i + 1;
    }
}

/// Finds the links of the text: the places of the folder's file names, then
/// the web addresses at the places still free; the view becomes a copy of
/// the text. Every link stands within the text (its position is a byte
/// offset into the lines joined by newlines). Nothing changes, and the
/// answer is `false`, where a search cannot be built.
pub fn view_from_input(textbox: &mut TextBlock, folder: &Vec<String>) -> (built: bool)
    ensures
        built == view_searches_build(strings_of(folder)),
        built ==> lines_of(&final(textbox).view) == lines_of(&old(textbox).input),
        built ==> info_view(final(textbox).view_info@) == view_info_spec(lines_of(&old(textbox).input), strings_of(folder)),
        built ==> links_below(final(textbox).view_info@, byte_len(join_sep(lines_of(&old(textbox).input), "\n"@)) as int),
        !built ==> final(textbox).view == old(textbox).view && final(textbox).view_info == old(textbox).view_info,
        final(textbox).input == old(textbox).input,
        final(textbox).vert_cursor == old(textbox).vert_cursor,
        final(textbox).edit_cursor == old(textbox).edit_cursor,
        final(textbox).saved == old(textbox).saved,
{
    let ghost lines = lines_of(&textbox.input);
    let mut res: Vec<Vec<char>> = Vec::new();
    let mut strs: Vec<String> = Vec::new();
    for k in 0..textbox.input.len()
        invariant
            lines == lines_of(&textbox.input),
            res@.len() == k,
            strs@.len() == k,
            forall|q: int| 0 <= q < k ==> (#[trigger] res@[q])@ == lines[q],
            forall|q: int| 0 <= q < k ==> (#[trigger] strs@[q])@ == lines[q],
    {
        let l = &textbox.input[k];
        res.push(crate::text::slice_vec(l, 0, l.len()));
        assert(l@.subrange(0, l.len() as int) =~= l@);
        strs.push(string_of(l));
    }
    assert(lines_of(&res) =~= lines);
    assert(strings_of(&strs) =~= lines);
    let hay = join_strings(&strs, "\n");
    let n = str_byte_len(hay.as_str());
    let ghost fv = strings_of(folder);
    let mut info: Vec<(usize, ViewRule)> = Vec::new();
    assert(info_view(info@) =~= file_entries(fv, hay@, 0));
    for k in 0..folder.len()
        invariant
            fv == strings_of(folder),
            n == byte_len(hay@),
            info_view(info@) == file_entries(fv, hay@, k as int),
            links_below(info@, n as int),
            forall|q: int| 0 <= q < k ==> searcher_builds(#[trigger] fv[q]),
    {
        let file = &folder[k];
        assert(fv[k as int] == file@);
        let searcher = match build_searcher(file.as_str()) {
            Some(s) => s,
            None => return false,
        };
        let rs = searcher_ranges(&searcher, hay.as_str());
        let ghost before = info_view(info@);
        if chars_of(file.as_str()).len() > 0 {
            proof {
                lemma_occurrences_within(encode_utf8(hay@), encode_utf8(file@), 0);
            }
            push_ranges(&mut info, &rs, file, n);
        }
        assert(info_view(info@) =~= file_entries(fv, hay@, k + 1));
    }
    let re = match compile(URL_PATTERN) {
        Some(re) => re,
        None => return false,
    };
    let ms = find_matches(&re, hay.as_str());
    let ghost msv = regex_matches(URL_PATTERN@, hay@);
    let ghost files = file_entries(fv, hay@, fv.len() as int);
    assert forall|j: int| 0 <= j < ms@.len() implies (#[trigger] ms@[j]).1 <= n by {
        assert(msv[j] == (ms@[j].0, ms@[j].1, ms@[j].2@));
    }
    for k in 0..ms.len()
        invariant
            msv == ms@.map_values(|m: (usize, usize, String)| (m.0, m.1, m.2@)),
            info_view(info@) == add_urls(files, msv, k as int),
            links_below(info@, n as int),
            forall|j: int| 0 <= j < ms@.len() ==> (#[trigger] ms@[j]).1 <= n,
    {
        assert(msv[k as int] == (ms@[k as int].0, ms@[k as int].1, ms@[k as int].2@));
        assert(ms@[k as int].1 <= n);
        push_url_range(&mut info, ms[k].0, ms[k].1, &ms[k].2, n);
    }
    textbox.view_info = info;
    textbox.view = res;
    true
}

/// The style of a link: blue and underlined for a web address, green and
/// underlined for a file.
pub open spec fn rule_style(r: RuleView) -> Style {
    match r {
        RuleView::Url(_) => Style::plain().with_fg(Color::Blue).with_modifier(UNDERLINED),
        RuleView::File(_) => Style::plain().with_fg(Color::Green).with_modifier(UNDERLINED),
    }
}

/// The style of a link.
pub fn style_from_viewrule(rule: &ViewRule) -> (s: Style)
    ensures
        s == rule_style(rule_view(*rule)),
{
    match rule {
        ViewRule::Url(_) => Style::new().fg(Color::Blue).add_modifier(UNDERLINED),
        ViewRule::File(_) => Style::new().fg(Color::Green).add_modifier(UNDERLINED),
    }
}

/// The characters with the first `k` links styled, where their position
/// lies within the text.
pub open spec fn links_styled(sp: Seq<StyledChar>, info: Seq<(usize, RuleView)>, k: int) -> Seq<StyledChar>
    decreases k,
{
    if k <= 0 {
        sp
    } else {
        let prev = links_styled(sp, info, k - 1);
        let (i, r) = info[k - 1];
        if (i as int) < prev.len() {
            prev.update(i as int, styled_char(prev[i as int].content, rule_style(r)))
        } else {
            prev
        }
    }
}

proof fn lemma_links_styled_len(sp: Seq<StyledChar>, info: Seq<(usize, RuleView)>, k: int)
    ensures
        links_styled(sp, info, k).len() == sp.len(),
    decreases k,
{
    if k > 0 {
        lemma_links_styled_len(sp, info, k - 1);
    }
}

/// The view text with each link's character styled, cut into lines.
pub fn view(text: String, info: &Vec<(usize, ViewRule)>) -> (lines: Vec<Vec<StyledChar>>)
    ensures
        text_view(lines) == split_styled(
            links_styled(styled(text@, Style::plain()), info_view(info@), info@.len() as int),
        ),
{
    let mut spans = spans_of(text.as_str(), Style::new());
    let ghost sp0 = spans@;
    let ghost iv = info_view(info@);
    for k in 0..info.len()
        invariant
            iv == info_view(info@),
            spans@ == links_styled(sp0, iv, k as int),
    {
        proof {
            lemma_links_styled_len(sp0, iv, k as int);
        }
        let i = info[k].0;
        assert(iv[k as int].0 == i);
        if i < spans.len() {
            let st = style_from_viewrule(&info[k].1);
            let c = spans[i].content;
            spans.set(i, styled_char_of(c, st));
        }
    }
    text_from_spans(spans)
}


/// The position in the view text that the cursor stands on: where its line
/// starts, plus its column where the column lies within the line.
pub open spec fn view_position(view: Seq<Seq<char>>, v: int, e: int) -> int {
    line_start(view, v) + if e <= view[v].len() { e } else { 0 }
}

/// The link of the first entry, from the `k`-th on, that stands at
/// position `p`.
pub open spec fn first_link_from(info: Seq<(usize, RuleView)>, p: int, k: int) -> Option<RuleView>
    decreases info.len() - k,
{
    if k < 0 || k >= info.len() {
        None
    } else if info[k].0 == p {
        Some(info[k].1)
    } else {
        first_link_from(info, p, k + 1)
    }
}

/// What choosing the place under the cursor asks for.
pub enum ViewAction {
    /// Nothing to do: no link there, or a file link with unsaved changes.
    Nothing,
    /// Open this web address in the browser.
    OpenUrl(String),
    /// Open this file, or else this folder.
    OpenTarget(String),
}

/// A choice, as mathematical values.
pub enum ActionView {
    Nothing,
    OpenUrl(Seq<char>),
    OpenTarget(Seq<char>),
}

impl ViewAction {
    pub open spec fn view(&self) -> ActionView {
        match self {
            ViewAction::Nothing => ActionView::Nothing,
            ViewAction::OpenUrl(u) => ActionView::OpenUrl(u@),
            ViewAction::OpenTarget(t) => ActionView::OpenTarget(t@),
        }
    }
}

/// What choosing the place under the cursor asks for: the first link that
/// stands there decides; a file is opened only where the text is saved.
pub open spec fn action_spec(view: Seq<Seq<char>>, v: int, e: int, info: Seq<(usize, RuleView)>, saved: bool) -> ActionView {
    match first_link_from(info, view_position(view, v, e), 0) {
        None => ActionView::Nothing,
        Some(RuleView::Url(u)) => ActionView::OpenUrl(url_spec(u)),
        Some(RuleView::File(f)) => if saved {
            ActionView::OpenTarget(f)
        } else {
            ActionView::Nothing
        },
    }
}

/// A file link was chosen while the text has unsaved changes.
pub open spec fn action_refused(view: Seq<Seq<char>>, v: int, e: int, info: Seq<(usize, RuleView)>, saved: bool) -> bool {
    first_link_from(info, view_position(view, v, e), 0) matches Some(RuleView::File(_)) && !saved
}

/// Chooses the place under the cursor of the view. Where it is a file link
/// and the text has unsaved changes, the command line and the folder panel
/// say so; what else the choice asks for is returned, for the caller to do.
pub fn action(textbox: &TextBlock, line_name: &mut String, folder_error: &mut Option<String>) -> (r: ViewAction)
    requires
        textbox.vert_cursor < textbox.view.len(),
        line_start(lines_of(&textbox.view), textbox.vert_cursor as int)
            + textbox.view@[textbox.vert_cursor as int].len() <= usize::MAX,
    ensures
        r.view() == action_spec(
            lines_of(&textbox.view),
            textbox.vert_cursor as int,
            textbox.edit_cursor as int,
            info_view(textbox.view_info@),
            textbox.saved,
        ),
        action_refused(
            lines_of(&textbox.view),
            textbox.vert_cursor as int,
            textbox.edit_cursor as int,
            info_view(textbox.view_info@),
            textbox.saved,
        ) ==> final(line_name)@ == "Unsaved Changes"@ && opt_view(*final(folder_error)) == Some("Unsaved Changes"@),
        !action_refused(
            lines_of(&textbox.view),
            textbox.vert_cursor as int,
            textbox.edit_cursor as int,
            info_view(textbox.view_info@),
            textbox.saved,
        ) ==> *final(line_name) == *old(line_name) && *final(folder_error) == *old(folder_error),
{
    let ghost view = lines_of(&textbox.view);
    let vert = textbox.vert_cursor;
    let mut cursor: usize = 0;
    let mut k: usize = 0;
    while k < vert
        invariant
            view == lines_of(&textbox.view),
            vert == textbox.vert_cursor,
            vert < view.len(),
            k <= vert,
            cursor == line_start(view, k as int),
            line_start(view, vert as int) + view[vert as int].len() <= usize::MAX,
        decreases vert - k,
    {
        proof {
            lemma_line_start_step(view, k as int);
            lemma_line_start_mono(view, k + 1, vert as int);
        }
        assert(textbox.view@[k as int]@ == view[k as int]);
        cursor = cursor + textbox.view[k].len() + 1;
        k = k + 1;
    }
    assert(textbox.view@[vert as int]@ == view[vert as int]);
    if textbox.edit_cursor <= textbox.view[vert].len() {
        cursor = cursor + textbox.edit_cursor;
    }
    assert(cursor == view_position(view, vert as int, textbox.edit_cursor as int));
    let ghost iv = info_view(textbox.view_info@);
    let mut q: usize = 0;
    while q < textbox.view_info.len()
        invariant
            iv == info_view(textbox.view_info@),
            q <= textbox.view_info.len(),
            first_link_from(iv, cursor as int, 0) == first_link_from(iv, cursor as int, q as int),
            cursor == view_position(lines_of(&textbox.view), textbox.vert_cursor as int, textbox.edit_cursor as int),
            *line_name == *old(line_name),
            *folder_error == *old(folder_error),
        decreases textbox.view_info.len() - q,
    {
        assert(iv[q as int].0 == textbox.view_info@[q as int].0);
        if textbox.view_info[q].0 == cursor {
            assert(iv[q as int].1 == rule_view(textbox.view_info@[q as int].1));
            assert(first_link_from(iv, cursor as int, q as int) == Some(iv[q as int].1));
            match &textbox.view_info[q].1 {
                ViewRule::Url(url) => {
                    return ViewAction::OpenUrl(get_url(url.clone()));
                },
                ViewRule::File(target) => {
                    if textbox.saved {
                        return ViewAction::OpenTarget(target.clone());
                    } else {
                        *line_name = "Unsaved Changes".to_owned();
                        *folder_error = Some("Unsaved Changes".to_owned());
                        return ViewAction::Nothing;
                    }
                },
            }
        }
        q = q + 1;
    }
    assert(first_link_from(iv, cursor as int, q as int) == None::<RuleView>);
    ViewAction::Nothing
}


/// What opening a chosen file link found.
pub enum Opened {
    /// A file, with its lines.
    File(Vec<String>),
    /// A folder, with its path and the names of its entries.
    Folder(String, Vec<String>),
    /// Neither a file nor a folder.
    Missing,
}

/// Lines of characters, one for each string.
fn char_lines(lines: &Vec<String>) -> (r: Vec<Vec<char>>)
    ensures
        lines_of(&r) == strings_of(lines),
{
    let mut r: Vec<Vec<char>> = Vec::new();
    for i in 0..lines.len()
        invariant
            r@.len() == i,
            forall|j: int| 0 <= j < i ==> (#[trigger] r@[j])@ == lines@[j]@,
    {
        r.push(chars_of(lines[i].as_str()));
    }
    assert(lines_of(&r) =~= strings_of(lines));
    r
}

/// Takes in what opening the target of a chosen file link found: a file
/// becomes the text, saved, with the cursor at its start, and takes the
/// target's name; a folder is listed in the folder panel, its parent first;
/// where neither was found, the command line and the folder panel say so.
pub fn finish_action(
    textbox: &mut TextBlock,
    file_name: &mut String,
    files_in_folder: &mut Vec<String>,
    opened_folder: &mut Option<String>,
    line_name: &mut String,
    folder_error: &mut Option<String>,
    target: &String,
    opened: Opened,
)
    ensures
        final(textbox).same_view(old(textbox)),
        opened matches Opened::File(lines) ==> {
            &&& lines_of(&final(textbox).input) == strings_of(&lines)
            &&& final(textbox).saved
            &&& final(textbox).vert_cursor == 0
            &&& final(textbox).edit_cursor == 0
            &&& final(file_name)@ == target@
            &&& *final(files_in_folder) == *old(files_in_folder)
            &&& *final(opened_folder) == *old(opened_folder)
            &&& *final(line_name) == *old(line_name)
            &&& *final(folder_error) == *old(folder_error)
        },
        opened matches Opened::Folder(folder, entries) ==> {
            &&& *final(textbox) == *old(textbox)
            &&& *final(file_name) == *old(file_name)
            &&& strings_of(final(files_in_folder)) == seq![".."@] + strings_of(&entries)
            &&& opt_view(*final(opened_folder)) == Some(folder@)
            &&& *final(line_name) == *old(line_name)
            &&& *final(folder_error) == *old(folder_error)
        },
        opened is Missing ==> {
            &&& *final(textbox) == *old(textbox)
            &&& *final(file_name) == *old(file_name)
            &&& *final(files_in_folder) == *old(files_in_folder)
            &&& *final(opened_folder) == *old(opened_folder)
            &&& final(line_name)@ == "File not found"@
            &&& opt_view(*final(folder_error)) == Some("File not found"@)
        },
{
    match opened {
        Opened::File(lines) => {
            textbox.input = char_lines(&lines);
            *file_name = target.clone();
            textbox.saved = true;
            textbox.vert_cursor = 0;
            textbox.edit_cursor = 0;
        },
        Opened::Folder(folder, entries) => {
            let mut files: Vec<String> = Vec::new();
            files.push("..".to_owned());
            for i in 0..entries.len()
                invariant
                    files.len() == i + 1,
                    files@[0]@ == ".."@,
                    forall|j: int| 1 <= j <= i ==> (#[trigger] files@[j])@ == entries@[j - 1]@,
            {
                files.push(entries[i].clone());
            }
            assert(strings_of(&files) =~= seq![".."@] + strings_of(&entries));
            *files_in_folder = files;
            *opened_folder = Some(folder);
        },
        Opened::Missing => {
            *line_name = "File not found".to_owned();
            *folder_error = Some("File not found".to_owned());
        },
    }
}

/// The web address to open for a link: as it stands when it names a
/// scheme, else with `https://` before it.
pub open spec fn url_spec(url: Seq<char>) -> Seq<char> {
    if contains_seq(url, "://"@) {
        url
    } else {
        "https://"@ + url
    }
}

/// The web address to open for a link.
pub fn get_url(url: String) -> (r: String)
    ensures
        r@ == url_spec(url@),
        contains_seq(r@, "://"@),
{
    let u = chars_of(url.as_str());
    let sep = chars_of("://");
    if contains_exec(&u, &sep) {
        return url;
    }
    let mut r = "https://".to_owned();
    r.append(url.as_str());
    proof {
        reveal_strlit("https://");
        reveal_strlit("://");
        assert(r@.subrange(5, 8) =~= "://"@);
        assert(crate::text::occurs_at(r@, "://"@, 5));
    }
    r
}

} // verus!

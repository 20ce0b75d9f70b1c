//! The decisions of the editor's main loop: searching, the command history,
//! paths, saving, and reading commands.
use vstd::prelude::*;

use crate::text::{
    occurs_at,
    chars_of, contains_exec, contains_seq, ends_with, ends_with_exec, eq_str, find_from, find_seq,
    join_sep, join_strings, slice_vec, split_char, split_seq, split_str, split_string, starts_with,
    starts_with_exec, string_of, strings_of, strings_from, push_char,
};
use crate::bytes::{
    byte_offset, byte_offset_of, char_index, char_index_of, is_boundary, lemma_char_index, lemma_offset_ends,
    str_byte_len,
};
use crate::{BtelCommand, BtelVars, Display, Extern, Mode};

verus! {

/// Where a search for `cmd` from byte offset `x` of line `y` finds it
/// first, as a byte offset and a line: on line `y` from that offset on, or
/// else on a later line from its start. (Both texts are UTF-8, so a match of
/// their bytes is a match of their characters.)
pub open spec fn find_spec(lines: Seq<Seq<char>>, cmd: Seq<char>, x: int, y: int) -> Option<(int, int)>
    decreases lines.len() - y,
{
    if y < 0 || y >= lines.len() {
        None
    } else {
        let l = lines[y];
        let f = find_seq(l, cmd, char_index(l, x));
        if f >= 0 {
            Some((byte_offset(l, f) as int, y))
        } else {
            find_spec(lines, cmd, 0, y + 1)
        }
    }
}

/// Searches the text for `command`, from byte offset `x` of line `y` on.
pub fn find(command: &String, input: &Vec<String>, x: usize, y: usize) -> (r: Option<(usize, usize)>)
    requires
        y <= input.len(),
        y < input.len() ==> is_boundary(input@[y as int]@, x as int),
    ensures
        match r {
            Some((cx, cy)) => find_spec(strings_of(input), command@, x as int, y as int) == Some((cx as int, cy as int)),
            None => find_spec(strings_of(input), command@, x as int, y as int) is None,
        },
{
    let cmd = chars_of(command.as_str());
    let mut i = y;
    let mut from = x;
    while i < input.len()
        invariant
            cmd@ == command@,
            y <= i <= input.len(),
            i < input.len() ==> is_boundary(input@[i as int]@, from as int),
            find_spec(strings_of(input), command@, x as int, y as int) == find_spec(strings_of(input), command@, from as int, i as int),
        decreases input.len() - i,
    {
        let line = chars_of(input[i].as_str());
        let nb = str_byte_len(input[i].as_str());
        assert(strings_of(input)[i as int] == line@);
        let k = match char_index_of(&line, from) {
            Some(k) => k,
            None => {
                assert(false);
                0
            },
        };
        proof {
            crate::text::lemma_find_seq(line@, cmd@, k as int);
        }
        assert(line@.len() == line.len());
        let found = find_from(&line, &cmd, k);
        if let Some(f) = found {
            let b = byte_offset_of(&line, f);
            assert(find_seq(line@, cmd@, k as int) == f as int);
            assert(strings_of(input).len() == input.len());
            assert(find_spec(strings_of(input), command@, from as int, i as int) == Some((b as int, i as int)));
            return Some((b, i));
        }
        i = i + 1;
        from = 0;
        proof {
            if i < input.len() {
                lemma_offset_ends(input@[i as int]@);
                lemma_char_index(input@[i as int]@, 0, 0);
            }
        }
    }
    None
}

/// The command that the history cursor shows: nothing at 0, and counting
/// back from the newest entry after that.
pub open spec fn history_entry(history: Seq<Seq<char>>, cursor: int) -> Seq<char> {
    if cursor == 0 {
        Seq::empty()
    } else {
        history[history.len() - cursor]
    }
}

/// The command that the history cursor shows.
pub fn get_from_history(history: &Vec<String>, hist_cursor: &usize) -> (s: String)
    requires
        *hist_cursor <= history.len(),
    ensures
        s@ == history_entry(strings_of(history), *hist_cursor as int),
{
    if *hist_cursor == 0 {
        String::new()
    } else {
        history[history.len() - *hist_cursor].clone()
    }
}

/// Sets the editor's state from what a plugin handed back.
pub fn set_from_btel_vars(
    vars: BtelVars,
    input: &mut Vec<String>,
    output: &mut String,
    edit_cursor: &mut usize,
    vert_cursor: &mut usize,
    mode: &mut Mode,
    line_name: &mut String,
    file_name: &mut String,
    saved: &mut bool,
    scroll_x: &mut usize,
    scroll_y: &mut usize,
    display: &mut Display,
)
    ensures
        *final(input) == vars.input,
        *final(output) == vars.output,
        *final(edit_cursor) == vars.edit_cursor,
        *final(vert_cursor) == vars.vert_cursor,
        *final(mode) == vars.mode,
        *final(line_name) == vars.line_name,
        *final(file_name) == vars.file_name,
        *final(saved) == vars.saved,
        *final(scroll_x) == vars.scroll_x,
        *final(scroll_y) == vars.scroll_y,
        *final(display) == vars.display,
{
    *input = vars.input;
    *output = vars.output;
    *edit_cursor = vars.edit_cursor;
    *vert_cursor = vars.vert_cursor;
    *mode = vars.mode;
    *line_name = vars.line_name;
    *file_name = vars.file_name;
    *saved = vars.saved;
    *scroll_x = vars.scroll_x;
    *scroll_y = vars.scroll_y;
    *display = vars.display;
}

/// `s` with every `c` replaced by `r`.
pub open spec fn replace_char(s: Seq<char>, c: char, r: Seq<char>) -> Seq<char>
    decreases s.len(),
{
    if s.len() == 0 {
        Seq::empty()
    } else {
        replace_char(s.drop_last(), c, r) + if s.last() == c {
            r
        } else {
            seq![s.last()]
        }
    }
}

/// `s` with every `c` replaced by `r` (`str::replace` with a character).
pub fn replace_all(s: &str, c: char, r: &str) -> (out: String)
    ensures
        out@ == replace_char(s@, c, r@),
{
    let v = chars_of(s);
    let mut out = String::new();
    for i in 0..v.len()
        invariant
            v@ == s@,
            out@ == replace_char(v@.take(i as int), c, r@),
    {
        assert(v@.take(i + 1).drop_last() =~= v@.take(i as int));
        if v[i] == c {
            out.append(r);
        } else {
            push_char(&mut out, v[i]);
        }
    }
    assert(v@.take(v.len() as int) =~= v@);
    out
}

/// A path with each `~` replaced by the home directory.
pub fn trim_home(command: &String, home: &String) -> (s: String)
    ensures
        s@ == replace_char(command@, '~', home@),
{
    replace_all(command.as_str(), '~', home.as_str())
}

/// The lines of a file's text, with each tab replaced by four spaces.
pub open spec fn file_lines(text: Seq<char>) -> Seq<Seq<char>> {
    split_char(replace_char(text, '\t', "    "@), '\n')
}

/// The lines of a file's text, with each tab replaced by four spaces.
pub fn lines_of_file(text: &str) -> (lines: Vec<String>)
    ensures
        strings_of(&lines) == file_lines(text@),
{
    let t = replace_all(text, '\t', "    ");
    split_string(t.as_str(), '\n')
}

/// All characters of `s` are ASCII.
pub open spec fn ascii_text(s: Seq<char>) -> bool {
    forall|i: int| 0 <= i < s.len() ==> s[i] <= '\x7f'
}

/// The lines of a file's text when all of it is ASCII; nothing otherwise.
pub fn ascii_lines_of_file(text: &str) -> (lines: Option<Vec<String>>)
    ensures
        match lines {
            Some(l) => ascii_text(text@) && strings_of(&l) == file_lines(text@),
            None => !ascii_text(text@),
        },
{
    let v = chars_of(text);
    for i in 0..v.len()
        invariant
            v@ == text@,
            forall|j: int| 0 <= j < i ==> v@[j] <= '\x7f',
    {
        if v[i] > '\x7f' {
            return None;
        }
    }
    Some(lines_of_file(text))
}


/// The pieces of a path between slashes, without the last two.
pub open spec fn drop_last_two_parts(path: Seq<char>) -> Seq<char> {
    let parts = split_seq(path, "/"@);
    if parts.len() <= 2 {
        Seq::empty()
    } else {
        join_sep(parts.subrange(0, parts.len() - 2), "/"@)
    }
}

/// A folder path made absolute against `cwd` (unless it already holds
/// `cwd` or starts at the root).
pub open spec fn absolute_path(command: Seq<char>, cwd: Seq<char>) -> Seq<char> {
    if !contains_seq(command, cwd) && !starts_with(command, "/"@) {
        cwd + "/"@ + command
    } else {
        command
    }
}

/// The path after going up for a final `..`.
pub open spec fn path_up(p: Seq<char>) -> Seq<char> {
    if ends_with(p, ".."@) {
        drop_last_two_parts(p)
    } else {
        p
    }
}

/// The folder that a path names: made absolute, gone up for a final `..`,
/// a final `.` dropped with the character before it; nothing when that
/// leaves an empty path.
pub open spec fn folder_path_spec(command: Seq<char>, cwd: Seq<char>) -> Option<Seq<char>> {
    let p = path_up(absolute_path(command, cwd));
    let q = if ends_with(p, "."@) {
        p.subrange(0, p.len() - 2)
    } else {
        p
    };
    if q.len() == 0 {
        None
    } else {
        Some(q)
    }
}

/// Dropping a final `.` takes the character before it too, so the path must
/// have one.
pub open spec fn folder_path_ok(command: Seq<char>, cwd: Seq<char>) -> bool {
    let p = path_up(absolute_path(command, cwd));
    ends_with(p, "."@) ==> p.len() >= 2
}

/// The path that `command` names, made absolute and gone up for a final
/// `..`.
fn up_path(command: &String, cwd: &String) -> (p: String)
    ensures
        p@ == path_up(absolute_path(command@, cwd@)),
{
    let cmd = chars_of(command.as_str());
    let wd = chars_of(cwd.as_str());
    let slash = chars_of("/");
    let mut p: String;
    if !contains_exec(&cmd, &wd) && !starts_with_exec(&cmd, &slash) {
        p = cwd.clone();
        p.append("/");
        p.append(command.as_str());
    } else {
        p = command.clone();
    }
    assert(p@ == absolute_path(command@, cwd@));
    let dots = chars_of("..");
    let pv = chars_of(p.as_str());
    if ends_with_exec(&pv, &dots) {
        proof {
            reveal_strlit("/");
        }
        let parts = split_str(p.as_str(), "/");
        if parts.len() <= 2 {
            p = String::new();
        } else {
            let mut keep: Vec<String> = Vec::new();
            for i in 0..parts.len() - 2
                invariant
                    parts.len() > 2,
                    keep.len() == i,
                    forall|j: int| 0 <= j < i ==> (#[trigger] keep@[j])@ == parts@[j]@,
            {
                keep.push(parts[i].clone());
            }
            assert(strings_of(&keep) =~= strings_of(&parts).subrange(0, parts.len() - 2));
            p = join_strings(&keep, "/");
        }
    }
    p
}

/// Whether `folder_path` can take `command` (see `folder_path_ok`).
pub fn folder_path_allowed(command: &String, cwd: &String) -> (r: bool)
    ensures
        r == folder_path_ok(command@, cwd@),
{
    let p = up_path(command, cwd);
    let pv = chars_of(p.as_str());
    !ends_with_exec(&pv, &chars_of(".")) || pv.len() >= 2
}

/// The folder that `command` names, seen from the working directory `cwd`.
pub fn folder_path(command: &String, cwd: &String) -> (r: Option<String>)
    requires
        folder_path_ok(command@, cwd@),
    ensures
        match r {
            Some(s) => folder_path_spec(command@, cwd@) == Some(s@),
            None => folder_path_spec(command@, cwd@) is None,
        },
{
    let p = up_path(command, cwd);
    let dot = chars_of(".");
    let pv = chars_of(p.as_str());
    let q: Vec<char>;
    if ends_with_exec(&pv, &dot) {
        q = slice_vec(&pv, 0, pv.len() - 2);
    } else {
        q = pv;
    }
    if q.len() == 0 {
        return None;
    }
    Some(string_of(&q))
}

/// Where a save writes, and the file name afterwards.
pub struct SavePlan {
    pub path: String,
    pub file_name: String,
}

/// The file a save writes: the current file when no name is given and the
/// file has one, else the given name, which becomes the file's name.
pub fn save_plan(command: &String, file_name: &String) -> (plan: SavePlan)
    ensures
        if command@.len() == 0 && file_name@ != "New File"@ {
            plan.path@ == file_name@ && plan.file_name@ == file_name@
        } else {
            plan.path@ == command@ && plan.file_name@ == command@
        },
{
    let no_name = chars_of(command.as_str()).len() == 0;
    if no_name && !eq_str(file_name.as_str(), "New File") {
        SavePlan { path: file_name.clone(), file_name: file_name.clone() }
    } else {
        SavePlan { path: command.clone(), file_name: command.clone() }
    }
}


/// ASCII whitespace: space, tab, line feed, form feed, carriage return.
pub open spec fn is_ascii_ws(c: char) -> bool {
    c == ' ' || c == '\t' || c == '\n' || c == '\x0C' || c == '\r'
}

/// The words of `s`: its longest runs of characters that are not ASCII
/// whitespace, in order (`str::split_ascii_whitespace`).
pub open spec fn words(s: Seq<char>) -> Seq<Seq<char>>
    decreases s.len(),
{
    if s.len() == 0 {
        Seq::empty()
    } else {
        let w = words(s.drop_last());
        let c = s.last();
        if is_ascii_ws(c) {
            w
        } else if s.len() >= 2 && !is_ascii_ws(s[s.len() - 2]) {
            w.update(w.len() - 1, w.last().push(c))
        } else {
            w.push(seq![c])
        }
    }
}

/// The words of `s`.
pub fn split_words(s: &str) -> (r: Vec<String>)
    ensures
        strings_of(&r) == words(s@),
{
    let v = chars_of(s);
    let mut out: Vec<Vec<char>> = Vec::new();
    for i in 0..v.len()
        invariant
            v@ == s@,
            out@.map_values(|l: Vec<char>| l@) == words(v@.take(i as int)),
            i > 0 && !is_ascii_ws(v@[i - 1]) ==> out.len() > 0,
    {
        let ghost w = words(v@.take(i as int));
        let ghost t = v@.take(i + 1);
        assert(t.drop_last() =~= v@.take(i as int));
        assert(t.last() == v@[i as int]);
        let c = v[i];
        if c == ' ' || c == '\t' || c == '\n' || c == '\x0C' || c == '\r' {
        } else if i >= 1 && !(v[i - 1] == ' ' || v[i - 1] == '\t' || v[i - 1] == '\n' || v[i - 1] == '\x0C' || v[i - 1] == '\r') {
            assert(t[t.len() - 2] == v@[i - 1]);
            let last = out.len() - 1;
            out[last].push(c);
            assert(out@.map_values(|l: Vec<char>| l@) =~= w.update(w.len() - 1, w.last().push(c)));
        } else {
            if i >= 1 {
                assert(t[t.len() - 2] == v@[i - 1]);
            }
            let mut nw: Vec<char> = Vec::new();
            nw.push(c);
            out.push(nw);
            assert(out@.map_values(|l: Vec<char>| l@) =~= w.push(seq![c]));
        }
    }
    assert(v@.take(v.len() as int) =~= v@);
    strings_from(out)
}

/// Some plugin is run by the command name `word`.
pub open spec fn plugin_named(commands: Seq<Extern>, word: Seq<char>) -> bool {
    exists|i: int, j: int|
        0 <= i < commands.len() && 0 <= j < commands[i].names@.len() && (#[trigger] commands[i].names@[j])@ == word
}

/// The built-in command that `word` names, if any.
pub open spec fn builtin_command(word: Seq<char>) -> Option<BtelCommand> {
    if word == "e"@ || word == "edit"@ {
        Some(BtelCommand::Edit)
    } else if word == "q"@ || word == "quit"@ {
        Some(BtelCommand::Quit)
    } else if word == "o"@ || word == "open"@ {
        Some(BtelCommand::Open)
    } else if word == "s"@ || word == "save"@ {
        Some(BtelCommand::Save)
    } else if word == "c"@ || word == "command"@ {
        Some(BtelCommand::Command)
    } else if word == "f"@ || word == "find"@ {
        Some(BtelCommand::Find)
    } else if word == "fs"@ || word == "force save"@ {
        Some(BtelCommand::ForceSave)
    } else if word == "h"@ || word == "help"@ {
        Some(BtelCommand::Help)
    } else {
        None
    }
}

/// Whether a plugin is run by the command name `word`.
pub fn is_plugin_name(commands: &Vec<Extern>, word: &String) -> (r: bool)
    ensures
        r == plugin_named(commands@, word@),
{
    for i in 0..commands.len()
        invariant
            forall|a: int, b: int|
                0 <= a < i && 0 <= b < commands@[a].names@.len() ==> (#[trigger] commands@[a].names@[b])@ != word@,
    {
        let names = &commands[i].names;
        for j in 0..names.len()
            invariant
                i < commands.len(),
                names == &commands@[i as int].names,
                forall|a: int, b: int|
                    0 <= a < i && 0 <= b < commands@[a].names@.len() ==> (#[trigger] commands@[a].names@[b])@ != word@,
                forall|b: int| 0 <= b < j ==> (#[trigger] names@[b])@ != word@,
        {
            if eq_str(names[j].as_str(), word.as_str()) {
                assert(commands@[i as int].names@[j as int]@ == word@);
                assert(plugin_named(commands@, word@));
                return true;
            }
        }
    }
    false
}

/// The command that the first word of a command line names.
pub fn parse_command(word: &String, commands: &Vec<Extern>) -> (c: BtelCommand)
    ensures
        match builtin_command(word@) {
            Some(b) => c == b,
            None => if plugin_named(commands@, word@) {
                c matches BtelCommand::Extern(x) && x@ == word@
            } else {
                c == BtelCommand::Error
            },
        },
{
    let w = word.as_str();
    if eq_str(w, "e") || eq_str(w, "edit") {
        BtelCommand::Edit
    } else if eq_str(w, "q") || eq_str(w, "quit") {
        BtelCommand::Quit
    } else if eq_str(w, "o") || eq_str(w, "open") {
        BtelCommand::Open
    } else if eq_str(w, "s") || eq_str(w, "save") {
        BtelCommand::Save
    } else if eq_str(w, "c") || eq_str(w, "command") {
        BtelCommand::Command
    } else if eq_str(w, "f") || eq_str(w, "find") {
        BtelCommand::Find
    } else if eq_str(w, "fs") || eq_str(w, "force save") {
        BtelCommand::ForceSave
    } else if eq_str(w, "h") || eq_str(w, "help") {
        BtelCommand::Help
    } else if is_plugin_name(commands, word) {
        BtelCommand::Extern(word.clone())
    } else {
        BtelCommand::Error
    }
}

/// The shell command line made of the words after the first, each followed
/// by a space.
pub open spec fn shell_text(pieces: Seq<Seq<char>>) -> Seq<char>
    decreases pieces.len(),
{
    if pieces.len() <= 1 {
        Seq::empty()
    } else {
        shell_text(pieces.drop_last()) + pieces.last() + " "@
    }
}

/// The shell command line of a `command` command.
pub fn shell_command(pieces: &Vec<String>) -> (s: String)
    ensures
        s@ == shell_text(strings_of(pieces)),
{
    let mut s = String::new();
    let mut i: usize = 1;
    if pieces.len() == 0 {
        return s;
    }
    while i < pieces.len()
        invariant
            1 <= i <= pieces.len(),
            s@ == shell_text(strings_of(pieces).take(i as int)),
        decreases pieces.len() - i,
    {
        let ghost t = strings_of(pieces).take(i + 1);
        assert(t.drop_last() =~= strings_of(pieces).take(i as int));
        s.append(pieces[i].as_str());
        s.append(" ");
        i = i + 1;
    }
    assert(strings_of(pieces).take(pieces.len() as int) =~= strings_of(pieces));
    s
}

/// The pattern stands at byte offset `c` of line `k`, which lies at or
/// after byte offset `x` of line `y`.
pub open spec fn occurs_from(lines: Seq<Seq<char>>, cmd: Seq<char>, x: int, y: int, c: int, k: int) -> bool {
    &&& y <= k < lines.len()
    &&& is_boundary(lines[k], c)
    &&& (k > y || c >= x)
    &&& occurs_at(lines[k], cmd, char_index(lines[k], c))
}

/// A search finds the first place of the pattern at or after its start, in
/// reading order (line, then byte offset), and finds nothing only where
/// the pattern stands nowhere after the start.
pub proof fn law_find_finds_first(lines: Seq<Seq<char>>, cmd: Seq<char>, x: int, y: int)
    requires
        0 <= y < lines.len(),
        is_boundary(lines[y], x),
    ensures
        match find_spec(lines, cmd, x, y) {
            Some((c, k)) => occurs_from(lines, cmd, x, y, c, k) && forall|c2: int, k2: int|
                #[trigger] occurs_from(lines, cmd, x, y, c2, k2) ==> k < k2 || (k == k2 && c <= c2),
            None => forall|c2: int, k2: int| !#[trigger] occurs_from(lines, cmd, x, y, c2, k2),
        },
    decreases lines.len() - y,
{
    let l = lines[y];
    let w = choose|w: int| 0 <= w <= l.len() && byte_offset(l, w) == x;
    lemma_char_index(l, x, w);
    let k0 = char_index(l, x);
    crate::text::lemma_find_seq(l, cmd, k0);
    let f = find_seq(l, cmd, k0);
    // An occurrence on line y at or after x starts at a character index at or after k0.
    assert forall|c2: int| is_boundary(l, c2) && c2 >= x implies char_index(l, c2) >= k0 by {
        let w2 = choose|w2: int| 0 <= w2 <= l.len() && byte_offset(l, w2) == c2;
        lemma_char_index(l, c2, w2);
        if w2 < k0 {
            crate::bytes::lemma_offset_mono(l, w2, k0);
        }
    }
    if f >= 0 {
        let c = byte_offset(l, f) as int;
        lemma_char_index(l, c, f);
        if f > k0 {
            crate::bytes::lemma_offset_mono(l, k0, f);
        }
        assert(occurs_from(lines, cmd, x, y, c, y));
        assert forall|c2: int, k2: int| #[trigger] occurs_from(lines, cmd, x, y, c2, k2) implies y < k2 || (y == k2 && c <= c2) by {
            if k2 == y {
                let j2 = char_index(l, c2);
                let w2 = choose|w2: int| 0 <= w2 <= l.len() && byte_offset(l, w2) == c2;
                lemma_char_index(l, c2, w2);
                assert(j2 >= k0);
                assert(j2 >= f);
                if j2 > f {
                    crate::bytes::lemma_offset_mono(l, f, j2);
                }
            }
        }
    } else {
        assert forall|c2: int| is_boundary(l, c2) && c2 >= x implies !occurs_at(l, cmd, #[trigger] char_index(l, c2)) by {
            assert(char_index(l, c2) >= k0);
        }
        if y + 1 < lines.len() {
            crate::bytes::lemma_offset_ends(lines[y + 1]);
            lemma_char_index(lines[y + 1], 0, 0);
            law_find_finds_first(lines, cmd, 0, y + 1);
            assert forall|c2: int, k2: int| #[trigger] occurs_from(lines, cmd, x, y, c2, k2) implies k2 > y && occurs_from(lines, cmd, 0, y + 1, c2, k2) by {
                if k2 == y {
                    assert(!occurs_at(l, cmd, char_index(l, c2)));
                }
                let w2 = choose|w2: int| 0 <= w2 <= lines[k2].len() && byte_offset(lines[k2], w2) == c2;
            }
        } else {
            assert forall|c2: int, k2: int| !#[trigger] occurs_from(lines, cmd, x, y, c2, k2) by {
                if occurs_from(lines, cmd, x, y, c2, k2) {
                    assert(k2 == y);
                    assert(!occurs_at(l, cmd, char_index(l, c2)));
                }
            }
        }
    }
}

} // verus!

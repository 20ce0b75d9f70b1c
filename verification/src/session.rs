//! One editing session: the state of the editor's main loop, and what each
//! key press and each command line does to it. The loop itself, the reading
//! of keys and the work on files, shells and plugins stand outside; they hand
//! their results back through the `finish_` functions.
use vstd::prelude::*;

use crate::editor::{
    builtin_command, find, find_spec, get_from_history, history_entry, is_plugin_name,
    plugin_named, save_plan, shell_command, shell_text, split_words, words, SavePlan,
};
use crate::text::{chars_of, push_char, slice_vec, string_of, strings_of};
use crate::bytes::{
    byte_len, byte_offset, char_index, char_index_of, is_boundary, lemma_offset_bound, str_byte_len,
};
use crate::lines::{join_lines, line_start};
use crate::textblock::{clamp_column, insert_text, join_with_previous, split_at_cursor};
use crate::{BtelCommand, Display, Extern, Mode};

verus! {

/// A key the editor reacts to.
#[derive(Clone, Copy, Debug, PartialEq, Eq, Structural)]
pub enum Key {
    Char(char),
    Backspace,
    Enter,
    Esc,
    Up,
    Down,
    Left,
    Right,
    Delete,
    Tab,
    Other,
}

/// The state of the editor's main loop.
pub struct EditorState {
    pub input: Vec<String>,
    pub output: String,
    pub vert_cursor: usize,
    pub edit_cursor: usize,
    pub mode: Mode,
    pub command: String,
    pub line_name: String,
    pub file_name: String,
    pub saved: bool,
    pub scroll_y: usize,
    pub scroll_x: usize,
    pub display: Display,
    pub hist_cursor: usize,
    pub files_in_folder: Vec<String>,
    pub opened_folder: Option<String>,
    pub targets_folder: bool,
    pub folder_cursor: usize,
    pub folder_error: Option<String>,
}

/// The state of the editor's main loop, as mathematical values.
pub struct EditorView {
    pub input: Seq<Seq<char>>,
    pub output: Seq<char>,
    pub vert: int,
    pub edit: int,
    pub mode: Mode,
    pub command: Seq<char>,
    pub line_name: Seq<char>,
    pub file_name: Seq<char>,
    pub saved: bool,
    pub scroll_y: int,
    pub scroll_x: int,
    pub display: Display,
    pub hist_cursor: int,
    pub files: Seq<Seq<char>>,
    pub opened_folder: Option<Seq<char>>,
    pub targets_folder: bool,
    pub folder_cursor: int,
    pub folder_error: Option<Seq<char>>,
}

/// Work outside the library that a key press or a command line asks for.
pub enum Request {
    /// Nothing more to do.
    Done,
    /// Leave the editor.
    Exit,
    /// Run this shell command line and show what it prints.
    Shell(String),
    /// Open this file, or else this folder.
    Open(String),
    /// Write the text to a file.
    Save(SavePlan),
    /// Run the plugins of this command name, with these extra words.
    Plugin(String, Vec<String>),
}

/// A request, as mathematical values.
pub enum RequestView {
    Done,
    Exit,
    Shell(Seq<char>),
    Open(Seq<char>),
    Save(Seq<char>, Seq<char>),
    Plugin(Seq<char>, Seq<Seq<char>>),
}

impl Request {
    pub open spec fn view(&self) -> RequestView {
        match self {
            Request::Done => RequestView::Done,
            Request::Exit => RequestView::Exit,
            Request::Shell(s) => RequestView::Shell(s@),
            Request::Open(p) => RequestView::Open(p@),
            Request::Save(plan) => RequestView::Save(plan.path@, plan.file_name@),
            Request::Plugin(n, extra) => RequestView::Plugin(n@, strings_of(extra)),
        }
    }
}

pub open spec fn opt_view(o: Option<String>) -> Option<Seq<char>> {
    match o {
        Some(s) => Some(s@),
        None => None,
    }
}

impl EditorState {
    pub open spec fn view(&self) -> EditorView {
        EditorView {
            input: strings_of(&self.input),
            output: self.output@,
            vert: self.vert_cursor as int,
            edit: self.edit_cursor as int,
            mode: self.mode,
            command: self.command@,
            line_name: self.line_name@,
            file_name: self.file_name@,
            saved: self.saved,
            scroll_y: self.scroll_y as int,
            scroll_x: self.scroll_x as int,
            display: self.display,
            hist_cursor: self.hist_cursor as int,
            files: strings_of(&self.files_in_folder),
            opened_folder: opt_view(self.opened_folder),
            targets_folder: self.targets_folder,
            folder_cursor: self.folder_cursor as int,
            folder_error: opt_view(self.folder_error),
        }
    }

    /// The state at the start of a session: one empty line, the command line
    /// active, the help shown.
    pub fn new() -> (s: EditorState)
        ensures
            s.view() == (EditorView {
                input: seq![Seq::<char>::empty()],
                output: Seq::empty(),
                vert: 0,
                edit: 0,
                mode: Mode::Command,
                command: Seq::empty(),
                line_name: "Command"@,
                file_name: "New File"@,
                saved: true,
                scroll_y: 0,
                scroll_x: 0,
                display: Display::Help,
                hist_cursor: 0,
                files: Seq::empty(),
                opened_folder: None,
                targets_folder: false,
                folder_cursor: 0,
                folder_error: None,
            }),
    {
        let mut input: Vec<String> = Vec::new();
        input.push(String::new());
        let s = EditorState {
            input,
            output: String::new(),
            vert_cursor: 0,
            edit_cursor: 0,
            mode: Mode::Command,
            command: String::new(),
            line_name: "Command".to_owned(),
            file_name: "New File".to_owned(),
            saved: true,
            scroll_y: 0,
            scroll_x: 0,
            display: Display::Help,
            hist_cursor: 0,
            files_in_folder: Vec::new(),
            opened_folder: None,
            targets_folder: false,
            folder_cursor: 0,
            folder_error: None,
        };
        assert(strings_of(&s.input) =~= seq![Seq::<char>::empty()]);
        assert(strings_of(&s.files_in_folder) =~= Seq::<Seq<char>>::empty());
        s
    }
}

/// The built-in command a command line names: by its first word, or, for
/// `force save`, by its first two.
pub open spec fn line_command(pieces: Seq<Seq<char>>) -> Option<BtelCommand> {
    if pieces.len() > 1 && pieces[0] == "force"@ && pieces[1] == "save"@ {
        Some(BtelCommand::ForceSave)
    } else {
        builtin_command(pieces[0])
    }
}

/// What a command line does to the state, and the work it asks for.
pub open spec fn command_step(s: EditorView, cmd: Seq<char>, commands: Seq<Extern>) -> (EditorView, RequestView) {
    let pieces = words(cmd);
    if pieces.len() == 0 {
        (s, RequestView::Done)
    } else {
        let w = pieces[0];
        match line_command(pieces) {
            Some(BtelCommand::Command) => if pieces.len() > 1 {
                (EditorView { display: Display::Output, ..s }, RequestView::Shell(shell_text(pieces)))
            } else {
                (EditorView { line_name: "Command not found."@, ..s }, RequestView::Done)
            },
            Some(BtelCommand::Open) => if pieces.len() == 2 {
                if s.saved {
                    (s, RequestView::Open(pieces[1]))
                } else {
                    (
                        EditorView {
                            line_name: "Unsaved Changes"@,
                            folder_error: Some("Unsaved Changes"@),
                            ..s
                        },
                        RequestView::Done,
                    )
                }
            } else {
                (EditorView { line_name: "Command not found."@, ..s }, RequestView::Done)
            },
            Some(BtelCommand::Save) => {
                let arg = if pieces.len() > 1 { pieces[1] } else { Seq::empty() };
                if arg.len() == 0 && s.file_name != "New File"@ {
                    (s, RequestView::Save(s.file_name, s.file_name))
                } else {
                    (s, RequestView::Save(arg, arg))
                }
            },
            Some(BtelCommand::Edit) => (EditorView { mode: Mode::Edit, ..s }, RequestView::Done),
            Some(BtelCommand::ForceSave) => (EditorView { saved: true, ..s }, RequestView::Done),
            Some(BtelCommand::Quit) => (EditorView { mode: Mode::Quit, ..s }, RequestView::Done),
            Some(BtelCommand::Find) => (EditorView { mode: Mode::Find(0, 0), ..s }, RequestView::Done),
            Some(BtelCommand::Help) => (EditorView { display: Display::Help, ..s }, RequestView::Done),
            _ => if plugin_named(commands, w) {
                (s, RequestView::Plugin(w, pieces.subrange(1, pieces.len() as int)))
            } else {
                (EditorView { line_name: "Command not found."@, ..s }, RequestView::Done)
            },
        }
    }
}

/// Runs a command line: changes the state as far as it can by itself, and
/// asks for the rest of the work.
pub fn exc_command(state: &mut EditorState, command: &String, commands: &Vec<Extern>) -> (r: Request)
    ensures
        (final(state).view(), r.view()) == command_step(old(state).view(), command@, commands@),
{
    let pieces = split_words(command.as_str());
    if pieces.len() == 0 {
        return Request::Done;
    }
    let ghost w = strings_of(&pieces)[0];
    assert(pieces@[0]@ == w);
    let btel_command = if pieces.len() > 1 && crate::text::eq_str(pieces[0].as_str(), "force")
        && crate::text::eq_str(pieces[1].as_str(), "save") {
        BtelCommand::ForceSave
    } else {
        crate::editor::parse_command(&pieces[0], commands)
    };
    match btel_command {
        BtelCommand::Command => {
            if pieces.len() > 1 {
                state.display = Display::Output;
                Request::Shell(shell_command(&pieces))
            } else {
                state.line_name = "Command not found.".to_owned();
                Request::Done
            }
        },
        BtelCommand::Open => {
            if pieces.len() == 2 {
                if state.saved {
                    Request::Open(pieces[1].clone())
                } else {
                    state.line_name = "Unsaved Changes".to_owned();
                    state.folder_error = Some("Unsaved Changes".to_owned());
                    Request::Done
                }
            } else {
                state.line_name = "Command not found.".to_owned();
                Request::Done
            }
        },
        BtelCommand::Save => {
            let arg = if pieces.len() > 1 { pieces[1].clone() } else { String::new() };
            Request::Save(save_plan(&arg, &state.file_name))
        },
        BtelCommand::Edit => {
            state.mode = Mode::Edit;
            Request::Done
        },
        BtelCommand::ForceSave => {
            state.saved = true;
            Request::Done
        },
        BtelCommand::Quit => {
            state.mode = Mode::Quit;
            Request::Done
        },
        BtelCommand::Find => {
            state.mode = Mode::Find(0, 0);
            Request::Done
        },
        BtelCommand::Help => {
            state.display = Display::Help;
            Request::Done
        },
        BtelCommand::Extern(name) => {
            let mut extra: Vec<String> = Vec::new();
            for i in 1..pieces.len()
                invariant
                    extra.len() == i - 1,
                    forall|j: int| 0 <= j < i - 1 ==> (#[trigger] extra@[j])@ == pieces@[j + 1]@,
            {
                extra.push(pieces[i].clone());
            }
            assert(strings_of(&extra) =~= strings_of(&pieces).subrange(1, pieces.len() as int));
            Request::Plugin(name, extra)
        },
        _ => {
            state.line_name = "Command not found.".to_owned();
            Request::Done
        },
    }
}


/// Lines after a delete key at `(v, e)` in the editing mode of the main
/// loop, `e` a byte offset: just before the last byte of a line the last
/// character goes, before that the character after the next byte; at the
/// end of a line the next line joins.
pub open spec fn main_delete_result(lines: Seq<Seq<char>>, v: int, e: int) -> Seq<Seq<char>> {
    let l = lines[v];
    if e != byte_len(l) {
        if e + 1 == byte_len(l) {
            lines.update(v, l.drop_last())
        } else {
            lines.update(v, l.remove(char_index(l, e + 1)))
        }
    } else if v + 1 != lines.len() {
        join_with_previous(lines, v + 1)
    } else {
        lines
    }
}

pub open spec fn is_ascii_char(c: char) -> bool {
    c <= '\x7f'
}

/// A key press can be taken in the editing mode the way the main loop takes
/// it: the line under the cursor exists where it is read, and each byte
/// offset at which a character is put, taken or cut stands at the start of
/// a character (the cursor is a byte offset into the line).
pub open spec fn edit_key_ok(s: EditorView, key: Key) -> bool {
    let (l, v, e) = (s.input, s.vert, s.edit);
    match key {
        Key::Char(x) => is_ascii_char(x) ==> 0 <= v < l.len() && is_boundary(l[v], e) && e + 1 <= usize::MAX,
        Key::Backspace => {
            &&& e != 0 ==> 0 <= v < l.len() && (e == byte_len(l[v]) || (is_boundary(l[v], e - 1) && e - 1 < byte_len(
                l[v],
            )))
            &&& e == 0 && v != 0 ==> v < l.len()
        },
        Key::Delete => 0 <= v < l.len() && (e != byte_len(l[v]) ==> (e + 1 == byte_len(l[v]) || (is_boundary(
            l[v],
            e + 1,
        ) && e + 1 < byte_len(l[v])))),
        Key::Enter => 0 <= v < l.len() && is_boundary(l[v], e),
        Key::Tab => 0 <= v < l.len() && is_boundary(l[v], e) && e + 4 <= usize::MAX,
        Key::Left => e == 0 && v != 0 ==> v - 1 < l.len(),
        Key::Right => v < l.len(),
        Key::Up => v != 0 ==> v - 1 < l.len(),
        _ => true,
    }
}

/// What a key press does in the editing mode; the cursor's column is a byte
/// offset into its line.
pub open spec fn edit_step(s: EditorView, key: Key) -> EditorView {
    let (l, v, e) = (s.input, s.vert, s.edit);
    match key {
        Key::Char(x) => if is_ascii_char(x) {
            EditorView { input: l.update(v, l[v].insert(char_index(l[v], e), x)), edit: e + 1, saved: false, ..s }
        } else {
            s
        },
        Key::Backspace => if e != 0 {
            if e == byte_len(l[v]) {
                EditorView { input: l.update(v, l[v].drop_last()), edit: e - 1, ..s }
            } else {
                EditorView {
                    input: l.update(v, l[v].remove(char_index(l[v], e - 1))),
                    edit: e - 1,
                    saved: false,
                    ..s
                }
            }
        } else if v != 0 {
            EditorView { input: join_with_previous(l, v), vert: v - 1, edit: byte_len(l[v - 1]) as int, ..s }
        } else {
            s
        },
        Key::Delete => EditorView { input: main_delete_result(l, v, e), saved: false, ..s },
        Key::Enter => EditorView { input: split_at_cursor(l, v, char_index(l[v], e)), vert: v + 1, edit: 0, ..s },
        Key::Esc => EditorView { mode: Mode::Command, line_name: "Command"@, ..s },
        Key::Left => if e != 0 {
            EditorView { edit: e - 1, ..s }
        } else if v != 0 {
            EditorView { vert: v - 1, edit: byte_len(l[v - 1]) as int, ..s }
        } else {
            s
        },
        Key::Right => if e + 1 <= byte_len(l[v]) {
            EditorView { edit: e + 1, ..s }
        } else if v + 1 != l.len() {
            EditorView { vert: v + 1, edit: 0, ..s }
        } else {
            s
        },
        Key::Up => if v != 0 {
            EditorView { vert: v - 1, edit: clamp_column(byte_len(l[v - 1]) as int, e), ..s }
        } else {
            s
        },
        Key::Down => if v + 2 <= l.len() {
            EditorView { vert: v + 1, edit: clamp_column(byte_len(l[v + 1]) as int, e), ..s }
        } else {
            s
        },
        Key::Tab => EditorView {
            input: insert_text(l, v, char_index(l[v], e), seq![' ', ' ', ' ', ' ']),
            edit: e + 4,
            saved: false,
            ..s
        },
        Key::Other => s,
    }
}

/// The characters of line `v`.
fn line_at(input: &Vec<String>, v: usize) -> (l: Vec<char>)
    requires
        v < input.len(),
    ensures
        l@ == strings_of(input)[v as int],
{
    chars_of(input[v].as_str())
}

/// Puts `l` as line `v`.
fn set_line(input: &mut Vec<String>, v: usize, l: &Vec<char>)
    requires
        v < old(input).len(),
    ensures
        strings_of(final(input)) == strings_of(old(input)).update(v as int, l@),
{
    let s = string_of(l);
    input.set(v, s);
    assert(strings_of(input) =~= strings_of(old(input)).update(v as int, l@));
}

/// Removes the last character of `s` (`String::pop`).
pub fn pop_char(s: &mut String)
    ensures
        final(s)@ == if old(s)@.len() > 0 { old(s)@.drop_last() } else { old(s)@ },
{
    let mut v = chars_of(s.as_str());
    if v.len() > 0 {
        v.pop();
        *s = string_of(&v);
    }
}

/// Puts `l` as a new line `i`.
fn insert_line(input: &mut Vec<String>, i: usize, l: &Vec<char>)
    requires
        i <= old(input).len(),
    ensures
        strings_of(final(input)) == strings_of(old(input)).insert(i as int, l@),
{
    let s = string_of(l);
    input.insert(i, s);
    assert(strings_of(input) =~= strings_of(old(input)).insert(i as int, l@));
}

/// Removes line `i`.
fn remove_line(input: &mut Vec<String>, i: usize)
    requires
        i < old(input).len(),
    ensures
        strings_of(final(input)) == strings_of(old(input)).remove(i as int),
{
    let _ = input.remove(i);
    assert(strings_of(input) =~= strings_of(old(input)).remove(i as int));
}

/// `a` followed by `b`.
fn concat_chars(a: &Vec<char>, b: &Vec<char>) -> (r: Vec<char>)
    ensures
        r@ == a@ + b@,
{
    let mut r = slice_vec(a, 0, a.len());
    assert(a@.subrange(0, a.len() as int) =~= a@);
    for i in 0..b.len()
        invariant
            r@ == a@ + b@.take(i as int),
    {
        r.push(b[i]);
        assert(r@ =~= a@ + b@.take(i + 1));
    }
    assert(b@.take(b.len() as int) =~= b@);
    r
}

/// The length in bytes of line `v`.
fn line_bytes(input: &Vec<String>, v: usize) -> (n: usize)
    requires
        v < input.len(),
    ensures
        n == byte_len(strings_of(input)[v as int]),
{
    str_byte_len(input[v].as_str())
}

/// Whether a character of line `v` starts at the byte offset `b` (or the
/// line ends there).
fn boundary_at(input: &Vec<String>, v: usize, b: usize) -> (r: bool)
    requires
        v < input.len(),
    ensures
        r == is_boundary(strings_of(input)[v as int], b as int),
{
    let _ = line_bytes(input, v);
    char_index_of(&line_at(input, v), b).is_some()
}

/// The character of `line` that starts at the byte offset `b`.
fn index_at(line: &Vec<char>, nb: usize, b: usize) -> (k: usize)
    requires
        nb == byte_len(line@),
        is_boundary(line@, b as int),
    ensures
        k <= line.len(),
        k == char_index(line@, b as int),
{
    match char_index_of(line, b) {
        Some(k) => k,
        None => {
            assert(false);
            0
        },
    }
}

fn edit_write(state: &mut EditorState, x: char)
    requires
        edit_key_ok(old(state).view(), Key::Char(x)),
    ensures
        final(state).view() == edit_step(old(state).view(), Key::Char(x)),
{
    let ghost s = state.view();
    let ghost l = s.input;
    if x <= '\x7f' {
        let v = state.vert_cursor;
        let e = state.edit_cursor;
        let mut line = line_at(&state.input, v);
        let k = index_at(&line, line_bytes(&state.input, v), e);
        line.insert(k, x);
        set_line(&mut state.input, v, &line);
        state.edit_cursor = e + 1;
        state.saved = false;
        assert(state.view() =~= edit_step(s, Key::Char(x)));
    }
}

fn edit_backspace(state: &mut EditorState)
    requires
        edit_key_ok(old(state).view(), Key::Backspace),
    ensures
        final(state).view() == edit_step(old(state).view(), Key::Backspace),
{
    let ghost s = state.view();
    let ghost l = s.input;
    let v = state.vert_cursor;
    let e = state.edit_cursor;
    if e != 0 {
        let mut line = line_at(&state.input, v);
        let nb = line_bytes(&state.input, v);
        if e == nb {
            proof {
                crate::bytes::lemma_offset_ends(line@);
            }
            assert(line.len() > 0);
            line.pop();
            assert(line@ =~= l[v as int].drop_last());
            state.edit_cursor = e - 1;
        } else {
            let k = index_at(&line, nb, e - 1);
            proof {
                lemma_offset_bound(line@, k as int);
                crate::bytes::lemma_offset_ends(line@);
            }
            assert(k < line.len());
            line.remove(k);
            state.edit_cursor = e - 1;
            state.saved = false;
        }
        set_line(&mut state.input, v, &line);
    } else if v != 0 {
        let rest = line_at(&state.input, v);
        let prev = line_at(&state.input, v - 1);
        let nb = line_bytes(&state.input, v - 1);
        let joined = concat_chars(&prev, &rest);
        remove_line(&mut state.input, v);
        assert(state.input.len() == strings_of(&state.input).len());
        set_line(&mut state.input, v - 1, &joined);
        assert(strings_of(&state.input) =~= join_with_previous(l, v as int));
        state.vert_cursor = v - 1;
        state.edit_cursor = nb;
    }
    assert(state.view() =~= edit_step(s, Key::Backspace));
}

fn edit_delete(state: &mut EditorState)
    requires
        edit_key_ok(old(state).view(), Key::Delete),
    ensures
        final(state).view() == edit_step(old(state).view(), Key::Delete),
{
    let ghost s = state.view();
    let ghost l = s.input;
    let v = state.vert_cursor;
    let e = state.edit_cursor;
    let mut line = line_at(&state.input, v);
    let nb = line_bytes(&state.input, v);
    assert(v < state.input.len());
    if e != nb {
        if e + 1 == nb {
            proof {
                crate::bytes::lemma_offset_ends(line@);
            }
            assert(line.len() > 0);
            line.pop();
            assert(line@ =~= l[v as int].drop_last());
        } else {
            let k = index_at(&line, nb, e + 1);
            proof {
                lemma_offset_bound(line@, k as int);
                crate::bytes::lemma_offset_ends(line@);
            }
            assert(k < line.len());
            line.remove(k);
        }
        set_line(&mut state.input, v, &line);
    } else if v + 1 != state.input.len() {
        let rest = line_at(&state.input, v + 1);
        let joined = concat_chars(&line, &rest);
        remove_line(&mut state.input, v + 1);
        assert(state.input.len() == strings_of(&state.input).len());
        set_line(&mut state.input, v, &joined);
        assert(strings_of(&state.input) =~= join_with_previous(l, v + 1));
    }
    state.saved = false;
    assert(state.view() =~= edit_step(s, Key::Delete));
}

fn edit_enter(state: &mut EditorState)
    requires
        edit_key_ok(old(state).view(), Key::Enter),
    ensures
        final(state).view() == edit_step(old(state).view(), Key::Enter),
{
    let ghost s = state.view();
    let ghost l = s.input;
    let v = state.vert_cursor;
    let e = state.edit_cursor;
    let line = line_at(&state.input, v);
    let k = index_at(&line, line_bytes(&state.input, v), e);
    let left = slice_vec(&line, 0, k);
    let right = slice_vec(&line, k, line.len());
    set_line(&mut state.input, v, &left);
    assert(state.input.len() == strings_of(&state.input).len());
    insert_line(&mut state.input, v + 1, &right);
    assert(strings_of(&state.input) =~= split_at_cursor(l, v as int, k as int));
    state.vert_cursor = v + 1;
    state.edit_cursor = 0;
    assert(state.view() =~= edit_step(s, Key::Enter));
}

fn edit_tab(state: &mut EditorState)
    requires
        edit_key_ok(old(state).view(), Key::Tab),
    ensures
        final(state).view() == edit_step(old(state).view(), Key::Tab),
{
    let ghost s = state.view();
    let ghost l = s.input;
    let v = state.vert_cursor;
    let e = state.edit_cursor;
    let line = line_at(&state.input, v);
    let k = index_at(&line, line_bytes(&state.input, v), e);
    let mut spaces: Vec<char> = Vec::new();
    spaces.push(' ');
    spaces.push(' ');
    spaces.push(' ');
    spaces.push(' ');
    let head = concat_chars(&slice_vec(&line, 0, k), &spaces);
    let n = concat_chars(&head, &slice_vec(&line, k, line.len()));
    set_line(&mut state.input, v, &n);
    state.edit_cursor = e + 4;
    state.saved = false;
    assert(spaces@ =~= seq![' ', ' ', ' ', ' ']);
    assert(state.view() =~= edit_step(s, Key::Tab));
}

fn edit_move(state: &mut EditorState, key: Key)
    requires
        key == Key::Left || key == Key::Right || key == Key::Up || key == Key::Down,
        edit_key_ok(old(state).view(), key),
    ensures
        final(state).view() == edit_step(old(state).view(), key),
{
    let ghost s = state.view();
    let v = state.vert_cursor;
    let e = state.edit_cursor;
    assert(state.input.len() == s.input.len());
    match key {
        Key::Left => {
            if e != 0 {
                state.edit_cursor = e - 1;
            } else if v != 0 {
                state.vert_cursor = v - 1;
                state.edit_cursor = line_bytes(&state.input, v - 1);
            }
        },
        Key::Right => {
            if e < line_bytes(&state.input, v) {
                state.edit_cursor = e + 1;
            } else if v + 1 != state.input.len() {
                state.vert_cursor = v + 1;
                state.edit_cursor = 0;
            }
        },
        Key::Up => {
            if v != 0 {
                state.vert_cursor = v - 1;
                let len = line_bytes(&state.input, v - 1);
                if len < 2 || len - 2 < e {
                    state.edit_cursor = len;
                }
            }
        },
        _ => {
            if state.input.len() >= 2 && v <= state.input.len() - 2 {
                state.vert_cursor = v + 1;
                let len = line_bytes(&state.input, v + 1);
                if len < 2 || len - 2 < e {
                    state.edit_cursor = len;
                }
            }
        },
    }
    assert(state.view() =~= edit_step(s, key));
}

/// A key press in the editing mode.
pub fn edit_key(state: &mut EditorState, key: Key)
    requires
        edit_key_ok(old(state).view(), key),
    ensures
        final(state).view() == edit_step(old(state).view(), key),
{
    match key {
        Key::Char(x) => edit_write(state, x),
        Key::Backspace => edit_backspace(state),
        Key::Delete => edit_delete(state),
        Key::Enter => edit_enter(state),
        Key::Tab => edit_tab(state),
        Key::Esc => {
            let ghost s = state.view();
            state.mode = Mode::Command;
            state.line_name = "Command".to_owned();
            assert(state.view() =~= edit_step(s, key));
        },
        Key::Other => {},
        _ => edit_move(state, key),
    }
}


/// `s` without its last character, if it has one.
pub open spec fn pop_seq(s: Seq<char>) -> Seq<char> {
    if s.len() > 0 { s.drop_last() } else { s }
}

/// Every line is shorter in bytes than the largest column a cursor can
/// hold.
pub open spec fn lines_bounded(lines: Seq<Seq<char>>) -> bool {
    forall|i: int| 0 <= i < lines.len() ==> byte_len(#[trigger] lines[i]) < usize::MAX
}

/// A search can start from `(x, y)`: the line exists, or is just past the
/// last one, and the byte offset `x` starts a character of it (or ends it).
pub open spec fn find_key_ok(s: EditorView, key: Key, x: int, y: int) -> bool {
    key == Key::Enter ==> {
        &&& y <= s.input.len()
        &&& y < s.input.len() ==> is_boundary(s.input[y], x)
        &&& lines_bounded(s.input)
    }
}

/// What a key press does in the search mode, from the search position
/// `(x, y)`.
pub open spec fn find_step(s0: EditorView, key: Key, x: int, y: int) -> EditorView {
    let s = EditorView { line_name: "Find"@, ..s0 };
    match key {
        Key::Char(c) => EditorView { command: s.command.push(c), mode: Mode::Find(0, 0), ..s },
        Key::Backspace => EditorView { command: pop_seq(s.command), mode: Mode::Find(0, 0), ..s },
        Key::Enter => match find_spec(s.input, s.command, x, y) {
            Some((xc, yc)) => EditorView {
                vert: yc,
                edit: xc,
                mode: Mode::Find((xc + 1) as usize, yc as usize),
                ..s
            },
            None => if x == 0 && y == 0 {
                EditorView { line_name: "Pattern not found"@, ..s }
            } else {
                EditorView { mode: Mode::Find(0, 0), ..s }
            },
        },
        Key::Esc => EditorView {
            command: Seq::empty(),
            mode: Mode::Command,
            line_name: "Command"@,
            ..s
        },
        _ => s,
    }
}

/// A found place lies within its line.
proof fn lemma_find_spec_bounds(lines: Seq<Seq<char>>, cmd: Seq<char>, x: int, y: int)
    ensures
        match find_spec(lines, cmd, x, y) {
            Some((xc, yc)) => 0 <= yc < lines.len() && 0 <= xc <= byte_len(lines[yc]) && y <= yc,
            None => true,
        },
    decreases lines.len() - y,
{
    if 0 <= y < lines.len() {
        let l = lines[y];
        let from = char_index(l, x);
        if find_seq_neg(l, cmd, from) {
            lemma_find_spec_bounds(lines, cmd, 0, y + 1);
        } else if from >= 0 {
            crate::text::lemma_find_seq(l, cmd, from);
            lemma_offset_bound(l, crate::text::find_seq(l, cmd, from));
        }
    }
}

spec fn find_seq_neg(s: Seq<char>, p: Seq<char>, x: int) -> bool {
    crate::text::find_seq(s, p, x) < 0
}

/// A key press in the search mode.
pub fn find_key(state: &mut EditorState, key: Key, x: usize, y: usize)
    requires
        find_key_ok(old(state).view(), key, x as int, y as int),
    ensures
        final(state).view() == find_step(old(state).view(), key, x as int, y as int),
{
    let ghost s0 = state.view();
    state.line_name = "Find".to_owned();
    let ghost s = state.view();
    match key {
        Key::Char(c) => {
            push_char(&mut state.command, c);
            state.mode = Mode::Find(0, 0);
        },
        Key::Backspace => {
            pop_char(&mut state.command);
            state.mode = Mode::Find(0, 0);
        },
        Key::Enter => {
            assert(state.input.len() == s.input.len());
            let found = find(&state.command, &state.input, x, y);
            proof {
                lemma_find_spec_bounds(s.input, s.command, x as int, y as int);
            }
            match found {
                Some((xc, yc)) => {
                    assert(byte_len(s.input[yc as int]) < usize::MAX);
                    state.vert_cursor = yc;
                    state.edit_cursor = xc;
                    state.mode = Mode::Find(xc + 1, yc);
                },
                None => {
                    if x == 0 && y == 0 {
                        state.line_name = "Pattern not found".to_owned();
                    } else {
                        state.mode = Mode::Find(0, 0);
                    }
                },
            }
        },
        Key::Esc => {
            state.command = String::new();
            state.mode = Mode::Command;
            state.line_name = "Command".to_owned();
        },
        _ => {},
    }
    assert(state.view() =~= find_step(s0, key, x as int, y as int));
}


/// The command line that opens the chosen entry of the opened folder.
pub open spec fn open_entry_command(folder: Seq<char>, entry: Seq<char>) -> Seq<char> {
    "o "@ + folder + "/"@ + entry
}

/// A key press can be taken on the command line: stepping the history back
/// stays within it, stepping up through an empty folder list has no entry
/// to land on, and opening the chosen entry needs an opened folder and an
/// entry under the cursor.
pub open spec fn command_key_ok(s: EditorView, key: Key, history: Seq<Seq<char>>) -> bool {
    match key {
        Key::Down => !s.targets_folder ==> (s.hist_cursor > 0 ==> s.hist_cursor - 1 <= history.len()),
        Key::Up => s.targets_folder ==> (s.folder_cursor == 0 ==> s.files.len() >= 1),
        Key::Enter => s.targets_folder ==> (s.opened_folder is Some && s.folder_cursor < s.files.len()),
        _ => true,
    }
}

/// What a key press does on the command line: the new state, the new
/// history, and the work it asks for.
pub open spec fn command_key_step(s0: EditorView, key: Key, history: Seq<Seq<char>>, commands: Seq<Extern>) -> (
    EditorView,
    Seq<Seq<char>>,
    RequestView,
) {
    let s = EditorView { line_name: "Command"@, display: Display::Input, ..s0 };
    match key {
        Key::Char(c) => (EditorView { command: s.command.push(c), ..s }, history, RequestView::Done),
        Key::Backspace => (EditorView { command: pop_seq(s.command), ..s }, history, RequestView::Done),
        Key::Enter => if !s.targets_folder {
            let (s1, r) = command_step(s, s.command, commands);
            (
                EditorView { hist_cursor: 0, command: Seq::empty(), ..s1 },
                if s.command.len() > 0 { history.push(s.command) } else { history },
                r,
            )
        } else {
            let (s1, r) = command_step(s, open_entry_command(s.opened_folder->0, s.files[s.folder_cursor]), commands);
            (s1, history, r)
        },
        Key::Esc => (EditorView { command: Seq::empty(), ..s }, history, RequestView::Done),
        Key::Up => if !s.targets_folder {
            if s.hist_cursor + 1 < history.len() {
                (
                    EditorView {
                        hist_cursor: s.hist_cursor + 1,
                        command: history_entry(history, s.hist_cursor + 1),
                        ..s
                    },
                    history,
                    RequestView::Done,
                )
            } else {
                (EditorView { command: Seq::empty(), hist_cursor: 0, ..s }, history, RequestView::Done)
            }
        } else {
            (
                EditorView {
                    folder_cursor: if s.folder_cursor > 0 { s.folder_cursor - 1 } else { s.files.len() - 1 },
                    ..s
                },
                history,
                RequestView::Done,
            )
        },
        Key::Down => if !s.targets_folder {
            if s.hist_cursor > 0 {
                (
                    EditorView {
                        hist_cursor: s.hist_cursor - 1,
                        command: history_entry(history, s.hist_cursor - 1),
                        ..s
                    },
                    history,
                    RequestView::Done,
                )
            } else {
                (EditorView { command: Seq::empty(), ..s }, history, RequestView::Done)
            }
        } else {
            (
                EditorView {
                    folder_cursor: if s.folder_cursor + 1 < s.files.len() { s.folder_cursor + 1 } else { 0 },
                    ..s
                },
                history,
                RequestView::Done,
            )
        },
        Key::Right => (
            EditorView { targets_folder: if s.opened_folder is Some { false } else { s.targets_folder }, ..s },
            history,
            RequestView::Done,
        ),
        Key::Left => (
            EditorView { targets_folder: if s.opened_folder is Some { true } else { s.targets_folder }, ..s },
            history,
            RequestView::Done,
        ),
        _ => (s, history, RequestView::Done),
    }
}

/// A key press on the command line.
pub fn command_key(state: &mut EditorState, key: Key, history: &mut Vec<String>, commands: &Vec<Extern>) -> (r: Request)
    requires
        command_key_ok(old(state).view(), key, strings_of(old(history))),
    ensures
        (final(state).view(), strings_of(final(history)), r.view()) == command_key_step(
            old(state).view(),
            key,
            strings_of(old(history)),
            commands@,
        ),
{
    let ghost s0 = state.view();
    let ghost h = strings_of(history);
    state.line_name = "Command".to_owned();
    state.display = Display::Input;
    let ghost s = state.view();
    assert(s == EditorView { line_name: "Command"@, display: Display::Input, ..s0 });
    assert(history.len() == h.len());
    assert(state.files_in_folder.len() == s.files.len());
    match key {
        Key::Char(c) => {
            push_char(&mut state.command, c);
            assert(state.view() =~= EditorView { command: s.command.push(c), ..s });
            Request::Done
        },
        Key::Backspace => {
            pop_char(&mut state.command);
            assert(state.view() =~= EditorView { command: pop_seq(s.command), ..s });
            Request::Done
        },
        Key::Enter => {
            if !state.targets_folder {
                let command = state.command.clone();
                let r = exc_command(state, &command, commands);
                let ghost s1 = state.view();
                state.hist_cursor = 0;
                let nonempty = chars_of(command.as_str()).len() > 0;
                if nonempty {
                    history.push(command);
                    assert(strings_of(history) =~= h.push(s.command));
                }
                state.command = String::new();
                assert(state.view() =~= EditorView { hist_cursor: 0, command: Seq::empty(), ..s1 });
                r
            } else {
                let mut line = "o ".to_owned();
                match &state.opened_folder {
                    Some(f) => line.append(f.as_str()),
                    None => {},
                }
                line.append("/");
                line.append(state.files_in_folder[state.folder_cursor].as_str());
                assert(line@ =~= open_entry_command(s.opened_folder->0, s.files[s.folder_cursor]));
                exc_command(state, &line, commands)
            }
        },
        Key::Esc => {
            state.command = String::new();
            assert(state.view() =~= EditorView { command: Seq::empty(), ..s });
            Request::Done
        },
        Key::Up => {
            if !state.targets_folder {
                if history.len() > 0 && state.hist_cursor < history.len() - 1 {
                    state.hist_cursor = state.hist_cursor + 1;
                    state.command = get_from_history(history, &state.hist_cursor);
                } else {
                    state.command = String::new();
                    state.hist_cursor = 0;
                }
            } else {
                if state.folder_cursor > 0 {
                    state.folder_cursor = state.folder_cursor - 1;
                } else {
                    state.folder_cursor = state.files_in_folder.len() - 1;
                }
            }
            assert(state.view() =~= command_key_step(s0, key, h, commands@).0);
            Request::Done
        },
        Key::Down => {
            if !state.targets_folder {
                if state.hist_cursor > 0 {
                    state.hist_cursor = state.hist_cursor - 1;
                    state.command = get_from_history(history, &state.hist_cursor);
                } else {
                    state.command = String::new();
                }
            } else {
                if state.files_in_folder.len() > 0 && state.folder_cursor < state.files_in_folder.len() - 1 {
                    state.folder_cursor = state.folder_cursor + 1;
                } else {
                    state.folder_cursor = 0;
                }
            }
            assert(state.view() =~= command_key_step(s0, key, h, commands@).0);
            Request::Done
        },
        Key::Right => {
            if state.opened_folder.is_some() {
                state.targets_folder = false;
            }
            assert(state.view() =~= command_key_step(s0, key, h, commands@).0);
            Request::Done
        },
        Key::Left => {
            if state.opened_folder.is_some() {
                state.targets_folder = true;
            }
            assert(state.view() =~= command_key_step(s0, key, h, commands@).0);
            Request::Done
        },
        _ => Request::Done,
    }
}

/// A key press can be taken in the current mode without the main loop
/// failing.
pub open spec fn key_ok(s: EditorView, key: Key, history: Seq<Seq<char>>) -> bool {
    match s.mode {
        Mode::Command => command_key_ok(s, key, history),
        Mode::Find(x, y) => find_key_ok(s, key, x as int, y as int),
        Mode::Edit => edit_key_ok(s, key),
        _ => true,
    }
}

/// What a key press does: the folder error is cleared, then the current
/// mode decides; in the quit mode any key leaves the editor when all is
/// saved, and goes back to the command line otherwise.
pub open spec fn key_step(s0: EditorView, key: Key, history: Seq<Seq<char>>, commands: Seq<Extern>) -> (
    EditorView,
    Seq<Seq<char>>,
    RequestView,
) {
    let s = EditorView { folder_error: None, ..s0 };
    match s.mode {
        Mode::Command => command_key_step(s, key, history, commands),
        Mode::Find(x, y) => (find_step(s, key, x as int, y as int), history, RequestView::Done),
        Mode::Edit => (edit_step(s, key), history, RequestView::Done),
        Mode::Quit => if s.saved {
            (s, history, RequestView::Exit)
        } else {
            (
                EditorView {
                    mode: Mode::Command,
                    line_name: "Unsaved changes use fs to force the saved state"@,
                    ..s
                },
                history,
                RequestView::Done,
            )
        },
        Mode::View => (s, history, RequestView::Done),
    }
}

/// Whether a key press can be taken now (see `key_ok`).
pub fn key_allowed(state: &EditorState, key: Key, history: &Vec<String>) -> (r: bool)
    ensures
        r == key_ok(state.view(), key, strings_of(history)),
{
    let ghost s = state.view();
    assert(history.len() == strings_of(history).len());
    assert(state.input.len() == s.input.len());
    assert(state.files_in_folder.len() == s.files.len());
    match state.mode {
        Mode::Command => match key {
            Key::Down => state.targets_folder || state.hist_cursor == 0 || state.hist_cursor - 1 <= history.len(),
            Key::Up => !state.targets_folder || state.folder_cursor != 0 || state.files_in_folder.len() >= 1,
            Key::Enter => !state.targets_folder || (state.opened_folder.is_some() && state.folder_cursor
                < state.files_in_folder.len()),
            _ => true,
        },
        Mode::Find(x, y) => {
            if key != Key::Enter {
                return true;
            }
            if y > state.input.len() {
                return false;
            }
            if y < state.input.len() {
                if !boundary_at(&state.input, y, x) {
                    return false;
                }
            }
            for i in 0..state.input.len()
                invariant
                    state.input.len() == s.input.len(),
                    s == state.view(),
                    s.mode == Mode::Find(x, y),
                    key == Key::Enter,
                    y <= s.input.len(),
                    y < s.input.len() ==> is_boundary(s.input[y as int], x as int),
                    forall|j: int| 0 <= j < i ==> byte_len(#[trigger] s.input[j]) < usize::MAX,
            {
                if line_bytes(&state.input, i) == usize::MAX {
                    assert(byte_len(s.input[i as int]) == usize::MAX);
                    assert(!lines_bounded(s.input));
                    return false;
                }
            }
            true
        },
        Mode::Edit => {
            let v = state.vert_cursor;
            let e = state.edit_cursor;
            match key {
                Key::Char(x) => {
                    if x > '\x7f' {
                        return true;
                    }
                    v < state.input.len() && e < usize::MAX && boundary_at(&state.input, v, e)
                },
                Key::Backspace => {
                    if e != 0 {
                        if v >= state.input.len() {
                            return false;
                        }
                        let nb = line_bytes(&state.input, v);
                        e == nb || (e - 1 < nb && boundary_at(&state.input, v, e - 1))
                    } else {
                        v == 0 || v < state.input.len()
                    }
                },
                Key::Delete => {
                    if v >= state.input.len() {
                        return false;
                    }
                    let nb = line_bytes(&state.input, v);
                    if e == nb {
                        return true;
                    }
                    if e >= nb {
                        return false;
                    }
                    e + 1 == nb || (e + 1 < nb && boundary_at(&state.input, v, e + 1))
                },
                Key::Enter => v < state.input.len() && boundary_at(&state.input, v, e),
                Key::Tab => v < state.input.len() && e <= usize::MAX - 4 && boundary_at(&state.input, v, e),
                Key::Left => !(e == 0 && v != 0) || v - 1 < state.input.len(),
                Key::Right => v < state.input.len(),
                Key::Up => v == 0 || v - 1 < state.input.len(),
                _ => true,
            }
        },
        _ => true,
    }
}

/// Takes a key press: changes the state, and says what work is left.
pub fn handle_key(state: &mut EditorState, key: Key, history: &mut Vec<String>, commands: &Vec<Extern>) -> (r: Request)
    requires
        key_ok(old(state).view(), key, strings_of(old(history))),
    ensures
        (final(state).view(), strings_of(final(history)), r.view()) == key_step(
            old(state).view(),
            key,
            strings_of(old(history)),
            commands@,
        ),
{
    let ghost s0 = state.view();
    state.folder_error = None;
    assert(state.view() =~= EditorView { folder_error: None, ..s0 });
    match state.mode {
        Mode::Command => command_key(state, key, history, commands),
        Mode::Find(x, y) => {
            find_key(state, key, x, y);
            Request::Done
        },
        Mode::Edit => {
            edit_key(state, key);
            Request::Done
        },
        Mode::Quit => {
            if state.saved {
                Request::Exit
            } else {
                state.mode = Mode::Command;
                state.line_name = "Unsaved changes use fs to force the saved state".to_owned();
                Request::Done
            }
        },
        Mode::View => Request::Done,
    }
}


/// A shell command's printed text becomes the output.
pub fn finish_shell(state: &mut EditorState, result: String)
    ensures
        final(state).view() == (EditorView { output: result@, ..old(state).view() }),
{
    state.output = result;
}

/// An opened file becomes the text, with the cursor at its start.
pub fn finish_open_file(state: &mut EditorState, path: &String, lines: Vec<String>)
    ensures
        final(state).view() == (EditorView {
            input: strings_of(&lines),
            file_name: path@,
            saved: true,
            vert: 0,
            edit: 0,
            ..old(state).view()
        }),
{
    state.input = lines;
    state.file_name = path.clone();
    state.saved = true;
    state.vert_cursor = 0;
    state.edit_cursor = 0;
}

/// An opened folder is listed, its parent first.
pub fn finish_open_folder(state: &mut EditorState, folder: &String, entries: &Vec<String>)
    ensures
        final(state).view() == (EditorView {
            files: seq![".."@] + strings_of(entries),
            opened_folder: Some(folder@),
            ..old(state).view()
        }),
{
    let ghost s = state.view();
    let mut files: Vec<String> = Vec::new();
    files.push("..".to_owned());
    for i in 0..entries.len()
        invariant
            files.len() == i + 1,
            files@[0]@ == ".."@,
            forall|j: int| 1 <= j <= i ==> (#[trigger] files@[j])@ == entries@[j - 1]@,
    {
        files.push(entries[i].clone());
    }
    assert(strings_of(&files) =~= seq![".."@] + strings_of(entries));
    state.files_in_folder = files;
    state.opened_folder = Some(folder.clone());
    assert(state.view() =~= EditorView {
        files: seq![".."@] + strings_of(entries),
        opened_folder: Some(folder@),
        ..s
    });
}

/// Neither a file nor a folder was found.
pub fn finish_open_failed(state: &mut EditorState)
    ensures
        final(state).view() == (EditorView {
            line_name: "File not found"@,
            folder_error: Some("File not found"@),
            ..old(state).view()
        }),
{
    state.line_name = "File not found".to_owned();
    state.folder_error = Some("File not found".to_owned());
}

/// After a save: the text counts as saved when the write went through, and
/// the file takes the name that the save gave it.
pub fn finish_save(state: &mut EditorState, plan: &SavePlan, written: bool)
    ensures
        final(state).view() == (EditorView {
            saved: if written { true } else { old(state).saved },
            file_name: plan.file_name@,
            ..old(state).view()
        }),
{
    if written {
        state.saved = true;
    }
    state.file_name = plan.file_name.clone();
}

/// The program of the last plugin among the first `i + 1` that the name
/// runs, or the empty path where none of them does.
pub open spec fn plugin_path_spec(commands: Seq<Extern>, name: Seq<char>, i: int) -> Seq<char>
    decreases i + 1,
{
    if i < 0 {
        Seq::empty()
    } else if exists|j: int| 0 <= j < commands[i].names@.len() && (#[trigger] commands[i].names@[j])@ == name {
        commands[i].path@
    } else {
        plugin_path_spec(commands, name, i - 1)
    }
}

/// The program that the `i`-th round of running the plugins of `name`
/// starts: each plugin entry is one round, and a round takes the program of
/// the last entry so far that holds the name.
pub fn plugin_path(commands: &Vec<Extern>, name: &String, i: usize) -> (p: String)
    requires
        i < commands.len(),
    ensures
        p@ == plugin_path_spec(commands@, name@, i as int),
{
    let mut path = String::new();
    let mut k: usize = 0;
    while k <= i
        invariant
            i < commands.len(),
            k <= i + 1,
            path@ == plugin_path_spec(commands@, name@, k - 1),
        decreases i + 1 - k,
    {
        let names = &commands[k].names;
        let mut found = false;
        for j in 0..names.len()
            invariant
                names == &commands@[k as int].names,
                found <==> exists|b: int| 0 <= b < j && (#[trigger] names@[b])@ == name@,
        {
            if !found && eq_str_owned(&names[j], name) {
                found = true;
            }
        }
        if found {
            path = commands[k].path.clone();
        }
        k = k + 1;
    }
    path
}

fn eq_str_owned(a: &String, b: &String) -> (r: bool)
    ensures
        r == (a@ == b@),
{
    crate::text::eq_str(a.as_str(), b.as_str())
}

/// The command line that opens the file named when the editor starts.
pub fn start_with_file(state: &mut EditorState, arg: &String, commands: &Vec<Extern>) -> (r: Request)
    ensures
        (final(state).view(), r.view()) == command_step(
            EditorView { display: Display::Input, ..old(state).view() },
            "o "@ + arg@,
            commands@,
        ),
{
    state.display = Display::Input;
    let mut line = "o ".to_owned();
    line.append(arg.as_str());
    exc_command(state, &line, commands)
}

/// In the quit mode any key is taken: it leaves the editor when all is
/// saved; with unsaved changes it goes back to the command line with a
/// message, the text untouched, and the editor stays open.
pub proof fn law_quit_leaves_only_when_saved(s: EditorView, key: Key, history: Seq<Seq<char>>, commands: Seq<Extern>)
    requires
        s.mode == Mode::Quit,
    ensures
        key_ok(s, key, history),
        ({
            let (s2, h2, r) = key_step(s, key, history, commands);
            &&& (r == RequestView::Exit) == s.saved
            &&& r != RequestView::Exit ==> r == RequestView::Done
            &&& !s.saved ==> s2.mode == Mode::Command && s2.line_name == "Unsaved changes use fs to force the saved state"@
            &&& s2.input == s.input
            &&& h2 == history
        }),
{
}

/// Only a key in the quit mode, with all saved, leaves the editor.
pub proof fn law_only_saved_quit_leaves(s: EditorView, key: Key, history: Seq<Seq<char>>, commands: Seq<Extern>)
    ensures
        key_step(s, key, history, commands).2 == RequestView::Exit ==> s.mode == Mode::Quit && s.saved,
{
    let t = EditorView { folder_error: None, ..s };
    if s.mode == Mode::Command {
        let u = EditorView { line_name: "Command"@, display: Display::Input, ..t };
        if key == Key::Enter {
            let cmd = if !u.targets_folder { u.command } else { open_entry_command(u.opened_folder->0, u.files[u.folder_cursor]) };
            lemma_command_never_exits(u, cmd, commands);
        }
    }
}

proof fn lemma_command_never_exits(s: EditorView, cmd: Seq<char>, commands: Seq<Extern>)
    ensures
        command_step(s, cmd, commands).1 != RequestView::Exit,
{
}

/// Enter in the search mode: the cursor goes to the next place of the
/// pattern from the search position, and the next search starts one byte
/// after it; where there is none, a search from the top says so, and any
/// other search starts over from the top. The text stays as it is.
pub proof fn law_find_enter(s: EditorView, x: usize, y: usize, history: Seq<Seq<char>>, commands: Seq<Extern>)
    requires
        s.mode == Mode::Find(x, y),
        find_key_ok(s, Key::Enter, x as int, y as int),
    ensures
        key_ok(s, Key::Enter, history),
        ({
            let (s2, h2, r) = key_step(s, Key::Enter, history, commands);
            &&& s2.input == s.input
            &&& h2 == history
            &&& r == RequestView::Done
            &&& match find_spec(s.input, s.command, x as int, y as int) {
                Some((c, k)) => s2.vert == k && s2.edit == c && s2.mode == Mode::Find((c + 1) as usize, k as usize),
                None => if x == 0 && y == 0 {
                    s2.line_name == "Pattern not found"@ && s2.mode == s.mode
                } else {
                    s2.mode == Mode::Find(0, 0)
                },
            }
        }),
{
}

/// Enter in the editing mode breaks the line at the cursor and keeps every
/// character: the text (lines joined by newlines) gains one newline, at the
/// offset of the character that starts at the cursor's byte offset, and
/// the cursor lands at the start of the new line, which holds the rest of
/// the old one.
pub proof fn law_edit_enter_keeps_text(s: EditorView, history: Seq<Seq<char>>, commands: Seq<Extern>)
    requires
        s.mode == Mode::Edit,
        key_ok(s, Key::Enter, history),
    ensures
        ({
            let s2 = key_step(s, Key::Enter, history, commands).0;
            let l = s.input[s.vert];
            let k = char_index(l, s.edit);
            &&& 0 <= k <= l.len()
            &&& byte_offset(l, k) == s.edit
            &&& join_lines(s2.input) == join_lines(s.input).insert(line_start(s.input, s.vert) + k, '\n')
            &&& s2.input.len() == s.input.len() + 1
            &&& s2.input[s.vert] + s2.input[s.vert + 1] == l
            &&& s2.input[s.vert + 1] == l.subrange(k, l.len() as int)
            &&& s2.vert == s.vert + 1
            &&& s2.edit == 0
        }),
{
    let l = s.input[s.vert];
    let w = choose|w: int| 0 <= w <= l.len() && byte_offset(l, w) == s.edit;
    crate::bytes::lemma_char_index(l, s.edit, w);
    let k = char_index(l, s.edit);
    crate::editing::lemma_split(s.input, s.vert, k);
    let n = split_at_cursor(s.input, s.vert, k);
    assert(n[s.vert] == l.subrange(0, k));
    assert(n[s.vert + 1] == l.subrange(k, l.len() as int));
    assert(l.subrange(0, k) + l.subrange(k, l.len() as int) =~= l);
}

/// The documented command names, long and short, name their commands, and
/// a command line of just one of them has its effect: `e`/`edit` edit,
/// `q`/`quit` quit, `o`/`open` open, `s`/`save` save, `c`/`command` run a
/// shell command, `f`/`find` find, `fs` (or `force save`) force the saved
/// state, `h`/`help` show the help.
pub proof fn law_documented_command_names()
    ensures
        builtin_command("e"@) == Some(BtelCommand::Edit) && builtin_command("edit"@) == Some(BtelCommand::Edit),
        builtin_command("q"@) == Some(BtelCommand::Quit) && builtin_command("quit"@) == Some(BtelCommand::Quit),
        builtin_command("o"@) == Some(BtelCommand::Open) && builtin_command("open"@) == Some(BtelCommand::Open),
        builtin_command("s"@) == Some(BtelCommand::Save) && builtin_command("save"@) == Some(BtelCommand::Save),
        builtin_command("c"@) == Some(BtelCommand::Command) && builtin_command("command"@) == Some(
            BtelCommand::Command,
        ),
        builtin_command("f"@) == Some(BtelCommand::Find) && builtin_command("find"@) == Some(BtelCommand::Find),
        builtin_command("fs"@) == Some(BtelCommand::ForceSave),
        line_command(seq!["force"@, "save"@]) == Some(BtelCommand::ForceSave),
        builtin_command("h"@) == Some(BtelCommand::Help) && builtin_command("help"@) == Some(BtelCommand::Help),
{
    reveal_strlit("e");
    reveal_strlit("edit");
    reveal_strlit("q");
    reveal_strlit("quit");
    reveal_strlit("o");
    reveal_strlit("open");
    reveal_strlit("s");
    reveal_strlit("save");
    reveal_strlit("c");
    reveal_strlit("command");
    reveal_strlit("f");
    reveal_strlit("find");
    reveal_strlit("fs");
    reveal_strlit("force");
    reveal_strlit("force save");
    reveal_strlit("h");
    reveal_strlit("help");
    assert("edit"@.len() != "e"@.len() || "edit"@[0] != "e"@[0]);
    assert("q"@.len() != "e"@.len() || "q"@[0] != "e"@[0]);
    assert("q"@.len() != "edit"@.len() || "q"@[0] != "edit"@[0]);
    assert("quit"@.len() != "e"@.len() || "quit"@[0] != "e"@[0]);
    assert("quit"@.len() != "edit"@.len() || "quit"@[0] != "edit"@[0]);
    assert("quit"@.len() != "q"@.len() || "quit"@[0] != "q"@[0]);
    assert("o"@.len() != "e"@.len() || "o"@[0] != "e"@[0]);
    assert("o"@.len() != "edit"@.len() || "o"@[0] != "edit"@[0]);
    assert("o"@.len() != "q"@.len() || "o"@[0] != "q"@[0]);
    assert("o"@.len() != "quit"@.len() || "o"@[0] != "quit"@[0]);
    assert("open"@.len() != "e"@.len() || "open"@[0] != "e"@[0]);
    assert("open"@.len() != "edit"@.len() || "open"@[0] != "edit"@[0]);
    assert("open"@.len() != "q"@.len() || "open"@[0] != "q"@[0]);
    assert("open"@.len() != "quit"@.len() || "open"@[0] != "quit"@[0]);
    assert("open"@.len() != "o"@.len() || "open"@[0] != "o"@[0]);
    assert("s"@.len() != "e"@.len() || "s"@[0] != "e"@[0]);
    assert("s"@.len() != "edit"@.len() || "s"@[0] != "edit"@[0]);
    assert("s"@.len() != "q"@.len() || "s"@[0] != "q"@[0]);
    assert("s"@.len() != "quit"@.len() || "s"@[0] != "quit"@[0]);
    assert("s"@.len() != "o"@.len() || "s"@[0] != "o"@[0]);
    assert("s"@.len() != "open"@.len() || "s"@[0] != "open"@[0]);
    assert("save"@.len() != "e"@.len() || "save"@[0] != "e"@[0]);
    assert("save"@.len() != "edit"@.len() || "save"@[0] != "edit"@[0]);
    assert("save"@.len() != "q"@.len() || "save"@[0] != "q"@[0]);
    assert("save"@.len() != "quit"@.len() || "save"@[0] != "quit"@[0]);
    assert("save"@.len() != "o"@.len() || "save"@[0] != "o"@[0]);
    assert("save"@.len() != "open"@.len() || "save"@[0] != "open"@[0]);
    assert("save"@.len() != "s"@.len() || "save"@[0] != "s"@[0]);
    assert("c"@.len() != "e"@.len() || "c"@[0] != "e"@[0]);
    assert("c"@.len() != "edit"@.len() || "c"@[0] != "edit"@[0]);
    assert("c"@.len() != "q"@.len() || "c"@[0] != "q"@[0]);
    assert("c"@.len() != "quit"@.len() || "c"@[0] != "quit"@[0]);
    assert("c"@.len() != "o"@.len() || "c"@[0] != "o"@[0]);
    assert("c"@.len() != "open"@.len() || "c"@[0] != "open"@[0]);
    assert("c"@.len() != "s"@.len() || "c"@[0] != "s"@[0]);
    assert("c"@.len() != "save"@.len() || "c"@[0] != "save"@[0]);
    assert("command"@.len() != "e"@.len() || "command"@[0] != "e"@[0]);
    assert("command"@.len() != "edit"@.len() || "command"@[0] != "edit"@[0]);
    assert("command"@.len() != "q"@.len() || "command"@[0] != "q"@[0]);
    assert("command"@.len() != "quit"@.len() || "command"@[0] != "quit"@[0]);
    assert("command"@.len() != "o"@.len() || "command"@[0] != "o"@[0]);
    assert("command"@.len() != "open"@.len() || "command"@[0] != "open"@[0]);
    assert("command"@.len() != "s"@.len() || "command"@[0] != "s"@[0]);
    assert("command"@.len() != "save"@.len() || "command"@[0] != "save"@[0]);
    assert("command"@.len() != "c"@.len() || "command"@[0] != "c"@[0]);
    assert("f"@.len() != "e"@.len() || "f"@[0] != "e"@[0]);
    assert("f"@.len() != "edit"@.len() || "f"@[0] != "edit"@[0]);
    assert("f"@.len() != "q"@.len() || "f"@[0] != "q"@[0]);
    assert("f"@.len() != "quit"@.len() || "f"@[0] != "quit"@[0]);
    assert("f"@.len() != "o"@.len() || "f"@[0] != "o"@[0]);
    assert("f"@.len() != "open"@.len() || "f"@[0] != "open"@[0]);
    assert("f"@.len() != "s"@.len() || "f"@[0] != "s"@[0]);
    assert("f"@.len() != "save"@.len() || "f"@[0] != "save"@[0]);
    assert("f"@.len() != "c"@.len() || "f"@[0] != "c"@[0]);
    assert("f"@.len() != "command"@.len() || "f"@[0] != "command"@[0]);
    assert("find"@.len() != "e"@.len() || "find"@[0] != "e"@[0]);
    assert("find"@.len() != "edit"@.len() || "find"@[0] != "edit"@[0]);
    assert("find"@.len() != "q"@.len() || "find"@[0] != "q"@[0]);
    assert("find"@.len() != "quit"@.len() || "find"@[0] != "quit"@[0]);
    assert("find"@.len() != "o"@.len() || "find"@[0] != "o"@[0]);
    assert("find"@.len() != "open"@.len() || "find"@[0] != "open"@[0]);
    assert("find"@.len() != "s"@.len() || "find"@[0] != "s"@[0]);
    assert("find"@.len() != "save"@.len() || "find"@[0] != "save"@[0]);
    assert("find"@.len() != "c"@.len() || "find"@[0] != "c"@[0]);
    assert("find"@.len() != "command"@.len() || "find"@[0] != "command"@[0]);
    assert("find"@.len() != "f"@.len() || "find"@[0] != "f"@[0]);
    assert("fs"@.len() != "e"@.len() || "fs"@[0] != "e"@[0]);
    assert("fs"@.len() != "edit"@.len() || "fs"@[0] != "edit"@[0]);
    assert("fs"@.len() != "q"@.len() || "fs"@[0] != "q"@[0]);
    assert("fs"@.len() != "quit"@.len() || "fs"@[0] != "quit"@[0]);
    assert("fs"@.len() != "o"@.len() || "fs"@[0] != "o"@[0]);
    assert("fs"@.len() != "open"@.len() || "fs"@[0] != "open"@[0]);
    assert("fs"@.len() != "s"@.len() || "fs"@[0] != "s"@[0]);
    assert("fs"@.len() != "save"@.len() || "fs"@[0] != "save"@[0]);
    assert("fs"@.len() != "c"@.len() || "fs"@[0] != "c"@[0]);
    assert("fs"@.len() != "command"@.len() || "fs"@[0] != "command"@[0]);
    assert("fs"@.len() != "f"@.len() || "fs"@[0] != "f"@[0]);
    assert("fs"@.len() != "find"@.len() || "fs"@[0] != "find"@[0]);
    assert("force save"@.len() != "e"@.len() || "force save"@[0] != "e"@[0]);
    assert("force save"@.len() != "edit"@.len() || "force save"@[0] != "edit"@[0]);
    assert("force save"@.len() != "q"@.len() || "force save"@[0] != "q"@[0]);
    assert("force save"@.len() != "quit"@.len() || "force save"@[0] != "quit"@[0]);
    assert("force save"@.len() != "o"@.len() || "force save"@[0] != "o"@[0]);
    assert("force save"@.len() != "open"@.len() || "force save"@[0] != "open"@[0]);
    assert("force save"@.len() != "s"@.len() || "force save"@[0] != "s"@[0]);
    assert("force save"@.len() != "save"@.len() || "force save"@[0] != "save"@[0]);
    assert("force save"@.len() != "c"@.len() || "force save"@[0] != "c"@[0]);
    assert("force save"@.len() != "command"@.len() || "force save"@[0] != "command"@[0]);
    assert("force save"@.len() != "f"@.len() || "force save"@[0] != "f"@[0]);
    assert("force save"@.len() != "find"@.len() || "force save"@[0] != "find"@[0]);
    assert("force save"@.len() != "fs"@.len() || "force save"@[0] != "fs"@[0]);
    assert("h"@.len() != "e"@.len() || "h"@[0] != "e"@[0]);
    assert("h"@.len() != "edit"@.len() || "h"@[0] != "edit"@[0]);
    assert("h"@.len() != "q"@.len() || "h"@[0] != "q"@[0]);
    assert("h"@.len() != "quit"@.len() || "h"@[0] != "quit"@[0]);
    assert("h"@.len() != "o"@.len() || "h"@[0] != "o"@[0]);
    assert("h"@.len() != "open"@.len() || "h"@[0] != "open"@[0]);
    assert("h"@.len() != "s"@.len() || "h"@[0] != "s"@[0]);
    assert("h"@.len() != "save"@.len() || "h"@[0] != "save"@[0]);
    assert("h"@.len() != "c"@.len() || "h"@[0] != "c"@[0]);
    assert("h"@.len() != "command"@.len() || "h"@[0] != "command"@[0]);
    assert("h"@.len() != "f"@.len() || "h"@[0] != "f"@[0]);
    assert("h"@.len() != "find"@.len() || "h"@[0] != "find"@[0]);
    assert("h"@.len() != "fs"@.len() || "h"@[0] != "fs"@[0]);
    assert("h"@.len() != "force save"@.len() || "h"@[0] != "force save"@[0]);
    assert("help"@.len() != "e"@.len() || "help"@[0] != "e"@[0]);
    assert("help"@.len() != "edit"@.len() || "help"@[0] != "edit"@[0]);
    assert("help"@.len() != "q"@.len() || "help"@[0] != "q"@[0]);
    assert("help"@.len() != "quit"@.len() || "help"@[0] != "quit"@[0]);
    assert("help"@.len() != "o"@.len() || "help"@[0] != "o"@[0]);
    assert("help"@.len() != "open"@.len() || "help"@[0] != "open"@[0]);
    assert("help"@.len() != "s"@.len() || "help"@[0] != "s"@[0]);
    assert("help"@.len() != "save"@.len() || "help"@[0] != "save"@[0]);
    assert("help"@.len() != "c"@.len() || "help"@[0] != "c"@[0]);
    assert("help"@.len() != "command"@.len() || "help"@[0] != "command"@[0]);
    assert("help"@.len() != "f"@.len() || "help"@[0] != "f"@[0]);
    assert("help"@.len() != "find"@.len() || "help"@[0] != "find"@[0]);
    assert("help"@.len() != "fs"@.len() || "help"@[0] != "fs"@[0]);
    assert("help"@.len() != "force save"@.len() || "help"@[0] != "force save"@[0]);
    assert("help"@.len() != "h"@.len() || "help"@[0] != "h"@[0]);
}

/// A command line whose only word is a mode or display command sets that
/// mode or display and asks for nothing more.
pub proof fn law_mode_commands(s: EditorView, cmd: Seq<char>, commands: Seq<Extern>)
    requires
        words(cmd).len() == 1,
    ensures
        ({
            let w = words(cmd)[0];
            let (s2, r) = command_step(s, cmd, commands);
            &&& (w == "e"@ || w == "edit"@) ==> s2.mode == Mode::Edit && r == RequestView::Done
            &&& (w == "f"@ || w == "find"@) ==> s2.mode == Mode::Find(0, 0) && r == RequestView::Done
            &&& (w == "q"@ || w == "quit"@) ==> s2.mode == Mode::Quit && r == RequestView::Done
            &&& (w == "h"@ || w == "help"@) ==> s2.display == Display::Help && r == RequestView::Done
            &&& w == "fs"@ ==> s2.saved && r == RequestView::Done
        }),
{
    law_documented_command_names();
}

/// Down on the command line undoes Up: after stepping back in the history
/// and forward again, the history cursor and the command shown are those
/// of the entry the cursor stood on (the history itself is not changed).
pub proof fn law_history_down_undoes_up(s: EditorView, history: Seq<Seq<char>>, commands: Seq<Extern>)
    requires
        s.mode == Mode::Command,
        !s.targets_folder,
        s.hist_cursor + 1 < history.len(),
        0 <= s.hist_cursor,
    ensures
        key_ok(s, Key::Up, history),
        ({
            let (s1, h1, _) = key_step(s, Key::Up, history, commands);
            &&& h1 == history
            &&& s1.hist_cursor == s.hist_cursor + 1
            &&& s1.command == history[history.len() - (s.hist_cursor + 1)]
            &&& key_ok(s1, Key::Down, h1)
            &&& ({
                let (s2, h2, _) = key_step(s1, Key::Down, h1, commands);
                &&& h2 == history
                &&& s2.hist_cursor == s.hist_cursor
                &&& s2.command == if s.hist_cursor == 0 {
                    Seq::<char>::empty()
                } else {
                    history[history.len() - s.hist_cursor]
                }
            })
        }),
{
}

/// The character index of a boundary lies within the line and has that
/// byte offset.
proof fn lemma_boundary_index(l: Seq<char>, b: int)
    requires
        is_boundary(l, b),
    ensures
        0 <= char_index(l, b) <= l.len(),
        byte_offset(l, char_index(l, b)) == b,
{
    let w = choose|w: int| 0 <= w <= l.len() && byte_offset(l, w) == b;
    crate::bytes::lemma_char_index(l, b, w);
}

/// Typing an ASCII character in the editing mode puts it into the text at
/// the cursor, keeping everything else, and the cursor moves past it: its
/// byte offset grows by one and it stands right after the new character.
pub proof fn law_edit_char_inserts(s: EditorView, x: char, history: Seq<Seq<char>>, commands: Seq<Extern>)
    requires
        s.mode == Mode::Edit,
        0 <= s.vert,
        0 <= s.edit,
        x <= '\x7f',
        key_ok(s, Key::Char(x), history),
    ensures
        ({
            let s2 = key_step(s, Key::Char(x), history, commands).0;
            let l = s.input[s.vert];
            let k = char_index(l, s.edit);
            &&& join_lines(s2.input) == join_lines(s.input).insert(line_start(s.input, s.vert) + k, x)
            &&& s2.input.len() == s.input.len()
            &&& s2.vert == s.vert
            &&& s2.edit == s.edit + 1
            &&& byte_offset(s2.input[s.vert], k + 1) == s2.edit
            &&& !s2.saved
        }),
{
    let l = s.input[s.vert];
    lemma_boundary_index(l, s.edit);
    let k = char_index(l, s.edit);
    crate::editing::lemma_insert_text(s.input, s.vert, k, seq![x]);
    let n = l.insert(k, x);
    assert(n =~= l.subrange(0, k) + seq![x] + l.subrange(k, l.len() as int));
    assert(s.input.update(s.vert, n) =~= insert_text(s.input, s.vert, k, seq![x]));
    let t = join_lines(s.input);
    let o = line_start(s.input, s.vert) + k;
    crate::lines::lemma_offset_bounds(s.input, s.vert, k);
    assert(t.subrange(0, o) + seq![x] + t.subrange(o, t.len() as int) =~= t.insert(o, x));
    assert(n.take(k) =~= l.take(k));
    crate::bytes::lemma_offset_step(n, k);
    crate::bytes::lemma_char_width(x);
}

/// A tab in the editing mode puts four spaces into the text at the
/// cursor, keeping everything else, and the cursor moves past them.
pub proof fn law_edit_tab_inserts(s: EditorView, history: Seq<Seq<char>>, commands: Seq<Extern>)
    requires
        s.mode == Mode::Edit,
        0 <= s.vert,
        0 <= s.edit,
        key_ok(s, Key::Tab, history),
    ensures
        ({
            let s2 = key_step(s, Key::Tab, history, commands).0;
            let l = s.input[s.vert];
            let k = char_index(l, s.edit);
            let t = join_lines(s.input);
            let o = line_start(s.input, s.vert) + k;
            &&& join_lines(s2.input) == t.subrange(0, o) + seq![' ', ' ', ' ', ' '] + t.subrange(o, t.len() as int)
            &&& s2.vert == s.vert
            &&& s2.edit == s.edit + 4
            &&& !s2.saved
        }),
{
    let l = s.input[s.vert];
    lemma_boundary_index(l, s.edit);
    let k = char_index(l, s.edit);
    crate::editing::lemma_insert_text(s.input, s.vert, k, seq![' ', ' ', ' ', ' ']);
}

/// Backspace in the editing mode, inside a line, takes out the character
/// that starts one byte before the cursor and nothing else, and the cursor
/// steps one byte back; at the start of a line (not the first) it takes
/// out the newline before it, and the cursor goes to where the previous
/// line ended.
pub proof fn law_edit_backspace_removes(s: EditorView, history: Seq<Seq<char>>, commands: Seq<Extern>)
    requires
        s.mode == Mode::Edit,
        0 <= s.vert,
        0 <= s.edit,
        key_ok(s, Key::Backspace, history),
    ensures
        ({
            let s2 = key_step(s, Key::Backspace, history, commands).0;
            let v = s.vert;
            let l = s.input[v];
            &&& s.edit != 0 && s.edit != byte_len(l) ==> {
                let k = char_index(l, s.edit - 1);
                &&& join_lines(s2.input) == join_lines(s.input).remove(line_start(s.input, v) + k)
                &&& s2.vert == v
                &&& s2.edit == s.edit - 1
            }
            &&& s.edit == 0 && v != 0 ==> {
                &&& join_lines(s2.input) == join_lines(s.input).remove(line_start(s.input, v) - 1)
                &&& s2.vert == v - 1
                &&& s2.edit == byte_len(s.input[v - 1])
            }
            &&& s.edit == 0 && v == 0 ==> s2.input == s.input && s2.edit == 0 && s2.vert == 0
        }),
{
    let v = s.vert;
    if s.edit != 0 {
        let l = s.input[v];
        if s.edit != byte_len(l) {
            lemma_boundary_index(l, s.edit - 1);
            let k = char_index(l, s.edit - 1);
            crate::bytes::lemma_offset_ends(l);
            if k == l.len() {
                assert(byte_offset(l, k) == byte_len(l));
            }
            crate::editing::lemma_remove_char(s.input, v, k);
        }
    } else if v != 0 {
        crate::editing::lemma_join(s.input, v);
    }
}

/// Delete in the editing mode at the end of a line (not the last) takes
/// out the newline after it; one byte before the end it takes out the
/// line's last character; elsewhere it takes out the character that starts
/// one byte after the cursor. Nothing else changes and the cursor stays.
pub proof fn law_edit_delete_removes(s: EditorView, history: Seq<Seq<char>>, commands: Seq<Extern>)
    requires
        s.mode == Mode::Edit,
        0 <= s.vert,
        0 <= s.edit,
        key_ok(s, Key::Delete, history),
    ensures
        ({
            let s2 = key_step(s, Key::Delete, history, commands).0;
            let v = s.vert;
            let l = s.input[v];
            &&& s2.vert == v && s2.edit == s.edit
            &&& s.edit == byte_len(l) && v + 1 < s.input.len() ==> join_lines(s2.input) == join_lines(s.input).remove(
                line_start(s.input, v) + l.len(),
            )
            &&& s.edit == byte_len(l) && v + 1 == s.input.len() ==> s2.input == s.input
            &&& s.edit + 1 == byte_len(l) ==> join_lines(s2.input) == join_lines(s.input).remove(
                line_start(s.input, v) + l.len() - 1,
            )
            &&& s.edit != byte_len(l) && s.edit + 1 != byte_len(l) ==> join_lines(s2.input) == join_lines(
                s.input,
            ).remove(line_start(s.input, v) + char_index(l, s.edit + 1))
        }),
{
    let v = s.vert;
    let l = s.input[v];
    crate::bytes::lemma_offset_ends(l);
    if s.edit != byte_len(l) {
        if s.edit + 1 == byte_len(l) {
            assert(l.len() > 0);
            assert(l.drop_last() =~= l.remove(l.len() - 1));
            crate::editing::lemma_remove_char(s.input, v, l.len() - 1);
        } else {
            lemma_boundary_index(l, s.edit + 1);
            let k = char_index(l, s.edit + 1);
            if k == l.len() {
                assert(byte_offset(l, k) == byte_len(l));
            }
            crate::editing::lemma_remove_char(s.input, v, k);
        }
    } else if v + 1 != s.input.len() {
        crate::editing::lemma_join(s.input, v + 1);
        crate::lines::lemma_line_start_step(s.input, v);
    }
}

/// Escape leaves editing or searching for the command line: the mode is the
/// command mode, the command line is named again, the text is untouched;
/// leaving a search also clears the pattern.
pub proof fn law_escape_returns_to_command(s: EditorView, history: Seq<Seq<char>>, commands: Seq<Extern>)
    requires
        s.mode == Mode::Edit || s.mode is Find,
    ensures
        key_ok(s, Key::Esc, history),
        ({
            let (s2, h2, r) = key_step(s, Key::Esc, history, commands);
            &&& s2.mode == Mode::Command
            &&& s2.line_name == "Command"@
            &&& s2.input == s.input
            &&& s2.saved == s.saved
            &&& h2 == history
            &&& r == RequestView::Done
            &&& s.mode is Find ==> s2.command.len() == 0
        }),
{
}

/// Cursor keys in the editing mode never change the text. Left steps one
/// byte back, or from the start of a line to the end of the previous one;
/// right steps one byte on, or from the end of a line to the start of the
/// next; up and down go to the neighbouring line and keep the column
/// unless it would land within two bytes of that line's end or past it,
/// where they go to its end.
pub proof fn law_edit_moves(s: EditorView, key: Key, history: Seq<Seq<char>>, commands: Seq<Extern>)
    requires
        s.mode == Mode::Edit,
        0 <= s.vert,
        0 <= s.edit,
        key == Key::Left || key == Key::Right || key == Key::Up || key == Key::Down,
        key_ok(s, key, history),
    ensures
        ({
            let s2 = key_step(s, key, history, commands).0;
            let (v, e) = (s.vert, s.edit);
            &&& s2.input == s.input
            &&& s2.saved == s.saved
            &&& key == Key::Left && e > 0 ==> s2.vert == v && s2.edit == e - 1
            &&& key == Key::Left && e == 0 && v > 0 ==> s2.vert == v - 1 && s2.edit == byte_len(s.input[v - 1])
            &&& key == Key::Right && e < byte_len(s.input[v]) ==> s2.vert == v && s2.edit == e + 1
            &&& key == Key::Right && e >= byte_len(s.input[v]) && v + 1 < s.input.len() ==> s2.vert == v + 1
                && s2.edit == 0
            &&& key == Key::Up && v > 0 ==> s2.vert == v - 1 && s2.edit == if byte_len(s.input[v - 1]) < e + 2 {
                byte_len(s.input[v - 1]) as int
            } else {
                e
            }
            &&& key == Key::Down && v + 1 < s.input.len() ==> s2.vert == v + 1 && s2.edit == if byte_len(
                s.input[v + 1],
            ) < e + 2 {
                byte_len(s.input[v + 1]) as int
            } else {
                e
            }
        }),
{
}

} // verus!

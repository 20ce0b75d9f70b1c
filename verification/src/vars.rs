//! The editor's state as it passes to and from a plugin: the argument list a
//! plugin is started with, the text a plugin prints, and reading either back.
use vstd::prelude::*;

use crate::text::{
    all_digits, contains_seq, decimal_of, ends_before_sep, ends_with, eq_str, find_seq, join_sep,
    join_strings, law_parse_undoes_decimal, law_split_undoes_join, law_split_undoes_join_sep,
    lemma_decimal_of, lemma_find_seq, lemma_join_sep_append, occurs_at, parse_usize,
    parse_usize_spec, split_char, split_seq, split_str, split_string, strings_of, usize_to_string,
};
use crate::{display_named, mode_named, BtelVars, Display, Mode};

verus! {

/// How the derived `Debug` writes a mode.
pub open spec fn mode_debug(m: Mode) -> Seq<char> {
    match m {
        Mode::Edit => "Edit"@,
        Mode::Quit => "Quit"@,
        Mode::Find(x, y) => "Find("@ + decimal_of(x as nat) + ", "@ + decimal_of(y as nat) + ")"@,
        Mode::Command => "Command"@,
        Mode::View => "View"@,
    }
}

/// How the derived `Debug` writes a display.
pub open spec fn display_debug(d: Display) -> Seq<char> {
    match d {
        Display::Input => "Input"@,
        Display::Output => "Output"@,
        Display::Help => "Help"@,
    }
}

/// How `to_string` writes a boolean.
pub open spec fn bool_text(b: bool) -> Seq<char> {
    if b { "true"@ } else { "false"@ }
}

/// The separator between the fields that a plugin prints.
pub open spec fn field_sep() -> Seq<char> {
    "\n\t\n"@
}

/// The fields of the editor's state, in the order in which a plugin prints
/// them and gets them.
pub open spec fn state_fields(
    input: Seq<Seq<char>>,
    output: Seq<char>,
    edit_cursor: usize,
    vert_cursor: usize,
    mode: Mode,
    line_name: Seq<char>,
    file_name: Seq<char>,
    saved: bool,
    scroll_x: usize,
    scroll_y: usize,
    display: Display,
) -> Seq<Seq<char>> {
    seq![
        join_sep(input, "\n"@),
        output,
        decimal_of(edit_cursor as nat),
        decimal_of(vert_cursor as nat),
        mode_debug(mode),
        line_name,
        file_name,
        bool_text(saved),
        decimal_of(scroll_x as nat),
        decimal_of(scroll_y as nat),
        display_debug(display),
    ]
}

/// The fields of `vars`.
pub open spec fn vars_fields(vars: &BtelVars) -> Seq<Seq<char>> {
    state_fields(
        strings_of(&vars.input),
        vars.output@,
        vars.edit_cursor,
        vars.vert_cursor,
        vars.mode,
        vars.line_name@,
        vars.file_name@,
        vars.saved,
        vars.scroll_x,
        vars.scroll_y,
        vars.display,
    )
}

/// What a plugin prints of `vars`: the fields with the separator between
/// them, and a newline at the end.
pub open spec fn vars_text(vars: &BtelVars) -> Seq<char> {
    join_sep(vars_fields(vars), field_sep()) + "\n"@
}

/// The extra arguments that the last argument holds, if there is one.
pub open spec fn args_spec(full_args: Seq<Seq<char>>) -> Option<Seq<Seq<char>>> {
    if full_args.len() > 12 {
        Some(split_char(full_args[12], ' '))
    } else {
        None
    }
}

/// `get_btel_vars` can read `args`: there are enough of them, and the
/// numbers, the mode and the display are well written.
pub open spec fn readable_args(args: Seq<Seq<char>>) -> bool {
    &&& args.len() >= 12
    &&& parse_usize_spec(args[3]) is Some
    &&& parse_usize_spec(args[4]) is Some
    &&& mode_named(args[5]) is Some
    &&& parse_usize_spec(args[9]) is Some
    &&& parse_usize_spec(args[10]) is Some
    &&& display_named(args[11]) is Some
}

/// The extra arguments that a plugin gets after the state, cut at spaces.
pub fn get_args(full_args: &Vec<String>) -> (r: Option<Vec<String>>)
    ensures
        match r {
            Some(a) => args_spec(strings_of(full_args)) == Some(strings_of(&a)),
            None => args_spec(strings_of(full_args)) is None,
        },
{
    if full_args.len() > 12 {
        let a = split_string(full_args[12].as_str(), ' ');
        return Some(a);
    }
    None
}

/// The mode's text as the derived `Debug` writes it.
pub fn mode_debug_string(m: Mode) -> (s: String)
    ensures
        s@ == mode_debug(m),
{
    match m {
        Mode::Edit => "Edit".to_owned(),
        Mode::Quit => "Quit".to_owned(),
        Mode::Find(x, y) => {
            let mut s = "Find(".to_owned();
            s.append(usize_to_string(x).as_str());
            s.append(", ");
            s.append(usize_to_string(y).as_str());
            s.append(")");
            s
        },
        Mode::Command => "Command".to_owned(),
        Mode::View => "View".to_owned(),
    }
}

/// The display's text as the derived `Debug` writes it.
pub fn display_debug_string(d: Display) -> (s: String)
    ensures
        s@ == display_debug(d),
{
    match d {
        Display::Input => "Input".to_owned(),
        Display::Output => "Output".to_owned(),
        Display::Help => "Help".to_owned(),
    }
}

/// `true` or `false`.
pub fn bool_string(b: bool) -> (s: String)
    ensures
        s@ == bool_text(b),
{
    if b {
        "true".to_owned()
    } else {
        "false".to_owned()
    }
}

/// Whether `get_btel_vars` can read `args`.
pub fn args_readable(args: &Vec<String>) -> (r: bool)
    ensures
        r == readable_args(strings_of(args)),
{
    if args.len() < 12 {
        return false;
    }
    let m = args[5].as_str();
    let d = args[11].as_str();
    let mode_ok = eq_str(m, "Edit") || eq_str(m, "Quit") || eq_str(m, "Find") || eq_str(m, "Command")
        || eq_str(m, "View");
    let display_ok = eq_str(d, "Input\n") || eq_str(d, "Input") || eq_str(d, "Output\n") || eq_str(d, "Output")
        || eq_str(d, "Help\n") || eq_str(d, "Help");
    parse_usize(args[3].as_str()).is_some() && parse_usize(args[4].as_str()).is_some() && mode_ok
        && parse_usize(args[9].as_str()).is_some() && parse_usize(args[10].as_str()).is_some() && display_ok
}

/// Reads the editor's state from a plugin's argument list: the text (its
/// lines joined by newlines), the output, the two cursors, the mode, the
/// line name, the file name, the saved flag, the two scroll offsets, the
/// display, and words of extra arguments.
pub fn get_btel_vars(args: Vec<String>) -> (vars: BtelVars)
    requires
        readable_args(strings_of(&args)),
    ensures
        ({
            let a = strings_of(&args);
            &&& strings_of(&vars.input) == split_char(a[1], '\n')
            &&& vars.output@ == a[2]
            &&& vars.edit_cursor == parse_usize_spec(a[3])->0
            &&& vars.vert_cursor == parse_usize_spec(a[4])->0
            &&& vars.mode == mode_named(a[5])->0
            &&& vars.line_name@ == a[6]
            &&& vars.file_name@ == a[7]
            &&& vars.saved == (a[8] == "true"@)
            &&& vars.scroll_x == parse_usize_spec(a[9])->0
            &&& vars.scroll_y == parse_usize_spec(a[10])->0
            &&& vars.display == display_named(a[11])->0
            &&& match vars.args {
                Some(x) => args_spec(a) == Some(strings_of(&x)),
                None => args_spec(a) is None,
            }
        }),
{
    let ghost a = strings_of(&args);
    assert(args@[3]@ == a[3]);
    assert(args@[4]@ == a[4]);
    assert(args@[9]@ == a[9]);
    assert(args@[10]@ == a[10]);
    let input = split_string(args[1].as_str(), '\n');
    let edit_cursor = parse_usize(args[3].as_str()).unwrap();
    let vert_cursor = parse_usize(args[4].as_str()).unwrap();
    let mode = Mode::from_string(&args[5]);
    let scroll_x = parse_usize(args[9].as_str()).unwrap();
    let scroll_y = parse_usize(args[10].as_str()).unwrap();
    let display = Display::from_string(&args[11]);
    let saved = eq_str(args[8].as_str(), "true");
    let extra = get_args(&args);
    BtelVars {
        input,
        output: args[2].clone(),
        edit_cursor,
        vert_cursor,
        mode,
        line_name: args[6].clone(),
        file_name: args[7].clone(),
        saved,
        scroll_x,
        scroll_y,
        display,
        args: extra,
    }
}

/// The text a plugin prints to hand `vars` back: the fields with the
/// separator between them, and a newline.
pub fn btel_vars_text(vars: &BtelVars) -> (s: String)
    ensures
        s@ == vars_text(vars),
{
    let mut fields: Vec<String> = Vec::new();
    fields.push(join_strings(&vars.input, "\n"));
    fields.push(vars.output.clone());
    fields.push(usize_to_string(vars.edit_cursor));
    fields.push(usize_to_string(vars.vert_cursor));
    fields.push(mode_debug_string(vars.mode));
    fields.push(vars.line_name.clone());
    fields.push(vars.file_name.clone());
    fields.push(bool_string(vars.saved));
    fields.push(usize_to_string(vars.scroll_x));
    fields.push(usize_to_string(vars.scroll_y));
    fields.push(display_debug_string(vars.display));
    assert(strings_of(&fields) =~= vars_fields(vars));
    let mut s = join_strings(&fields, "\n\t\n");
    s.append("\n");
    s
}

/// The argument list that the editor reads back from what a plugin printed:
/// an empty first argument, then the pieces between separators.
pub fn reply_args(out: &str) -> (r: Vec<String>)
    ensures
        strings_of(&r) == seq![Seq::<char>::empty()] + split_seq(out@, field_sep()),
{
    let mut r: Vec<String> = Vec::new();
    r.push(String::new());
    proof {
        reveal_strlit("\n\t\n");
    }
    let mut pieces = split_str(out, "\n\t\n");
    r.append(&mut pieces);
    assert(strings_of(&r) =~= seq![Seq::<char>::empty()] + split_seq(out@, field_sep()));
    r
}

/// The arguments a plugin is started with: the state's fields, then the
/// extra words joined by spaces.
pub fn plugin_args(
    input: &Vec<String>,
    output: &String,
    edit_cursor: usize,
    vert_cursor: usize,
    mode: Mode,
    line_name: &String,
    file_name: &String,
    saved: bool,
    scroll_x: usize,
    scroll_y: usize,
    display: Display,
    extra: &Vec<String>,
) -> (r: Vec<String>)
    ensures
        strings_of(&r) == state_fields(
            strings_of(input),
            output@,
            edit_cursor,
            vert_cursor,
            mode,
            line_name@,
            file_name@,
            saved,
            scroll_x,
            scroll_y,
            display,
        ).push(join_sep(strings_of(extra), " "@)),
{
    let mut r: Vec<String> = Vec::new();
    r.push(join_strings(input, "\n"));
    r.push(output.clone());
    r.push(usize_to_string(edit_cursor));
    r.push(usize_to_string(vert_cursor));
    r.push(mode_debug_string(mode));
    r.push(line_name.clone());
    r.push(file_name.clone());
    r.push(bool_string(saved));
    r.push(usize_to_string(scroll_x));
    r.push(usize_to_string(scroll_y));
    r.push(display_debug_string(display));
    r.push(join_strings(extra, " "));
    assert(strings_of(&r) =~= state_fields(
        strings_of(input),
        output@,
        edit_cursor,
        vert_cursor,
        mode,
        line_name@,
        file_name@,
        saved,
        scroll_x,
        scroll_y,
        display,
    ).push(join_sep(strings_of(extra), " "@)));
    r
}


/// A field can pass through the plugin's printed text: it holds no separator
/// and does not end with the separator's first two characters.
pub open spec fn plugin_safe(f: Seq<char>) -> bool {
    !contains_seq(f, field_sep()) && !ends_with(f, "\n\t"@)
}

/// No tab in `f`.
pub open spec fn tab_free(f: Seq<char>) -> bool {
    forall|i: int| 0 <= i < f.len() ==> f[i] != '\t'
}

proof fn lemma_field_sep()
    ensures
        field_sep() == seq!['\n', '\t', '\n'],
{
    reveal_strlit("\n\t\n");
    assert(field_sep() =~= seq!['\n', '\t', '\n']);
}

/// The separator is found in `f` followed by it at the end of `f`, at the
/// latest.
proof fn lemma_find_before_end(f: Seq<char>)
    ensures
        0 <= find_seq(f + field_sep(), field_sep(), 0) <= f.len(),
        occurs_at(f + field_sep(), field_sep(), find_seq(f + field_sep(), field_sep(), 0)),
{
    let t = f + field_sep();
    lemma_find_seq(t, field_sep(), 0);
    lemma_field_sep();
    assert(t.subrange(f.len() as int, f.len() as int + 3) =~= field_sep());
    assert(occurs_at(t, field_sep(), f.len() as int));
}

/// A field with no tab ends right before a separator and holds none.
proof fn lemma_tab_free_field(f: Seq<char>)
    requires
        tab_free(f),
    ensures
        ends_before_sep(f, field_sep()),
        find_seq(f, field_sep(), 0) < 0,
{
    lemma_field_sep();
    let t = f + field_sep();
    lemma_find_before_end(f);
    let k = find_seq(t, field_sep(), 0);
    assert(t.subrange(k, k + 3)[1] == '\t');
    assert(t[k + 1] == '\t');
    if k < f.len() {
        if k + 1 < f.len() {
            assert(t[k + 1] == f[k + 1]);
        } else {
            assert(t[k + 1] == field_sep()[0]);
        }
    }
    lemma_find_seq(f, field_sep(), 0);
    let j = find_seq(f, field_sep(), 0);
    if j >= 0 {
        assert(f.subrange(j, j + 3)[1] == '\t');
        assert(f[j + 1] == '\t');
    }
}

/// A field that is safe to print ends right before a separator.
proof fn lemma_safe_field(f: Seq<char>)
    requires
        plugin_safe(f),
    ensures
        ends_before_sep(f, field_sep()),
{
    lemma_field_sep();
    reveal_strlit("\n\t");
    let t = f + field_sep();
    lemma_find_before_end(f);
    let k = find_seq(t, field_sep(), 0);
    let w = t.subrange(k, k + 3);
    assert(w[0] == '\n' && w[1] == '\t' && w[2] == '\n');
    if k + 3 <= f.len() {
        assert(f.subrange(k, k + 3) =~= w);
        assert(occurs_at(f, field_sep(), k));
        assert(contains_seq(f, field_sep()));
    } else if k + 2 == f.len() {
        assert(f.subrange(k, k + 2) =~= "\n\t"@);
        assert(ends_with(f, "\n\t"@));
    } else if k + 1 == f.len() {
        assert(w[1] == t[k + 1]);
        assert(t[k + 1] == field_sep()[0]);
    }
}

proof fn lemma_decimal_tab_free(n: nat)
    ensures
        tab_free(decimal_of(n)),
{
    lemma_decimal_of(n);
    let d = decimal_of(n);
    assert forall|i: int| 0 <= i < d.len() implies d[i] != '\t' by {
        assert(all_digits(d));
        assert('0' <= d[i] && d[i] <= '9');
    }
}

/// Reading back the debug text of a mode other than `Find` gives the mode.
pub proof fn law_mode_name_round_trip(m: Mode)
    requires
        !(m is Find),
    ensures
        mode_named(mode_debug(m)) == Some(m),
        tab_free(mode_debug(m)),
{
    reveal_strlit("Edit");
    reveal_strlit("Quit");
    reveal_strlit("Find");
    reveal_strlit("Command");
    reveal_strlit("View");
    match m {
        Mode::Edit => {},
        Mode::Quit => {
            assert("Quit"@[0] != "Edit"@[0]);
        },
        Mode::Command => {
            assert("Command"@.len() != "Edit"@.len());
            assert("Command"@.len() != "Quit"@.len());
            assert("Command"@.len() != "Find"@.len());
        },
        Mode::View => {
            assert("View"@[0] != "Edit"@[0]);
            assert("View"@[0] != "Quit"@[0]);
            assert("View"@[0] != "Find"@[0]);
            assert("View"@.len() != "Command"@.len());
        },
        Mode::Find(_, _) => {},
    }
}

/// Reading back the debug text of a display, with or without a newline,
/// gives the display.
pub proof fn law_display_name_round_trip(d: Display)
    ensures
        display_named(display_debug(d)) == Some(d),
        display_named(display_debug(d) + "\n"@) == Some(d),
        tab_free(display_debug(d) + "\n"@),
{
    reveal_strlit("Input");
    reveal_strlit("Input\n");
    reveal_strlit("Output");
    reveal_strlit("Output\n");
    reveal_strlit("Help");
    reveal_strlit("Help\n");
    reveal_strlit("\n");
    match d {
        Display::Input => {
            assert("Input"@ + "\n"@ =~= "Input\n"@);
        },
        Display::Output => {
            assert("Output"@ + "\n"@ =~= "Output\n"@);
            assert("Output"@[0] != "Input"@[0]);
            assert("Output"@[0] != "Input\n"@[0]);
            assert("Output\n"@.len() != "Input\n"@.len());
        },
        Display::Help => {
            assert("Help"@ + "\n"@ =~= "Help\n"@);
            assert("Help"@.len() != "Input"@.len());
            assert("Help"@.len() != "Input\n"@.len());
            assert("Help"@.len() != "Output"@.len());
            assert("Help"@.len() != "Output\n"@.len());
            assert("Help\n"@.len() != "Input\n"@.len());
            assert("Help\n"@[0] != "Input"@[0]);
            assert("Help\n"@.len() != "Output\n"@.len());
            assert("Help\n"@[0] != "Output"@[0]);
        },
    }
}

/// The saved flag comes back from its text.
pub proof fn law_bool_round_trip(b: bool)
    ensures
        (bool_text(b) == "true"@) == b,
        tab_free(bool_text(b)),
{
    reveal_strlit("true");
    reveal_strlit("false");
    if !b {
        assert("false"@.len() != "true"@.len());
    }
}

/// A plugin reads back the state that the editor starts it with, as long as
/// the text has at least one line and no line holds a newline, the mode is
/// not `Find` (whose debug text no mode name matches), and the extra words
/// are at least one and hold no space.
pub proof fn law_plugin_reads_sent_state(
    program: Seq<char>,
    input: Seq<Seq<char>>,
    output: Seq<char>,
    edit_cursor: usize,
    vert_cursor: usize,
    mode: Mode,
    line_name: Seq<char>,
    file_name: Seq<char>,
    saved: bool,
    scroll_x: usize,
    scroll_y: usize,
    display: Display,
    extra: Seq<Seq<char>>,
)
    requires
        input.len() >= 1,
        forall|i: int| 0 <= i < input.len() ==> !(#[trigger] input[i]).contains('\n'),
        !(mode is Find),
        extra.len() >= 1,
        forall|i: int| 0 <= i < extra.len() ==> !(#[trigger] extra[i]).contains(' '),
    ensures
        ({
            let a = seq![program] + state_fields(
                input, output, edit_cursor, vert_cursor, mode, line_name, file_name, saved,
                scroll_x, scroll_y, display,
            ).push(join_sep(extra, " "@));
            &&& readable_args(a)
            &&& split_char(a[1], '\n') == input
            &&& a[2] == output
            &&& parse_usize_spec(a[3]) == Some(edit_cursor)
            &&& parse_usize_spec(a[4]) == Some(vert_cursor)
            &&& mode_named(a[5]) == Some(mode)
            &&& a[6] == line_name
            &&& a[7] == file_name
            &&& (a[8] == "true"@) == saved
            &&& parse_usize_spec(a[9]) == Some(scroll_x)
            &&& parse_usize_spec(a[10]) == Some(scroll_y)
            &&& display_named(a[11]) == Some(display)
            &&& args_spec(a) == Some(extra)
        }),
{
    reveal_strlit("\n");
    reveal_strlit(" ");
    assert("\n"@ =~= seq!['\n']);
    assert(" "@ =~= seq![' ']);
    law_split_undoes_join(input, '\n');
    law_split_undoes_join(extra, ' ');
    law_parse_undoes_decimal(edit_cursor);
    law_parse_undoes_decimal(vert_cursor);
    law_parse_undoes_decimal(scroll_x);
    law_parse_undoes_decimal(scroll_y);
    law_mode_name_round_trip(mode);
    law_display_name_round_trip(display);
    law_bool_round_trip(saved);
}

/// The editor reads back, from the text a plugin prints, the state the
/// plugin handed back, as long as the text has at least one line and no
/// line holds a newline, the mode is not `Find`, and the text, the output,
/// the line name and the file name can pass through the printed text.
pub proof fn law_editor_reads_plugin_reply(vars: &BtelVars)
    requires
        vars.input@.len() >= 1,
        forall|i: int| 0 <= i < vars.input@.len() ==> !(#[trigger] vars.input@[i])@.contains('\n'),
        !(vars.mode is Find),
        plugin_safe(join_sep(strings_of(&vars.input), "\n"@)),
        plugin_safe(vars.output@),
        plugin_safe(vars.line_name@),
        plugin_safe(vars.file_name@),
    ensures
        ({
            let a = seq![Seq::<char>::empty()] + split_seq(vars_text(vars), field_sep());
            &&& readable_args(a)
            &&& split_char(a[1], '\n') == strings_of(&vars.input)
            &&& a[2] == vars.output@
            &&& parse_usize_spec(a[3]) == Some(vars.edit_cursor)
            &&& parse_usize_spec(a[4]) == Some(vars.vert_cursor)
            &&& mode_named(a[5]) == Some(vars.mode)
            &&& a[6] == vars.line_name@
            &&& a[7] == vars.file_name@
            &&& (a[8] == "true"@) == vars.saved
            &&& parse_usize_spec(a[9]) == Some(vars.scroll_x)
            &&& parse_usize_spec(a[10]) == Some(vars.scroll_y)
            &&& display_named(a[11]) == Some(vars.display)
            &&& args_spec(a) is None
        }),
{
    reveal_strlit("\n");
    assert("\n"@ =~= seq!['\n']);
    let input = strings_of(&vars.input);
    assert forall|i: int| 0 <= i < input.len() implies !(#[trigger] input[i]).contains('\n') by {
        assert(input[i] == vars.input@[i]@);
    }
    law_split_undoes_join(input, '\n');
    law_parse_undoes_decimal(vars.edit_cursor);
    law_parse_undoes_decimal(vars.vert_cursor);
    law_parse_undoes_decimal(vars.scroll_x);
    law_parse_undoes_decimal(vars.scroll_y);
    law_mode_name_round_trip(vars.mode);
    law_display_name_round_trip(vars.display);
    law_bool_round_trip(vars.saved);
    let fs = vars_fields(vars);
    let fs2 = fs.update(10, fs[10] + "\n"@);
    lemma_join_sep_append(fs, field_sep(), "\n"@);
    lemma_safe_field(fs[0]);
    lemma_safe_field(fs[1]);
    lemma_decimal_tab_free(vars.edit_cursor as nat);
    lemma_tab_free_field(fs[2]);
    lemma_decimal_tab_free(vars.vert_cursor as nat);
    lemma_tab_free_field(fs[3]);
    lemma_tab_free_field(fs[4]);
    lemma_safe_field(fs[5]);
    lemma_safe_field(fs[6]);
    lemma_tab_free_field(fs[7]);
    lemma_decimal_tab_free(vars.scroll_x as nat);
    lemma_tab_free_field(fs[8]);
    lemma_decimal_tab_free(vars.scroll_y as nat);
    lemma_tab_free_field(fs[9]);
    lemma_tab_free_field(fs2[10]);
    lemma_field_sep();
    assert forall|i: int| 0 <= i < fs2.len() - 1 implies ends_before_sep(#[trigger] fs2[i], field_sep()) by {
        assert(fs2[i] == fs[i]);
    }
    law_split_undoes_join_sep(fs2, field_sep());
}

/// A field without tabs passes through the plugin's printed text.
proof fn lemma_tab_free_safe(f: Seq<char>)
    requires
        tab_free(f),
    ensures
        plugin_safe(f),
{
    lemma_field_sep();
    reveal_strlit("\n\t");
    if contains_seq(f, field_sep()) {
        let i = choose|i: int| occurs_at(f, field_sep(), i);
        assert(f.subrange(i, i + 3)[1] == f[i + 1]);
        assert(f[i + 1] == '\t');
    }
    if ends_with(f, "\n\t"@) {
        let i = f.len() - 2;
        assert(f.subrange(i, i + 2)[1] == f[i + 1]);
        assert(f[i + 1] == '\t');
    }
}

/// Lines without tabs, joined by newlines, hold no tab.
proof fn lemma_join_tab_free(lines: Seq<Seq<char>>)
    requires
        forall|i: int| 0 <= i < lines.len() ==> tab_free(#[trigger] lines[i]),
    ensures
        tab_free(join_sep(lines, "\n"@)),
    decreases lines.len(),
{
    reveal_strlit("\n");
    if lines.len() > 1 {
        lemma_join_tab_free(lines.drop_last());
        let a = join_sep(lines.drop_last(), "\n"@);
        let j = a + "\n"@ + lines.last();
        assert(tab_free(lines[lines.len() - 1]));
        assert forall|i: int| 0 <= i < j.len() implies j[i] != '\t' by {
            if i < a.len() {
            } else if i == a.len() {
            } else {
                assert(j[i] == lines.last()[i - a.len() - 1]);
            }
        }
    } else if lines.len() == 1 {
        assert(tab_free(lines[0]));
    }
}

/// The editor reads back, from the text a plugin prints, the state the
/// plugin handed back, as long as the text has at least one line, no line
/// holds a newline, no text field holds a tab, and the mode is not `Find`.
pub proof fn law_editor_reads_tab_free_reply(vars: &BtelVars)
    requires
        vars.input@.len() >= 1,
        forall|i: int| 0 <= i < vars.input@.len() ==> !(#[trigger] vars.input@[i])@.contains('\n'),
        forall|i: int| 0 <= i < vars.input@.len() ==> tab_free(#[trigger] vars.input@[i]@),
        tab_free(vars.output@),
        tab_free(vars.line_name@),
        tab_free(vars.file_name@),
        !(vars.mode is Find),
    ensures
        ({
            let a = seq![Seq::<char>::empty()] + split_seq(vars_text(vars), field_sep());
            &&& readable_args(a)
            &&& split_char(a[1], '\n') == strings_of(&vars.input)
            &&& a[2] == vars.output@
            &&& parse_usize_spec(a[3]) == Some(vars.edit_cursor)
            &&& parse_usize_spec(a[4]) == Some(vars.vert_cursor)
            &&& mode_named(a[5]) == Some(vars.mode)
            &&& a[6] == vars.line_name@
            &&& a[7] == vars.file_name@
            &&& (a[8] == "true"@) == vars.saved
            &&& parse_usize_spec(a[9]) == Some(vars.scroll_x)
            &&& parse_usize_spec(a[10]) == Some(vars.scroll_y)
            &&& display_named(a[11]) == Some(vars.display)
            &&& args_spec(a) is None
        }),
{
    let input = strings_of(&vars.input);
    assert forall|i: int| 0 <= i < input.len() implies tab_free(#[trigger] input[i]) by {
        assert(input[i] == vars.input@[i]@);
    }
    lemma_join_tab_free(input);
    lemma_tab_free_safe(join_sep(input, "\n"@));
    lemma_tab_free_safe(vars.output@);
    lemma_tab_free_safe(vars.line_name@);
    lemma_tab_free_safe(vars.file_name@);
    law_editor_reads_plugin_reply(vars);
}

} // verus!

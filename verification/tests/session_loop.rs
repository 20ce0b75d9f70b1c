use btel::editor::SavePlan;
use btel::session::{
    exc_command, finish_open_failed, finish_open_file, finish_open_folder, finish_save, finish_shell,
    handle_key, key_allowed, plugin_path, start_with_file, EditorState, Key, Request,
};
use btel::{Display, Extern, Mode};

fn plugins() -> Vec<Extern> {
    vec![
        Extern { names: vec!["wc".to_string(), "count".to_string()], path: "/bin/wc-plugin".to_string() },
        Extern { names: vec!["fmt".to_string()], path: "/bin/fmt-plugin".to_string() },
        Extern { names: vec!["wc".to_string()], path: "/bin/other-wc".to_string() },
    ]
}

fn lines(s: &EditorState) -> Vec<&str> {
    s.input.iter().map(|l| l.as_str()).collect()
}

fn press(s: &mut EditorState, key: Key, history: &mut Vec<String>) -> Request {
    assert!(key_allowed(s, key, history));
    handle_key(s, key, history, &plugins())
}

fn type_command(s: &mut EditorState, text: &str, history: &mut Vec<String>) -> Request {
    for c in text.chars() {
        press(s, Key::Char(c), history);
    }
    press(s, Key::Enter, history)
}

#[test]
fn a_session_starts_on_the_command_line() {
    let s = EditorState::new();
    assert_eq!(s.input, vec![String::new()]);
    assert_eq!(s.mode, Mode::Command);
    assert_eq!(s.line_name, "Command");
    assert_eq!(s.file_name, "New File");
    assert_eq!(s.display, Display::Help);
    assert!(s.saved);
    assert!(s.opened_folder.is_none());
}

#[test]
fn edit_command_enters_edit_mode_and_typing_writes() {
    let mut s = EditorState::new();
    let mut h = Vec::new();
    assert!(matches!(type_command(&mut s, "e", &mut h), Request::Done));
    assert_eq!(s.mode, Mode::Edit);
    assert_eq!(h, vec!["e".to_string()]);
    assert_eq!(s.command, "");
    for c in "hi".chars() {
        press(&mut s, Key::Char(c), &mut h);
    }
    press(&mut s, Key::Enter, &mut h);
    press(&mut s, Key::Char('x'), &mut h);
    assert_eq!(lines(&s), vec!["hi", "x"]);
    assert_eq!((s.vert_cursor, s.edit_cursor), (1, 1));
    assert!(!s.saved);
    press(&mut s, Key::Esc, &mut h);
    assert_eq!(s.mode, Mode::Command);
    assert_eq!(s.line_name, "Command");
}

#[test]
fn non_ascii_characters_are_not_typed() {
    let mut s = EditorState::new();
    s.mode = Mode::Edit;
    let mut h = Vec::new();
    press(&mut s, Key::Char('é'), &mut h);
    assert_eq!(lines(&s), vec![""]);
    assert!(s.saved);
}

#[test]
fn edit_keys_follow_the_main_loop() {
    let mut s = EditorState::new();
    s.mode = Mode::Edit;
    s.input = vec!["abcd".to_string(), "ef".to_string()];
    s.edit_cursor = 1;
    let mut h = Vec::new();
    press(&mut s, Key::Delete, &mut h);
    assert_eq!(lines(&s), vec!["abd", "ef"]);
    s.edit_cursor = 2;
    press(&mut s, Key::Delete, &mut h);
    assert_eq!(lines(&s), vec!["ab", "ef"]);
    press(&mut s, Key::Delete, &mut h);
    assert_eq!(lines(&s), vec!["abef"]);
    press(&mut s, Key::Tab, &mut h);
    assert_eq!(lines(&s), vec!["ab    ef"]);
    assert_eq!(s.edit_cursor, 6);
    press(&mut s, Key::Backspace, &mut h);
    assert_eq!(lines(&s), vec!["ab   ef"]);
    press(&mut s, Key::Left, &mut h);
    press(&mut s, Key::Right, &mut h);
    assert_eq!(s.edit_cursor, 5);
    press(&mut s, Key::Up, &mut h);
    press(&mut s, Key::Down, &mut h);
    assert_eq!((s.vert_cursor, s.edit_cursor), (0, 5));
}

#[test]
fn backspace_at_line_end_keeps_saved_state() {
    let mut s = EditorState::new();
    s.mode = Mode::Edit;
    s.input = vec!["ab".to_string()];
    s.edit_cursor = 2;
    let mut h = Vec::new();
    press(&mut s, Key::Backspace, &mut h);
    assert_eq!(lines(&s), vec!["a"]);
    assert!(s.saved);
}

#[test]
fn unknown_command_is_reported() {
    let mut s = EditorState::new();
    let r = exc_command(&mut s, &"frobnicate now".to_string(), &plugins());
    assert!(matches!(r, Request::Done));
    assert_eq!(s.line_name, "Command not found.");
    let r = exc_command(&mut s, &"c".to_string(), &plugins());
    assert!(matches!(r, Request::Done));
    assert_eq!(s.line_name, "Command not found.");
}

#[test]
fn empty_command_does_nothing() {
    let mut s = EditorState::new();
    let r = exc_command(&mut s, &"   ".to_string(), &plugins());
    assert!(matches!(r, Request::Done));
    assert_eq!(s.line_name, "Command");
}

#[test]
fn shell_command_asks_for_a_shell() {
    let mut s = EditorState::new();
    match exc_command(&mut s, &"command echo  hello".to_string(), &plugins()) {
        Request::Shell(line) => assert_eq!(line, "echo hello "),
        _ => panic!("expected a shell request"),
    }
    assert_eq!(s.display, Display::Output);
    finish_shell(&mut s, "hello\n".to_string());
    assert_eq!(s.output, "hello\n");
}

#[test]
fn open_asks_for_the_file_when_saved() {
    let mut s = EditorState::new();
    match exc_command(&mut s, &"o notes.txt".to_string(), &plugins()) {
        Request::Open(p) => assert_eq!(p, "notes.txt"),
        _ => panic!("expected an open request"),
    }
    finish_open_file(&mut s, &"notes.txt".to_string(), vec!["a".to_string(), "b".to_string()]);
    assert_eq!(lines(&s), vec!["a", "b"]);
    assert_eq!(s.file_name, "notes.txt");
    assert!(s.saved);
    assert_eq!((s.vert_cursor, s.edit_cursor), (0, 0));
}

#[test]
fn open_with_unsaved_changes_is_refused() {
    let mut s = EditorState::new();
    s.saved = false;
    let r = exc_command(&mut s, &"open notes.txt".to_string(), &plugins());
    assert!(matches!(r, Request::Done));
    assert_eq!(s.line_name, "Unsaved Changes");
    assert_eq!(s.folder_error, Some("Unsaved Changes".to_string()));
}

#[test]
fn open_needs_exactly_one_argument() {
    let mut s = EditorState::new();
    let r = exc_command(&mut s, &"o a b".to_string(), &plugins());
    assert!(matches!(r, Request::Done));
    assert_eq!(s.line_name, "Command not found.");
}

#[test]
fn opened_folder_is_listed_and_failures_reported() {
    let mut s = EditorState::new();
    finish_open_folder(&mut s, &"/home/me".to_string(), &vec!["a.rs".to_string(), "b".to_string()]);
    assert_eq!(s.files_in_folder, vec!["..", "a.rs", "b"]);
    assert_eq!(s.opened_folder, Some("/home/me".to_string()));
    finish_open_failed(&mut s);
    assert_eq!(s.line_name, "File not found");
    assert_eq!(s.folder_error, Some("File not found".to_string()));
}

#[test]
fn save_uses_the_file_name_or_the_argument() {
    let mut s = EditorState::new();
    match exc_command(&mut s, &"s out.txt".to_string(), &plugins()) {
        Request::Save(plan) => {
            assert_eq!(plan.path, "out.txt");
            assert_eq!(plan.file_name, "out.txt");
            s.saved = false;
            finish_save(&mut s, &plan, true);
        },
        _ => panic!("expected a save request"),
    }
    assert!(s.saved);
    assert_eq!(s.file_name, "out.txt");
    match exc_command(&mut s, &"save".to_string(), &plugins()) {
        Request::Save(plan) => assert_eq!(plan.path, "out.txt"),
        _ => panic!("expected a save request"),
    }
    s.saved = false;
    finish_save(&mut s, &SavePlan { path: "x".to_string(), file_name: "x".to_string() }, false);
    assert!(!s.saved);
    assert_eq!(s.file_name, "x");
}

#[test]
fn new_file_without_name_saves_to_empty_path() {
    let mut s = EditorState::new();
    match exc_command(&mut s, &"s".to_string(), &plugins()) {
        Request::Save(plan) => {
            assert_eq!(plan.path, "");
            assert_eq!(plan.file_name, "");
        },
        _ => panic!("expected a save request"),
    }
}

#[test]
fn mode_and_display_commands() {
    let mut s = EditorState::new();
    exc_command(&mut s, &"f".to_string(), &plugins());
    assert_eq!(s.mode, Mode::Find(0, 0));
    exc_command(&mut s, &"quit".to_string(), &plugins());
    assert_eq!(s.mode, Mode::Quit);
    exc_command(&mut s, &"help".to_string(), &plugins());
    assert_eq!(s.display, Display::Help);
    s.saved = false;
    exc_command(&mut s, &"fs".to_string(), &plugins());
    assert!(s.saved);
    s.saved = false;
    exc_command(&mut s, &"force save".to_string(), &plugins());
    assert!(s.saved);
    assert_eq!(s.line_name, "Command");
}

#[test]
fn edit_columns_are_byte_offsets() {
    let mut s = EditorState::new();
    let mut h = Vec::new();
    s.mode = Mode::Edit;
    s.input = vec!["éa".to_string(), "x".to_string()];
    s.edit_cursor = 2;
    press(&mut s, Key::Char('b'), &mut h);
    assert_eq!(lines(&s), vec!["éba", "x"]);
    assert_eq!(s.edit_cursor, 3);
    s.edit_cursor = 1;
    assert!(!key_allowed(&s, Key::Enter, &h));
    assert!(!key_allowed(&s, Key::Char('z'), &h));
    s.edit_cursor = 3;
    press(&mut s, Key::Backspace, &mut h);
    assert_eq!(lines(&s), vec!["éa", "x"]);
    assert_eq!(s.edit_cursor, 2);
    s.vert_cursor = 1;
    s.edit_cursor = 0;
    press(&mut s, Key::Backspace, &mut h);
    assert_eq!(lines(&s), vec!["éax"]);
    assert_eq!((s.vert_cursor, s.edit_cursor), (0, 3));
    press(&mut s, Key::Right, &mut h);
    assert_eq!(s.edit_cursor, 4);
    press(&mut s, Key::Right, &mut h);
    assert_eq!(s.edit_cursor, 4);
}

#[test]
fn find_mode_reports_byte_columns() {
    let mut s = EditorState::new();
    let mut h = Vec::new();
    s.input = vec!["éb".to_string()];
    s.mode = Mode::Find(0, 0);
    press(&mut s, Key::Char('b'), &mut h);
    press(&mut s, Key::Enter, &mut h);
    assert_eq!((s.vert_cursor, s.edit_cursor), (0, 2));
    assert_eq!(s.mode, Mode::Find(3, 0));
}

#[test]
fn plugin_command_asks_for_the_plugin_with_its_words() {
    let mut s = EditorState::new();
    match exc_command(&mut s, &"count a b".to_string(), &plugins()) {
        Request::Plugin(name, extra) => {
            assert_eq!(name, "count");
            assert_eq!(extra, vec!["a".to_string(), "b".to_string()]);
        },
        _ => panic!("expected a plugin request"),
    }
}

#[test]
fn plugin_rounds_take_the_last_matching_program() {
    let cs = plugins();
    let name = "wc".to_string();
    assert_eq!(plugin_path(&cs, &name, 0), "/bin/wc-plugin");
    assert_eq!(plugin_path(&cs, &name, 1), "/bin/wc-plugin");
    assert_eq!(plugin_path(&cs, &name, 2), "/bin/other-wc");
    assert_eq!(plugin_path(&cs, &"fmt".to_string(), 0), "");
}

#[test]
fn quit_leaves_only_when_saved() {
    let mut s = EditorState::new();
    let mut h = Vec::new();
    s.mode = Mode::Quit;
    s.saved = false;
    assert!(matches!(press(&mut s, Key::Other, &mut h), Request::Done));
    assert_eq!(s.mode, Mode::Command);
    assert_eq!(s.line_name, "Unsaved changes use fs to force the saved state");
    s.mode = Mode::Quit;
    s.saved = true;
    assert!(matches!(press(&mut s, Key::Other, &mut h), Request::Exit));
}

#[test]
fn find_mode_walks_through_findings() {
    let mut s = EditorState::new();
    let mut h = Vec::new();
    s.input = vec!["abab".to_string(), "xab".to_string()];
    s.mode = Mode::Find(0, 0);
    press(&mut s, Key::Char('a'), &mut h);
    press(&mut s, Key::Char('b'), &mut h);
    assert_eq!(s.line_name, "Find");
    press(&mut s, Key::Enter, &mut h);
    assert_eq!((s.vert_cursor, s.edit_cursor), (0, 0));
    assert_eq!(s.mode, Mode::Find(1, 0));
    press(&mut s, Key::Enter, &mut h);
    assert_eq!((s.vert_cursor, s.edit_cursor), (0, 2));
    press(&mut s, Key::Enter, &mut h);
    assert_eq!((s.vert_cursor, s.edit_cursor), (1, 1));
    assert_eq!(s.mode, Mode::Find(2, 1));
    press(&mut s, Key::Enter, &mut h);
    assert_eq!(s.mode, Mode::Find(0, 0));
    press(&mut s, Key::Backspace, &mut h);
    press(&mut s, Key::Char('z'), &mut h);
    press(&mut s, Key::Enter, &mut h);
    assert_eq!(s.line_name, "Pattern not found");
    press(&mut s, Key::Esc, &mut h);
    assert_eq!(s.mode, Mode::Command);
    assert_eq!(s.command, "");
}

#[test]
fn history_steps_back_and_forth() {
    let mut s = EditorState::new();
    let mut h = vec!["".to_string(), "first".to_string(), "second".to_string()];
    press(&mut s, Key::Up, &mut h);
    assert_eq!(s.command, "second");
    press(&mut s, Key::Up, &mut h);
    assert_eq!(s.command, "first");
    press(&mut s, Key::Up, &mut h);
    assert_eq!(s.command, "");
    assert_eq!(s.hist_cursor, 0);
    press(&mut s, Key::Up, &mut h);
    press(&mut s, Key::Down, &mut h);
    assert_eq!(s.command, "");
    assert_eq!(s.hist_cursor, 0);
}

#[test]
fn folder_panel_keys() {
    let mut s = EditorState::new();
    let mut h = Vec::new();
    finish_open_folder(&mut s, &"/d".to_string(), &vec!["f.txt".to_string()]);
    press(&mut s, Key::Left, &mut h);
    assert!(s.targets_folder);
    press(&mut s, Key::Down, &mut h);
    assert_eq!(s.folder_cursor, 1);
    press(&mut s, Key::Down, &mut h);
    assert_eq!(s.folder_cursor, 0);
    press(&mut s, Key::Up, &mut h);
    assert_eq!(s.folder_cursor, 1);
    match press(&mut s, Key::Enter, &mut h) {
        Request::Open(p) => assert_eq!(p, "/d/f.txt"),
        _ => panic!("expected an open request"),
    }
    press(&mut s, Key::Right, &mut h);
    assert!(!s.targets_folder);
}

#[test]
fn key_presses_clear_the_folder_error() {
    let mut s = EditorState::new();
    let mut h = Vec::new();
    s.folder_error = Some("File not found".to_string());
    press(&mut s, Key::Char('x'), &mut h);
    assert_eq!(s.folder_error, None);
    assert_eq!(s.command, "x");
    assert_eq!(s.display, Display::Input);
}

#[test]
fn unsafe_keys_are_refused() {
    let mut s = EditorState::new();
    s.mode = Mode::Edit;
    s.vert_cursor = 3;
    let h: Vec<String> = Vec::new();
    assert!(!key_allowed(&s, Key::Backspace, &h));
    assert!(key_allowed(&s, Key::Esc, &h));
}

#[test]
fn starting_with_a_file_opens_it() {
    let mut s = EditorState::new();
    match start_with_file(&mut s, &"main.rs".to_string(), &plugins()) {
        Request::Open(p) => assert_eq!(p, "main.rs"),
        _ => panic!("expected an open request"),
    }
    assert_eq!(s.display, Display::Input);
}

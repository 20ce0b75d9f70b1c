use btel::editor::{
    ascii_lines_of_file, find, folder_path, get_from_history, is_plugin_name, lines_of_file,
    parse_command, replace_all, save_plan, set_from_btel_vars, shell_command, split_words, trim_home,
};
use btel::{BtelCommand, BtelVars, Display, Extern, Mode};

fn strings(v: &[&str]) -> Vec<String> {
    v.iter().map(|s| s.to_string()).collect()
}

#[test]
fn find_searches_from_the_position_then_later_lines() {
    let input = strings(&["hello world", "say hello"]);
    let pat = "hello".to_string();
    assert_eq!(find(&pat, &input, 0, 0), Some((0, 0)));
    assert_eq!(find(&pat, &input, 1, 0), Some((4, 1)));
    assert_eq!(find(&pat, &input, 5, 1), None);
    assert_eq!(find(&"zzz".to_string(), &input, 0, 0), None);
    assert_eq!(find(&pat, &input, 0, 2), None);
}

#[test]
fn find_counts_columns_in_bytes() {
    let input = strings(&["éé ab"]);
    assert_eq!(find(&"ab".to_string(), &input, 0, 0), Some((5, 0)));
    assert_eq!(find(&"b".to_string(), &strings(&["éb"]), 0, 0), Some((2, 0)));
    assert_eq!(find(&"é".to_string(), &strings(&["aé", "é"]), 1, 0), Some((1, 0)));
    assert_eq!(find(&"é".to_string(), &strings(&["aé", "é"]), 3, 0), Some((0, 1)));
}

#[test]
fn history_cursor_counts_back_from_newest() {
    let h = strings(&["one", "two", "three"]);
    assert_eq!(get_from_history(&h, &0), "");
    assert_eq!(get_from_history(&h, &1), "three");
    assert_eq!(get_from_history(&h, &3), "one");
}

#[test]
fn plugin_state_is_taken_over() {
    let vars = BtelVars {
        input: strings(&["a", "b"]),
        output: "out".to_string(),
        edit_cursor: 1,
        vert_cursor: 1,
        mode: Mode::Edit,
        line_name: "Plugin".to_string(),
        file_name: "f.txt".to_string(),
        saved: false,
        scroll_x: 2,
        scroll_y: 3,
        display: Display::Output,
        args: None,
    };
    let mut input = vec![String::new()];
    let mut output = String::new();
    let (mut e, mut v, mut sx, mut sy) = (0, 0, 0, 0);
    let mut mode = Mode::Command;
    let mut line_name = String::new();
    let mut file_name = String::new();
    let mut saved = true;
    let mut display = Display::Help;
    set_from_btel_vars(
        vars, &mut input, &mut output, &mut e, &mut v, &mut mode, &mut line_name, &mut file_name, &mut saved,
        &mut sx, &mut sy, &mut display,
    );
    assert_eq!(input, strings(&["a", "b"]));
    assert_eq!(output, "out");
    assert_eq!((e, v, sx, sy), (1, 1, 2, 3));
    assert_eq!(mode, Mode::Edit);
    assert_eq!(line_name, "Plugin");
    assert_eq!(file_name, "f.txt");
    assert!(!saved);
    assert_eq!(display, Display::Output);
}

#[test]
fn home_is_put_for_each_tilde() {
    assert_eq!(trim_home(&"~/a/~b".to_string(), &"/home/me".to_string()), "/home/me/a//home/meb");
    assert_eq!(trim_home(&"plain".to_string(), &"/h".to_string()), "plain");
    assert_eq!(replace_all("a\tb\t", '\t', "    "), "a    b    ");
}

#[test]
fn file_text_becomes_lines_with_tabs_expanded() {
    assert_eq!(lines_of_file("a\tb\nc\n"), strings(&["a    b", "c", ""]));
    assert_eq!(lines_of_file(""), strings(&[""]));
    assert_eq!(ascii_lines_of_file("x\ny"), Some(strings(&["x", "y"])));
    assert_eq!(ascii_lines_of_file("café"), None);
}

#[test]
fn folder_paths_are_made_absolute_and_go_up() {
    let cwd = "/home/me".to_string();
    assert_eq!(folder_path(&"src".to_string(), &cwd), Some("/home/me/src".to_string()));
    assert_eq!(folder_path(&"/etc".to_string(), &cwd), Some("/etc".to_string()));
    assert_eq!(folder_path(&"/home/me/src/..".to_string(), &cwd), Some("/home/me".to_string()));
    assert_eq!(folder_path(&"/home/me/src/.".to_string(), &cwd), Some("/home/me/src".to_string()));
    assert_eq!(folder_path(&"/a/..".to_string(), &cwd), None);
}

#[test]
fn save_plan_prefers_the_known_file() {
    let p = save_plan(&String::new(), &"a.txt".to_string());
    assert_eq!((p.path.as_str(), p.file_name.as_str()), ("a.txt", "a.txt"));
    let p = save_plan(&"b.txt".to_string(), &"a.txt".to_string());
    assert_eq!((p.path.as_str(), p.file_name.as_str()), ("b.txt", "b.txt"));
    let p = save_plan(&String::new(), &"New File".to_string());
    assert_eq!(p.path, "");
}

#[test]
fn words_split_at_ascii_whitespace() {
    assert_eq!(split_words("  o \t file.txt\n"), strings(&["o", "file.txt"]));
    assert_eq!(split_words(""), Vec::<String>::new());
    assert_eq!(split_words("one"), strings(&["one"]));
}

#[test]
fn commands_are_parsed_by_their_first_word() {
    let cs = vec![Extern { names: strings(&["wc"]), path: "/p".to_string() }];
    assert_eq!(parse_command(&"e".to_string(), &cs), BtelCommand::Edit);
    assert_eq!(parse_command(&"edit".to_string(), &cs), BtelCommand::Edit);
    assert_eq!(parse_command(&"o".to_string(), &cs), BtelCommand::Open);
    assert_eq!(parse_command(&"s".to_string(), &cs), BtelCommand::Save);
    assert_eq!(parse_command(&"c".to_string(), &cs), BtelCommand::Command);
    assert_eq!(parse_command(&"f".to_string(), &cs), BtelCommand::Find);
    assert_eq!(parse_command(&"fs".to_string(), &cs), BtelCommand::ForceSave);
    assert_eq!(parse_command(&"q".to_string(), &cs), BtelCommand::Quit);
    assert_eq!(parse_command(&"h".to_string(), &cs), BtelCommand::Help);
    assert_eq!(parse_command(&"wc".to_string(), &cs), BtelCommand::Extern("wc".to_string()));
    assert_eq!(parse_command(&"zz".to_string(), &cs), BtelCommand::Error);
    assert!(is_plugin_name(&cs, &"wc".to_string()));
    assert!(!is_plugin_name(&cs, &"w".to_string()));
}

#[test]
fn shell_line_joins_the_words_after_the_first() {
    assert_eq!(shell_command(&strings(&["c", "ls", "-l"])), "ls -l ");
    assert_eq!(shell_command(&strings(&["c"])), "");
    assert_eq!(shell_command(&Vec::new()), "");
}

use btel::vars::{
    args_readable, bool_string, btel_vars_text, display_debug_string, get_args, get_btel_vars,
    mode_debug_string, plugin_args, reply_args,
};
use btel::{BtelVars, Display, Mode};

fn strings(v: &[&str]) -> Vec<String> {
    v.iter().map(|s| s.to_string()).collect()
}

fn sample_args() -> Vec<String> {
    strings(&["plugin", "a\nb", "out", "3", "1", "Edit", "Edit", "f.txt", "true", "0", "2", "Input", "x y"])
}

#[test]
fn mode_and_display_names() {
    assert_eq!(Mode::from_string(&"Edit".to_string()), Mode::Edit);
    assert_eq!(Mode::from_string(&"Quit".to_string()), Mode::Quit);
    assert_eq!(Mode::from_string(&"Find".to_string()), Mode::Find(0, 0));
    assert_eq!(Mode::from_string(&"Command".to_string()), Mode::Command);
    assert_eq!(Mode::from_string(&"View".to_string()), Mode::View);
    assert_eq!(Display::from_string(&"Input\n".to_string()), Display::Input);
    assert_eq!(Display::from_string(&"Output".to_string()), Display::Output);
    assert_eq!(Display::from_string(&"Help\n".to_string()), Display::Help);
    assert_eq!(Mode::Find(3, 4).name(), "Find");
    assert_eq!(Mode::Command.name(), "Command");
}

#[test]
fn debug_texts_of_mode_display_and_bool() {
    assert_eq!(mode_debug_string(Mode::Find(12, 0)), "Find(12, 0)");
    assert_eq!(mode_debug_string(Mode::Edit), "Edit");
    assert_eq!(display_debug_string(Display::Output), "Output");
    assert_eq!(bool_string(true), "true");
    assert_eq!(bool_string(false), "false");
    assert_eq!(format!("{:?}", Mode::Find(12, 0)), mode_debug_string(Mode::Find(12, 0)));
}

#[test]
fn extra_arguments_are_split_at_spaces() {
    assert_eq!(get_args(&sample_args()), Some(strings(&["x", "y"])));
    let mut short = sample_args();
    short.pop();
    assert_eq!(get_args(&short), None);
}

#[test]
fn plugin_reads_the_state_from_its_arguments() {
    assert!(args_readable(&sample_args()));
    let vars = get_btel_vars(sample_args());
    assert_eq!(vars.input, strings(&["a", "b"]));
    assert_eq!(vars.output, "out");
    assert_eq!((vars.edit_cursor, vars.vert_cursor), (3, 1));
    assert_eq!(vars.mode, Mode::Edit);
    assert_eq!(vars.line_name, "Edit");
    assert_eq!(vars.file_name, "f.txt");
    assert!(vars.saved);
    assert_eq!((vars.scroll_x, vars.scroll_y), (0, 2));
    assert_eq!(vars.display, Display::Input);
    assert_eq!(vars.args, Some(strings(&["x", "y"])));
}

#[test]
fn unreadable_arguments_are_detected() {
    let mut bad = sample_args();
    bad[3] = "three".to_string();
    assert!(!args_readable(&bad));
    let mut bad_mode = sample_args();
    bad_mode[5] = "Find(0, 0)".to_string();
    assert!(!args_readable(&bad_mode));
    assert!(!args_readable(&strings(&["p", "a"])));
    let mut not_true = sample_args();
    not_true[8] = "yes".to_string();
    assert!(!get_btel_vars(not_true).saved);
}

#[test]
fn printed_state_has_separated_fields() {
    let vars = BtelVars {
        input: strings(&["a", "b"]),
        output: "o".to_string(),
        edit_cursor: 1,
        vert_cursor: 0,
        mode: Mode::Command,
        line_name: "L".to_string(),
        file_name: "F".to_string(),
        saved: false,
        scroll_x: 0,
        scroll_y: 5,
        display: Display::Help,
        args: None,
    };
    assert_eq!(
        btel_vars_text(&vars),
        "a\nb\n\t\no\n\t\n1\n\t\n0\n\t\nCommand\n\t\nL\n\t\nF\n\t\nfalse\n\t\n0\n\t\n5\n\t\nHelp\n"
    );
}

#[test]
fn editor_reads_back_what_a_plugin_printed() {
    let vars = BtelVars {
        input: strings(&["x", "", "y"]),
        output: "res".to_string(),
        edit_cursor: 0,
        vert_cursor: 2,
        mode: Mode::Edit,
        line_name: "name".to_string(),
        file_name: "file".to_string(),
        saved: true,
        scroll_x: 1,
        scroll_y: 0,
        display: Display::Output,
        args: None,
    };
    let reply = reply_args(&btel_vars_text(&vars));
    assert_eq!(reply[0], "");
    assert!(args_readable(&reply));
    let back = get_btel_vars(reply);
    assert_eq!(back.input, vars.input);
    assert_eq!(back.output, vars.output);
    assert_eq!((back.edit_cursor, back.vert_cursor), (0, 2));
    assert_eq!(back.mode, Mode::Edit);
    assert_eq!(back.line_name, "name");
    assert_eq!(back.file_name, "file");
    assert!(back.saved);
    assert_eq!((back.scroll_x, back.scroll_y), (1, 0));
    assert_eq!(back.display, Display::Output);
    assert_eq!(back.args, None);
}

#[test]
fn plugin_gets_the_state_it_was_sent() {
    let input = strings(&["l1", "l2"]);
    let args = plugin_args(
        &input,
        &"out".to_string(),
        4,
        1,
        Mode::Quit,
        &"Quit".to_string(),
        &"n.txt".to_string(),
        false,
        0,
        0,
        Display::Input,
        &strings(&["p", "q"]),
    );
    assert_eq!(args.len(), 12);
    assert_eq!(args[11], "p q");
    let mut full = vec!["plugin".to_string()];
    full.extend(args);
    assert!(args_readable(&full));
    let vars = get_btel_vars(full);
    assert_eq!(vars.input, input);
    assert_eq!(vars.edit_cursor, 4);
    assert_eq!(vars.mode, Mode::Quit);
    assert!(!vars.saved);
    assert_eq!(vars.args, Some(strings(&["p", "q"])));
}

#[test]
fn a_find_mode_is_not_read_back() {
    let args = plugin_args(
        &strings(&[""]),
        &String::new(),
        0,
        0,
        Mode::Find(1, 2),
        &String::new(),
        &String::new(),
        true,
        0,
        0,
        Display::Input,
        &Vec::new(),
    );
    let mut full = vec!["plugin".to_string()];
    full.extend(args);
    assert!(!args_readable(&full));
}

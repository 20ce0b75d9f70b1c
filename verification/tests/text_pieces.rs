use btel::text::{chars_of, eq_str, join_strings, parse_usize, split_str, split_string, string_of, usize_to_string};

fn strings(v: &[&str]) -> Vec<String> {
    v.iter().map(|s| s.to_string()).collect()
}

#[test]
fn split_at_a_character_keeps_empty_pieces() {
    assert_eq!(split_string("a,,b,", ','), strings(&["a", "", "b", ""]));
    assert_eq!(split_string("", ','), strings(&[""]));
}

#[test]
fn split_at_a_separator() {
    assert_eq!(split_str("cmd1 or cmd2 or cmd3", " or "), strings(&["cmd1", "cmd2", "cmd3"]));
    assert_eq!(split_str("x\n\t\ny\n\t\n", "\n\t\n"), strings(&["x", "y", ""]));
    assert_eq!(split_str("aaa", "aa"), strings(&["", "a"]));
}

#[test]
fn join_undoes_split() {
    let s = "one two  three";
    assert_eq!(join_strings(&split_string(s, ' '), " "), s);
    let parts = strings(&["a", "", "b"]);
    assert_eq!(split_string(&join_strings(&parts, "\n"), '\n'), parts);
}

#[test]
fn numbers_are_written_and_read_in_decimal() {
    assert_eq!(usize_to_string(0), "0");
    assert_eq!(usize_to_string(1203), "1203");
    assert_eq!(parse_usize("1203"), Some(1203));
    assert_eq!(parse_usize("+7"), Some(7));
    assert_eq!(parse_usize("007"), Some(7));
    assert_eq!(parse_usize(""), None);
    assert_eq!(parse_usize("-1"), None);
    assert_eq!(parse_usize("1 2"), None);
    assert_eq!(parse_usize("18446744073709551616"), None);
    assert_eq!(parse_usize(&usize_to_string(usize::MAX)), Some(usize::MAX));
}

#[test]
fn characters_and_strings_convert() {
    assert_eq!(chars_of("héllo"), vec!['h', 'é', 'l', 'l', 'o']);
    assert_eq!(string_of(&vec!['ü', 'x']), "üx");
    assert!(eq_str("abc", "abc"));
    assert!(!eq_str("abc", "abd"));
}

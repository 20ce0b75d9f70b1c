use btel::textblock::{Target, TextBlock};

fn block(lines: &[&str], vert: usize, edit: usize) -> TextBlock {
    let mut tb = TextBlock::new();
    tb.input = lines.iter().map(|l| l.chars().collect()).collect();
    tb.view = tb.input.clone();
    tb.vert_cursor = vert;
    tb.edit_cursor = edit;
    tb
}

fn text(tb: &TextBlock) -> Vec<String> {
    tb.input.iter().map(|l| l.iter().collect()).collect()
}

#[test]
fn new_block_is_one_empty_saved_line() {
    let tb = TextBlock::new();
    assert_eq!(tb.input, vec![Vec::<char>::new()]);
    assert_eq!(tb.view, vec![Vec::<char>::new()]);
    assert_eq!((tb.vert_cursor, tb.edit_cursor), (0, 0));
    assert!(tb.saved);
    assert!(tb.view_info.is_empty());
}

#[test]
fn write_inserts_at_cursor() {
    let mut tb = block(&["hllo"], 0, 1);
    tb.write('e');
    assert_eq!(text(&tb), vec!["hello"]);
    assert_eq!((tb.vert_cursor, tb.edit_cursor), (0, 2));
    assert!(!tb.saved);
}

#[test]
fn tab_inserts_four_spaces() {
    let mut tb = block(&["ab"], 0, 1);
    tb.tab();
    assert_eq!(text(&tb), vec!["a    b"]);
    assert_eq!(tb.edit_cursor, 5);
    assert!(!tb.saved);
}

#[test]
fn backspace_removes_character_before_cursor() {
    let mut tb = block(&["abc"], 0, 2);
    tb.backspace();
    assert_eq!(text(&tb), vec!["ac"]);
    assert_eq!(tb.edit_cursor, 1);
    assert!(!tb.saved);
}

#[test]
fn backspace_at_line_end_pops() {
    let mut tb = block(&["abc"], 0, 3);
    tb.backspace();
    assert_eq!(text(&tb), vec!["ab"]);
    assert_eq!(tb.edit_cursor, 2);
}

#[test]
fn backspace_at_line_start_joins_lines() {
    let mut tb = block(&["ab", "cd"], 1, 0);
    tb.backspace();
    assert_eq!(text(&tb), vec!["abcd"]);
    assert_eq!((tb.vert_cursor, tb.edit_cursor), (0, 2));
    assert!(!tb.saved);
}

#[test]
fn backspace_at_text_start_does_nothing() {
    let mut tb = block(&["ab"], 0, 0);
    tb.backspace();
    assert_eq!(text(&tb), vec!["ab"]);
    assert_eq!((tb.vert_cursor, tb.edit_cursor), (0, 0));
    assert!(tb.saved);
}

#[test]
fn delete_removes_character_at_cursor() {
    let mut tb = block(&["abc"], 0, 1);
    tb.delete();
    assert_eq!(text(&tb), vec!["ac"]);
    assert_eq!(tb.edit_cursor, 1);
    assert!(!tb.saved);
}

#[test]
fn delete_before_last_character_pops() {
    let mut tb = block(&["abc"], 0, 2);
    tb.delete();
    assert_eq!(text(&tb), vec!["ab"]);
}

#[test]
fn delete_at_line_end_joins_next_line() {
    let mut tb = block(&["ab", "cd", "ef"], 0, 2);
    tb.delete();
    assert_eq!(text(&tb), vec!["abcd", "ef"]);
    assert_eq!((tb.vert_cursor, tb.edit_cursor), (0, 2));
}

#[test]
fn delete_at_text_end_only_marks_unsaved() {
    let mut tb = block(&["ab"], 0, 2);
    tb.delete();
    assert_eq!(text(&tb), vec!["ab"]);
    assert!(!tb.saved);
}

#[test]
fn enter_splits_line_at_cursor() {
    let mut tb = block(&["abcd"], 0, 1);
    tb.enter();
    assert_eq!(text(&tb), vec!["a", "bcd"]);
    assert_eq!((tb.vert_cursor, tb.edit_cursor), (1, 0));
    assert!(!tb.saved);
}

#[test]
fn left_moves_back_and_over_line_starts() {
    let mut tb = block(&["ab", "c"], 1, 1);
    tb.left(Target::Input);
    assert_eq!((tb.vert_cursor, tb.edit_cursor), (1, 0));
    tb.left(Target::Input);
    assert_eq!((tb.vert_cursor, tb.edit_cursor), (0, 2));
    let mut start = block(&["ab"], 0, 0);
    start.left(Target::Input);
    assert_eq!((start.vert_cursor, start.edit_cursor), (0, 0));
}

#[test]
fn right_moves_forward_and_over_line_ends() {
    let mut tb = block(&["a", "bc"], 0, 0);
    tb.right(Target::Input);
    assert_eq!((tb.vert_cursor, tb.edit_cursor), (0, 1));
    tb.right(Target::Input);
    assert_eq!((tb.vert_cursor, tb.edit_cursor), (1, 0));
    let mut end = block(&["ab"], 0, 2);
    end.right(Target::Input);
    assert_eq!((end.vert_cursor, end.edit_cursor), (0, 2));
}

#[test]
fn up_and_down_clamp_the_column() {
    let mut tb = block(&["ab", "abcdef", "abcd"], 1, 5);
    tb.up(Target::Input);
    assert_eq!((tb.vert_cursor, tb.edit_cursor), (0, 2));
    let mut down = block(&["ab", "abcdef", "abcd"], 1, 5);
    down.down(Target::Input);
    assert_eq!((down.vert_cursor, down.edit_cursor), (2, 4));
    let mut keep = block(&["abcdef", "abcdef"], 0, 2);
    keep.down(Target::Input);
    assert_eq!((keep.vert_cursor, keep.edit_cursor), (1, 2));
    let mut last = block(&["ab"], 0, 1);
    last.down(Target::Input);
    last.up(Target::Input);
    assert_eq!((last.vert_cursor, last.edit_cursor), (0, 1));
}

#[test]
fn moves_over_the_view_use_the_view_lines() {
    let mut tb = block(&["a"], 0, 0);
    tb.view = vec!["abc".chars().collect(), "de".chars().collect()];
    tb.right(Target::View);
    tb.right(Target::View);
    tb.right(Target::View);
    assert_eq!((tb.vert_cursor, tb.edit_cursor), (0, 3));
    tb.down(Target::View);
    assert_eq!((tb.vert_cursor, tb.edit_cursor), (1, 2));
    assert_eq!(text(&tb), vec!["a"]);
}

#[test]
fn backspace_undoes_write() {
    let mut tb = block(&["one", "two"], 1, 2);
    let before = tb.input.clone();
    tb.write('x');
    tb.backspace();
    assert_eq!(tb.input, before);
    assert_eq!((tb.vert_cursor, tb.edit_cursor), (1, 2));
}

#[test]
fn backspace_undoes_enter() {
    let mut tb = block(&["one", "two"], 0, 1);
    let before = tb.input.clone();
    tb.enter();
    tb.backspace();
    assert_eq!(tb.input, before);
    assert_eq!((tb.vert_cursor, tb.edit_cursor), (0, 1));
}

#[test]
fn right_undoes_left_and_left_undoes_right() {
    let mut tb = block(&["ab", "cd"], 1, 0);
    tb.left(Target::Input);
    tb.right(Target::Input);
    assert_eq!((tb.vert_cursor, tb.edit_cursor), (1, 0));
    tb.right(Target::Input);
    tb.left(Target::Input);
    assert_eq!((tb.vert_cursor, tb.edit_cursor), (1, 0));
}

#[test]
fn backspace_on_an_empty_text_changes_nothing() {
    let mut tb = TextBlock::new();
    tb.input = Vec::new();
    tb.backspace();
    assert!(tb.input.is_empty());
    assert_eq!((tb.vert_cursor, tb.edit_cursor), (0, 0));
    assert!(tb.saved);
}

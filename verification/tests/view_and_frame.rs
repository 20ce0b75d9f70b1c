use btel::render::{adjust_scroll, frame_fits_exec, frame_plan, render, FrameInput, Rect, TitleMark};
use btel::styling::{Color, Style, StyledChar, UNDERLINED};
use btel::textblock::TextBlock;
use btel::view::{action, finish_action, get_url, style_from_viewrule, view, view_from_input, Opened, ViewAction, ViewRule};
use btel::{App, Display, Highlight, InclHighlight, Mode};

fn block(lines: &[&str]) -> TextBlock {
    let mut tb = TextBlock::new();
    tb.input = lines.iter().map(|l| l.chars().collect()).collect();
    tb
}

fn plain() -> Style {
    Style { fg: None, bg: None, add_modifier: 0, sub_modifier: 0 }
}

fn link(c: Color) -> Style {
    Style { fg: Some(c), bg: None, add_modifier: UNDERLINED, sub_modifier: 0 }
}

fn positions(tb: &TextBlock) -> Vec<(usize, String)> {
    tb.view_info
        .iter()
        .map(|(i, r)| {
            (*i, match r {
                ViewRule::Url(u) => format!("url:{}", u),
                ViewRule::File(f) => format!("file:{}", f),
            })
        })
        .collect()
}

#[test]
fn urls_get_a_scheme() {
    assert_eq!(get_url("www.example.com".to_string()), "https://www.example.com");
    assert_eq!(get_url("http://a.org".to_string()), "http://a.org");
    assert_eq!(get_url(String::new()), "https://");
}

#[test]
fn links_are_found_files_first() {
    let mut tb = block(&["see www.example.com now"]);
    assert!(view_from_input(&mut tb, &vec!["now".to_string()]));
    assert_eq!(tb.view, tb.input);
    let mut expected: Vec<(usize, String)> = (20..23).map(|i| (i, "file:now".to_string())).collect();
    expected.extend((4..19).map(|i| (i, "url:www.example.com".to_string())));
    assert_eq!(positions(&tb), expected);
}

#[test]
fn a_file_name_inside_an_address_keeps_its_file_link() {
    let mut tb = block(&["go to a.rs", "site.org"]);
    assert!(view_from_input(&mut tb, &vec!["a.rs".to_string(), String::new()]));
    let pos = positions(&tb);
    assert_eq!(&pos[0..4], &[
        (6, "file:a.rs".to_string()),
        (7, "file:a.rs".to_string()),
        (8, "file:a.rs".to_string()),
        (9, "file:a.rs".to_string()),
    ]);
    assert!(pos.iter().filter(|p| p.0 == 6).count() == 1);
    assert!(pos.contains(&(11, "url:site.org".to_string())));
}

#[test]
fn link_styles() {
    assert_eq!(style_from_viewrule(&ViewRule::Url("u".to_string())), link(Color::Blue));
    assert_eq!(style_from_viewrule(&ViewRule::File("f".to_string())), link(Color::Green));
}

#[test]
fn view_styles_the_linked_characters() {
    let info = vec![(1, ViewRule::File("f".to_string())), (3, ViewRule::Url("u".to_string())), (9, ViewRule::Url("x".to_string()))];
    let lines = view("ab\ncd".to_string(), &info);
    let got: Vec<Vec<(char, Style)>> = lines.iter().map(|l| l.iter().map(|c: &StyledChar| (c.content, c.style)).collect()).collect();
    assert_eq!(got, vec![vec![('a', plain()), ('b', link(Color::Green))], vec![('c', link(Color::Blue)), ('d', plain())]]);
}

#[test]
fn choosing_a_link_asks_for_its_target() {
    let mut tb = block(&["see www.example.com now"]);
    assert!(view_from_input(&mut tb, &vec!["now".to_string()]));
    let mut line_name = "View".to_string();
    let mut folder_error = None;
    tb.edit_cursor = 4;
    match action(&tb, &mut line_name, &mut folder_error) {
        ViewAction::OpenUrl(u) => assert_eq!(u, "https://www.example.com"),
        _ => panic!("expected a web address"),
    }
    tb.edit_cursor = 21;
    match action(&tb, &mut line_name, &mut folder_error) {
        ViewAction::OpenTarget(f) => assert_eq!(f, "now"),
        _ => panic!("expected a file"),
    }
    tb.edit_cursor = 1;
    assert!(matches!(action(&tb, &mut line_name, &mut folder_error), ViewAction::Nothing));
    tb.edit_cursor = 99;
    assert!(matches!(action(&tb, &mut line_name, &mut folder_error), ViewAction::Nothing));
    assert_eq!(line_name, "View");
    assert_eq!(folder_error, None);
}

#[test]
fn choosing_a_file_with_unsaved_changes_is_refused() {
    let mut tb = block(&["x", "now"]);
    assert!(view_from_input(&mut tb, &vec!["now".to_string()]));
    tb.saved = false;
    tb.vert_cursor = 1;
    tb.edit_cursor = 0;
    let mut line_name = "View".to_string();
    let mut folder_error = None;
    assert!(matches!(action(&tb, &mut line_name, &mut folder_error), ViewAction::Nothing));
    assert_eq!(line_name, "Unsaved Changes");
    assert_eq!(folder_error, Some("Unsaved Changes".to_string()));
}

#[test]
fn what_opening_found_is_taken_in() {
    let mut tb = block(&["old"]);
    tb.saved = false;
    tb.vert_cursor = 0;
    tb.edit_cursor = 2;
    let mut file_name = "a".to_string();
    let mut files = Vec::new();
    let mut opened = None;
    let mut line_name = "View".to_string();
    let mut folder_error = None;
    finish_action(&mut tb, &mut file_name, &mut files, &mut opened, &mut line_name, &mut folder_error, &"b.txt".to_string(), Opened::File(vec!["n1".to_string(), "n2".to_string()]));
    assert_eq!(tb.input, vec![vec!['n', '1'], vec!['n', '2']]);
    assert!(tb.saved);
    assert_eq!((tb.vert_cursor, tb.edit_cursor), (0, 0));
    assert_eq!(file_name, "b.txt");
    finish_action(&mut tb, &mut file_name, &mut files, &mut opened, &mut line_name, &mut folder_error, &"d".to_string(), Opened::Folder("/d".to_string(), vec!["e".to_string()]));
    assert_eq!(files, vec!["..".to_string(), "e".to_string()]);
    assert_eq!(opened, Some("/d".to_string()));
    finish_action(&mut tb, &mut file_name, &mut files, &mut opened, &mut line_name, &mut folder_error, &"z".to_string(), Opened::Missing);
    assert_eq!(line_name, "File not found");
    assert_eq!(folder_error, Some("File not found".to_string()));
    assert_eq!(file_name, "b.txt");
}

#[test]
fn scrolling_keeps_the_cursor_in_view() {
    assert_eq!(adjust_scroll(0, 0, 20), 0);
    assert_eq!(adjust_scroll(30, 0, 20), 13);
    assert_eq!(adjust_scroll(5, 10, 20), 5);
    assert_eq!(adjust_scroll(12, 10, 20), 10);
    assert_eq!(adjust_scroll(4, 1, 2), 4);
}

fn input(mode: Mode) -> FrameInput {
    FrameInput {
        mode,
        vert: 30,
        edit: 2,
        scroll: 0,
        scroll_x: 0,
        n_input: 50,
        n_lines: 50,
        command_len: 3,
        forced_save: false,
        saved: false,
    }
}

#[test]
fn frame_plan_scrolls_and_places_the_cursor() {
    let big = vec![Rect { x: 0, y: 0, width: 0, height: 24 }, Rect { x: 0, y: 0, width: 80, height: 24 }];
    let chunks = vec![
        Rect { x: 0, y: 0, width: 80, height: 18 },
        Rect { x: 0, y: 18, width: 80, height: 3 },
        Rect { x: 0, y: 21, width: 80, height: 3 },
    ];
    let i = input(Mode::Edit);
    assert!(frame_fits_exec(&i, chunks[0], chunks[2]));
    let p = frame_plan(&i, &big, &chunks);
    assert_eq!(p.scroll, 15);
    assert_eq!((p.first_line, p.end_line), (15, 32));
    assert_eq!((p.cursor_x, p.cursor_y), (3, 16));
    assert_eq!(p.mark, TitleMark::Unsaved);
    let c = frame_plan(&input(Mode::Command), &big, &chunks);
    assert_eq!((c.cursor_x, c.cursor_y), (4, 22));
    let mut forced = input(Mode::Command);
    forced.forced_save = true;
    assert_eq!(frame_plan(&forced, &big, &chunks).mark, TitleMark::Forced);
    let mut tiny = input(Mode::Edit);
    tiny.n_lines = 20;
    assert!(!frame_fits_exec(&tiny, chunks[0], chunks[2]));
}

#[test]
fn render_plans_a_whole_frame() {
    let mut tb = block(&["{\"a\": 1}", "second"]);
    tb.vert_cursor = 0;
    tb.edit_cursor = 2;
    let output = String::new();
    let command = "ab".to_string();
    let line_name = "Command".to_string();
    let file_name = "x.json".to_string();
    let display = Display::Input;
    let app = App { mode: Mode::Command, textbox: &tb, output: &output, command: &command, line_name: &line_name, file_name: &file_name, display: &display };
    let conf = vec![(".json".to_string(), Highlight::Incl(InclHighlight::Json))];
    let (mut scroll, mut scroll_x) = (0, 0);
    let area = Rect { x: 0, y: 0, width: 80, height: 24 };
    let (plan, lines) = render(&app, area, &mut scroll, &mut scroll_x, false, false, &conf, false).unwrap();
    assert_eq!(plan.text_area, Rect { x: 0, y: 0, width: 80, height: 18 });
    assert_eq!(plan.status_area, Rect { x: 0, y: 18, width: 80, height: 3 });
    assert_eq!(plan.command_area, Rect { x: 0, y: 21, width: 80, height: 3 });
    assert_eq!((plan.first_line, plan.end_line), (0, 2));
    assert_eq!((plan.cursor_x, plan.cursor_y), (3, 22));
    assert_eq!(plan.mark, TitleMark::Clean);
    assert_eq!(lines.len(), 2);
    assert_eq!(lines[0][0].style.fg, Some(Color::Yellow));
    assert_eq!((scroll, scroll_x), (0, 0));
}

#[test]
fn render_refuses_a_screen_too_wide_for_its_percentages() {
    let tb = block(&["a"]);
    let s = String::new();
    let display = Display::Input;
    let app = App { mode: Mode::Command, textbox: &tb, output: &s, command: &s, line_name: &s, file_name: &s, display: &display };
    let (mut scroll, mut scroll_x) = (7, 7);
    let area = Rect { x: 0, y: 0, width: 700, height: 24 };
    assert!(render(&app, area, &mut scroll, &mut scroll_x, false, false, &Vec::new(), false).is_none());
    assert_eq!((scroll, scroll_x), (7, 7));
}

use btel::config::{
    brackets_from_captures, rgb_from_captures, border_type_from_string, color_from_string, gen_stat, generate_custom, generate_hightlight, get_child,
    highlighting_readable, load_commands, rgb_from_string, stat_readable, theme, theme_readable, ConfigNode,
    StatItem,
};
use btel::highlight::{
    color_brackets, custom_highlight, highlight, json_highlight, plain_text, rust_highlight, spans_of,
    text_from_spans,
};
use btel::styling::{BorderType, Color, Style, StyledChar, DIM, UNDERLINED};
use btel::{Highlight, HighlightInstr, InclHighlight};

fn node(name: &str, value: Option<&str>, roots: Vec<ConfigNode>) -> ConfigNode {
    ConfigNode { name: name.to_string(), value: value.map(|v| v.to_string()), roots }
}

fn leaf(name: &str, value: &str) -> ConfigNode {
    node(name, Some(value), Vec::new())
}

fn plain() -> Style {
    Style { fg: None, bg: None, add_modifier: 0, sub_modifier: 0 }
}

fn fg(c: Color) -> Style {
    Style { fg: Some(c), ..plain() }
}

fn styles(lines: &Vec<Vec<StyledChar>>) -> Vec<Vec<Style>> {
    lines.iter().map(|l| l.iter().map(|c| c.style).collect()).collect()
}

fn contents(lines: &Vec<Vec<StyledChar>>) -> Vec<String> {
    lines.iter().map(|l| l.iter().map(|c| c.content).collect()).collect()
}

#[test]
fn colours_by_name_rgb_or_white() {
    assert_eq!(color_from_string(&"LightMagenta".to_string()), Some(Color::LightMagenta));
    assert_eq!(color_from_string(&"Black".to_string()), Some(Color::Black));
    assert_eq!(color_from_string(&"Gray".to_string()), Some(Color::Gray));
    assert_eq!(color_from_string(&"Reset".to_string()), Some(Color::Reset));
    assert_eq!(color_from_string(&"12, 23, 4".to_string()), Some(Color::Rgb(12, 23, 4)));
    assert_eq!(color_from_string(&"300, 1, 1".to_string()), Some(Color::Rgb(0, 1, 1)));
    assert_eq!(color_from_string(&"purple".to_string()), Some(Color::White));
    assert_eq!(rgb_from_string("x 1, 2, 3 y"), Some(Some(Color::Rgb(1, 2, 3))));
    assert_eq!(rgb_from_string("1,2,3"), Some(None));
}

#[test]
fn border_kinds_default_to_plain() {
    assert_eq!(border_type_from_string(Some(&leaf("border_type", "Rounded"))), BorderType::Rounded);
    assert_eq!(border_type_from_string(Some(&leaf("border_type", "Double"))), BorderType::Double);
    assert_eq!(border_type_from_string(Some(&leaf("border_type", "Thick"))), BorderType::Thick);
    assert_eq!(border_type_from_string(Some(&leaf("border_type", "wavy"))), BorderType::Plain);
    assert_eq!(border_type_from_string(None), BorderType::Plain);
}

#[test]
fn themes_builtin_custom_and_default() {
    let cfg = node("", None, vec![leaf("theme", "green")]);
    assert!(theme_readable(&cfg));
    let t = theme(&cfg).unwrap();
    assert_eq!((t.border_type, t.target, t.no_target), (BorderType::Rounded, Color::Green, Color::LightGreen));
    let cfg = node("", None, vec![leaf("theme", "clear")]);
    let t = theme(&cfg).unwrap();
    assert_eq!((t.border_type, t.target, t.no_target), (BorderType::Plain, Color::DarkGray, Color::Black));
    let cfg = node("", None, vec![leaf("other", "x")]);
    let t = theme(&cfg).unwrap();
    assert_eq!((t.border_type, t.target, t.no_target), (BorderType::Plain, Color::White, Color::DarkGray));
    let custom = node(
        "theme",
        Some("custom"),
        vec![leaf("border_type", "Rounded"), leaf("target", "Green"), leaf("no_target", "LightGreen")],
    );
    let cfg = node("", None, vec![custom]);
    let t = theme(&cfg).unwrap();
    assert_eq!((t.border_type, t.target, t.no_target), (BorderType::Rounded, Color::Green, Color::LightGreen));
    let partial = node("theme", Some("custom"), vec![leaf("target", "Red")]);
    let t = theme(&node("", None, vec![partial])).unwrap();
    assert_eq!((t.border_type, t.target, t.no_target), (BorderType::Plain, Color::Red, Color::White));
    let broken = node("theme", Some("custom"), vec![node("target", None, Vec::new())]);
    assert!(!theme_readable(&node("", None, vec![broken])));
}

#[test]
fn children_are_found_by_first_name() {
    let cfg = node("", None, vec![leaf("a", "1"), leaf("b", "2"), leaf("a", "3")]);
    assert_eq!(get_child(&cfg, "a"), Some(0));
    assert_eq!(get_child(&cfg, "b"), Some(1));
    assert_eq!(get_child(&cfg, "c"), None);
}

#[test]
fn plugins_are_read_from_the_commands_section() {
    let cfg = node(
        "",
        None,
        vec![node("commands", Some("alt text"), vec![leaf("cmd1 or cmd2", "path/one"), leaf("other", "path/two")])],
    );
    let cs = load_commands(&cfg).unwrap();
    assert_eq!(cs.len(), 2);
    assert_eq!(cs[0].names, vec!["cmd1".to_string(), "cmd2".to_string()]);
    assert_eq!(cs[0].path, "path/one");
    assert_eq!(cs[1].names, vec!["other".to_string()]);
    let missing = node("", None, vec![node("commands", None, vec![node("x", None, Vec::new())])]);
    assert!(load_commands(&missing).is_none());
    assert!(load_commands(&node("", None, Vec::new())).is_none());
}

#[test]
fn status_bar_items() {
    assert_eq!(gen_stat(&leaf("stat-bar", "standard")), vec![StatItem::Pos, StatItem::Mode, StatItem::Dir]);
    assert_eq!(gen_stat(&leaf("stat-bar", "clear")), vec![StatItem::Dash]);
    let custom = node("stat-bar", Some("custom"), vec![leaf("1", "dir"), leaf("2", "nothing"), leaf("3", "pos")]);
    assert!(stat_readable(&custom));
    assert_eq!(gen_stat(&custom), vec![StatItem::Dir, StatItem::Pos]);
    assert!(!stat_readable(&node("stat-bar", None, Vec::new())));
}

#[test]
fn highlighting_section_is_read_in_order() {
    let cfg = node(
        "",
        None,
        vec![node(
            "highlighting",
            Some("rules"),
            vec![
                leaf(".rs", "rust"),
                leaf(".json", "json"),
                leaf(".md", "markdown"),
                node(".x", Some("custom"), vec![leaf("\\d", "Red"), leaf("brackets", "_<_>_"), leaf("(", "Blue")]),
            ],
        )],
    );
    assert!(highlighting_readable(&cfg));
    let h = generate_hightlight(&cfg).unwrap();
    let names: Vec<&str> = h.iter().map(|e| e.0.as_str()).collect();
    assert_eq!(names, vec![".rs", ".json", ".md", ".x"]);
    assert!(matches!(h[0].1, Highlight::Incl(InclHighlight::Rust)));
    assert!(matches!(h[1].1, Highlight::Incl(InclHighlight::Json)));
    assert!(matches!(h[2].1, Highlight::Nothing));
    match &h[3].1 {
        Highlight::Cstm(c) => {
            assert_eq!(c.0.len(), 2);
            assert!(matches!(c.0[0], HighlightInstr::Regex(_, Color::Red)));
            match &c.0[1] {
                HighlightInstr::Brackets(s, e) => assert_eq!((s.as_str(), e.as_str()), ("<", ">")),
                _ => panic!("expected a bracket rule"),
            }
        },
        _ => panic!("expected a custom highlighting"),
    }
}

#[test]
fn lines_are_cut_at_newlines() {
    let lines = text_from_spans(spans_of("a\n\nb", plain()));
    assert_eq!(contents(&lines), vec!["a", "", "b"]);
    assert_eq!(contents(&text_from_spans(spans_of("", plain()))), vec![""]);
    assert_eq!(contents(&text_from_spans(spans_of("x\n", plain()))), vec!["x", ""]);
}

#[test]
fn plain_text_follows_str_lines() {
    assert_eq!(contents(&plain_text("a\r\nb\n")), vec!["a", "b"]);
    assert_eq!(plain_text("").len(), 0);
    assert_eq!(contents(&plain_text("\n\nc")), vec!["", "", "c"]);
}

#[test]
fn brackets_are_coloured_by_depth() {
    let mut sp = spans_of(")(()(", plain());
    color_brackets(&mut sp, "(", ")");
    let got: Vec<Style> = sp.iter().map(|c| c.style).collect();
    assert_eq!(
        got,
        vec![
            fg(Color::Rgb(255, 0, 0)),
            fg(Color::Yellow),
            fg(Color::Rgb(255, 123, 207)),
            fg(Color::Rgb(255, 123, 207)),
            fg(Color::Rgb(255, 123, 207)),
        ]
    );
    let mut deep = spans_of("((((", plain());
    color_brackets(&mut deep, "(", ")");
    assert_eq!(deep[2].style, fg(Color::Rgb(73, 22, 255)));
    assert_eq!(deep[3].style, fg(Color::Yellow));
}

#[test]
fn json_is_highlighted() {
    let lines = json_highlight("{\"a\": 1}").unwrap();
    let str_style = fg(Color::Rgb(2, 80, 0));
    assert_eq!(
        styles(&lines),
        vec![vec![
            fg(Color::Yellow),
            str_style,
            str_style,
            str_style,
            fg(Color::Rgb(0, 0, 200)),
            plain(),
            fg(Color::Rgb(223, 123, 123)),
            fg(Color::Yellow),
        ]]
    );
    let tf = json_highlight("true").unwrap();
    assert_eq!(styles(&tf), vec![vec![fg(Color::LightMagenta); 4]]);
}

#[test]
fn rust_is_highlighted() {
    let lines = rust_highlight("let x = 1;").unwrap();
    let kw = fg(Color::Rgb(0, 0, 200));
    let op = fg(Color::Rgb(156, 1, 10));
    assert_eq!(
        styles(&lines),
        vec![vec![kw, kw, kw, kw, kw, kw, op, plain(), fg(Color::Rgb(223, 123, 123)), op]]
    );
    let comment = rust_highlight("// hi").unwrap();
    let dim = Style { fg: Some(Color::DarkGray), bg: None, add_modifier: DIM, sub_modifier: 0 };
    assert_eq!(styles(&comment), vec![vec![dim; 5]]);
    let path = rust_highlight("Foo").unwrap();
    let under = Style { fg: Some(Color::Yellow), bg: None, add_modifier: UNDERLINED, sub_modifier: 0 };
    assert_eq!(styles(&path), vec![vec![under; 3]]);
}

#[test]
fn byte_positions_beyond_the_characters_fail() {
    assert!(json_highlight("é 1 2").is_none());
    assert!(json_highlight("é").is_some());
}

#[test]
fn highlighting_is_chosen_by_file_suffix() {
    let conf = vec![
        (".md".to_string(), Highlight::Nothing),
        (".json".to_string(), Highlight::Incl(InclHighlight::Json)),
        (".rs".to_string(), Highlight::Incl(InclHighlight::Rust)),
    ];
    let text = "{\"a\": 1}".to_string();
    let as_json = highlight(&text, &conf, &"data.json".to_string()).unwrap();
    assert_eq!(styles(&as_json), styles(&json_highlight(&text).unwrap()));
    let other = highlight(&"a\nb".to_string(), &conf, &"notes.txt".to_string()).unwrap();
    assert_eq!(contents(&other), vec!["a", "b"]);
    assert_eq!(styles(&other), vec![vec![plain()], vec![plain()]]);
    let md = highlight(&"x".to_string(), &conf, &"r.md".to_string()).unwrap();
    assert_eq!(styles(&md), vec![vec![plain()]]);
}

#[test]
fn custom_rules_run_in_order_on_white_text() {
    let custom = node("", Some("custom"), vec![leaf("[0-9]", "Red"), leaf("b", "_<_>_")]);
    let instrs = match generate_custom(&custom).unwrap() {
        Highlight::Cstm(c) => c.0,
        _ => panic!("expected a custom highlighting"),
    };
    let lines = custom_highlight("a1<b>", &instrs).unwrap();
    assert_eq!(
        styles(&lines),
        vec![vec![fg(Color::White), fg(Color::Red), fg(Color::Yellow), fg(Color::White), fg(Color::Yellow)]]
    );
    let conf = vec![(".x".to_string(), Highlight::Cstm(btel::CustomHighlight(instrs)))];
    let via = highlight(&"a1<b>".to_string(), &conf, &"f.x".to_string()).unwrap();
    assert_eq!(styles(&via), styles(&lines));
}

fn groups(g: &[Option<&str>]) -> Vec<Option<String>> {
    g.iter().map(|o| o.map(|s| s.to_string())).collect()
}

#[test]
fn colours_and_brackets_from_capture_groups() {
    let g = groups(&[Some("7, 8, 9"), Some("7"), Some("8"), Some("9")]);
    assert_eq!(rgb_from_captures(Some(g)), Some(Some(Color::Rgb(7, 8, 9))));
    assert_eq!(rgb_from_captures(None), Some(None));
    assert_eq!(rgb_from_captures(Some(groups(&[Some("x"), Some("1"), None, Some("3")]))), None);
    match brackets_from_captures(&groups(&[Some("_{_}_"), Some("{"), Some("}")])) {
        Some(HighlightInstr::Brackets(a, b)) => assert_eq!((a.as_str(), b.as_str()), ("{", "}")),
        _ => panic!("expected a bracket rule"),
    }
    assert!(brackets_from_captures(&groups(&[Some("_"), None, Some("}")])).is_none());
}

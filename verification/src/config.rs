//! The configuration tree and what the editor reads from it: highlighting
//! rules, colours, border kinds, themes, plugins and the status bar.
use vstd::prelude::*;

use crate::search::{captures, compile, regex_captures, regex_valid, Pattern};
use crate::styling::{BorderType, Color};
use crate::text::{eq_str, parse_usize_spec, parse_usize, split_seq, split_str, strings_of};
use crate::{CustomHighlight, Extern, Highlight, HighlightInstr, InclHighlight, Theme};

verus! {

/// A node of the configuration tree: a name, perhaps a value, and the
/// nodes under it.
#[derive(Debug)]
pub struct ConfigNode {
    pub name: String,
    pub value: Option<String>,
    pub roots: Vec<ConfigNode>,
}

/// The first of `roots` from `k` on that is named `name`.
pub open spec fn child_from(roots: Seq<ConfigNode>, name: Seq<char>, k: int) -> Option<int>
    decreases roots.len() - k,
{
    if k < 0 || k >= roots.len() {
        None
    } else if roots[k].name@ == name {
        Some(k)
    } else {
        child_from(roots, name, k + 1)
    }
}

/// The first child of `node` named `name`.
pub open spec fn child_index(node: &ConfigNode, name: Seq<char>) -> Option<int> {
    child_from(node.roots@, name, 0)
}

proof fn lemma_child_from(roots: Seq<ConfigNode>, name: Seq<char>, k: int)
    requires
        0 <= k,
    ensures
        child_from(roots, name, k) matches Some(i) ==> k <= i < roots.len() && roots[i].name@ == name,
    decreases roots.len() - k,
{
    if k < roots.len() && roots[k].name@ != name {
        lemma_child_from(roots, name, k + 1);
    }
}

/// The first child of `node` named `name`.
pub fn get_child(node: &ConfigNode, name: &str) -> (r: Option<usize>)
    ensures
        match r {
            Some(i) => child_index(node, name@) == Some(i as int) && i < node.roots@.len(),
            None => child_index(node, name@) is None,
        },
{
    for i in 0..node.roots.len()
        invariant
            child_index(node, name@) == child_from(node.roots@, name@, i as int),
    {
        if eq_str(node.roots[i].name.as_str(), name) {
            return Some(i);
        }
    }
    None
}

/// The colour that a colour name names.
pub open spec fn named_color(s: Seq<char>) -> Option<Color> {
    if s == "Black"@ {
        Some(Color::Black)
    } else if s == "DarkGray"@ {
        Some(Color::DarkGray)
    } else if s == "Gray"@ {
        Some(Color::Gray)
    } else if s == "Reset"@ {
        Some(Color::Reset)
    } else if s == "Blue"@ {
        Some(Color::Blue)
    } else if s == "Cyan"@ {
        Some(Color::Cyan)
    } else if s == "Green"@ {
        Some(Color::Green)
    } else if s == "LightBlue"@ {
        Some(Color::LightBlue)
    } else if s == "LightCyan"@ {
        Some(Color::LightCyan)
    } else if s == "LightGreen"@ {
        Some(Color::LightGreen)
    } else if s == "LightMagenta"@ {
        Some(Color::LightMagenta)
    } else if s == "LightRed"@ {
        Some(Color::LightRed)
    } else if s == "LightYellow"@ {
        Some(Color::LightYellow)
    } else if s == "Magenta"@ {
        Some(Color::Magenta)
    } else if s == "Red"@ {
        Some(Color::Red)
    } else if s == "Yellow"@ {
        Some(Color::Yellow)
    } else if s == "White"@ {
        Some(Color::White)
    } else {
        None
    }
}

fn named_color_exec(s: &str) -> (r: Option<Color>)
    ensures
        r == named_color(s@),
{
    if eq_str(s, "Black") {
        Some(Color::Black)
    } else if eq_str(s, "DarkGray") {
        Some(Color::DarkGray)
    } else if eq_str(s, "Gray") {
        Some(Color::Gray)
    } else if eq_str(s, "Reset") {
        Some(Color::Reset)
    } else if eq_str(s, "Blue") {
        Some(Color::Blue)
    } else if eq_str(s, "Cyan") {
        Some(Color::Cyan)
    } else if eq_str(s, "Green") {
        Some(Color::Green)
    } else if eq_str(s, "LightBlue") {
        Some(Color::LightBlue)
    } else if eq_str(s, "LightCyan") {
        Some(Color::LightCyan)
    } else if eq_str(s, "LightGreen") {
        Some(Color::LightGreen)
    } else if eq_str(s, "LightMagenta") {
        Some(Color::LightMagenta)
    } else if eq_str(s, "LightRed") {
        Some(Color::LightRed)
    } else if eq_str(s, "LightYellow") {
        Some(Color::LightYellow)
    } else if eq_str(s, "Magenta") {
        Some(Color::Magenta)
    } else if eq_str(s, "Red") {
        Some(Color::Red)
    } else if eq_str(s, "Yellow") {
        Some(Color::Yellow)
    } else if eq_str(s, "White") {
        Some(Color::White)
    } else {
        None
    }
}

/// The pattern of an `r, g, b` colour.
pub const RGB_PATTERN: &'static str = "(\\d+), (\\d+), (\\d+)";

/// A byte written in decimal, or 0 where it is not one (`parse::<u8>` with
/// `unwrap_or(0)`).
pub open spec fn byte_or_zero(s: Seq<char>) -> u8 {
    match parse_usize_spec(s) {
        Some(n) => if n <= 255 { n as u8 } else { 0 },
        None => 0,
    }
}

/// The colour of an `r, g, b` text: the three numbers of the first match
/// are the red, green and blue parts. Outer `None`: the pattern did not
/// compile (or a group of the match took no part); inner `None`: no match.
pub open spec fn rgb_spec(s: Seq<char>) -> Option<Option<Color>> {
    if !regex_valid(RGB_PATTERN@) {
        None
    } else {
        rgb_of_groups(regex_captures(RGB_PATTERN@, s))
    }
}

/// The capture groups of a match, as mathematical values.
pub open spec fn groups_view(g: Option<Vec<Option<String>>>) -> Option<Seq<Option<Seq<char>>>> {
    match g {
        Some(v) => Some(v@.map_values(|o: Option<String>| match o {
            Some(s) => Some(s@),
            None => None,
        })),
        None => None,
    }
}

/// The colour that the groups of an `r, g, b` match give: red, green and
/// blue from groups 1 to 3. Outer `None`: a group took no part; inner
/// `None`: no match.
pub open spec fn rgb_of_groups(g: Option<Seq<Option<Seq<char>>>>) -> Option<Option<Color>> {
    match g {
        None => Some(None),
        Some(g) => if g.len() > 3 && g[1] is Some && g[2] is Some && g[3] is Some {
            Some(Some(Color::Rgb(byte_or_zero(g[1]->0), byte_or_zero(g[2]->0), byte_or_zero(g[3]->0))))
        } else {
            None
        },
    }
}

fn byte_or_zero_exec(s: &str) -> (b: u8)
    ensures
        b == byte_or_zero(s@),
{
    match parse_usize(s) {
        Some(n) => if n <= 255 { n as u8 } else { 0 },
        None => 0,
    }
}

/// The colour of an `r, g, b` text.
pub fn rgb_from_string(s: &str) -> (r: Option<Option<Color>>)
    ensures
        r == rgb_spec(s@),
{
    let re = match compile(RGB_PATTERN) {
        Some(re) => re,
        None => return None,
    };
    rgb_from_captures(captures(&re, s))
}

/// The colour that the capture groups of an `r, g, b` match give.
pub fn rgb_from_captures(g: Option<Vec<Option<String>>>) -> (r: Option<Option<Color>>)
    ensures
        r == rgb_of_groups(groups_view(g)),
{
    match g {
        None => Some(None),
        Some(g) => {
            if g.len() > 3 {
                let ghost gv = groups_view(Some(g));
                assert(gv is Some && gv->0.len() == g@.len());
                match (&g[1], &g[2], &g[3]) {
                    (Some(r), Some(gr), Some(b)) => Some(Some(Color::Rgb(
                        byte_or_zero_exec(r.as_str()),
                        byte_or_zero_exec(gr.as_str()),
                        byte_or_zero_exec(b.as_str()),
                    ))),
                    _ => None,
                }
            } else {
                None
            }
        },
    }
}

/// The colour a text names: a colour name, else an `r, g, b` colour, else
/// white. `None`: the colour pattern did not compile.
pub open spec fn color_spec(s: Seq<char>) -> Option<Color> {
    match named_color(s) {
        Some(c) => Some(c),
        None => match rgb_spec(s) {
            None => None,
            Some(Some(c)) => Some(c),
            Some(None) => Some(Color::White),
        },
    }
}

/// The colour a text names.
pub fn color_from_string(color: &String) -> (r: Option<Color>)
    ensures
        r == color_spec(color@),
{
    match named_color_exec(color.as_str()) {
        Some(c) => Some(c),
        None => match rgb_from_string(color.as_str()) {
            None => None,
            Some(Some(c)) => Some(c),
            Some(None) => Some(Color::White),
        },
    }
}

/// The border kind a text names; plain for any other text.
pub open spec fn border_spec(s: Seq<char>) -> BorderType {
    if s == "Double"@ {
        BorderType::Double
    } else if s == "Rounded"@ {
        BorderType::Rounded
    } else if s == "Thick"@ {
        BorderType::Thick
    } else {
        BorderType::Plain
    }
}

/// The border kind of a `border_type` node, plain where there is none.
pub fn border_type_from_string(node: Option<&ConfigNode>) -> (b: BorderType)
    requires
        node matches Some(n) ==> n.value is Some,
    ensures
        b == match node {
            Some(n) => border_spec(n.value->0@),
            None => BorderType::Plain,
        },
{
    match node {
        Some(n) => {
            let v = n.value.as_ref().unwrap();
            if eq_str(v.as_str(), "Double") {
                BorderType::Double
            } else if eq_str(v.as_str(), "Rounded") {
                BorderType::Rounded
            } else if eq_str(v.as_str(), "Thick") {
                BorderType::Thick
            } else {
                BorderType::Plain
            }
        },
        None => BorderType::Plain,
    }
}


/// The built-in themes in order: classic, modern, clear, red-and-blue,
/// green.
pub open spec fn builtin_theme(k: int) -> Theme {
    if k == 1 {
        Theme { border_type: BorderType::Rounded, target: Color::White, no_target: Color::Gray }
    } else if k == 2 {
        Theme { border_type: BorderType::Plain, target: Color::DarkGray, no_target: Color::Black }
    } else if k == 3 {
        Theme { border_type: BorderType::Rounded, target: Color::Red, no_target: Color::LightBlue }
    } else if k == 4 {
        Theme { border_type: BorderType::Rounded, target: Color::Green, no_target: Color::LightGreen }
    } else {
        Theme { border_type: BorderType::Plain, target: Color::White, no_target: Color::DarkGray }
    }
}

/// The built-in theme number `k`.
pub fn builtin_theme_exec(k: usize) -> (t: Theme)
    ensures
        t == builtin_theme(k as int),
{
    if k == 1 {
        Theme { border_type: BorderType::Rounded, target: Color::White, no_target: Color::Gray }
    } else if k == 2 {
        Theme { border_type: BorderType::Plain, target: Color::DarkGray, no_target: Color::Black }
    } else if k == 3 {
        Theme { border_type: BorderType::Rounded, target: Color::Red, no_target: Color::LightBlue }
    } else if k == 4 {
        Theme { border_type: BorderType::Rounded, target: Color::Green, no_target: Color::LightGreen }
    } else {
        Theme { border_type: BorderType::Plain, target: Color::White, no_target: Color::DarkGray }
    }
}

/// The colour of the child named `name`, white where there is none.
pub open spec fn child_color(conf: &ConfigNode, name: Seq<char>) -> Option<Color> {
    match child_index(conf, name) {
        Some(i) => color_spec(conf.roots@[i].value->0@),
        None => Some(Color::White),
    }
}

/// The children that a custom theme reads have values.
pub open spec fn custom_theme_ok(conf: &ConfigNode) -> bool {
    &&& child_index(conf, "border_type"@) matches Some(i) ==> conf.roots@[i].value is Some
    &&& child_index(conf, "target"@) matches Some(i) ==> conf.roots@[i].value is Some
    &&& child_index(conf, "no_target"@) matches Some(i) ==> conf.roots@[i].value is Some
}

/// A theme from its `border_type`, `target` and `no_target` children.
pub open spec fn custom_theme_spec(conf: &ConfigNode) -> Option<Theme> {
    let b = match child_index(conf, "border_type"@) {
        Some(i) => border_spec(conf.roots@[i].value->0@),
        None => BorderType::Plain,
    };
    match (child_color(conf, "target"@), child_color(conf, "no_target"@)) {
        (Some(t), Some(n)) => Some(Theme { border_type: b, target: t, no_target: n }),
        _ => None,
    }
}

fn child_color_exec(conf: &ConfigNode, name: &str) -> (r: Option<Color>)
    requires
        child_index(conf, name@) matches Some(i) ==> conf.roots@[i].value is Some,
    ensures
        r == child_color(conf, name@),
{
    match get_child(conf, name) {
        Some(i) => color_from_string(conf.roots[i].value.as_ref().unwrap()),
        None => Some(Color::White),
    }
}

/// A theme from its `border_type`, `target` and `no_target` children;
/// nothing where the colour pattern does not compile.
pub fn custom_theme(conf: &ConfigNode) -> (r: Option<Theme>)
    requires
        custom_theme_ok(conf),
    ensures
        r == custom_theme_spec(conf),
{
    let b = match get_child(conf, "border_type") {
        Some(i) => border_type_from_string(Some(&conf.roots[i])),
        None => border_type_from_string(None),
    };
    let t = child_color_exec(conf, "target");
    let n = child_color_exec(conf, "no_target");
    match (t, n) {
        (Some(t), Some(n)) => Some(Theme { border_type: b, target: t, no_target: n }),
        _ => None,
    }
}

/// The `theme` node, where there is one, has a value, and a custom theme's
/// children that it reads have values.
pub open spec fn theme_ok(config: &ConfigNode) -> bool {
    child_index(config, "theme"@) matches Some(i) ==> {
        &&& config.roots@[i].value is Some
        &&& config.roots@[i].value->0@ == "custom"@ ==> custom_theme_ok(&config.roots@[i])
    }
}

/// The theme the configuration chooses: a built-in one by name, a custom
/// one, or the classic one by default.
pub open spec fn theme_spec(config: &ConfigNode) -> Option<Theme> {
    match child_index(config, "theme"@) {
        None => Some(builtin_theme(0)),
        Some(i) => {
            let v = config.roots@[i].value->0@;
            if v == "modern"@ {
                Some(builtin_theme(1))
            } else if v == "clear"@ {
                Some(builtin_theme(2))
            } else if v == "red-and-blue"@ {
                Some(builtin_theme(3))
            } else if v == "green"@ {
                Some(builtin_theme(4))
            } else if v == "custom"@ {
                custom_theme_spec(&config.roots@[i])
            } else {
                Some(builtin_theme(0))
            }
        },
    }
}

/// The theme the configuration chooses.
pub fn theme(config: &ConfigNode) -> (r: Option<Theme>)
    requires
        theme_ok(config),
    ensures
        r == theme_spec(config),
{
    match get_child(config, "theme") {
        None => Some(builtin_theme_exec(0)),
        Some(i) => {
            let node = &config.roots[i];
            let v = node.value.as_ref().unwrap().as_str();
            if eq_str(v, "modern") {
                Some(builtin_theme_exec(1))
            } else if eq_str(v, "clear") {
                Some(builtin_theme_exec(2))
            } else if eq_str(v, "red-and-blue") {
                Some(builtin_theme_exec(3))
            } else if eq_str(v, "green") {
                Some(builtin_theme_exec(4))
            } else if eq_str(v, "custom") {
                custom_theme(node)
            } else {
                Some(builtin_theme_exec(0))
            }
        },
    }
}


/// The pattern of a bracket rule: `_`, the opening bracket, `_`, the
/// closing bracket, `_`.
pub const BRACKET_PATTERN: &'static str = "^_(?<start>[^_])_(?<end>[^_])_";

/// A configured highlighting rule, as mathematical values.
pub enum InstrView {
    Regex(Seq<char>, Color),
    Brackets(Seq<char>, Seq<char>),
    Nothing,
}

pub open spec fn instr_view(i: HighlightInstr) -> InstrView {
    match i {
        HighlightInstr::Regex(p, c) => InstrView::Regex(p.source(), c),
        HighlightInstr::Brackets(s, e) => InstrView::Brackets(s@, e@),
        HighlightInstr::Nothing => InstrView::Nothing,
    }
}

/// The rule that a node of a custom highlighting gives: a bracket rule
/// where its value is one, else a pattern (its name) with the colour its
/// value names, or no rule where the name does not compile. Outer `None`:
/// a pattern of the library's own did not compile.
pub open spec fn rule_of(sub: &ConfigNode) -> Option<Option<InstrView>> {
    let v = sub.value->0@;
    if !regex_valid(BRACKET_PATTERN@) {
        None
    } else {
        match regex_captures(BRACKET_PATTERN@, v) {
            Some(g) => match brackets_of_groups(g) {
                Some(b) => Some(Some(b)),
                None => None,
            },
            None => match color_spec(v) {
                None => None,
                Some(c) => if regex_valid(sub.name@) {
                    Some(Some(InstrView::Regex(sub.name@, c)))
                } else {
                    Some(None)
                },
            },
        }
    }
}

/// The rules of the first `k` nodes of a custom highlighting.
pub open spec fn rules_upto(subs: Seq<ConfigNode>, k: int) -> Option<Seq<InstrView>>
    decreases k,
{
    if k <= 0 {
        Some(Seq::empty())
    } else {
        match rules_upto(subs, k - 1) {
            None => None,
            Some(rs) => match rule_of(&subs[k - 1]) {
                None => None,
                Some(None) => Some(rs),
                Some(Some(r)) => Some(rs.push(r)),
            },
        }
    }
}

/// Every node of a custom highlighting has a value.
pub open spec fn custom_ok(root: &ConfigNode) -> bool {
    forall|i: int| 0 <= i < root.roots@.len() ==> (#[trigger] root.roots@[i]).value is Some
}

/// The bracket rule that the groups of a bracket match give: the opening
/// bracket from group 1, the closing one from group 2; nothing where one of
/// them took no part.
pub open spec fn brackets_of_groups(g: Seq<Option<Seq<char>>>) -> Option<InstrView> {
    if g.len() > 2 && g[1] is Some && g[2] is Some {
        Some(InstrView::Brackets(g[1]->0, g[2]->0))
    } else {
        None
    }
}

/// The bracket rule that the capture groups of a bracket match give.
pub fn brackets_from_captures(g: &Vec<Option<String>>) -> (r: Option<HighlightInstr>)
    ensures
        match r {
            Some(i) => groups_view(Some(*g)) matches Some(gv) && brackets_of_groups(gv) == Some(instr_view(i)),
            None => groups_view(Some(*g)) matches Some(gv) && brackets_of_groups(gv) is None,
        },
{
    let ghost gv = groups_view(Some(*g));
    assert(gv is Some && gv->0.len() == g@.len());
    if g.len() > 2 {
        match (&g[1], &g[2]) {
            (Some(a), Some(b)) => Some(HighlightInstr::Brackets(a.clone(), b.clone())),
            _ => None,
        }
    } else {
        None
    }
}

fn rule_of_exec(sub: &ConfigNode) -> (r: Option<Option<HighlightInstr>>)
    requires
        sub.value is Some,
    ensures
        match r {
            None => rule_of(sub) is None,
            Some(None) => rule_of(sub) == Some(None::<InstrView>),
            Some(Some(i)) => rule_of(sub) == Some(Some(instr_view(i))),
        },
{
    let v = sub.value.as_ref().unwrap();
    let re = match compile(BRACKET_PATTERN) {
        Some(re) => re,
        None => return None,
    };
    match captures(&re, v.as_str()) {
        Some(g) => match brackets_from_captures(&g) {
            Some(b) => Some(Some(b)),
            None => None,
        },
        None => match color_from_string(v) {
            None => None,
            Some(c) => match compile(sub.name.as_str()) {
                Some(p) => Some(Some(HighlightInstr::Regex(p, c))),
                None => Some(None),
            },
        },
    }
}

/// A custom highlighting from its nodes; nothing where a pattern of the
/// library's own does not compile.
pub fn generate_custom(root: &ConfigNode) -> (r: Option<Highlight>)
    requires
        custom_ok(root),
    ensures
        match r {
            Some(Highlight::Cstm(c)) => rules_upto(root.roots@, root.roots@.len() as int)
                == Some(c.0@.map_values(|i: HighlightInstr| instr_view(i))),
            Some(_) => false,
            None => rules_upto(root.roots@, root.roots@.len() as int) is None,
        },
{
    let mut rules: Vec<HighlightInstr> = Vec::new();
    for k in 0..root.roots.len()
        invariant
            custom_ok(root),
            rules_upto(root.roots@, k as int) == Some(rules@.map_values(|i: HighlightInstr| instr_view(i))),
    {
        let ghost before = rules@.map_values(|i: HighlightInstr| instr_view(i));
        match rule_of_exec(&root.roots[k]) {
            None => {
                proof {
                    lemma_rules_none_stays(root.roots@, k as int + 1, root.roots@.len() as int);
                }
                return None;
            },
            Some(None) => {},
            Some(Some(rule)) => {
                rules.push(rule);
                assert(rules@.map_values(|i: HighlightInstr| instr_view(i)) =~= before.push(instr_view(rule)));
            },
        }
    }
    Some(Highlight::Cstm(CustomHighlight(rules)))
}

proof fn lemma_rules_none_stays(subs: Seq<ConfigNode>, k: int, n: int)
    requires
        0 <= k <= n,
        rules_upto(subs, k) is None,
    ensures
        rules_upto(subs, n) is None,
    decreases n - k,
{
    if k < n {
        lemma_rules_none_stays(subs, k + 1, n);
    }
}

/// A configured highlighting, as mathematical values.
pub enum HighlightView {
    Custom(Seq<InstrView>),
    Rust,
    Json,
    Nothing,
}

pub open spec fn highlight_view(h: Highlight) -> HighlightView {
    match h {
        Highlight::Cstm(c) => HighlightView::Custom(c.0@.map_values(|i: HighlightInstr| instr_view(i))),
        Highlight::Incl(InclHighlight::Rust) => HighlightView::Rust,
        Highlight::Incl(InclHighlight::Json) => HighlightView::Json,
        Highlight::Nothing => HighlightView::Nothing,
    }
}

/// The highlighting a node of the `highlighting` section names.
pub open spec fn entry_spec(root: &ConfigNode) -> Option<HighlightView> {
    match root.value {
        None => Some(HighlightView::Nothing),
        Some(v) => if v@ == "json"@ {
            Some(HighlightView::Json)
        } else if v@ == "rust"@ {
            Some(HighlightView::Rust)
        } else if v@ == "custom"@ {
            match rules_upto(root.roots@, root.roots@.len() as int) {
                Some(rs) => Some(HighlightView::Custom(rs)),
                None => None,
            }
        } else {
            Some(HighlightView::Nothing)
        },
    }
}

/// The entries of the first `k` nodes of the `highlighting` section.
pub open spec fn entries_upto(roots: Seq<ConfigNode>, k: int) -> Option<Seq<(Seq<char>, HighlightView)>>
    decreases k,
{
    if k <= 0 {
        Some(Seq::empty())
    } else {
        match (entries_upto(roots, k - 1), entry_spec(&roots[k - 1])) {
            (Some(es), Some(h)) => Some(es.push((roots[k - 1].name@, h))),
            _ => None,
        }
    }
}

/// Every custom entry of the `highlighting` section has values on its
/// nodes.
pub open spec fn highlighting_ok(config: &ConfigNode) -> bool {
    child_index(config, "highlighting"@) matches Some(h) ==> forall|i: int|
        0 <= i < config.roots@[h].roots@.len() ==> {
            let r = #[trigger] config.roots@[h].roots@[i];
            r.value matches Some(v) && v@ == "custom"@ ==> custom_ok(&r)
        }
}

/// What the highlighting section configures, suffix by suffix.
pub open spec fn highlight_config_spec(config: &ConfigNode) -> Option<Seq<(Seq<char>, HighlightView)>> {
    match child_index(config, "highlighting"@) {
        None => Some(Seq::empty()),
        Some(h) => entries_upto(config.roots@[h].roots@, config.roots@[h].roots@.len() as int),
    }
}

/// The highlighting entries of the configuration, in order; nothing where
/// a pattern of the library's own does not compile.
pub fn generate_hightlight(config: &ConfigNode) -> (r: Option<Vec<(String, Highlight)>>)
    requires
        highlighting_ok(config),
    ensures
        match r {
            Some(v) => highlight_config_spec(config) == Some(
                v@.map_values(|e: (String, Highlight)| (e.0@, highlight_view(e.1))),
            ),
            None => highlight_config_spec(config) is None,
        },
{
    let mut result: Vec<(String, Highlight)> = Vec::new();
    let h = match get_child(config, "highlighting") {
        Some(h) => h,
        None => {
            assert(result@.map_values(|e: (String, Highlight)| (e.0@, highlight_view(e.1))) =~= Seq::<(Seq<char>, HighlightView)>::empty());
            return Some(result);
        },
    };
    let sec = &config.roots[h];
    for k in 0..sec.roots.len()
        invariant
            sec == &config.roots@[h as int],
            child_index(config, "highlighting"@) == Some(h as int),
            highlighting_ok(config),
            entries_upto(sec.roots@, k as int) == Some(
                result@.map_values(|e: (String, Highlight)| (e.0@, highlight_view(e.1))),
            ),
    {
        let root = &sec.roots[k];
        let ghost before = result@.map_values(|e: (String, Highlight)| (e.0@, highlight_view(e.1)));
        let entry: Highlight = match &root.value {
            None => Highlight::Nothing,
            Some(v) => {
                if eq_str(v.as_str(), "json") {
                    Highlight::Incl(InclHighlight::Json)
                } else if eq_str(v.as_str(), "rust") {
                    Highlight::Incl(InclHighlight::Rust)
                } else if eq_str(v.as_str(), "custom") {
                    assert(custom_ok(root));
                    match generate_custom(root) {
                        Some(c) => c,
                        None => {
                            proof {
                                lemma_entries_none_stays(sec.roots@, k as int + 1, sec.roots@.len() as int);
                            }
                            return None;
                        },
                    }
                } else {
                    Highlight::Nothing
                }
            },
        };
        assert(entry_spec(root) == Some(highlight_view(entry)));
        result.push((root.name.clone(), entry));
        assert(result@.map_values(|e: (String, Highlight)| (e.0@, highlight_view(e.1))) =~= before.push(
            (root.name@, highlight_view(entry)),
        ));
    }
    Some(result)
}

proof fn lemma_entries_none_stays(roots: Seq<ConfigNode>, k: int, n: int)
    requires
        0 <= k <= n,
        entries_upto(roots, k) is None,
    ensures
        entries_upto(roots, n) is None,
    decreases n - k,
{
    if k < n {
        lemma_entries_none_stays(roots, k + 1, n);
    }
}


/// The plugins of the first `k` nodes of the `commands` section: each node
/// names its commands, separated by ` or `, and has the program as value.
pub open spec fn externs_upto(roots: Seq<ConfigNode>, k: int) -> Option<Seq<(Seq<Seq<char>>, Seq<char>)>>
    decreases k,
{
    if k <= 0 {
        Some(Seq::empty())
    } else {
        match (externs_upto(roots, k - 1), roots[k - 1].value) {
            (Some(es), Some(v)) => Some(es.push((split_seq(roots[k - 1].name@, " or "@), v@))),
            _ => None,
        }
    }
}

/// The plugins that the configuration declares; nothing without a
/// `commands` section or where a node in it has no program.
pub open spec fn commands_spec(config: &ConfigNode) -> Option<Seq<(Seq<Seq<char>>, Seq<char>)>> {
    match child_index(config, "commands"@) {
        None => None,
        Some(c) => externs_upto(config.roots@[c].roots@, config.roots@[c].roots@.len() as int),
    }
}

pub open spec fn extern_view(e: Extern) -> (Seq<Seq<char>>, Seq<char>) {
    (strings_of(&e.names), e.path@)
}

/// The plugins that the configuration declares.
pub fn load_commands(config: &ConfigNode) -> (r: Option<Vec<Extern>>)
    ensures
        match r {
            Some(v) => commands_spec(config) == Some(v@.map_values(|e: Extern| extern_view(e))),
            None => commands_spec(config) is None,
        },
{
    let c = match get_child(config, "commands") {
        Some(c) => c,
        None => return None,
    };
    let sec = &config.roots[c];
    let mut result: Vec<Extern> = Vec::new();
    for k in 0..sec.roots.len()
        invariant
            sec == &config.roots@[c as int],
            child_index(config, "commands"@) == Some(c as int),
            externs_upto(sec.roots@, k as int) == Some(result@.map_values(|e: Extern| extern_view(e))),
    {
        let root = &sec.roots[k];
        let ghost before = result@.map_values(|e: Extern| extern_view(e));
        match &root.value {
            Some(v) => {
                proof {
                    reveal_strlit(" or ");
                }
                let names = split_str(root.name.as_str(), " or ");
                let e = Extern { path: v.clone(), names };
                result.push(e);
                assert(result@.map_values(|e: Extern| extern_view(e)) =~= before.push(
                    (split_seq(root.name@, " or "@), v@),
                ));
            },
            None => {
                proof {
                    lemma_externs_none_stays(sec.roots@, k as int + 1, sec.roots@.len() as int);
                }
                return None;
            },
        }
    }
    Some(result)
}

proof fn lemma_externs_none_stays(roots: Seq<ConfigNode>, k: int, n: int)
    requires
        0 <= k <= n,
        externs_upto(roots, k) is None,
    ensures
        externs_upto(roots, n) is None,
    decreases n - k,
{
    if k < n {
        lemma_externs_none_stays(roots, k + 1, n);
    }
}

/// An item of the status bar.
#[derive(Clone, Copy, Debug, PartialEq, Eq, Structural)]
pub enum StatItem {
    /// The cursor's line and column.
    Pos,
    /// The mode.
    Mode,
    /// The working directory.
    Dir,
    /// A dash, for an empty bar.
    Dash,
}

/// The item a node of a custom status bar names, if any.
pub open spec fn stat_item(v: Seq<char>) -> Option<StatItem> {
    if v == "pos"@ {
        Some(StatItem::Pos)
    } else if v == "mode"@ {
        Some(StatItem::Mode)
    } else if v == "dir"@ {
        Some(StatItem::Dir)
    } else {
        None
    }
}

/// The items of the first `k` nodes of a custom status bar.
pub open spec fn stat_items_upto(roots: Seq<ConfigNode>, k: int) -> Seq<StatItem>
    decreases k,
{
    if k <= 0 {
        Seq::empty()
    } else {
        match stat_item(roots[k - 1].value->0@) {
            Some(it) => stat_items_upto(roots, k - 1).push(it),
            None => stat_items_upto(roots, k - 1),
        }
    }
}

/// The status bar node and, for a custom bar, its nodes have values.
pub open spec fn stat_ok(conf: &ConfigNode) -> bool {
    &&& conf.value is Some
    &&& conf.value->0@ == "custom"@ ==> forall|i: int| 0 <= i < conf.roots@.len() ==> (#[trigger] conf.roots@[i]).value is Some
}

/// The items of the status bar: all three for `standard`, those named for
/// `custom`, none otherwise; a dash for an empty bar.
pub open spec fn stat_spec(conf: &ConfigNode) -> Seq<StatItem> {
    let v = conf.value->0@;
    let items = if v == "standard"@ {
        seq![StatItem::Pos, StatItem::Mode, StatItem::Dir]
    } else if v == "custom"@ {
        stat_items_upto(conf.roots@, conf.roots@.len() as int)
    } else {
        Seq::empty()
    };
    if items.len() == 0 {
        seq![StatItem::Dash]
    } else {
        items
    }
}

/// The items of the status bar.
pub fn gen_stat(conf: &ConfigNode) -> (r: Vec<StatItem>)
    requires
        stat_ok(conf),
    ensures
        r@ == stat_spec(conf),
{
    let v = conf.value.as_ref().unwrap().as_str();
    let mut bar: Vec<StatItem> = Vec::new();
    if eq_str(v, "standard") {
        bar.push(StatItem::Pos);
        bar.push(StatItem::Mode);
        bar.push(StatItem::Dir);
    } else if eq_str(v, "custom") {
        for k in 0..conf.roots.len()
            invariant
                stat_ok(conf),
                conf.value->0@ == "custom"@,
                bar@ == stat_items_upto(conf.roots@, k as int),
        {
            let w = conf.roots[k].value.as_ref().unwrap().as_str();
            if eq_str(w, "pos") {
                bar.push(StatItem::Pos);
            } else if eq_str(w, "mode") {
                bar.push(StatItem::Mode);
            } else if eq_str(w, "dir") {
                bar.push(StatItem::Dir);
            }
        }
    }
    if bar.len() == 0 {
        bar.push(StatItem::Dash);
    }
    assert(bar@ =~= stat_spec(conf));
    bar
}

/// Whether every child of `node` has a value.
fn children_valued(node: &ConfigNode) -> (r: bool)
    ensures
        r == forall|i: int| 0 <= i < node.roots@.len() ==> (#[trigger] node.roots@[i]).value is Some,
{
    for i in 0..node.roots.len()
        invariant
            forall|q: int| 0 <= q < i ==> (#[trigger] node.roots@[q]).value is Some,
    {
        if node.roots[i].value.is_none() {
            return false;
        }
    }
    true
}

/// Whether `theme` can read the configuration.
pub fn theme_readable(config: &ConfigNode) -> (r: bool)
    ensures
        r == theme_ok(config),
{
    match get_child(config, "theme") {
        None => true,
        Some(i) => {
            let node = &config.roots[i];
            match &node.value {
                None => false,
                Some(v) => {
                    if !eq_str(v.as_str(), "custom") {
                        return true;
                    }
                    let b = get_child(node, "border_type");
                    let t = get_child(node, "target");
                    let n = get_child(node, "no_target");
                    (match b { Some(k) => node.roots[k].value.is_some(), None => true })
                        && (match t { Some(k) => node.roots[k].value.is_some(), None => true })
                        && (match n { Some(k) => node.roots[k].value.is_some(), None => true })
                },
            }
        },
    }
}

/// Whether `generate_hightlight` can read the configuration.
pub fn highlighting_readable(config: &ConfigNode) -> (r: bool)
    ensures
        r == highlighting_ok(config),
{
    match get_child(config, "highlighting") {
        None => true,
        Some(h) => {
            let sec = &config.roots[h];
            for i in 0..sec.roots.len()
                invariant
                    h < config.roots@.len(),
                    child_index(config, "highlighting"@) == Some(h as int),
                    sec == &config.roots@[h as int],
                    forall|q: int| 0 <= q < i ==> {
                        let r = #[trigger] sec.roots@[q];
                        r.value matches Some(v) && v@ == "custom"@ ==> custom_ok(&r)
                    },
            {
                let r = &sec.roots[i];
                if let Some(v) = &r.value {
                    if eq_str(v.as_str(), "custom") && !children_valued(r) {
                        assert(config.roots@[h as int].roots@[i as int] == *r);
                        assert(!custom_ok(r));
                        assert(r.value->0@ == "custom"@);
                        assert(child_index(config, "highlighting"@) == Some(h as int));
                        assert(!highlighting_ok(config));
                        return false;
                    }
                }
            }
            true
        },
    }
}

/// Whether `gen_stat` can read the status bar's node.
pub fn stat_readable(conf: &ConfigNode) -> (r: bool)
    ensures
        r == stat_ok(conf),
{
    match &conf.value {
        None => false,
        Some(v) => !eq_str(v.as_str(), "custom") || children_valued(conf),
    }
}

/// The name of a colour of the terminal's palette, as the colour type
/// spells its variants; the colours given by numbers have none.
pub open spec fn palette_name(c: Color) -> Option<Seq<char>> {
    match c {
        Color::Reset => Some("Reset"@),
        Color::Black => Some("Black"@),
        Color::Red => Some("Red"@),
        Color::Green => Some("Green"@),
        Color::Yellow => Some("Yellow"@),
        Color::Blue => Some("Blue"@),
        Color::Magenta => Some("Magenta"@),
        Color::Cyan => Some("Cyan"@),
        Color::Gray => Some("Gray"@),
        Color::DarkGray => Some("DarkGray"@),
        Color::LightRed => Some("LightRed"@),
        Color::LightGreen => Some("LightGreen"@),
        Color::LightYellow => Some("LightYellow"@),
        Color::LightBlue => Some("LightBlue"@),
        Color::LightMagenta => Some("LightMagenta"@),
        Color::LightCyan => Some("LightCyan"@),
        Color::White => Some("White"@),
        _ => None,
    }
}

/// Every colour of the palette can be configured by its name: the name
/// reads back as that colour.
pub proof fn law_palette_names_read_back(c: Color)
    requires
        palette_name(c) is Some,
    ensures
        color_spec(palette_name(c)->0) == Some(c),
{
    reveal_strlit("Reset");
    reveal_strlit("Black");
    reveal_strlit("Red");
    reveal_strlit("Green");
    reveal_strlit("Yellow");
    reveal_strlit("Blue");
    reveal_strlit("Magenta");
    reveal_strlit("Cyan");
    reveal_strlit("Gray");
    reveal_strlit("DarkGray");
    reveal_strlit("LightRed");
    reveal_strlit("LightGreen");
    reveal_strlit("LightYellow");
    reveal_strlit("LightBlue");
    reveal_strlit("LightMagenta");
    reveal_strlit("LightCyan");
    reveal_strlit("White");
    match c {
        Color::Black => {

        },
        Color::DarkGray => {
            assert("DarkGray"@.len() != "Black"@.len());
        },
        Color::Gray => {
            assert("Gray"@.len() != "Black"@.len());
            assert("Gray"@.len() != "DarkGray"@.len());
        },
        Color::Reset => {
            assert("Reset"@[0] != "Black"@[0]);
            assert("Reset"@.len() != "DarkGray"@.len());
            assert("Reset"@.len() != "Gray"@.len());
        },
        Color::Blue => {
            assert("Blue"@.len() != "Black"@.len());
            assert("Blue"@.len() != "DarkGray"@.len());
            assert("Blue"@[0] != "Gray"@[0]);
            assert("Blue"@.len() != "Reset"@.len());
        },
        Color::Cyan => {
            assert("Cyan"@.len() != "Black"@.len());
            assert("Cyan"@.len() != "DarkGray"@.len());
            assert("Cyan"@[0] != "Gray"@[0]);
            assert("Cyan"@.len() != "Reset"@.len());
            assert("Cyan"@[0] != "Blue"@[0]);
        },
        Color::Green => {
            assert("Green"@[0] != "Black"@[0]);
            assert("Green"@.len() != "DarkGray"@.len());
            assert("Green"@.len() != "Gray"@.len());
            assert("Green"@[0] != "Reset"@[0]);
            assert("Green"@.len() != "Blue"@.len());
            assert("Green"@.len() != "Cyan"@.len());
        },
        Color::LightBlue => {
            assert("LightBlue"@.len() != "Black"@.len());
            assert("LightBlue"@.len() != "DarkGray"@.len());
            assert("LightBlue"@.len() != "Gray"@.len());
            assert("LightBlue"@.len() != "Reset"@.len());
            assert("LightBlue"@.len() != "Blue"@.len());
            assert("LightBlue"@.len() != "Cyan"@.len());
            assert("LightBlue"@.len() != "Green"@.len());
        },
        Color::LightCyan => {
            assert("LightCyan"@.len() != "Black"@.len());
            assert("LightCyan"@.len() != "DarkGray"@.len());
            assert("LightCyan"@.len() != "Gray"@.len());
            assert("LightCyan"@.len() != "Reset"@.len());
            assert("LightCyan"@.len() != "Blue"@.len());
            assert("LightCyan"@.len() != "Cyan"@.len());
            assert("LightCyan"@.len() != "Green"@.len());
            assert("LightCyan"@[5] != "LightBlue"@[5]);
        },
        Color::LightGreen => {
            assert("LightGreen"@.len() != "Black"@.len());
            assert("LightGreen"@.len() != "DarkGray"@.len());
            assert("LightGreen"@.len() != "Gray"@.len());
            assert("LightGreen"@.len() != "Reset"@.len());
            assert("LightGreen"@.len() != "Blue"@.len());
            assert("LightGreen"@.len() != "Cyan"@.len());
            assert("LightGreen"@.len() != "Green"@.len());
            assert("LightGreen"@.len() != "LightBlue"@.len());
            assert("LightGreen"@.len() != "LightCyan"@.len());
        },
        Color::LightMagenta => {
            assert("LightMagenta"@.len() != "Black"@.len());
            assert("LightMagenta"@.len() != "DarkGray"@.len());
            assert("LightMagenta"@.len() != "Gray"@.len());
            assert("LightMagenta"@.len() != "Reset"@.len());
            assert("LightMagenta"@.len() != "Blue"@.len());
            assert("LightMagenta"@.len() != "Cyan"@.len());
            assert("LightMagenta"@.len() != "Green"@.len());
            assert("LightMagenta"@.len() != "LightBlue"@.len());
            assert("LightMagenta"@.len() != "LightCyan"@.len());
            assert("LightMagenta"@.len() != "LightGreen"@.len());
        },
        Color::LightRed => {
            assert("LightRed"@.len() != "Black"@.len());
            assert("LightRed"@[0] != "DarkGray"@[0]);
            assert("LightRed"@.len() != "Gray"@.len());
            assert("LightRed"@.len() != "Reset"@.len());
            assert("LightRed"@.len() != "Blue"@.len());
            assert("LightRed"@.len() != "Cyan"@.len());
            assert("LightRed"@.len() != "Green"@.len());
            assert("LightRed"@.len() != "LightBlue"@.len());
            assert("LightRed"@.len() != "LightCyan"@.len());
            assert("LightRed"@.len() != "LightGreen"@.len());
            assert("LightRed"@.len() != "LightMagenta"@.len());
        },
        Color::LightYellow => {
            assert("LightYellow"@.len() != "Black"@.len());
            assert("LightYellow"@.len() != "DarkGray"@.len());
            assert("LightYellow"@.len() != "Gray"@.len());
            assert("LightYellow"@.len() != "Reset"@.len());
            assert("LightYellow"@.len() != "Blue"@.len());
            assert("LightYellow"@.len() != "Cyan"@.len());
            assert("LightYellow"@.len() != "Green"@.len());
            assert("LightYellow"@.len() != "LightBlue"@.len());
            assert("LightYellow"@.len() != "LightCyan"@.len());
            assert("LightYellow"@.len() != "LightGreen"@.len());
            assert("LightYellow"@.len() != "LightMagenta"@.len());
            assert("LightYellow"@.len() != "LightRed"@.len());
        },
        Color::Magenta => {
            assert("Magenta"@.len() != "Black"@.len());
            assert("Magenta"@.len() != "DarkGray"@.len());
            assert("Magenta"@.len() != "Gray"@.len());
            assert("Magenta"@.len() != "Reset"@.len());
            assert("Magenta"@.len() != "Blue"@.len());
            assert("Magenta"@.len() != "Cyan"@.len());
            assert("Magenta"@.len() != "Green"@.len());
            assert("Magenta"@.len() != "LightBlue"@.len());
            assert("Magenta"@.len() != "LightCyan"@.len());
            assert("Magenta"@.len() != "LightGreen"@.len());
            assert("Magenta"@.len() != "LightMagenta"@.len());
            assert("Magenta"@.len() != "LightRed"@.len());
            assert("Magenta"@.len() != "LightYellow"@.len());
        },
        Color::Red => {
            assert("Red"@.len() != "Black"@.len());
            assert("Red"@.len() != "DarkGray"@.len());
            assert("Red"@.len() != "Gray"@.len());
            assert("Red"@.len() != "Reset"@.len());
            assert("Red"@.len() != "Blue"@.len());
            assert("Red"@.len() != "Cyan"@.len());
            assert("Red"@.len() != "Green"@.len());
            assert("Red"@.len() != "LightBlue"@.len());
            assert("Red"@.len() != "LightCyan"@.len());
            assert("Red"@.len() != "LightGreen"@.len());
            assert("Red"@.len() != "LightMagenta"@.len());
            assert("Red"@.len() != "LightRed"@.len());
            assert("Red"@.len() != "LightYellow"@.len());
            assert("Red"@.len() != "Magenta"@.len());
        },
        Color::Yellow => {
            assert("Yellow"@.len() != "Black"@.len());
            assert("Yellow"@.len() != "DarkGray"@.len());
            assert("Yellow"@.len() != "Gray"@.len());
            assert("Yellow"@.len() != "Reset"@.len());
            assert("Yellow"@.len() != "Blue"@.len());
            assert("Yellow"@.len() != "Cyan"@.len());
            assert("Yellow"@.len() != "Green"@.len());
            assert("Yellow"@.len() != "LightBlue"@.len());
            assert("Yellow"@.len() != "LightCyan"@.len());
            assert("Yellow"@.len() != "LightGreen"@.len());
            assert("Yellow"@.len() != "LightMagenta"@.len());
            assert("Yellow"@.len() != "LightRed"@.len());
            assert("Yellow"@.len() != "LightYellow"@.len());
            assert("Yellow"@.len() != "Magenta"@.len());
            assert("Yellow"@.len() != "Red"@.len());
        },
        Color::White => {
            assert("White"@[0] != "Black"@[0]);
            assert("White"@.len() != "DarkGray"@.len());
            assert("White"@.len() != "Gray"@.len());
            assert("White"@[0] != "Reset"@[0]);
            assert("White"@.len() != "Blue"@.len());
            assert("White"@.len() != "Cyan"@.len());
            assert("White"@[0] != "Green"@[0]);
            assert("White"@.len() != "LightBlue"@.len());
            assert("White"@.len() != "LightCyan"@.len());
            assert("White"@.len() != "LightGreen"@.len());
            assert("White"@.len() != "LightMagenta"@.len());
            assert("White"@.len() != "LightRed"@.len());
            assert("White"@.len() != "LightYellow"@.len());
            assert("White"@.len() != "Magenta"@.len());
            assert("White"@.len() != "Red"@.len());
            assert("White"@.len() != "Yellow"@.len());
        },
        _ => {},
    }

}

/// The theme named in the configuration: `classic` (also the default and
/// any unknown name) plain borders, white on dark grey; `modern` rounded,
/// white on grey; `clear` plain, dark grey on black; `red-and-blue`
/// rounded, red on light blue; `green` rounded, green on light green.
pub proof fn law_theme_names(config: &ConfigNode)
    ensures
        child_index(config, "theme"@) is None ==> theme_spec(config) == Some(
            Theme { border_type: BorderType::Plain, target: Color::White, no_target: Color::DarkGray },
        ),
        child_index(config, "theme"@) matches Some(i) ==> {
            let v = config.roots@[i].value->0@;
            &&& v == "classic"@ ==> theme_spec(config) == Some(
                Theme { border_type: BorderType::Plain, target: Color::White, no_target: Color::DarkGray },
            )
            &&& v == "modern"@ ==> theme_spec(config) == Some(
                Theme { border_type: BorderType::Rounded, target: Color::White, no_target: Color::Gray },
            )
            &&& v == "clear"@ ==> theme_spec(config) == Some(
                Theme { border_type: BorderType::Plain, target: Color::DarkGray, no_target: Color::Black },
            )
            &&& v == "red-and-blue"@ ==> theme_spec(config) == Some(
                Theme { border_type: BorderType::Rounded, target: Color::Red, no_target: Color::LightBlue },
            )
            &&& v == "green"@ ==> theme_spec(config) == Some(
                Theme { border_type: BorderType::Rounded, target: Color::Green, no_target: Color::LightGreen },
            )
        },
{
    reveal_strlit("modern");
    reveal_strlit("clear");
    reveal_strlit("red-and-blue");
    reveal_strlit("green");
    reveal_strlit("custom");
    reveal_strlit("classic");
    assert("modern"@.len() != "clear"@.len());
    assert("modern"@.len() != "red-and-blue"@.len());
    assert("modern"@.len() != "green"@.len());
    assert("modern"@[0] != "custom"@[0]);
    assert("clear"@.len() != "modern"@.len());
    assert("clear"@.len() != "red-and-blue"@.len());
    assert("clear"@[0] != "green"@[0]);
    assert("clear"@.len() != "custom"@.len());
    assert("red-and-blue"@.len() != "modern"@.len());
    assert("red-and-blue"@.len() != "clear"@.len());
    assert("red-and-blue"@.len() != "green"@.len());
    assert("red-and-blue"@.len() != "custom"@.len());
    assert("green"@.len() != "modern"@.len());
    assert("green"@[0] != "clear"@[0]);
    assert("green"@.len() != "red-and-blue"@.len());
    assert("green"@.len() != "custom"@.len());
    assert("custom"@[0] != "modern"@[0]);
    assert("custom"@.len() != "clear"@.len());
    assert("custom"@.len() != "red-and-blue"@.len());
    assert("custom"@.len() != "green"@.len());
    assert("classic"@.len() != "modern"@.len());
    assert("classic"@.len() != "clear"@.len());
    assert("classic"@.len() != "red-and-blue"@.len());
    assert("classic"@.len() != "green"@.len());
    assert("classic"@.len() != "custom"@.len());
}

} // verus!

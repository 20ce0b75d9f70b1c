use vstd::prelude::*;

pub mod bytes;
pub mod config;
pub mod editing;
pub mod editor;
pub mod highlight;
pub mod lines;
pub mod render;
pub mod search;
pub mod session;
pub mod styling;
pub mod text;
pub mod textblock;
pub mod vars;
pub mod view;

use crate::search::Pattern;
use crate::styling::{BorderType, Color};
use crate::text::eq_str;
use crate::textblock::TextBlock;

verus! {

/// What the editor is doing.
#[derive(Clone, Copy, Debug, PartialEq, Eq, Structural)]
pub enum Mode {
    Edit,
    Quit,
    Find(usize, usize),
    Command,
    View,
}

/// What the main area of the editor shows.
#[derive(Clone, Copy, Debug, PartialEq, Eq, Structural)]
pub enum Display {
    Input,
    Output,
    Help,
}

/// A command of the command line.
#[derive(Clone, Debug, PartialEq)]
pub enum BtelCommand {
    Edit,
    Error,
    Quit,
    ForceSave,
    Find,
    Command,
    Open,
    Save,
    Help,
    View,
    Extern(String),
}

/// What a frame of the editor draws.
pub struct App<'a> {
    pub mode: Mode,
    pub textbox: &'a TextBlock,
    pub output: &'a String,
    pub command: &'a String,
    pub line_name: &'a String,
    pub file_name: &'a String,
    pub display: &'a Display,
}

/// The editor's state as a plugin gets and gives it.
#[derive(Debug)]
pub struct BtelVars {
    pub input: Vec<String>,
    pub output: String,
    pub edit_cursor: usize,
    pub vert_cursor: usize,
    pub mode: Mode,
    pub line_name: String,
    pub file_name: String,
    pub saved: bool,
    pub scroll_x: usize,
    pub scroll_y: usize,
    pub display: Display,
    pub args: Option<Vec<String>>,
}

/// A plugin: the command names that run it, and the program to run.
#[derive(Debug)]
pub struct Extern {
    pub names: Vec<String>,
    pub path: String,
}

/// How the files whose names end in a given suffix are highlighted.
#[derive(Debug)]
pub enum Highlight {
    Cstm(CustomHighlight),
    Incl(InclHighlight),
    Nothing,
}

/// The look of the editor: the kind of border, and the colours of the block
/// that has the focus and of the others.
#[derive(Clone, Copy, Debug, PartialEq, Eq, Structural)]
pub struct Theme {
    pub border_type: BorderType,
    pub target: Color,
    pub no_target: Color,
}

/// One rule of a configured highlighting.
#[derive(Debug)]
pub enum HighlightInstr {
    Regex(Pattern, Color),
    Brackets(String, String),
    Nothing,
}

/// A configured highlighting: its rules in order.
#[derive(Debug)]
pub struct CustomHighlight(pub Vec<HighlightInstr>);

/// A built-in highlighting.
#[derive(Debug, Clone, Copy, PartialEq, Eq, Structural)]
pub enum InclHighlight {
    Rust,
    Json,
}

/// The mode that `s` names, if it names one.
pub open spec fn mode_named(s: Seq<char>) -> Option<Mode> {
    if s == "Edit"@ {
        Some(Mode::Edit)
    } else if s == "Quit"@ {
        Some(Mode::Quit)
    } else if s == "Find"@ {
        Some(Mode::Find(0, 0))
    } else if s == "Command"@ {
        Some(Mode::Command)
    } else if s == "View"@ {
        Some(Mode::View)
    } else {
        None
    }
}

/// The display that `s` names, with or without a final newline, if it names
/// one.
pub open spec fn display_named(s: Seq<char>) -> Option<Display> {
    if s == "Input\n"@ || s == "Input"@ {
        Some(Display::Input)
    } else if s == "Output\n"@ || s == "Output"@ {
        Some(Display::Output)
    } else if s == "Help\n"@ || s == "Help"@ {
        Some(Display::Help)
    } else {
        None
    }
}

/// The name of a mode, as shown to the user.
pub open spec fn mode_name(m: Mode) -> Seq<char> {
    match m {
        Mode::Edit => "Edit"@,
        Mode::Command => "Command"@,
        Mode::Find(_, _) => "Find"@,
        Mode::Quit => "Quit"@,
        Mode::View => "View"@,
    }
}

impl Mode {
    /// The mode that `string` names; any other name is refused.
    pub fn from_string(string: &String) -> (m: Mode)
        requires
            mode_named(string@) is Some,
        ensures
            m == mode_named(string@)->0,
    {
        let s = string.as_str();
        if eq_str(s, "Edit") {
            Mode::Edit
        } else if eq_str(s, "Quit") {
            Mode::Quit
        } else if eq_str(s, "Find") {
            Mode::Find(0, 0)
        } else if eq_str(s, "Command") {
            Mode::Command
        } else {
            Mode::View
        }
    }

    /// The mode's name, as shown to the user.
    pub fn name(&self) -> (s: String)
        ensures
            s@ == mode_name(*self),
    {
        match self {
            Mode::Edit => "Edit".to_owned(),
            Mode::Command => "Command".to_owned(),
            Mode::Find(_, _) => "Find".to_owned(),
            Mode::Quit => "Quit".to_owned(),
            Mode::View => "View".to_owned(),
        }
    }
}

impl Display {
    /// The display that `string` names; any other name is refused.
    pub fn from_string(string: &String) -> (d: Display)
        requires
            display_named(string@) is Some,
        ensures
            d == display_named(string@)->0,
    {
        let s = string.as_str();
        if eq_str(s, "Input\n") || eq_str(s, "Input") {
            Display::Input
        } else if eq_str(s, "Output\n") || eq_str(s, "Output") {
            Display::Output
        } else {
            Display::Help
        }
    }
}

} // verus!

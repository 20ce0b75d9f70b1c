# btel

A small terminal text editor, as a verified library with a thin program
around it.

- `src/` holds the editor's logic, each function with a contract that Verus
  proves: the text buffer and its cursor (`textblock`, with the laws of
  editing in `editing`), the main loop as a state machine from key presses
  and command lines to a new state and the work left to do (`session`,
  `editor`), the plugin protocol (`vars`), the configuration tree
  (`config`), syntax highlighting (`highlight`), links in the view
  (`view`) and the plan of a frame (`render`). Regular expressions,
  substring search and the terminal's layout solver are called through a
  few trusted wrappers (`search`, `render::split_area`).
- `app/` is the program: the terminal, key events, files, the shell, the
  plugins and the browser. It asks the library what to do and does it.
- `tests/` runs the library on concrete inputs.

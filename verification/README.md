# termux-theme, verified

The logic of a Termux color theme switcher, written in Verus: the library
in `src/` states what each function does in `requires`/`ensures` clauses
and Verus proves it; `app/main.rs` is the command-line program around it
(files, the terminal, `fzf`, `gum`, `stty`, `tput`).

Modules of the library:

- `text`: characters, whitespace and trimming, searching, decimal numbers,
  `usize` parsing, UTF-8 widths, words.
- `osc`: a `.properties` theme file turned into OSC escape sequences.
- `names`: cleaning theme names, the numbered menu, resolving an argument
  to a theme.
- `paths`: the Termux directory, themes directory, colors file and backup,
  per-theme files, and when a compiled `.osc` file is stale.
- `themes`: which files are themes, the sorted theme list, the active
  theme, `save-as` names, the random pick.
- `layout`: the help page wrapped to the terminal width and the one- or
  two-column theme listing.
- `cli`: the command the arguments ask for and the terminal width.

The crate is built without a `Cargo.toml`, so its name is `lib`; the tests
in `tests/` use it as `lib::...`.

//! A Termux color theme switcher's logic: theme files compiled to OSC
//! escape sequences, theme names and menu lines, file locations, the theme
//! list, and the help and listing layouts.
pub mod cli;
pub mod layout;
pub mod names;
pub mod osc;
pub mod paths;
pub mod text;
pub mod themes;

pub use cli::{get_terminal_width, parse_command, parse_stty_columns, parse_tput_columns, Command};
pub use layout::{grid_lines, help_lines, wrap_words};
pub use names::{clean_theme_name, menu_input, resolve_theme};
pub use osc::compile_osc_from_content;
pub use paths::{
    get_backup_file, get_color_file, get_termux_dir, get_themes_dir, join_path, needs_compile,
    osc_file, theme_file,
};
pub use text::parse_usize;
pub use themes::{collect_themes, get_current_active_theme, random_index, save_as_name, theme_stem};

use lib::{
    get_backup_file, get_color_file, get_termux_dir, get_themes_dir, join_path, needs_compile,
    osc_file, theme_file,
};
use std::path::PathBuf;

#[test]
fn termux_locations() {
    assert_eq!(get_termux_dir(Some("/home/u")), "/home/u/.termux");
    assert_eq!(get_termux_dir(Some("/home/u/")), "/home/u/.termux");
    assert_eq!(get_termux_dir(None), "/data/data/com.termux/files/home/.termux");
    assert_eq!(get_themes_dir(Some("/h")), "/h/.termux/themes");
    assert_eq!(get_color_file(Some("/h")), "/h/.termux/colors.properties");
    assert_eq!(get_backup_file(Some("/h")), "/h/.termux/colors.properties.bak");
}

#[test]
fn backup_is_the_colors_file_with_bak() {
    for home in [Some("/h"), Some(""), Some("/x/y/"), None] {
        assert_eq!(get_backup_file(home), format!("{}.bak", get_color_file(home)));
        let color = PathBuf::from(get_color_file(home));
        assert_eq!(
            PathBuf::from(get_backup_file(home)),
            color.with_extension("properties.bak")
        );
    }
}

#[test]
fn theme_files() {
    assert_eq!(theme_file("/t", "nord"), "/t/nord.properties");
    assert_eq!(osc_file("/t", "nord"), "/t/nord.osc");
    assert_eq!(theme_file("/t", "/etc/x"), "/etc/x.properties");
}

#[test]
fn joins_like_std() {
    let cases = [("", "a"), ("/", "a"), ("a", "b"), ("a/", "b"), ("a", "/b"), ("a", ""), ("a//", "b")];
    for (base, comp) in cases {
        assert_eq!(
            join_path(base, comp),
            PathBuf::from(base).join(comp).to_str().unwrap(),
            "{:?} + {:?}",
            base,
            comp
        );
    }
}

#[test]
fn recompiles_only_when_stale_or_unknown() {
    assert!(needs_compile(Some(20), Some(10)));
    assert!(!needs_compile(Some(10), Some(10)));
    assert!(!needs_compile(Some(5), Some(10)));
    assert!(needs_compile(None, Some(10)));
    assert!(needs_compile(Some(10), None));
    assert!(needs_compile(None, None));
    assert!(!needs_compile(Some(-5), Some(-1)));
}

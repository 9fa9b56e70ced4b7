use lib::{collect_themes, get_current_active_theme, random_index, save_as_name, theme_stem};
use std::path::Path;

fn names(v: &[&str]) -> Vec<String> {
    v.iter().map(|s| s.to_string()).collect()
}

fn std_stem(name: &str) -> Option<String> {
    let p = Path::new(name);
    if p.extension().and_then(|s| s.to_str()) == Some("properties") {
        p.file_stem().and_then(|s| s.to_str()).map(|s| s.to_string())
    } else {
        None
    }
}

#[test]
fn stems_of_properties_files() {
    assert_eq!(theme_stem("nord.properties"), Some("nord".to_string()));
    assert_eq!(theme_stem("a.b.properties"), Some("a.b".to_string()));
    assert_eq!(theme_stem(".properties"), None);
    assert_eq!(theme_stem("nord.osc"), None);
    assert_eq!(theme_stem("properties"), None);
    assert_eq!(theme_stem("x.properties.bak"), None);
}

#[test]
fn stems_agree_with_std_paths() {
    for n in ["a.properties", ".a.properties", "..properties", "a..properties", "a.PROPERTIES", "a.", "é.properties"] {
        assert_eq!(theme_stem(n), std_stem(n), "name {:?}", n);
    }
}

#[test]
fn collects_sorted_themes() {
    let files = names(&["ubuntu.properties", "Nord.properties", "dracula.properties", "dracula.osc", "notes.txt", "a.properties"]);
    assert_eq!(collect_themes(&files), names(&["Nord", "a", "dracula", "ubuntu"]));
    assert_eq!(collect_themes(&Vec::new()), Vec::<String>::new());
}

#[test]
fn sorting_agrees_with_std() {
    let files = names(&["b.properties", "ab.properties", "a.properties", "é.properties", "Z.properties", "a b.properties", "ä.properties"]);
    let mut expected: Vec<String> = files.iter().filter_map(|f| std_stem(f)).collect();
    expected.sort();
    assert_eq!(collect_themes(&files), expected);
}

#[test]
fn a_stored_theme_is_listed_under_its_name() {
    for name in ["mine", "dark-custom", "x.y"] {
        assert_eq!(collect_themes(&vec![format!("{}.properties", name)]), vec![name.to_string()]);
    }
}

#[test]
fn finds_the_active_theme() {
    let themes = names(&["a", "b", "c"]);
    let current = b"background=#000".to_vec();
    let contents = vec![Some(b"x".to_vec()), None, Some(current.clone())];
    assert_eq!(get_current_active_theme(&themes, Some(&current), &contents), Some("c".to_string()));
    assert_eq!(get_current_active_theme(&themes, None, &contents), None);
    let none = vec![Some(b"x".to_vec()), None, None];
    assert_eq!(get_current_active_theme(&themes, Some(&current), &none), None);
    let both = vec![None, Some(current.clone()), Some(current.clone())];
    assert_eq!(get_current_active_theme(&themes, Some(&current), &both), Some("b".to_string()));
}

#[test]
fn random_pick_is_in_range() {
    assert_eq!(random_index(7, 3), 1);
    assert_eq!(random_index(0, 5), 0);
    assert_eq!(random_index(u32::MAX, 10), (u32::MAX as usize) % 10);
}

#[test]
fn save_as_drops_properties_suffix() {
    assert_eq!(save_as_name("mine.properties"), "mine");
    assert_eq!(save_as_name("mine.properties.properties"), "mine");
    assert_eq!(save_as_name(" mine "), " mine ");
}

#[test]
fn distinct_files_give_distinct_themes() {
    let files = names(&["b.properties", "a.properties", "b.osc", "c.properties", "a.properties.bak"]);
    let themes = collect_themes(&files);
    assert_eq!(themes, names(&["a", "b", "c"]));
    for i in 0..themes.len() {
        for j in i + 1..themes.len() {
            assert_ne!(themes[i], themes[j]);
        }
    }
}

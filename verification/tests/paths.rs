use dipse::path::{child_of, components_of, parent_of, starts_with};

fn parts(text: &str) -> Vec<String> {
    components_of(text).into_iter().map(|part| part.into_iter().collect()).collect()
}

#[test]
fn components_of_an_absolute_path() {
    assert_eq!(parts("/home/user/project"), vec!["", "home", "user", "project"]);
}

#[test]
fn components_of_a_relative_path() {
    assert_eq!(parts("src/bin"), vec!["src", "bin"]);
}

#[test]
fn components_skip_repeated_and_trailing_separators() {
    assert_eq!(parts("/a//b/"), vec!["", "a", "b"]);
}

#[test]
fn components_of_the_root_and_of_nothing() {
    assert_eq!(parts("/"), vec![""]);
    assert_eq!(parts(""), Vec::<String>::new());
}

#[test]
fn a_directory_is_above_what_lies_in_it() {
    assert!(starts_with("/home/user/project/src", "/home/user/project"));
    assert!(starts_with("/home/user/project", "/home/user/project"));
    assert!(starts_with("/home/user/project", "/"));
}

#[test]
fn a_prefix_of_the_text_is_not_a_directory_above() {
    assert!(!starts_with("/home/user/project-two", "/home/user/project"));
    assert!(!starts_with("/home/username", "/home/user"));
}

#[test]
fn a_deeper_directory_is_not_above() {
    assert!(!starts_with("/home/user", "/home/user/project"));
}

#[test]
fn a_relative_path_is_not_above_an_absolute_one() {
    assert!(!starts_with("/home/user", "home"));
    assert!(!starts_with("home/user", "/home"));
    assert!(starts_with("home/user", "home"));
}

#[test]
fn a_trailing_separator_does_not_matter() {
    assert!(starts_with("/home/user/project", "/home/user/"));
}

#[test]
fn parent_of_a_nested_directory() {
    assert_eq!(parent_of("/home/user/project"), Some("/home/user".to_string()));
}

#[test]
fn parent_of_a_directory_below_the_root() {
    assert_eq!(parent_of("/home"), Some("/".to_string()));
}

#[test]
fn the_root_has_no_parent() {
    assert_eq!(parent_of("/"), None);
    assert_eq!(parent_of("//"), None);
}

#[test]
fn the_empty_path_has_no_parent() {
    assert_eq!(parent_of(""), None);
}

#[test]
fn parent_of_a_single_relative_segment() {
    assert_eq!(parent_of("project"), Some(String::new()));
}

#[test]
fn parent_ignores_trailing_and_repeated_separators() {
    assert_eq!(parent_of("/home/user/"), Some("/home".to_string()));
    assert_eq!(parent_of("a//b"), Some("a".to_string()));
}

#[test]
fn child_of_a_directory() {
    assert_eq!(child_of("/home/user", ".d.toml"), "/home/user/.d.toml");
}

#[test]
fn child_of_the_root() {
    assert_eq!(child_of("/", ".d.toml"), "/.d.toml");
}

#[test]
fn child_of_the_empty_path() {
    assert_eq!(child_of("", ".d.toml"), ".d.toml");
}

#[test]
fn segments_beyond_ascii() {
    assert_eq!(parts("/home/zoë/日本"), vec!["", "home", "zoë", "日本"]);
    assert!(starts_with("/home/zoë/日本", "/home/zoë"));
    assert!(!starts_with("/home/zoë", "/home/zoe"));
    assert_eq!(parent_of("/home/zoë/日本"), Some("/home/zoë".to_string()));
}

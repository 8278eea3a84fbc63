use file_browser::locate::{default_from_home, resolve_with_default};
use file_browser::navigate::get_parent_path;

#[test]
fn explicit_path_is_kept() {
    let r = resolve_with_default(Some("/var/log".to_string()), "/home/user".to_string());
    assert_eq!(r, "/var/log");
}

#[test]
fn absent_and_empty_resolve_alike() {
    let absent = resolve_with_default(None, "/home/user".to_string());
    let empty = resolve_with_default(Some(String::new()), "/home/user".to_string());
    assert_eq!(absent, empty);
    assert_eq!(absent, "/home/user");
}

#[test]
fn determined_home_is_kept() {
    assert_eq!(default_from_home(Some("/home/user".to_string())), "/home/user");
}

#[test]
fn failed_home_lookup_falls_back_to_root() {
    assert_eq!(default_from_home(None), "/");
}

#[test]
fn parent_of_nested_path() {
    assert_eq!(get_parent_path("/a/b/c".to_string()), Some("/a/b".to_string()));
}

#[test]
fn parent_of_root_is_absent() {
    assert_eq!(get_parent_path("/".to_string()), None);
}

#[test]
fn parent_of_relative_path() {
    assert_eq!(get_parent_path("a/b".to_string()), Some("a".to_string()));
}

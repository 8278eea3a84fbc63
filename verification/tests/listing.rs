use file_browser::entry::FileEntry;
use file_browser::listing::list_from_entries;

fn entry(name: &str, is_dir: bool, size: u64) -> FileEntry {
    FileEntry {
        name: name.to_string(),
        path: format!("/base/{}", name),
        is_dir,
        size,
    }
}

fn names(entries: &Vec<FileEntry>) -> Vec<String> {
    let mut out: Vec<String> = Vec::new();
    for e in entries {
        out.push(e.name.clone());
    }
    out
}

#[test]
fn hidden_only_is_empty() {
    let raw = vec![
        entry(".hidden", false, 10),
        entry(".git", true, 0),
        entry(".config", true, 4096),
    ];
    let listed = list_from_entries(raw);
    assert_eq!(listed.len(), 0);
}

#[test]
fn empty_input_is_empty() {
    let listed = list_from_entries(Vec::new());
    assert_eq!(listed.len(), 0);
}

#[test]
fn no_hidden_name_survives() {
    let raw = vec![
        entry("notes.txt", false, 5),
        entry(".bashrc", false, 100),
        entry("src", true, 4096),
        entry(".cache", true, 4096),
    ];
    let listed = list_from_entries(raw);
    assert_eq!(listed.len(), 2);
    for e in &listed {
        assert!(!e.name.starts_with('.'));
        assert!(!e.name.is_empty());
    }
}

#[test]
fn directories_come_first() {
    let raw = vec![
        entry("zz.txt", false, 1),
        entry("beta", true, 0),
        entry("aa.txt", false, 2),
        entry("alpha", true, 0),
    ];
    let listed = list_from_entries(raw);
    assert_eq!(names(&listed), vec!["alpha", "beta", "aa.txt", "zz.txt"]);
}

#[test]
fn names_sorted_case_insensitively() {
    let raw = vec![
        entry("banana", false, 1),
        entry("Apple", false, 1),
        entry("cherry", false, 1),
    ];
    let listed = list_from_entries(raw);
    assert_eq!(names(&listed), vec!["Apple", "banana", "cherry"]);
}

#[test]
fn case_folding_decides_the_order() {
    // Plain byte order would put "B" (0x42) before "a" (0x61); the
    // case-insensitive comparison must put "a" first.
    let raw = vec![entry("B", false, 1), entry("a", false, 1)];
    let listed = list_from_entries(raw);
    assert_eq!(names(&listed), vec!["a", "B"]);
}

#[test]
fn zebra_apple_hidden_scenario() {
    let raw = vec![
        entry("Zebra", true, 4096),
        entry("apple.txt", false, 12),
        entry(".hidden", false, 1),
    ];
    let listed = list_from_entries(raw);
    assert_eq!(names(&listed), vec!["Zebra", "apple.txt"]);
}

#[test]
fn entry_fields_pass_through() {
    let raw = vec![entry("report.pdf", false, 31337)];
    let listed = list_from_entries(raw);
    assert_eq!(listed.len(), 1);
    assert_eq!(listed[0].name, "report.pdf");
    assert_eq!(listed[0].path, "/base/report.pdf");
    assert_eq!(listed[0].is_dir, false);
    assert_eq!(listed[0].size, 31337);
}

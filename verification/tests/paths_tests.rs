use zip_to_unity::paths::{is_meta, marker_path, parse_entry_name, seg_safe, split_name};

fn segs(v: &[&str]) -> Vec<String> {
    v.iter().map(|s| s.to_string()).collect()
}

#[test]
fn accepts_plain_relative_file() {
    let r = parse_entry_name("Assets/a.txt");
    assert_eq!(r, Some((segs(&["Assets", "a.txt"]), false)));
}

#[test]
fn accepts_directory_entry() {
    let r = parse_entry_name("Assets/");
    assert_eq!(r, Some((segs(&["Assets"]), true)));
}

#[test]
fn accepts_nested_directory_entry() {
    let r = parse_entry_name("Assets/Textures/");
    assert_eq!(r, Some((segs(&["Assets", "Textures"]), true)));
}

#[test]
fn rejects_parent_traversal() {
    assert_eq!(parse_entry_name("../../evil.txt"), None);
    assert_eq!(parse_entry_name("Assets/../evil.txt"), None);
    assert_eq!(parse_entry_name(".."), None);
}

#[test]
fn rejects_absolute_paths() {
    assert_eq!(parse_entry_name("/etc/passwd"), None);
    assert_eq!(parse_entry_name("/"), None);
}

#[test]
fn rejects_windows_escapes() {
    assert_eq!(parse_entry_name("C:\\evil.txt"), None);
    assert_eq!(parse_entry_name("C:evil.txt"), None);
    assert_eq!(parse_entry_name("a\\b.txt"), None);
}

#[test]
fn rejects_empty_and_dot_segments() {
    assert_eq!(parse_entry_name(""), None);
    assert_eq!(parse_entry_name("a//b.txt"), None);
    assert_eq!(parse_entry_name("./a.txt"), None);
    assert_eq!(parse_entry_name("a/./b.txt"), None);
}

#[test]
fn split_keeps_all_segments() {
    assert_eq!(split_name("a/b/c"), segs(&["a", "b", "c"]));
    assert_eq!(split_name("abc"), segs(&["abc"]));
    assert_eq!(split_name("/a"), segs(&["", "a"]));
}

#[test]
fn segment_safety() {
    assert!(seg_safe("name.txt"));
    assert!(!seg_safe(""));
    assert!(!seg_safe("."));
    assert!(!seg_safe(".."));
    assert!(!seg_safe("a:b"));
    assert!(!seg_safe("a\\b"));
}

#[test]
fn extension_classification() {
    assert!(is_meta("a.meta"));
    assert!(is_meta("a.tar.meta"));
    assert!(!is_meta("a.metal"));
    assert!(!is_meta("a.met"));
    assert!(!is_meta(".meta"));
    assert!(!is_meta("a.txt"));
}

#[test]
fn marker_path_appends_suffix_to_file_name() {
    let m = marker_path(&segs(&["Assets", "a.txt"]));
    assert_eq!(m, segs(&["Assets", "a.txt.meta"]));
    let m2 = marker_path(&segs(&["top"]));
    assert_eq!(m2, segs(&["top.meta"]));
}

use zip_to_unity::extract::extract_entries;
use zip_to_unity::tree::Tree;

fn segs(v: &[&str]) -> Vec<String> {
    v.iter().map(|s| s.to_string()).collect()
}

fn entry(name: &str, data: &[u8]) -> (String, Vec<u8>) {
    (name.to_string(), data.to_vec())
}

#[test]
fn sanctioned_file_is_staged() {
    let mut reference = Tree::new();
    reference.insert_file(segs(&["Assets", "a.txt.meta"]), Vec::new());
    let entries = vec![entry("Assets/a.txt", b"content")];
    let mut staging = Tree::new();
    let excluded = extract_entries(&entries, Some(&reference), &mut staging);
    assert!(excluded.is_empty());
    assert_eq!(staging.file_content(&segs(&["Assets", "a.txt"])), Some(&b"content".to_vec()));
}

#[test]
fn unsanctioned_file_is_excluded_exactly_once() {
    let reference = Tree::new();
    let entries = vec![entry("Assets/b.txt", b"data")];
    let mut staging = Tree::new();
    let excluded = extract_entries(&entries, Some(&reference), &mut staging);
    assert_eq!(excluded, vec!["Assets/b.txt".to_string()]);
    assert!(!staging.contains_file(&segs(&["Assets", "b.txt"])));
}

#[test]
fn marker_files_are_never_staged() {
    let mut reference = Tree::new();
    reference.insert_file(segs(&["Assets", "x.meta.meta"]), Vec::new());
    let entries = vec![entry("Assets/x.meta", b"guid")];
    let mut staging = Tree::new();
    let excluded = extract_entries(&entries, Some(&reference), &mut staging);
    assert!(excluded.is_empty());
    assert!(!staging.contains_file(&segs(&["Assets", "x.meta"])));
}

#[test]
fn file_without_extension_is_excluded_without_marker() {
    let reference = Tree::new();
    let entries = vec![entry("Assets/README", b"text")];
    let mut staging = Tree::new();
    let excluded = extract_entries(&entries, Some(&reference), &mut staging);
    assert_eq!(excluded, vec!["Assets/README".to_string()]);
    assert!(!staging.contains_file(&segs(&["Assets", "README"])));
}

#[test]
fn file_without_extension_is_staged_with_marker() {
    let mut reference = Tree::new();
    reference.insert_file(segs(&["Assets", "README.meta"]), Vec::new());
    let entries = vec![entry("Assets/README", b"text")];
    let mut staging = Tree::new();
    let excluded = extract_entries(&entries, Some(&reference), &mut staging);
    assert!(excluded.is_empty());
    assert_eq!(staging.file_content(&segs(&["Assets", "README"])), Some(&b"text".to_vec()));
}

#[test]
fn unsafe_names_are_skipped_silently() {
    let reference = Tree::new();
    let entries = vec![
        entry("../../evil.txt", b"bad"),
        entry("/abs.txt", b"bad"),
        entry("a\\b.txt", b"bad"),
    ];
    let mut staging = Tree::new();
    let excluded = extract_entries(&entries, Some(&reference), &mut staging);
    assert!(excluded.is_empty());
    assert!(!staging.contains_file(&segs(&["..", "..", "evil.txt"])));
    assert!(!staging.contains_file(&segs(&["evil.txt"])));
    assert!(!staging.contains_file(&segs(&["abs.txt"])));
}

#[test]
fn directory_entries_are_created_unfiltered() {
    let reference = Tree::new();
    let entries = vec![entry("Assets/", b""), entry("Assets/Sub/", b"")];
    let mut staging = Tree::new();
    let excluded = extract_entries(&entries, Some(&reference), &mut staging);
    assert!(excluded.is_empty());
    assert!(staging.contains_dir(&segs(&["Assets"])));
    assert!(staging.contains_dir(&segs(&["Assets", "Sub"])));
}

#[test]
fn without_reference_every_nonmarker_file_is_staged() {
    let entries = vec![
        entry("Assets/a.txt", b"a"),
        entry("Assets/b.meta", b"guid"),
        entry("Assets/c.png", b"c"),
        entry("Assets/README", b"r"),
    ];
    let mut staging = Tree::new();
    let excluded = extract_entries(&entries, None, &mut staging);
    assert!(excluded.is_empty());
    assert!(staging.contains_file(&segs(&["Assets", "a.txt"])));
    assert!(!staging.contains_file(&segs(&["Assets", "b.meta"])));
    assert!(staging.contains_file(&segs(&["Assets", "c.png"])));
    assert!(staging.contains_file(&segs(&["Assets", "README"])));
}

#[test]
fn later_entry_of_same_name_wins() {
    let mut reference = Tree::new();
    reference.insert_file(segs(&["a.txt.meta"]), Vec::new());
    let entries = vec![entry("a.txt", b"first"), entry("a.txt", b"second")];
    let mut staging = Tree::new();
    let excluded = extract_entries(&entries, Some(&reference), &mut staging);
    assert!(excluded.is_empty());
    assert_eq!(staging.file_content(&segs(&["a.txt"])), Some(&b"second".to_vec()));
}

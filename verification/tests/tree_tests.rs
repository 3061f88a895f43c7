use zip_to_unity::tree::{Tree, is_exists_folder, path_eq, path_is_prefix};
use zip_to_unity::workspace::reset_folder;

fn segs(v: &[&str]) -> Vec<String> {
    v.iter().map(|s| s.to_string()).collect()
}

#[test]
fn insert_then_lookup() {
    let mut t = Tree::new();
    t.insert_file(segs(&["Assets", "a.txt"]), b"hello".to_vec());
    assert!(t.contains_file(&segs(&["Assets", "a.txt"])));
    assert!(!t.contains_file(&segs(&["Assets", "b.txt"])));
    assert_eq!(t.file_content(&segs(&["Assets", "a.txt"])), Some(&b"hello".to_vec()));
    assert_eq!(t.file_content(&segs(&["Assets", "b.txt"])), None);
}

#[test]
fn later_insert_overwrites() {
    let mut t = Tree::new();
    t.insert_file(segs(&["a"]), b"one".to_vec());
    t.insert_file(segs(&["a"]), b"two".to_vec());
    assert_eq!(t.file_content(&segs(&["a"])), Some(&b"two".to_vec()));
}

#[test]
fn directories_from_files_and_explicit_dirs() {
    let mut t = Tree::new();
    t.insert_file(segs(&["Assets", "Sub", "a.txt"]), b"x".to_vec());
    assert!(t.contains_dir(&segs(&["Assets"])));
    assert!(t.contains_dir(&segs(&["Assets", "Sub"])));
    assert!(!t.contains_dir(&segs(&["Assets", "Sub", "a.txt"])));
    assert!(!t.contains_dir(&segs(&["Other"])));
    t.add_dir(segs(&["Other", "Deep"]));
    assert!(t.contains_dir(&segs(&["Other"])));
    assert!(t.contains_dir(&segs(&["Other", "Deep"])));
}

#[test]
fn is_exists_folder_checks_top_level() {
    let mut t = Tree::new();
    assert!(!is_exists_folder(&t, "Assets"));
    t.insert_file(segs(&["Assets", "a.txt"]), b"x".to_vec());
    assert!(is_exists_folder(&t, "Assets"));
    assert!(!is_exists_folder(&t, "Other"));
}

#[test]
fn reset_twice_leaves_empty_both_times() {
    let mut t = Tree::new();
    t.insert_file(segs(&["Assets", "a.txt"]), b"x".to_vec());
    t.add_dir(segs(&["Assets", "Sub"]));
    reset_folder(&mut t);
    assert!(!t.contains_file(&segs(&["Assets", "a.txt"])));
    assert!(!t.contains_dir(&segs(&["Assets"])));
    reset_folder(&mut t);
    assert!(!t.contains_file(&segs(&["Assets", "a.txt"])));
    assert!(!t.contains_dir(&segs(&["Assets"])));
}

#[test]
fn merge_overwrites_and_adds_under_subtree() {
    let mut src = Tree::new();
    src.insert_file(segs(&["Assets", "a.txt"]), b"new".to_vec());
    src.insert_file(segs(&["Assets", "b.txt"]), b"added".to_vec());
    let mut dst = Tree::new();
    dst.insert_file(segs(&["Assets", "a.txt"]), b"old".to_vec());
    dst.merge_subtree_from(&src, &"Assets".to_string());
    assert_eq!(dst.file_content(&segs(&["Assets", "a.txt"])), Some(&b"new".to_vec()));
    assert_eq!(dst.file_content(&segs(&["Assets", "b.txt"])), Some(&b"added".to_vec()));
}

#[test]
fn merge_leaves_everything_else_untouched() {
    let mut src = Tree::new();
    src.insert_file(segs(&["Assets", "a.txt"]), b"new".to_vec());
    src.insert_file(segs(&["Elsewhere", "c.txt"]), b"ignored".to_vec());
    let mut dst = Tree::new();
    dst.insert_file(segs(&["ProjectSettings", "v.txt"]), b"keep".to_vec());
    dst.insert_file(segs(&["Assets", "own.txt"]), b"mine".to_vec());
    dst.merge_subtree_from(&src, &"Assets".to_string());
    assert_eq!(dst.file_content(&segs(&["ProjectSettings", "v.txt"])), Some(&b"keep".to_vec()));
    assert_eq!(dst.file_content(&segs(&["Assets", "own.txt"])), Some(&b"mine".to_vec()));
    assert!(!dst.contains_file(&segs(&["Elsewhere", "c.txt"])));
}

#[test]
fn path_helpers() {
    assert!(path_eq(&segs(&["a", "b"]), &segs(&["a", "b"])));
    assert!(!path_eq(&segs(&["a", "b"]), &segs(&["a", "c"])));
    assert!(!path_eq(&segs(&["a"]), &segs(&["a", "b"])));
    assert!(path_is_prefix(&segs(&["a"]), &segs(&["a", "b"])));
    assert!(path_is_prefix(&segs(&["a", "b"]), &segs(&["a", "b"])));
    assert!(!path_is_prefix(&segs(&["b"]), &segs(&["a", "b"])));
    assert!(!path_is_prefix(&segs(&["a", "b", "c"]), &segs(&["a", "b"])));
}

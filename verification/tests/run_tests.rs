use std::io::Write;

use zip::write::SimpleFileOptions;
use zip_to_unity::extract::extract_zip;
use zip_to_unity::run::copy_zip_to_unity;
use zip_to_unity::tree::Tree;
use zip_to_unity::zipio::{ArchiveError, open_archive};

fn segs(v: &[&str]) -> Vec<String> {
    v.iter().map(|s| s.to_string()).collect()
}

fn make_zip(entries: &[(&str, Option<&[u8]>)]) -> Vec<u8> {
    let mut w = zip::ZipWriter::new(std::io::Cursor::new(Vec::new()));
    for (name, data) in entries {
        match data {
            Some(bytes) => {
                w.start_file(*name, SimpleFileOptions::default()).unwrap();
                w.write_all(bytes).unwrap();
            }
            None => {
                w.add_directory(*name, SimpleFileOptions::default()).unwrap();
            }
        }
    }
    w.finish().unwrap().into_inner()
}

#[test]
fn scenario_sanctioned_overwritten_unsanctioned_excluded() {
    let bytes = make_zip(&[
        ("Assets/a.txt", Some(b"new a")),
        ("Assets/b.txt", Some(b"new b")),
    ]);
    let mut unity = Tree::new();
    unity.insert_file(segs(&["Assets", "a.txt.meta"]), Vec::new());
    unity.insert_file(segs(&["Assets", "a.txt"]), b"old a".to_vec());
    unity.insert_file(segs(&["ProjectSettings", "v.txt"]), b"keep".to_vec());
    let mut staging = Tree::new();
    let (ok, msg) = copy_zip_to_unity(&bytes, &mut staging, &mut unity);
    assert!(ok);
    assert_eq!(unity.file_content(&segs(&["Assets", "a.txt"])), Some(&b"new a".to_vec()));
    assert!(!unity.contains_file(&segs(&["Assets", "b.txt"])));
    assert_eq!(unity.file_content(&segs(&["ProjectSettings", "v.txt"])), Some(&b"keep".to_vec()));
    assert_eq!(unity.file_content(&segs(&["Assets", "a.txt.meta"])), Some(&Vec::new()));
    let expected = "processed successfully\n\n====================================\nexcluded because they have no meta file:\nAssets/b.txt\n";
    assert_eq!(msg, expected);
}

#[test]
fn scenario_archive_without_assets_fails_and_target_unchanged() {
    let bytes = make_zip(&[("Other/a.txt", Some(b"x"))]);
    let mut unity = Tree::new();
    unity.insert_file(segs(&["Assets", "keep.txt"]), b"keep".to_vec());
    let mut staging = Tree::new();
    let (ok, msg) = copy_zip_to_unity(&bytes, &mut staging, &mut unity);
    assert!(!ok);
    assert_eq!(msg, "the zip archive has no Assets folder");
    assert_eq!(unity.file_content(&segs(&["Assets", "keep.txt"])), Some(&b"keep".to_vec()));
    assert!(!unity.contains_file(&segs(&["Other", "a.txt"])));
}

#[test]
fn scenario_traversal_entry_is_skipped_silently() {
    let bytes = make_zip(&[
        ("../../evil.txt", Some(b"bad")),
        ("Assets/ok.txt", Some(b"fine")),
    ]);
    let mut unity = Tree::new();
    unity.insert_file(segs(&["Assets", "ok.txt.meta"]), Vec::new());
    let mut staging = Tree::new();
    let (ok, msg) = copy_zip_to_unity(&bytes, &mut staging, &mut unity);
    assert!(ok);
    assert_eq!(msg, "processed successfully\n");
    assert!(!unity.contains_file(&segs(&["evil.txt"])));
    assert!(!unity.contains_file(&segs(&["..", "..", "evil.txt"])));
    assert_eq!(unity.file_content(&segs(&["Assets", "ok.txt"])), Some(&b"fine".to_vec()));
}

#[test]
fn scenario_target_without_assets_fails_before_merge() {
    let bytes = make_zip(&[("Assets/", None), ("Assets/a.txt", Some(b"x"))]);
    let mut unity = Tree::new();
    unity.insert_file(segs(&["ProjectSettings", "v.txt"]), b"keep".to_vec());
    let mut staging = Tree::new();
    let (ok, msg) = copy_zip_to_unity(&bytes, &mut staging, &mut unity);
    assert!(!ok);
    assert_eq!(msg, "the Unity folder has no Assets folder");
    assert!(!unity.contains_file(&segs(&["Assets", "a.txt"])));
    assert_eq!(
        unity.file_content(&segs(&["ProjectSettings", "v.txt"])),
        Some(&b"keep".to_vec())
    );
}

#[test]
fn extensionless_file_is_marker_checked_like_any_other() {
    let bytes = make_zip(&[
        ("Assets/README", Some(b"sanctioned")),
        ("Assets/LICENSE", Some(b"unsanctioned")),
    ]);
    let mut unity = Tree::new();
    unity.insert_file(segs(&["Assets", "README.meta"]), Vec::new());
    let mut staging = Tree::new();
    let (ok, msg) = copy_zip_to_unity(&bytes, &mut staging, &mut unity);
    assert!(ok);
    assert_eq!(unity.file_content(&segs(&["Assets", "README"])), Some(&b"sanctioned".to_vec()));
    assert!(!unity.contains_file(&segs(&["Assets", "LICENSE"])));
    let expected = "processed successfully\n\n====================================\nexcluded because they have no meta file:\nAssets/LICENSE\n";
    assert_eq!(msg, expected);
}

#[test]
fn garbage_bytes_fail_to_open() {
    let bytes = vec![1u8, 2, 3, 4, 5];
    let mut unity = Tree::new();
    let mut staging = Tree::new();
    let (ok, msg) = copy_zip_to_unity(&bytes, &mut staging, &mut unity);
    assert!(!ok);
    assert!(msg.starts_with("failed to open the zip archive: "));
    assert!(matches!(open_archive(bytes), Err(ArchiveError::OpenFailed(_))));
}

#[test]
fn corrupt_entry_fails_the_read() {
    let big: Vec<u8> = (0..10000u32).map(|i| (i % 17) as u8).collect();
    let mut bytes = make_zip(&[("Assets/data.bin", Some(&big))]);
    // Flip bytes inside the entry's data, leaving the central directory at
    // the end of the file intact: the archive still opens, the entry does
    // not decode.
    for b in bytes.iter_mut().take(80).skip(50) {
        *b ^= 0xFF;
    }
    let mut unity = Tree::new();
    unity.insert_file(segs(&["Assets", "data.bin.meta"]), Vec::new());
    let mut staging = Tree::new();
    let (ok, msg) = copy_zip_to_unity(&bytes, &mut staging, &mut unity);
    assert!(!ok);
    assert!(msg.starts_with("failed to read the zip archive: "));
    assert!(!unity.contains_file(&segs(&["Assets", "data.bin"])));
}

#[test]
fn extract_zip_decompresses_round_trip() {
    let big: Vec<u8> = (0..10000u32).map(|i| (i % 251) as u8).collect();
    let bytes = make_zip(&[("Assets/data.bin", Some(&big))]);
    let mut archive = open_archive(bytes).unwrap();
    let mut staging = Tree::new();
    let excluded = extract_zip(&mut archive, &mut staging, None).unwrap();
    assert!(excluded.is_empty());
    assert_eq!(staging.file_content(&segs(&["Assets", "data.bin"])), Some(&big));
}

#[test]
fn extract_zip_filters_against_reference() {
    let bytes = make_zip(&[
        ("Assets/a.txt", Some(b"a")),
        ("Assets/b.txt", Some(b"b")),
        ("Assets/c.meta", Some(b"guid")),
    ]);
    let mut archive = open_archive(bytes).unwrap();
    let mut reference = Tree::new();
    reference.insert_file(segs(&["Assets", "a.txt.meta"]), Vec::new());
    let mut staging = Tree::new();
    let excluded = extract_zip(&mut archive, &mut staging, Some(&reference)).unwrap();
    assert_eq!(excluded, vec!["Assets/b.txt".to_string()]);
    assert!(staging.contains_file(&segs(&["Assets", "a.txt"])));
    assert!(!staging.contains_file(&segs(&["Assets", "b.txt"])));
    assert!(!staging.contains_file(&segs(&["Assets", "c.meta"])));
}

#[test]
fn success_cleans_staging_workspace() {
    let bytes = make_zip(&[("Assets/a.txt", Some(b"a"))]);
    let mut unity = Tree::new();
    unity.insert_file(segs(&["Assets", "a.txt.meta"]), Vec::new());
    let mut staging = Tree::new();
    staging.insert_file(segs(&["leftover.txt"]), b"junk".to_vec());
    let (ok, _) = copy_zip_to_unity(&bytes, &mut staging, &mut unity);
    assert!(ok);
    assert!(!staging.contains_file(&segs(&["leftover.txt"])));
    assert!(!staging.contains_file(&segs(&["Assets", "a.txt"])));
}

#[test]
fn failure_leaves_staging_for_inspection() {
    let bytes = make_zip(&[("Other/a.txt", Some(b"x")), ("Other/a.txt.meta", Some(b"m"))]);
    let mut unity = Tree::new();
    unity.insert_file(segs(&["Other", "a.txt.meta"]), Vec::new());
    unity.insert_file(segs(&["Assets", "k.txt"]), b"k".to_vec());
    let mut staging = Tree::new();
    let (ok, _) = copy_zip_to_unity(&bytes, &mut staging, &mut unity);
    assert!(!ok);
    assert!(staging.contains_file(&segs(&["Other", "a.txt"])));
}

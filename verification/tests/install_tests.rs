use std::collections::HashMap;
use std::io::Write;

use mod_updater::install::{
    find_common_root, mod_folder_name, plan_install, read_zip_entries, split_path, PlannedItem,
    ZipEntry,
};

fn zip_bytes(files: &[(&str, &[u8])], dirs: &[&str]) -> Vec<u8> {
    let mut w = zip::ZipWriter::new(std::io::Cursor::new(Vec::new()));
    let options = zip::write::SimpleFileOptions::default();
    for d in dirs {
        w.add_directory(*d, options).unwrap();
    }
    for (name, data) in files {
        w.start_file(*name, options).unwrap();
        w.write_all(data).unwrap();
    }
    w.finish().unwrap().into_inner()
}

fn entry(path: &str, is_dir: bool, data: &[u8]) -> ZipEntry {
    ZipEntry { path: String::from(path), is_dir, data: data.to_vec() }
}

fn segments(item: &PlannedItem) -> Vec<String> {
    match item {
        PlannedItem::Skip => panic!("expected an action, found a skip"),
        PlannedItem::MakeDir(segs) => segs.clone(),
        PlannedItem::WriteFile(segs, _) => segs.clone(),
    }
}

#[test]
fn zip_reader_hands_back_paths_and_bytes() {
    let bytes = zip_bytes(&[("Pkg/a.txt", b"hello"), ("Pkg/sub/b.txt", b"world")], &[]);
    let entries = read_zip_entries(&bytes).expect("a well-formed archive");
    assert_eq!(entries.len(), 2);
    assert_eq!(entries[0].path, "Pkg/a.txt");
    assert!(!entries[0].is_dir);
    assert_eq!(entries[0].data, b"hello".to_vec());
    assert_eq!(entries[1].path, "Pkg/sub/b.txt");
    assert_eq!(entries[1].data, b"world".to_vec());
}

#[test]
fn garbage_is_not_an_archive() {
    let bytes = vec![1u8, 2, 3, 4, 5];
    assert!(read_zip_entries(&bytes).is_err());
}

#[test]
fn shared_wrapper_directory_is_stripped() {
    // every entry under "Pkg/": the plan drops "Pkg" from every path
    let bytes = zip_bytes(&[("Pkg/a.txt", b"A"), ("Pkg/sub/b.txt", b"B")], &["Pkg/sub"]);
    let entries = read_zip_entries(&bytes).unwrap();
    let root = find_common_root(&entries).expect("all entries share a first segment");
    assert_eq!(root, "Pkg");
    let plan = plan_install(&entries).expect("nothing escapes the target");
    assert_eq!(plan.len(), entries.len());
    let mut seen: Vec<Vec<String>> = Vec::new();
    for item in plan.iter() {
        match item {
            PlannedItem::Skip => {}
            other => seen.push(segments(other)),
        }
    }
    assert!(seen.contains(&vec![String::from("sub")]));
    assert!(seen.contains(&vec![String::from("a.txt")]));
    assert!(seen.contains(&vec![String::from("sub"), String::from("b.txt")]));
}

#[test]
fn mixed_top_level_entries_keep_their_paths() {
    // entries under different first segments: no stripping at all
    let bytes = zip_bytes(&[("A/x", b"X"), ("B/y", b"Y")], &[]);
    let entries = read_zip_entries(&bytes).unwrap();
    assert!(find_common_root(&entries).is_none());
    let plan = plan_install(&entries).unwrap();
    let mut seen: Vec<Vec<String>> = Vec::new();
    for item in plan.iter() {
        match item {
            PlannedItem::Skip => {}
            other => seen.push(segments(other)),
        }
    }
    assert!(seen.contains(&vec![String::from("A"), String::from("x")]));
    assert!(seen.contains(&vec![String::from("B"), String::from("y")]));
}

#[test]
fn wrapper_directory_entry_itself_is_skipped() {
    let entries = vec![entry("Pkg", true, b""), entry("Pkg/a", false, b"A")];
    let plan = plan_install(&entries).unwrap();
    assert!(matches!(plan[0], PlannedItem::Skip));
    match &plan[1] {
        PlannedItem::WriteFile(segs, data) => {
            assert_eq!(segs, &vec![String::from("a")]);
            assert_eq!(data, &b"A".to_vec());
        }
        _ => panic!("expected the file to be written"),
    }
}

#[test]
fn traversal_entries_are_rejected() {
    let entries = vec![entry("ok/x", false, b"X"), entry("ok/../evil", false, b"E")];
    let err = plan_install(&entries).expect_err("a traversal segment must be rejected");
    assert_eq!(err.path, "ok/../evil");
}

#[test]
fn absolute_paths_are_rejected() {
    let entries = vec![entry("/etc/passwd", false, b"E"), entry("other", false, b"O")];
    assert!(plan_install(&entries).is_err());
}

#[test]
fn file_resolving_to_target_is_rejected() {
    // a lone file whose whole path is the wrapper segment would land on
    // the target directory itself
    let entries = vec![entry("readme", false, b"R")];
    assert!(plan_install(&entries).is_err());
}

#[test]
fn empty_entry_paths_are_skipped() {
    let entries = vec![entry("", false, b"none"), entry("A/x", false, b"X"), entry("B/y", false, b"Y")];
    let plan = plan_install(&entries).unwrap();
    assert!(matches!(plan[0], PlannedItem::Skip));
}

fn apply(plan: &Vec<PlannedItem>) -> HashMap<Vec<String>, Option<Vec<u8>>> {
    // a fresh map models the cleared target directory
    let mut tree: HashMap<Vec<String>, Option<Vec<u8>>> = HashMap::new();
    for item in plan.iter() {
        match item {
            PlannedItem::Skip => {}
            PlannedItem::MakeDir(segs) => {
                tree.insert(segs.clone(), None);
            }
            PlannedItem::WriteFile(segs, data) => {
                tree.insert(segs.clone(), Some(data.clone()));
            }
        }
    }
    tree
}

#[test]
fn installing_twice_yields_an_identical_tree() {
    let bytes = zip_bytes(&[("Pkg/a.txt", b"A"), ("Pkg/sub/b.txt", b"B")], &["Pkg/sub"]);
    let entries = read_zip_entries(&bytes).unwrap();
    let first = plan_install(&entries).unwrap();
    let second = plan_install(&entries).unwrap();
    let tree_once = apply(&first);
    // the second install starts from a cleared target, whatever the
    // first left behind
    let tree_twice = apply(&second);
    assert_eq!(tree_once, tree_twice);
}

#[test]
fn split_path_cuts_on_slashes() {
    assert_eq!(split_path(&String::from("a/b/c")), vec![
        String::from("a"),
        String::from("b"),
        String::from("c"),
    ]);
    assert_eq!(split_path(&String::from("plain")), vec![String::from("plain")]);
    assert_eq!(split_path(&String::from("")), vec![String::from("")]);
    assert_eq!(split_path(&String::from("a//b")), vec![
        String::from("a"),
        String::from(""),
        String::from("b"),
    ]);
}

#[test]
fn mod_folder_name_prefixes_an_at_sign() {
    assert_eq!(mod_folder_name(&String::from("forge_client")), "@forge_client");
}

use rust_folder_analysis::analysis::total_folder_size;
use rust_folder_analysis::grouping::{extension_counts, largest_folders, GroupTotal};
use rust_folder_analysis::entry::{
    construct_entry, index_folder, split_name, wants_content_hash, ConstructionError, EntryMetadata,
    RawEntry,
};
use rust_folder_analysis::path_data::{PathData, Timestamp};
use rust_folder_analysis::table::build_table;
use rust_folder_analysis::walk::Walk;

fn file(folder: &str, name: &str, len: u64) -> RawEntry {
    RawEntry {
        path: format!("{}/{}", folder, name),
        name: Some(name.to_string()),
        is_dir: false,
        metadata: Some(EntryMetadata {
            len,
            created: Some(Timestamp { secs: 1_700_000_000, nanos: 5 }),
            modified: Some(Timestamp { secs: 1_700_000_100, nanos: 7 }),
        }),
        content_hash: Some(format!("hash-of-{}", name)),
    }
}

fn dir(folder: &str, name: &str) -> RawEntry {
    RawEntry {
        path: format!("{}/{}", folder, name),
        name: Some(name.to_string()),
        is_dir: true,
        metadata: Some(EntryMetadata { len: 4096, created: None, modified: None }),
        content_hash: None,
    }
}

/// Walks an in-memory tree given as listings, one per folder, round by
/// round; `reverse` merges the folders of each round in reverse order.
fn walk(root: &str, listings: &[(String, Vec<RawEntry>)], metadata: bool, reverse: bool) -> Vec<PathData> {
    let mut w = Walk::new(root);
    while !w.is_finished() {
        let mut batch = w.take_round();
        if reverse {
            batch.reverse();
        }
        for folder in batch {
            if let Some((_, entries)) = listings.iter().find(|(f, _)| *f == folder) {
                let found = index_folder(&folder, entries, metadata, false);
                w.merge(found);
            }
        }
    }
    w.into_records()
}

fn fixture() -> Vec<(String, Vec<RawEntry>)> {
    vec![
        ("root".to_string(), vec![file("root", "a.txt", 100), dir("root", "sub")]),
        ("root/sub".to_string(), vec![file("root/sub", "b.txt", 50)]),
    ]
}

fn larger_fixture() -> Vec<(String, Vec<RawEntry>)> {
    vec![
        (
            "r".to_string(),
            vec![file("r", "one.rs", 10), dir("r", "x"), dir("r", "y"), file("r", "two.md", 20)],
        ),
        ("r/x".to_string(), vec![file("r/x", "three.rs", 30), dir("r/x", "z")]),
        ("r/y".to_string(), vec![file("r/y", "four", 40)]),
        ("r/x/z".to_string(), vec![file("r/x/z", "five.rs", 50), file("r/x/z", "six.txt", 60)]),
    ]
}

fn find<'a>(groups: &'a [GroupTotal], key: Option<&str>) -> Option<&'a GroupTotal> {
    groups.iter().find(|g| g.key.as_deref() == key)
}

#[test]
fn walk_returns_every_file_and_folder() {
    // Six files and three folders below the root.
    let records = walk("r", &larger_fixture(), true, false);
    assert_eq!(records.len(), 9);
    assert_eq!(records.iter().filter(|r| r.is_folder).count(), 3);
    assert_eq!(records.iter().filter(|r| !r.is_folder).count(), 6);
}

#[test]
fn walk_records_rounds_in_order() {
    let records = walk("r", &larger_fixture(), true, false);
    let paths: Vec<&str> = records.iter().map(|r| r.path.as_str()).collect();
    assert_eq!(
        paths,
        vec!["r/one.rs", "r/x", "r/y", "r/two.md", "r/x/three.rs", "r/x/z", "r/y/four", "r/x/z/five.rs", "r/x/z/six.txt"]
    );
    assert_eq!(records[4].parent, "r/x");
}

#[test]
fn total_size_ignores_folder_order() {
    let forward = build_table(&walk("r", &larger_fixture(), true, false));
    let backward = build_table(&walk("r", &larger_fixture(), true, true));
    assert_eq!(total_folder_size(&forward), 210);
    assert_eq!(total_folder_size(&backward), 210);
}

#[test]
fn scenario_two_files_in_two_folders() {
    let records = walk("root", &fixture(), true, false);
    let t = build_table(&records);
    assert_eq!(total_folder_size(&t), 150);

    let folders = largest_folders(&t);
    assert_eq!(folders.len(), 2);
    assert_eq!(folders[0].key.as_deref(), Some("root"));
    assert_eq!(folders[0].total, 100);
    assert_eq!(folders[1].key.as_deref(), Some("root/sub"));
    assert_eq!(folders[1].total, 50);

    // The folder `sub` has no extension and is counted in a group of its own.
    let counts = extension_counts(&t);
    assert_eq!(find(&counts, Some("txt")).unwrap().total, 2);
    assert_eq!(find(&counts, None).unwrap().total, 1);
    assert_eq!(counts.len(), 2);
    assert_eq!(counts[0].key.as_deref(), Some("txt"));
}

#[test]
fn walk_without_metadata_has_no_sizes() {
    let records = walk("root", &fixture(), false, false);
    assert_eq!(records.len(), 3);
    assert!(records.iter().all(|r| r.size.is_none() && r.created.is_none() && r.modified.is_none()));
    assert_eq!(total_folder_size(&build_table(&records)), 0);
}

#[test]
fn unreadable_folder_is_skipped() {
    // `root/sub` has no listing: its subtree is not discovered.
    let listings = vec![("root".to_string(), vec![file("root", "a.txt", 100), dir("root", "sub")])];
    let records = walk("root", &listings, true, false);
    assert_eq!(records.len(), 2);
}

#[test]
fn split_name_follows_last_dot() {
    let cases: Vec<(&str, &str, Option<&str>)> = vec![
        ("a.txt", "a", Some("txt")),
        ("archive.tar.gz", "archive.tar", Some("gz")),
        ("noext", "noext", None),
        (".bashrc", ".bashrc", None),
        (".config.toml", ".config", Some("toml")),
        ("trailing.", "trailing", Some("")),
        ("..", "..", None),
        ("", "", None),
        ("résumé.pdf", "résumé", Some("pdf")),
    ];
    for (name, stem, ext) in cases {
        let (s, e) = split_name(name);
        assert_eq!(s, stem, "stem of {}", name);
        assert_eq!(e.as_deref(), ext, "extension of {}", name);
    }
}

#[test]
fn construct_entry_of_a_file() {
    let p = construct_entry("root", &file("root", "a.txt", 100), true, true).unwrap();
    assert_eq!(p.path, "root/a.txt");
    assert_eq!(p.parent, "root");
    assert_eq!(p.name, "a.txt");
    assert_eq!(p.stem.as_deref(), Some("a"));
    assert_eq!(p.extension.as_deref(), Some("txt"));
    assert_eq!(p.size, Some(100));
    assert_eq!(p.created, Some(Timestamp { secs: 1_700_000_000, nanos: 5 }));
    assert_eq!(p.modified, Some(Timestamp { secs: 1_700_000_100, nanos: 7 }));
    assert!(!p.is_folder);
    assert_eq!(p.hash.as_deref(), Some("hash-of-a.txt"));
}

#[test]
fn construct_entry_of_a_folder() {
    let mut d = dir("root", "pkg.d");
    d.content_hash = Some("ignored".to_string());
    d.metadata = Some(EntryMetadata { len: 4096, created: Some(Timestamp { secs: 3, nanos: 0 }), modified: None });
    let p = construct_entry("root", &d, true, true).unwrap();
    assert!(p.is_folder);
    assert_eq!(p.name, "pkg.d");
    assert_eq!(p.stem, None);
    assert_eq!(p.extension, None);
    assert_eq!(p.size, None);
    assert_eq!(p.hash, None);
    assert_eq!(p.created, Some(Timestamp { secs: 3, nanos: 0 }));
}

#[test]
fn construct_entry_degrades_missing_metadata() {
    let mut f = file("root", "a.txt", 100);
    f.metadata = None;
    f.content_hash = None;
    let p = construct_entry("root", &f, true, true).unwrap();
    assert_eq!(p.size, None);
    assert_eq!(p.created, None);
    assert_eq!(p.hash, None);
    let q = construct_entry("root", &file("root", "a.txt", 100), false, false).unwrap();
    assert_eq!(q.size, None);
    assert_eq!(q.modified, None);
    assert_eq!(q.hash, None);
}

#[test]
fn construct_entry_rejects_undecodable_name() {
    let mut f = file("root", "a.txt", 100);
    f.name = None;
    assert_eq!(construct_entry("root", &f, true, true).unwrap_err(), ConstructionError::UndecodableName);
    let found = index_folder("root", &vec![f, file("root", "b.txt", 1)], true, false);
    assert_eq!(found.len(), 1);
    assert_eq!(found[0].name, "b.txt");
}

#[test]
fn only_files_are_hashed() {
    assert!(wants_content_hash(false, true));
    assert!(!wants_content_hash(true, true));
    assert!(!wants_content_hash(false, false));
}

#[test]
fn path_data_new_keeps_fields() {
    let p = PathData::new(
        "/a/b.rs".to_string(),
        "/a".to_string(),
        "b.rs".to_string(),
        Some("b".to_string()),
        Some(12),
        Some("rs".to_string()),
        None,
        Some(Timestamp { secs: 9, nanos: 1 }),
        false,
        None,
    );
    assert_eq!(p.path, "/a/b.rs");
    assert_eq!(p.parent, "/a");
    assert_eq!(p.name, "b.rs");
    assert_eq!(p.stem.as_deref(), Some("b"));
    assert_eq!(p.size, Some(12));
    assert_eq!(p.extension.as_deref(), Some("rs"));
    assert_eq!(p.created, None);
    assert_eq!(p.modified, Some(Timestamp { secs: 9, nanos: 1 }));
    assert!(!p.is_folder);
    assert_eq!(p.hash, None);
}

#[test]
fn empty_root_gives_no_records() {
    let listings = vec![("root".to_string(), vec![])];
    assert!(walk("root", &listings, true, false).is_empty());
}

#[test]
fn walk_rounds_drain_and_refill_the_frontier() {
    let mut w = Walk::new("root");
    assert!(!w.is_finished());
    let first = w.take_round();
    assert_eq!(first, vec!["root".to_string()]);
    assert!(w.is_finished());
    w.merge(index_folder("root", &fixture()[0].1, true, false));
    assert_eq!(w.record_count(), 2);
    assert!(!w.is_finished());
    assert_eq!(w.take_round(), vec!["root/sub".to_string()]);
    w.merge(index_folder("root/sub", &fixture()[1].1, true, false));
    assert!(w.is_finished());
    let records = w.into_records();
    assert_eq!(records.len(), 3);
    assert_eq!(records[2].parent, "root/sub");
}

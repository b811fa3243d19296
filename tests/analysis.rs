use rust_folder_analysis::analysis::{top_n_file_sizes, total_folder_size};
use rust_folder_analysis::grouping::{
    extension_counts, file_size_per_extension, group_rows, largest_folders, GroupBy,
};
use rust_folder_analysis::hashing::{hash_iterable, overall_hash, ContentHasher};
use rust_folder_analysis::path_data::{PathData, Timestamp};
use rust_folder_analysis::report::{analysis_enabled, run_analysis, TOP_N};
use rust_folder_analysis::table::{build_table, Table, TableError};

fn rec(parent: &str, name: &str, ext: Option<&str>, size: Option<u64>, is_folder: bool) -> PathData {
    PathData::new(
        format!("{}/{}", parent, name),
        parent.to_string(),
        name.to_string(),
        if is_folder { None } else { Some(name.to_string()) },
        size,
        ext.map(|e| e.to_string()),
        Some(Timestamp { secs: 100, nanos: 999_999_999 }),
        None,
        is_folder,
        if is_folder { None } else { Some(format!("h{}", name)) },
    )
}

fn sample() -> Vec<PathData> {
    vec![
        rec("/d", "a", Some("txt"), Some(5), false),
        rec("/d", "sub", None, None, true),
        rec("/d", "b", Some("rs"), Some(30), false),
        rec("/d/sub", "c", Some("txt"), Some(30), false),
        rec("/d/sub", "e", None, Some(7), false),
        rec("/d/sub", "f", Some("rs"), Some(1), false),
        rec("/d/sub", "g", Some("txt"), None, false),
    ]
}

const SHA256_ABC: &str = "ba7816bf8f01cfea414140de5dae2223b00361a396177a9cb410ff61f20015ad";
const SHA256_EMPTY: &str = "e3b0c44298fc1c149afbf4c8996fb92427ae41e4649b934ca495991b7852b855";

#[test]
fn build_table_keeps_rows_aligned() {
    let t = build_table(&sample());
    assert_eq!(t.len(), 7);
    assert_eq!(t.path_column()[3], "/d/sub/c");
    assert_eq!(t.parent_column()[3], "/d/sub");
    assert_eq!(t.name_column()[3], "c");
    assert_eq!(t.stem_column()[1], None);
    assert_eq!(t.size_column()[3], Some(30));
    assert_eq!(t.extension_column()[2].as_deref(), Some("rs"));
    // Timestamps are cut down to whole seconds.
    assert_eq!(t.created_column()[0], Some(100));
    assert_eq!(t.modified_column()[0], None);
    assert_eq!(t.is_folder_column()[1], true);
    assert_eq!(t.hash_column()[6].as_deref(), Some("hg"));
}

#[test]
fn columns_round_trip() {
    let t = build_table(&sample());
    let u = Table::from_columns(
        t.path_column().clone(),
        t.parent_column().clone(),
        t.name_column().clone(),
        t.stem_column().clone(),
        t.size_column().clone(),
        t.extension_column().clone(),
        t.created_column().clone(),
        t.modified_column().clone(),
        t.is_folder_column().clone(),
        t.hash_column().clone(),
    )
    .unwrap();
    assert_eq!(u.len(), t.len());
    assert_eq!(u.path_column(), t.path_column());
    assert_eq!(u.parent_column(), t.parent_column());
    assert_eq!(u.name_column(), t.name_column());
    assert_eq!(u.stem_column(), t.stem_column());
    assert_eq!(u.size_column(), t.size_column());
    assert_eq!(u.extension_column(), t.extension_column());
    assert_eq!(u.created_column(), t.created_column());
    assert_eq!(u.modified_column(), t.modified_column());
    assert_eq!(u.is_folder_column(), t.is_folder_column());
    assert_eq!(u.hash_column(), t.hash_column());
}

#[test]
fn from_columns_rejects_uneven_columns() {
    let r = Table::from_columns(
        vec!["a".to_string()],
        vec!["p".to_string()],
        vec!["a".to_string()],
        vec![None],
        vec![Some(1), Some(2)],
        vec![None],
        vec![None],
        vec![None],
        vec![false],
        vec![None],
    );
    assert_eq!(r.unwrap_err(), TableError::ColumnLengthMismatch);
}

#[test]
fn total_size_sums_present_sizes() {
    assert_eq!(total_folder_size(&build_table(&sample())), 73);
    assert_eq!(total_folder_size(&build_table(&vec![])), 0);
    let big = vec![
        rec("/", "x", None, Some(u64::MAX), false),
        rec("/", "y", None, Some(u64::MAX), false),
    ];
    assert_eq!(total_folder_size(&build_table(&big)), 2 * (u64::MAX as u128));
}

#[test]
fn top_n_lists_largest_first() {
    let t = build_table(&sample());
    let top = top_n_file_sizes(&t, 3);
    assert_eq!(top.len(), 3);
    let sizes: Vec<u64> = top.iter().map(|f| f.size).collect();
    assert_eq!(sizes, vec![30, 30, 7]);
    // Equal sizes keep row order.
    assert_eq!(top[0].path, "/d/b");
    assert_eq!(top[0].extension.as_deref(), Some("rs"));
    assert_eq!(top[1].path, "/d/sub/c");
    assert_eq!(top[2].name, "e");
    assert_eq!(top[2].extension, None);
}

#[test]
fn top_n_is_bounded_by_file_rows() {
    let t = build_table(&sample());
    let top = top_n_file_sizes(&t, 100);
    assert_eq!(top.len(), 5);
    for w in top.windows(2) {
        assert!(w[0].size >= w[1].size);
    }
    assert!(top.iter().all(|f| f.path != "/d/sub" && f.path != "/d/sub/g"));
    assert_eq!(top_n_file_sizes(&t, 0).len(), 0);
}

#[test]
fn sizes_per_extension() {
    let t = build_table(&sample());
    let g = file_size_per_extension(&t);
    let got: Vec<(Option<&str>, u128)> = g.iter().map(|x| (x.key.as_deref(), x.total)).collect();
    assert_eq!(got, vec![(Some("txt"), 35), (Some("rs"), 31), (None, 7)]);
    let sum: u128 = g.iter().map(|x| x.total).sum();
    assert_eq!(sum, total_folder_size(&t));
}

#[test]
fn counts_per_extension_cover_all_rows() {
    let t = build_table(&sample());
    let g = extension_counts(&t);
    let got: Vec<(Option<&str>, u128)> = g.iter().map(|x| (x.key.as_deref(), x.total)).collect();
    assert_eq!(got, vec![(Some("txt"), 3), (None, 2), (Some("rs"), 2)]);
    let sum: u128 = g.iter().map(|x| x.total).sum();
    assert_eq!(sum, t.len() as u128);
}

#[test]
fn sizes_per_parent_folder() {
    let t = build_table(&sample());
    let g = largest_folders(&t);
    let got: Vec<(Option<&str>, u128)> = g.iter().map(|x| (x.key.as_deref(), x.total)).collect();
    assert_eq!(got, vec![(Some("/d"), 35), (Some("/d/sub"), 38)].into_iter().rev().collect::<Vec<_>>());
    assert_eq!(group_rows(&t, GroupBy::ParentSize).len(), 2);
}

#[test]
fn empty_table_has_no_groups() {
    let t = build_table(&vec![]);
    assert!(extension_counts(&t).is_empty());
    assert!(file_size_per_extension(&t).is_empty());
    assert!(largest_folders(&t).is_empty());
    assert!(top_n_file_sizes(&t, 5).is_empty());
}

#[test]
fn hash_of_known_input() {
    assert_eq!(hash_iterable(&["abc".to_string()]).unwrap(), SHA256_ABC);
    assert_eq!(hash_iterable(&[]).unwrap(), SHA256_EMPTY);
    let split = hash_iterable(&["a".to_string(), "".to_string(), "bc".to_string()]).unwrap();
    assert_eq!(split, SHA256_ABC);
}

#[test]
fn hashing_is_deterministic() {
    let items = vec!["first".to_string(), "second".to_string()];
    assert_eq!(hash_iterable(&items).unwrap(), hash_iterable(&items).unwrap());
    let mut h1 = ContentHasher::new();
    h1.update(b"same bytes");
    let mut h2 = ContentHasher::new();
    h2.update(b"same bytes");
    assert_eq!(h1.finish_hex().unwrap(), h2.finish_hex().unwrap());
}

#[test]
fn hashing_depends_on_order() {
    // Permuted inputs are not required to give the same digest, and here do not.
    let a = hash_iterable(&["ab".to_string(), "cd".to_string()]).unwrap();
    let b = hash_iterable(&["cd".to_string(), "ab".to_string()]).unwrap();
    assert_ne!(a, b);
}

#[test]
fn streaming_in_chunks_matches_one_piece() {
    let data: Vec<u8> = (0..5000u32).map(|i| (i % 251) as u8).collect();
    let mut whole = ContentHasher::new();
    whole.update(&data);
    let mut chunked = ContentHasher::new();
    for c in data.chunks(1024) {
        chunked.update(c);
    }
    let w = whole.finish_hex().unwrap();
    assert_eq!(w.len(), 64);
    assert_eq!(w, chunked.finish_hex().unwrap());
    let mut abc = ContentHasher::new();
    abc.update(b"ab");
    abc.update(b"c");
    assert_eq!(abc.finish_hex().unwrap(), SHA256_ABC);
}

#[test]
fn overall_hash_folds_present_hashes() {
    let t = build_table(&sample());
    let expected = hash_iterable(&["ha", "hb", "hc", "he", "hf", "hg"].map(|s| s.to_string())).unwrap();
    assert_eq!(overall_hash(&t).unwrap(), expected);
}

#[test]
fn run_analysis_gathers_every_query() {
    let t = build_table(&sample());
    let r = run_analysis(&t, true);
    assert_eq!(r.total_size, 73);
    assert_eq!(r.top_files.len(), 5);
    assert_eq!(r.size_per_extension.len(), 3);
    assert_eq!(r.extension_counts.len(), 3);
    assert_eq!(r.largest_folders.len(), 2);
    assert_eq!(r.tree_hash.unwrap().unwrap(), overall_hash(&t).unwrap());
    assert!(run_analysis(&t, false).tree_hash.is_none());
    assert_eq!(TOP_N, 100);
}

#[test]
fn analysis_needs_metadata() {
    assert!(analysis_enabled(true, true));
    assert!(!analysis_enabled(true, false));
    assert!(!analysis_enabled(false, true));
}

use vstd::prelude::*;

use crate::analysis::{size_sum, top_n_file_sizes, top_selection, total_folder_size, FileSize};
use crate::grouping::{
    extension_counts, file_size_per_extension, grouped, largest_folders, GroupBy, GroupTotal,
};
use crate::hashing::{digest_hex, digestible, overall_hash, present_hashes, utf8_concat, HashError};
use crate::table::Table;

verus! {

/// How many of the largest files an analysis lists.
pub const TOP_N: u32 = 100;

/// The results of every query of an analysis.
#[derive(Debug)]
pub struct AnalysisReport {
    pub total_size: u128,
    pub top_files: Vec<FileSize>,
    pub size_per_extension: Vec<GroupTotal>,
    pub extension_counts: Vec<GroupTotal>,
    pub largest_folders: Vec<GroupTotal>,
    pub tree_hash: Option<Result<String, HashError>>,
}

/// Whether an analysis runs: only when it is asked for and metadata, which
/// it needs, was collected.
pub fn analysis_enabled(requested: bool, get_metadata: bool) -> (r: bool)
    ensures
        r == (requested && get_metadata),
{
    requested && get_metadata
}

/// Runs every query over `t`: the total size, the `TOP_N` largest files,
/// sizes and counts per extension, sizes per parent folder, and, when
/// `get_hash` holds, the digest over the hash column.
pub fn run_analysis(t: &Table, get_hash: bool) -> (r: AnalysisReport)
    ensures
        r.total_size == size_sum(t@),
        exists|idx: Seq<int>| top_selection(t@, TOP_N as int, r.top_files@, idx),
        grouped(t@, GroupBy::ExtensionSize, r.size_per_extension@),
        grouped(t@, GroupBy::ExtensionCount, r.extension_counts@),
        grouped(t@, GroupBy::ParentSize, r.largest_folders@),
        match r.tree_hash {
            None => !get_hash,
            Some(Ok(s)) => get_hash && digestible(utf8_concat(present_hashes(t@)).len() as int)
                && s@ == digest_hex(present_hashes(t@)),
            Some(Err(e)) => get_hash && !digestible(utf8_concat(present_hashes(t@)).len() as int)
                && e == HashError::InputTooLong,
        },
{
    let tree_hash = if get_hash {
        Some(overall_hash(t))
    } else {
        None
    };
    let top_files = top_n_file_sizes(t, TOP_N);
    let ghost idx = choose|idx: Seq<int>| top_selection(t@, TOP_N as int, top_files@, idx);
    let r = AnalysisReport {
        total_size: total_folder_size(t),
        top_files,
        size_per_extension: file_size_per_extension(t),
        extension_counts: extension_counts(t),
        largest_folders: largest_folders(t),
        tree_hash,
    };
    assert(top_selection(t@, TOP_N as int, r.top_files@, idx));
    r
}

} // verus!

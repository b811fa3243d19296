use vstd::prelude::*;

use crate::path_data::{clone_opt_string, opt_chars, PathData, PathDataView, Timestamp};

verus! {

/// Metadata of one directory entry, as the file system reported it.
#[derive(Clone, Copy, PartialEq, Eq, Debug, Structural)]
pub struct EntryMetadata {
    pub len: u64,
    pub created: Option<Timestamp>,
    pub modified: Option<Timestamp>,
}

/// What a listing of a folder reports of one child, before a record is built.
///
/// `name` is `None` when the child's name is not valid text; `metadata` is
/// `None` when it could not be read; `content_hash` is `None` when the file's
/// bytes were not hashed or could not be read.
#[derive(Clone, Debug)]
pub struct RawEntry {
    pub path: String,
    pub name: Option<String>,
    pub is_dir: bool,
    pub metadata: Option<EntryMetadata>,
    pub content_hash: Option<String>,
}

/// Why a record could not be built for an entry.
#[derive(Clone, Copy, PartialEq, Eq, Debug, Structural)]
pub enum ConstructionError {
    /// The entry's name cannot be represented as text.
    UndecodableName,
}

/// Index of the last `.` in `s`, or -1 when there is none.
pub open spec fn last_dot(s: Seq<char>) -> int
    decreases s.len(),
{
    if s.len() == 0 {
        -1
    } else if s.last() == '.' {
        s.len() - 1
    } else {
        last_dot(s.drop_last())
    }
}

proof fn lemma_last_dot_bounds(s: Seq<char>)
    ensures
        -1 <= last_dot(s) < s.len(),
    decreases s.len(),
{
    if s.len() > 0 && s.last() != '.' {
        lemma_last_dot_bounds(s.drop_last());
    }
}

/// The name `..`, which is never split.
pub open spec fn is_parent_marker(s: Seq<char>) -> bool {
    s == seq!['.', '.']
}

/// Whether `name` splits into a stem and an extension at its last dot: it
/// holds a dot that is not its first character, and it is not `..`.
pub open spec fn has_extension(name: Seq<char>) -> bool {
    !is_parent_marker(name) && last_dot(name) > 0
}

/// The name without its extension.
pub open spec fn stem_of(name: Seq<char>) -> Seq<char> {
    if has_extension(name) {
        name.subrange(0, last_dot(name))
    } else {
        name
    }
}

/// What follows the last dot of the name, if the name has an extension.
pub open spec fn extension_of(name: Seq<char>) -> Option<Seq<char>> {
    if has_extension(name) {
        Some(name.subrange(last_dot(name) + 1, name.len() as int))
    } else {
        None
    }
}

/// The record that a listing of `parent` yields for `e`, if any.
pub open spec fn entry_record(
    parent: Seq<char>,
    e: RawEntry,
    get_metadata: bool,
    get_hash: bool,
) -> Option<PathDataView> {
    match e.name {
        None => None,
        Some(n) => {
            let meta = if get_metadata {
                e.metadata
            } else {
                None
            };
            Some(
                PathDataView {
                    path: e.path@,
                    parent,
                    name: n@,
                    stem: if e.is_dir {
                        None
                    } else {
                        Some(stem_of(n@))
                    },
                    size: match meta {
                        Some(m) if !e.is_dir => Some(m.len),
                        _ => None,
                    },
                    extension: if e.is_dir {
                        None
                    } else {
                        extension_of(n@)
                    },
                    created: match meta {
                        Some(m) => m.created,
                        None => None,
                    },
                    modified: match meta {
                        Some(m) => m.modified,
                        None => None,
                    },
                    is_folder: e.is_dir,
                    hash: if get_hash && !e.is_dir {
                        opt_chars(e.content_hash)
                    } else {
                        None
                    },
                },
            )
        },
    }
}

/// The records that a listing of `parent` yields, in listing order.
pub open spec fn listing_records(
    parent: Seq<char>,
    entries: Seq<RawEntry>,
    get_metadata: bool,
    get_hash: bool,
) -> Seq<PathDataView> {
    entries.filter_map(|e: RawEntry| entry_record(parent, e, get_metadata, get_hash))
}

/// The views of a sequence of records.
pub open spec fn record_views(records: Seq<PathData>) -> Seq<PathDataView> {
    records.map_values(|r: PathData| r@)
}

/// When every entry of a listing has a name that is text, the listing
/// yields exactly one record per entry, in order, a folder record exactly
/// for each folder entry: a listing of `n` files and `m` folders gives
/// `n + m` records, `m` of them folders.
pub proof fn lemma_listing_keeps_every_named_entry(
    parent: Seq<char>,
    entries: Seq<RawEntry>,
    get_metadata: bool,
    get_hash: bool,
)
    requires
        forall|i: int| 0 <= i < entries.len() ==> (#[trigger] entries[i]).name is Some,
    ensures
        listing_records(parent, entries, get_metadata, get_hash).len() == entries.len(),
        forall|i: int|
            0 <= i < entries.len() ==> {
                let r = #[trigger] listing_records(parent, entries, get_metadata, get_hash)[i];
                &&& r.is_folder == entries[i].is_dir
                &&& r.path == entries[i].path@
                &&& r.parent == parent
            },
    decreases entries.len(),
{
    if entries.len() > 0 {
        let rest = entries.drop_last();
        assert forall|i: int| 0 <= i < rest.len() implies (#[trigger] rest[i]).name is Some by {
            assert(rest[i] == entries[i]);
        }
        lemma_listing_keeps_every_named_entry(parent, rest, get_metadata, get_hash);
        let last = entries.last();
        assert(entries[entries.len() - 1] == last);
        let rec = entry_record(parent, last, get_metadata, get_hash);
        assert(rec is Some);
        let all = listing_records(parent, entries, get_metadata, get_hash);
        let before = listing_records(parent, rest, get_metadata, get_hash);
        assert(all == before + seq![rec.unwrap()]);
        assert forall|i: int| 0 <= i < entries.len() implies {
            let r = #[trigger] all[i];
            &&& r.is_folder == entries[i].is_dir
            &&& r.path == entries[i].path@
            &&& r.parent == parent
        } by {
            if i < rest.len() {
                assert(all[i] == before[i]);
                assert(rest[i] == entries[i]);
            }
        }
    }
}

/// Finds the last dot of a name.
fn find_last_dot(name: &str) -> (r: Option<usize>)
    ensures
        match r {
            Some(i) => i as int == last_dot(name@),
            None => last_dot(name@) == -1,
        },
{
    let n = name.unicode_len();
    let mut i: usize = n;
    assert(name@.subrange(0, n as int) == name@);
    while i > 0
        invariant
            i <= n,
            n == name@.len(),
            last_dot(name@) == last_dot(name@.subrange(0, i as int)),
        decreases i,
    {
        let ghost prefix = name@.subrange(0, i as int);
        assert(prefix.drop_last() == name@.subrange(0, i - 1));
        if name.get_char(i - 1) == '.' {
            return Some(i - 1);
        }
        i = i - 1;
    }
    assert(name@.subrange(0, 0).len() == 0);
    None
}

/// Splits a file name into its stem and its extension, as a path's
/// `file_stem` and `extension` do for its last component.
pub fn split_name(name: &str) -> (r: (String, Option<String>))
    ensures
        r.0@ == stem_of(name@),
        opt_chars(r.1) == extension_of(name@),
{
    let n = name.unicode_len();
    proof {
        lemma_last_dot_bounds(name@);
    }
    let dotdot = n == 2 && name.get_char(0) == '.' && name.get_char(1) == '.';
    assert(dotdot <==> is_parent_marker(name@)) by {
        if n == 2 && name@[0] == '.' && name@[1] == '.' {
            assert(name@ =~= seq!['.', '.']);
        }
    }
    match find_last_dot(name) {
        Some(d) if d > 0 && !dotdot => {
            let stem = name.substring_char(0, d).to_string();
            let ext = name.substring_char(d + 1, n).to_string();
            (stem, Some(ext))
        },
        _ => (name.to_string(), None),
    }
}

/// Builds the record for one child of the folder `parent`.
///
/// Fails only when the child's name is not text. Folders get no stem,
/// extension, size or hash. Size and timestamps come only when metadata is
/// asked for and was read; the hash only when hashing is asked for.
pub fn construct_entry(parent: &str, entry: &RawEntry, get_metadata: bool, get_hash: bool) -> (r:
    Result<PathData, ConstructionError>)
    ensures
        match r {
            Ok(p) => entry_record(parent@, *entry, get_metadata, get_hash) == Some(p@) && p@.wf(),
            Err(e) => entry_record(parent@, *entry, get_metadata, get_hash) is None && e
                == ConstructionError::UndecodableName,
        },
{
    let name = match &entry.name {
        Some(n) => n,
        None => {
            return Err(ConstructionError::UndecodableName);
        },
    };
    let is_folder = entry.is_dir;
    let (stem, extension) = if is_folder {
        (None, None)
    } else {
        let (s, e) = split_name(name.as_str());
        (Some(s), e)
    };
    let meta = if get_metadata {
        entry.metadata
    } else {
        None
    };
    let (size, created, modified) = match meta {
        Some(m) => (
            if is_folder {
                None
            } else {
                Some(m.len)
            },
            m.created,
            m.modified,
        ),
        None => (None, None, None),
    };
    let hash = if get_hash && !is_folder {
        clone_opt_string(&entry.content_hash)
    } else {
        None
    };
    let p = PathData::new(
        entry.path.clone(),
        parent.to_string(),
        name.clone(),
        stem,
        size,
        extension,
        created,
        modified,
        is_folder,
        hash,
    );
    Ok(p)
}

/// Whether a listing should hash the bytes of an entry: only files are
/// hashed, and only when hashing is asked for.
pub fn wants_content_hash(is_dir: bool, get_hash: bool) -> (r: bool)
    ensures
        r == (get_hash && !is_dir),
{
    get_hash && !is_dir
}

/// Builds the records of one folder's listing, in listing order, skipping
/// the entries whose record cannot be built.
pub fn index_folder(folder: &str, entries: &Vec<RawEntry>, get_metadata: bool, get_hash: bool) -> (r:
    Vec<PathData>)
    ensures
        record_views(r@) == listing_records(folder@, entries@, get_metadata, get_hash),
{
    let mut out: Vec<PathData> = Vec::new();
    let mut i: usize = 0;
    while i < entries.len()
        invariant
            i <= entries@.len(),
            record_views(out@) == listing_records(folder@, entries@.take(i as int), get_metadata, get_hash),
        decreases entries@.len() - i,
    {
        proof {
            entries@.lemma_filter_map_take_succ(
                |e: RawEntry| entry_record(folder@, e, get_metadata, get_hash),
                i as int,
            );
        }
        let ghost before = out@;
        match construct_entry(folder, &entries[i], get_metadata, get_hash) {
            Ok(p) => {
                out.push(p);
                assert(record_views(out@) =~= record_views(before) + seq![p@]);
            },
            Err(_) => {},
        }
        i = i + 1;
    }
    assert(entries@.take(entries@.len() as int) =~= entries@);
    out
}

} // verus!

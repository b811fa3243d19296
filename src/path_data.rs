use vstd::prelude::*;

verus! {

/// A point in time, as whole seconds and nanoseconds after the Unix epoch.
#[derive(Clone, Copy, PartialEq, Eq, Debug, Structural)]
pub struct Timestamp {
    pub secs: u64,
    pub nanos: u32,
}

/// The characters of an optional string.
pub open spec fn opt_chars(o: Option<String>) -> Option<Seq<char>> {
    match o {
        Some(s) => Some(s@),
        None => None,
    }
}

/// The views of a sequence of strings.
pub open spec fn string_views(v: Seq<String>) -> Seq<Seq<char>> {
    v.map_values(|s: String| s@)
}

/// What a `PathData` holds, with strings seen as character sequences.
pub struct PathDataView {
    pub path: Seq<char>,
    pub parent: Seq<char>,
    pub name: Seq<char>,
    pub stem: Option<Seq<char>>,
    pub size: Option<u64>,
    pub extension: Option<Seq<char>>,
    pub created: Option<Timestamp>,
    pub modified: Option<Timestamp>,
    pub is_folder: bool,
    pub hash: Option<Seq<char>>,
}

impl PathDataView {
    /// A folder carries no size, hash, stem or extension.
    pub open spec fn wf(self) -> bool {
        self.is_folder ==> {
            &&& self.size is None
            &&& self.hash is None
            &&& self.stem is None
            &&& self.extension is None
        }
    }
}

/// Data collected per path.
/// The optional fields are defined only for files, except the timestamps,
/// which folders may carry too.
#[derive(Debug, Clone)]
pub struct PathData {
    pub path: String,
    pub parent: String,
    pub name: String,
    pub stem: Option<String>,
    pub size: Option<u64>,
    pub extension: Option<String>,
    pub created: Option<Timestamp>,
    pub modified: Option<Timestamp>,
    pub is_folder: bool,
    pub hash: Option<String>,
}

impl View for PathData {
    type V = PathDataView;

    open spec fn view(&self) -> PathDataView {
        PathDataView {
            path: self.path@,
            parent: self.parent@,
            name: self.name@,
            stem: opt_chars(self.stem),
            size: self.size,
            extension: opt_chars(self.extension),
            created: self.created,
            modified: self.modified,
            is_folder: self.is_folder,
            hash: opt_chars(self.hash),
        }
    }
}

impl PathData {
    /// Creates a record from its fields.
    pub fn new(
        path: String,
        parent: String,
        name: String,
        stem: Option<String>,
        size: Option<u64>,
        extension: Option<String>,
        created: Option<Timestamp>,
        modified: Option<Timestamp>,
        is_folder: bool,
        hash: Option<String>,
    ) -> (r: PathData)
        ensures
            r.path == path,
            r.parent == parent,
            r.name == name,
            r.stem == stem,
            r.size == size,
            r.extension == extension,
            r.created == created,
            r.modified == modified,
            r.is_folder == is_folder,
            r.hash == hash,
    {
        PathData { path, parent, name, stem, size, extension, created, modified, is_folder, hash }
    }
}

/// Copies an optional string.
pub fn clone_opt_string(o: &Option<String>) -> (r: Option<String>)
    ensures
        opt_chars(r) == opt_chars(*o),
{
    match o {
        Some(s) => Some(s.clone()),
        None => None,
    }
}

} // verus!

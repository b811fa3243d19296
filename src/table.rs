use vstd::prelude::*;

use crate::entry::record_views;
use crate::path_data::{clone_opt_string, opt_chars, string_views, PathData, PathDataView, Timestamp};

verus! {

/// One row of a table, with strings seen as character sequences.
pub struct TableRow {
    pub path: Seq<char>,
    pub parent: Seq<char>,
    pub name: Seq<char>,
    pub stem: Option<Seq<char>>,
    pub size: Option<u64>,
    pub extension: Option<Seq<char>>,
    pub created: Option<u64>,
    pub modified: Option<u64>,
    pub is_folder: bool,
    pub hash: Option<Seq<char>>,
}

/// A timestamp cut down to whole seconds.
pub open spec fn whole_secs(t: Option<Timestamp>) -> Option<u64> {
    match t {
        Some(ts) => Some(ts.secs),
        None => None,
    }
}

/// The row that a record becomes: every field as it is, the timestamps cut
/// down to whole seconds.
pub open spec fn row_of(r: PathDataView) -> TableRow {
    TableRow {
        path: r.path,
        parent: r.parent,
        name: r.name,
        stem: r.stem,
        size: r.size,
        extension: r.extension,
        created: whole_secs(r.created),
        modified: whole_secs(r.modified),
        is_folder: r.is_folder,
        hash: r.hash,
    }
}

/// The rows that a sequence of records becomes, in the same order.
pub open spec fn rows_of(records: Seq<PathDataView>) -> Seq<TableRow> {
    records.map_values(|r: PathDataView| row_of(r))
}

/// The views of a sequence of optional strings.
pub open spec fn opt_views(v: Seq<Option<String>>) -> Seq<Option<Seq<char>>> {
    v.map_values(|o: Option<String>| opt_chars(o))
}

/// The rows that columns of equal length describe, row `i` made of the
/// `i`-th value of each column.
pub open spec fn rows_from_columns(
    path: Seq<String>,
    parent: Seq<String>,
    name: Seq<String>,
    stem: Seq<Option<String>>,
    size: Seq<Option<u64>>,
    extension: Seq<Option<String>>,
    created: Seq<Option<u64>>,
    modified: Seq<Option<u64>>,
    is_folder: Seq<bool>,
    hash: Seq<Option<String>>,
) -> Seq<TableRow> {
    Seq::new(
        path.len(),
        |i: int|
            TableRow {
                path: path[i]@,
                parent: parent[i]@,
                name: name[i]@,
                stem: opt_chars(stem[i]),
                size: size[i],
                extension: opt_chars(extension[i]),
                created: created[i],
                modified: modified[i],
                is_folder: is_folder[i],
                hash: opt_chars(hash[i]),
            },
    )
}

/// Whether ten columns all have the length of the first.
pub open spec fn same_lengths(
    path: Seq<String>,
    parent: Seq<String>,
    name: Seq<String>,
    stem: Seq<Option<String>>,
    size: Seq<Option<u64>>,
    extension: Seq<Option<String>>,
    created: Seq<Option<u64>>,
    modified: Seq<Option<u64>>,
    is_folder: Seq<bool>,
    hash: Seq<Option<String>>,
) -> bool {
    let n = path.len();
    &&& parent.len() == n
    &&& name.len() == n
    &&& stem.len() == n
    &&& size.len() == n
    &&& extension.len() == n
    &&& created.len() == n
    &&& modified.len() == n
    &&& is_folder.len() == n
    &&& hash.len() == n
}

/// Why a table could not be assembled from columns.
#[derive(Clone, Copy, PartialEq, Eq, Debug, Structural)]
pub enum TableError {
    /// The columns do not all have the same length.
    ColumnLengthMismatch,
}

/// A column-oriented table of records: one column per attribute, one row
/// per record, all columns of the same length.
#[derive(Debug)]
pub struct Table {
    path: Vec<String>,
    parent: Vec<String>,
    name: Vec<String>,
    stem: Vec<Option<String>>,
    size: Vec<Option<u64>>,
    extension: Vec<Option<String>>,
    created: Vec<Option<u64>>,
    modified: Vec<Option<u64>>,
    is_folder: Vec<bool>,
    hash: Vec<Option<String>>,
}

impl Table {
    #[verifier::type_invariant]
    spec fn columns_aligned(self) -> bool {
        let n = self.path@.len();
        &&& self.parent@.len() == n
        &&& self.name@.len() == n
        &&& self.stem@.len() == n
        &&& self.size@.len() == n
        &&& self.extension@.len() == n
        &&& self.created@.len() == n
        &&& self.modified@.len() == n
        &&& self.is_folder@.len() == n
        &&& self.hash@.len() == n
    }

    spec fn row(self, i: int) -> TableRow {
        TableRow {
            path: self.path@[i]@,
            parent: self.parent@[i]@,
            name: self.name@[i]@,
            stem: opt_chars(self.stem@[i]),
            size: self.size@[i],
            extension: opt_chars(self.extension@[i]),
            created: self.created@[i],
            modified: self.modified@[i],
            is_folder: self.is_folder@[i],
            hash: opt_chars(self.hash@[i]),
        }
    }
}

impl Table {
    /// The number of rows.
    pub fn len(&self) -> (r: usize)
        ensures
            r == self@.len(),
    {
        self.path.len()
    }

    /// Assembles a table from its columns, which must all have the same
    /// length.
    pub fn from_columns(
        path: Vec<String>,
        parent: Vec<String>,
        name: Vec<String>,
        stem: Vec<Option<String>>,
        size: Vec<Option<u64>>,
        extension: Vec<Option<String>>,
        created: Vec<Option<u64>>,
        modified: Vec<Option<u64>>,
        is_folder: Vec<bool>,
        hash: Vec<Option<String>>,
    ) -> (r: Result<Table, TableError>)
        ensures
            match r {
                Ok(t) => {
                    &&& same_lengths(
                        path@,
                        parent@,
                        name@,
                        stem@,
                        size@,
                        extension@,
                        created@,
                        modified@,
                        is_folder@,
                        hash@,
                    )
                    &&& t@ == rows_from_columns(
                        path@,
                        parent@,
                        name@,
                        stem@,
                        size@,
                        extension@,
                        created@,
                        modified@,
                        is_folder@,
                        hash@,
                    )
                },
                Err(e) => {
                    &&& !same_lengths(
                        path@,
                        parent@,
                        name@,
                        stem@,
                        size@,
                        extension@,
                        created@,
                        modified@,
                        is_folder@,
                        hash@,
                    )
                    &&& e == TableError::ColumnLengthMismatch
                },
            },
    {
        let n = path.len();
        if parent.len() != n || name.len() != n || stem.len() != n || size.len() != n
            || extension.len() != n || created.len() != n || modified.len() != n
            || is_folder.len() != n || hash.len() != n {
            return Err(TableError::ColumnLengthMismatch);
        }
        let t = Table { path, parent, name, stem, size, extension, created, modified, is_folder, hash };
        assert(t@ =~= rows_from_columns(
            t.path@,
            t.parent@,
            t.name@,
            t.stem@,
            t.size@,
            t.extension@,
            t.created@,
            t.modified@,
            t.is_folder@,
            t.hash@,
        ));
        Ok(t)
    }

    /// The `path` column.
    pub fn path_column(&self) -> (r: &Vec<String>)
        ensures
            string_views(r@) == self@.map_values(|row: TableRow| row.path),
    {
        proof {
            use_type_invariant(self);
        }
        assert(string_views(self.path@) =~= self@.map_values(|row: TableRow| row.path));
        &self.path
    }

    /// The `parent` column.
    pub fn parent_column(&self) -> (r: &Vec<String>)
        ensures
            string_views(r@) == self@.map_values(|row: TableRow| row.parent),
    {
        proof {
            use_type_invariant(self);
        }
        assert(string_views(self.parent@) =~= self@.map_values(|row: TableRow| row.parent));
        &self.parent
    }

    /// The `name` column.
    pub fn name_column(&self) -> (r: &Vec<String>)
        ensures
            string_views(r@) == self@.map_values(|row: TableRow| row.name),
    {
        proof {
            use_type_invariant(self);
        }
        assert(string_views(self.name@) =~= self@.map_values(|row: TableRow| row.name));
        &self.name
    }

    /// The `stem` column.
    pub fn stem_column(&self) -> (r: &Vec<Option<String>>)
        ensures
            opt_views(r@) == self@.map_values(|row: TableRow| row.stem),
    {
        proof {
            use_type_invariant(self);
        }
        assert(opt_views(self.stem@) =~= self@.map_values(|row: TableRow| row.stem));
        &self.stem
    }

    /// The `size` column.
    pub fn size_column(&self) -> (r: &Vec<Option<u64>>)
        ensures
            r@ == self@.map_values(|row: TableRow| row.size),
    {
        proof {
            use_type_invariant(self);
        }
        assert(self.size@ =~= self@.map_values(|row: TableRow| row.size));
        &self.size
    }

    /// The `extension` column.
    pub fn extension_column(&self) -> (r: &Vec<Option<String>>)
        ensures
            opt_views(r@) == self@.map_values(|row: TableRow| row.extension),
    {
        proof {
            use_type_invariant(self);
        }
        assert(opt_views(self.extension@) =~= self@.map_values(|row: TableRow| row.extension));
        &self.extension
    }

    /// The `created` column, in whole seconds after the Unix epoch.
    pub fn created_column(&self) -> (r: &Vec<Option<u64>>)
        ensures
            r@ == self@.map_values(|row: TableRow| row.created),
    {
        proof {
            use_type_invariant(self);
        }
        assert(self.created@ =~= self@.map_values(|row: TableRow| row.created));
        &self.created
    }

    /// The `modified` column, in whole seconds after the Unix epoch.
    pub fn modified_column(&self) -> (r: &Vec<Option<u64>>)
        ensures
            r@ == self@.map_values(|row: TableRow| row.modified),
    {
        proof {
            use_type_invariant(self);
        }
        assert(self.modified@ =~= self@.map_values(|row: TableRow| row.modified));
        &self.modified
    }

    /// The `is_folder` column.
    pub fn is_folder_column(&self) -> (r: &Vec<bool>)
        ensures
            r@ == self@.map_values(|row: TableRow| row.is_folder),
    {
        proof {
            use_type_invariant(self);
        }
        assert(self.is_folder@ =~= self@.map_values(|row: TableRow| row.is_folder));
        &self.is_folder
    }

    /// The `hash` column.
    pub fn hash_column(&self) -> (r: &Vec<Option<String>>)
        ensures
            opt_views(r@) == self@.map_values(|row: TableRow| row.hash),
    {
        proof {
            use_type_invariant(self);
        }
        assert(opt_views(self.hash@) =~= self@.map_values(|row: TableRow| row.hash));
        &self.hash
    }
}

/// Taking a table apart into its columns and assembling them again gives
/// back the same rows, each row's values still side by side.
pub proof fn lemma_columns_round_trip(
    t: Table,
    path: Seq<String>,
    parent: Seq<String>,
    name: Seq<String>,
    stem: Seq<Option<String>>,
    size: Seq<Option<u64>>,
    extension: Seq<Option<String>>,
    created: Seq<Option<u64>>,
    modified: Seq<Option<u64>>,
    is_folder: Seq<bool>,
    hash: Seq<Option<String>>,
)
    requires
        string_views(path) == t@.map_values(|row: TableRow| row.path),
        string_views(parent) == t@.map_values(|row: TableRow| row.parent),
        string_views(name) == t@.map_values(|row: TableRow| row.name),
        opt_views(stem) == t@.map_values(|row: TableRow| row.stem),
        size == t@.map_values(|row: TableRow| row.size),
        opt_views(extension) == t@.map_values(|row: TableRow| row.extension),
        created == t@.map_values(|row: TableRow| row.created),
        modified == t@.map_values(|row: TableRow| row.modified),
        is_folder == t@.map_values(|row: TableRow| row.is_folder),
        opt_views(hash) == t@.map_values(|row: TableRow| row.hash),
    ensures
        same_lengths(path, parent, name, stem, size, extension, created, modified, is_folder, hash),
        rows_from_columns(path, parent, name, stem, size, extension, created, modified, is_folder, hash)
            == t@,
{
    let rows = rows_from_columns(path, parent, name, stem, size, extension, created, modified, is_folder, hash);
    assert(string_views(path).len() == path.len());
    assert(string_views(parent).len() == parent.len());
    assert(string_views(name).len() == name.len());
    assert(opt_views(stem).len() == stem.len());
    assert(opt_views(extension).len() == extension.len());
    assert(opt_views(hash).len() == hash.len());
    assert forall|i: int| 0 <= i < t@.len() implies #[trigger] rows[i] == t@[i] by {
        assert(string_views(path)[i] == path[i]@);
        assert(string_views(parent)[i] == parent[i]@);
        assert(string_views(name)[i] == name[i]@);
        assert(opt_views(stem)[i] == opt_chars(stem[i]));
        assert(opt_views(extension)[i] == opt_chars(extension[i]));
        assert(opt_views(hash)[i] == opt_chars(hash[i]));
        assert(size[i] == t@[i].size);
        assert(created[i] == t@[i].created);
        assert(modified[i] == t@[i].modified);
        assert(is_folder[i] == t@[i].is_folder);
    }
    assert(rows =~= t@);
}

impl View for Table {
    type V = Seq<TableRow>;

    closed spec fn view(&self) -> Seq<TableRow> {
        Seq::new(self.path@.len(), |i: int| self.row(i))
    }
}

/// Projects records into a table, one row per record in the same order.
pub fn build_table(records: &Vec<PathData>) -> (t: Table)
    ensures
        t@ == rows_of(record_views(records@)),
{
    let mut path: Vec<String> = Vec::new();
    let mut parent: Vec<String> = Vec::new();
    let mut name: Vec<String> = Vec::new();
    let mut stem: Vec<Option<String>> = Vec::new();
    let mut size: Vec<Option<u64>> = Vec::new();
    let mut extension: Vec<Option<String>> = Vec::new();
    let mut created: Vec<Option<u64>> = Vec::new();
    let mut modified: Vec<Option<u64>> = Vec::new();
    let mut is_folder: Vec<bool> = Vec::new();
    let mut hash: Vec<Option<String>> = Vec::new();
    let mut i: usize = 0;
    while i < records.len()
        invariant
            i <= records@.len(),
            path@.len() == i,
            parent@.len() == i,
            name@.len() == i,
            stem@.len() == i,
            size@.len() == i,
            extension@.len() == i,
            created@.len() == i,
            modified@.len() == i,
            is_folder@.len() == i,
            hash@.len() == i,
            forall|j: int|
                #![trigger records@[j]]
                0 <= j < i ==> {
                    let r = records@[j]@;
                    &&& path@[j]@ == r.path
                    &&& parent@[j]@ == r.parent
                    &&& name@[j]@ == r.name
                    &&& opt_chars(stem@[j]) == r.stem
                    &&& size@[j] == r.size
                    &&& opt_chars(extension@[j]) == r.extension
                    &&& created@[j] == whole_secs(r.created)
                    &&& modified@[j] == whole_secs(r.modified)
                    &&& is_folder@[j] == r.is_folder
                    &&& opt_chars(hash@[j]) == r.hash
                },
        decreases records@.len() - i,
    {
        let r = &records[i];
        path.push(r.path.clone());
        parent.push(r.parent.clone());
        name.push(r.name.clone());
        stem.push(clone_opt_string(&r.stem));
        size.push(r.size);
        extension.push(clone_opt_string(&r.extension));
        created.push(
            match r.created {
                Some(ts) => Some(ts.secs),
                None => None,
            },
        );
        modified.push(
            match r.modified {
                Some(ts) => Some(ts.secs),
                None => None,
            },
        );
        is_folder.push(r.is_folder);
        hash.push(clone_opt_string(&r.hash));
        assert(path@[i as int]@ == records@[i as int]@.path);
        assert(created@[i as int] == whole_secs(records@[i as int]@.created));
        assert(modified@[i as int] == whole_secs(records@[i as int]@.modified));
        i = i + 1;
    }
    let t = Table { path, parent, name, stem, size, extension, created, modified, is_folder, hash };
    assert(t@ =~= rows_of(record_views(records@))) by {
        assert forall|j: int| 0 <= j < t@.len() implies #[trigger] t@[j] == rows_of(
            record_views(records@),
        )[j] by {
            assert(t.path@[j]@ == records@[j]@.path);
        }
    }
    t
}

} // verus!

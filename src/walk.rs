use vstd::prelude::*;

use crate::path_data::{string_views, PathData, PathDataView};
use crate::entry::record_views;

verus! {

/// The paths of the folder records among `records`, in order.
pub open spec fn folder_paths(records: Seq<PathDataView>) -> Seq<Seq<char>> {
    records.filter_map(|r: PathDataView| if r.is_folder { Some(r.path) } else { None })
}

/// Folder paths distribute over concatenation.
pub proof fn lemma_folder_paths_append(a: Seq<PathDataView>, b: Seq<PathDataView>)
    ensures
        folder_paths(a + b) == folder_paths(a) + folder_paths(b),
    decreases b.len(),
{
    if b.len() == 0 {
        assert(a + b =~= a);
        assert(folder_paths(b) =~= Seq::<Seq<char>>::empty());
        assert(folder_paths(a) + folder_paths(b) =~= folder_paths(a));
    } else {
        lemma_folder_paths_append(a, b.drop_last());
        assert((a + b).drop_last() =~= a + b.drop_last());
        assert((a + b).last() == b.last());
        if b.last().is_folder {
            assert(folder_paths(a) + folder_paths(b) =~= folder_paths(a) + folder_paths(b.drop_last()) + seq![b.last().path]);
        } else {
            assert(folder_paths(a) + folder_paths(b) =~= folder_paths(a) + folder_paths(b.drop_last()));
        }
    }
}

/// The state of one breadth-first walk over a folder tree.
///
/// The walk proceeds in rounds: `take_round` drains every folder that waits
/// to be listed, each of those folders is listed (by the caller, possibly in
/// parallel), and `merge` adds the records of each listing. The folder
/// records that a merge brings become the folders of the next round. The
/// walk is finished when no folder waits.
pub struct Walk {
    frontier: Vec<String>,
    records: Vec<PathData>,
    root: Ghost<Seq<char>>,
    taken: Ghost<Seq<Seq<char>>>,
}

impl Walk {
    /// The folders that wait to be listed.
    pub closed spec fn frontier(&self) -> Seq<Seq<char>> {
        string_views(self.frontier@)
    }

    /// The records gathered so far, in merge order.
    pub closed spec fn records(&self) -> Seq<PathDataView> {
        record_views(self.records@)
    }

    /// The folder the walk started from.
    pub closed spec fn root(&self) -> Seq<char> {
        self.root@
    }

    /// The folders handed out by `take_round` so far, in order.
    pub closed spec fn taken(&self) -> Seq<Seq<char>> {
        self.taken@
    }

    /// Every folder that the walk knows of, the root first and then the
    /// folder records in merge order, has been handed out or waits, each
    /// exactly once and in that order. `new` establishes it and every
    /// method keeps it, so every walk satisfies it.
    pub closed spec fn wf(&self) -> bool {
        seq![self.root@] + folder_paths(self.records()) == self.taken@ + self.frontier()
    }

    /// A finished walk has handed out the root and every folder that it
    /// recorded, each once and in discovery order, and no other folder: no
    /// discovered folder is left unlisted.
    pub proof fn lemma_finished_walk_listed_every_folder(&self)
        requires
            self.wf(),
            self.frontier().len() == 0,
        ensures
            self.taken() == seq![self.root()] + folder_paths(self.records()),
            self.taken().len() == 1 + folder_paths(self.records()).len(),
    {
        assert(self.taken@ + self.frontier() =~= self.taken@);
    }

    /// Starts a walk at `root`: the root waits, nothing is recorded.
    pub fn new(root: &str) -> (w: Walk)
        ensures
            w.wf(),
            w.root() == root@,
            w.frontier() == seq![root@],
            w.records() == Seq::<PathDataView>::empty(),
            w.taken() == Seq::<Seq<char>>::empty(),
    {
        let mut frontier: Vec<String> = Vec::new();
        frontier.push(root.to_string());
        let w = Walk {
            frontier,
            records: Vec::new(),
            root: Ghost(root@),
            taken: Ghost(Seq::empty()),
        };
        assert(w.frontier() =~= seq![root@]);
        assert(w.records() =~= Seq::<PathDataView>::empty());
        assert(seq![root@] + folder_paths(w.records()) =~= w.taken@ + w.frontier());
        w
    }

    /// Whether no folder waits to be listed.
    pub fn is_finished(&self) -> (r: bool)
        ensures
            r == (self.frontier().len() == 0),
    {
        self.frontier.len() == 0
    }

    /// The number of records gathered so far.
    pub fn record_count(&self) -> (r: usize)
        ensures
            r == self.records().len(),
    {
        self.records.len()
    }

    /// Drains every waiting folder, in order, into one round.
    pub fn take_round(&mut self) -> (batch: Vec<String>)
        requires
            old(self).wf(),
        ensures
            final(self).wf(),
            string_views(batch@) == old(self).frontier(),
            final(self).frontier() == Seq::<Seq<char>>::empty(),
            final(self).taken() == old(self).taken() + old(self).frontier(),
            final(self).records() == old(self).records(),
            final(self).root() == old(self).root(),
    {
        let mut batch: Vec<String> = Vec::new();
        std::mem::swap(&mut batch, &mut self.frontier);
        self.taken = Ghost(self.taken@ + string_views(batch@));
        assert(self.frontier() =~= Seq::<Seq<char>>::empty());
        assert(self.taken@ + self.frontier() =~= self.taken@);
        batch
    }

    /// Adds the records of one folder's listing; the folders among them
    /// wait for the next round.
    pub fn merge(&mut self, found: Vec<PathData>)
        requires
            old(self).wf(),
        ensures
            final(self).wf(),
            final(self).records() == old(self).records() + record_views(found@),
            final(self).frontier() == old(self).frontier() + folder_paths(record_views(found@)),
            final(self).taken() == old(self).taken(),
            final(self).root() == old(self).root(),
    {
        let ghost old_records = self.records();
        let ghost old_frontier = self.frontier();
        let mut i: usize = 0;
        while i < found.len()
            invariant
                i <= found@.len(),
                self.records() == old_records,
                self.taken == old(self).taken,
                self.root == old(self).root,
                self.frontier() == old_frontier + folder_paths(record_views(found@.take(i as int))),
            decreases found@.len() - i,
        {
            let ghost before = self.frontier();
            proof {
                assert(found@.take(i + 1).drop_last() =~= found@.take(i as int));
                assert(record_views(found@.take(i + 1)) =~= record_views(found@.take(i as int))
                    + seq![found@[i as int]@]);
                assert(record_views(found@.take(i + 1)).drop_last() =~= record_views(
                    found@.take(i as int),
                ));
            }
            if found[i].is_folder {
                self.frontier.push(found[i].path.clone());
                assert(self.frontier() =~= before + seq![found@[i as int].path@]);
            }
            i = i + 1;
        }
        assert(found@.take(found@.len() as int) =~= found@);
        let ghost found_view = record_views(found@);
        let mut found = found;
        self.records.append(&mut found);
        assert(self.records() =~= old_records + found_view);
        proof {
            lemma_folder_paths_append(old_records, found_view);
            let r = self.root@;
            assert(seq![r] + folder_paths(old_records) == self.taken@ + old_frontier);
            assert(seq![r] + (folder_paths(old_records) + folder_paths(found_view)) =~= (seq![r]
                + folder_paths(old_records)) + folder_paths(found_view));
            assert(self.taken@ + self.frontier() =~= (self.taken@ + old_frontier) + folder_paths(
                found_view,
            ));
        }
    }

    /// The records gathered, in merge order.
    pub fn into_records(self) -> (r: Vec<PathData>)
        ensures
            record_views(r@) == self.records(),
    {
        self.records
    }
}

} // verus!

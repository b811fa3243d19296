use vstd::prelude::*;

use crate::path_data::{clone_opt_string, opt_chars, string_views};
use crate::table::{opt_views, Table, TableRow};

verus! {

/// The sum of the sizes present in `rows`.
pub open spec fn size_sum(rows: Seq<TableRow>) -> int
    decreases rows.len(),
{
    if rows.len() == 0 {
        0
    } else {
        size_sum(rows.drop_last()) + match rows.last().size {
            Some(s) => s as int,
            None => 0,
        }
    }
}

pub(crate) proof fn lemma_weight_bound(n: int)
    requires
        0 <= n <= u64::MAX,
    ensures
        n * (u64::MAX as int) <= u128::MAX,
{
    assert(n * (u64::MAX as int) <= (u64::MAX as int) * (u64::MAX as int)) by (nonlinear_arith)
        requires
            0 <= n <= u64::MAX,
    ;
}

proof fn lemma_size_sum_bound(rows: Seq<TableRow>)
    ensures
        0 <= size_sum(rows) <= rows.len() * (u64::MAX as int),
    decreases rows.len(),
{
    if rows.len() > 0 {
        lemma_size_sum_bound(rows.drop_last());
    }
}

/// The sum of sizes over a concatenation is the sum of the parts' sums.
pub proof fn lemma_size_sum_append(a: Seq<TableRow>, b: Seq<TableRow>)
    ensures
        size_sum(a + b) == size_sum(a) + size_sum(b),
    decreases b.len(),
{
    if b.len() == 0 {
        assert(a + b =~= a);
    } else {
        lemma_size_sum_append(a, b.drop_last());
        assert((a + b).drop_last() =~= a + b.drop_last());
    }
}

proof fn lemma_size_sum_remove(b: Seq<TableRow>, k: int)
    requires
        0 <= k < b.len(),
    ensures
        size_sum(b) == size_sum(b.remove(k)) + size_sum(seq![b[k]]),
{
    let pre = b.subrange(0, k);
    let post = b.subrange(k + 1, b.len() as int);
    assert(b =~= pre + seq![b[k]] + post);
    assert(b.remove(k) =~= pre + post);
    lemma_size_sum_append(pre + seq![b[k]], post);
    lemma_size_sum_append(pre, seq![b[k]]);
    lemma_size_sum_append(pre, post);
}

/// The total size does not depend on the order of the rows: any two
/// sequences holding the same rows, in whatever order, have the same total.
pub proof fn lemma_total_size_ignores_order(a: Seq<TableRow>, b: Seq<TableRow>)
    requires
        a.to_multiset() == b.to_multiset(),
    ensures
        size_sum(a) == size_sum(b),
    decreases a.len(),
{
    a.to_multiset_ensures();
    b.to_multiset_ensures();
    if a.len() == 0 {
        assert(b.len() == 0);
        assert(b =~= Seq::<TableRow>::empty());
    } else {
        let x = a.last();
        let a1 = a.drop_last();
        assert(a1.push(x) =~= a);
        a1.to_multiset_ensures();
        assert(a.contains(x)) by {
            assert(a[a.len() - 1] == x);
        }
        assert(a.to_multiset().count(x) > 0);
        assert(b.to_multiset().count(x) > 0);
        assert(b.contains(x));
        let k = choose|k: int| 0 <= k < b.len() && b[k] == x;
        let b1 = b.remove(k);
        assert(b1.to_multiset() =~= a1.to_multiset());
        lemma_total_size_ignores_order(a1, b1);
        lemma_size_sum_remove(b, k);
        assert(seq![x].drop_last() =~= Seq::<TableRow>::empty());
        assert(size_sum(Seq::<TableRow>::empty()) == 0);
        assert(size_sum(seq![x]) == size_sum(a) - size_sum(a1));
    }
}

/// The sum of the `size` column over the rows where it is present, in
/// bytes; zero when no row has a size.
pub fn total_folder_size(t: &Table) -> (r: u128)
    ensures
        r == size_sum(t@),
{
    let sizes = t.size_column();
    let mut total: u128 = 0;
    let mut i: usize = 0;
    while i < sizes.len()
        invariant
            sizes@ == t@.map_values(|row: TableRow| row.size),
            i <= sizes@.len(),
            total == size_sum(t@.take(i as int)),
        decreases sizes@.len() - i,
    {
        proof {
            assert(t@.take(i + 1).drop_last() =~= t@.take(i as int));
            lemma_size_sum_bound(t@.take(i as int));
            lemma_weight_bound(i + 1);
        }
        match sizes[i] {
            Some(s) => {
                total = total + s as u128;
            },
            None => {},
        }
        i = i + 1;
    }
    assert(t@.take(sizes@.len() as int) =~= t@);
    total
}

/// One of the largest files of a table.
#[derive(Debug, Clone)]
pub struct FileSize {
    pub name: String,
    pub size: u64,
    pub extension: Option<String>,
    pub path: String,
}

/// Whether `f` holds the values of `row`, which has a size.
pub open spec fn describes(f: FileSize, row: TableRow) -> bool {
    &&& row.size == Some(f.size)
    &&& f.name@ == row.name
    &&& opt_chars(f.extension) == row.extension
    &&& f.path@ == row.path
}

/// Whether `out` lists, largest first, the rows of `rows` at the distinct
/// indices `idx`, all with a size; at most `n` of them; every row with a size
/// that is left out is no larger than the last one listed; and when fewer
/// than `n` are listed, none with a size is left out.
pub open spec fn top_selection(rows: Seq<TableRow>, n: int, out: Seq<FileSize>, idx: Seq<int>) -> bool {
    &&& out.len() == idx.len()
    &&& out.len() <= n
    &&& forall|i: int| 0 <= i < idx.len() ==> 0 <= #[trigger] idx[i] < rows.len()
    &&& forall|i: int, k: int| 0 <= i < k < idx.len() ==> idx[i] != idx[k]
    &&& forall|i: int| 0 <= i < out.len() ==> describes(#[trigger] out[i], rows[idx[i]])
    &&& forall|i: int, k: int| 0 <= i < k < out.len() ==> out[i].size >= out[k].size
    &&& forall|j: int|
        0 <= j < rows.len() && (#[trigger] rows[j]).size is Some && !idx.contains(j) ==> {
            &&& out.len() == n
            &&& n > 0 ==> rows[j].size.unwrap() <= out[n - 1].size
        }
}

/// The `top_n` largest rows that have a size, largest first. Among rows of
/// equal size the earlier row comes first.
pub fn top_n_file_sizes(t: &Table, top_n: u32) -> (r: Vec<FileSize>)
    ensures
        exists|idx: Seq<int>| top_selection(t@, top_n as int, r@, idx),
{
    let sizes = t.size_column();
    let names = t.name_column();
    let extensions = t.extension_column();
    let paths = t.path_column();
    let n = sizes.len();
    assert(string_views(names@).len() == names@.len());
    assert(opt_views(extensions@).len() == extensions@.len());
    assert(string_views(paths@).len() == paths@.len());
    let mut chosen: Vec<bool> = Vec::new();
    let mut k: usize = 0;
    while k < n
        invariant
            k <= n,
            chosen@.len() == k,
            forall|j: int| 0 <= j < k ==> !(#[trigger] chosen@[j]),
        decreases n - k,
    {
        chosen.push(false);
        k = k + 1;
    }
    let ghost rows = t@;
    let ghost mut idx: Seq<int> = Seq::empty();
    let mut out: Vec<FileSize> = Vec::new();
    while out.len() < top_n as usize
        invariant
            rows == t@,
            sizes@ == rows.map_values(|row: TableRow| row.size),
            string_views(names@) == rows.map_values(|row: TableRow| row.name),
            opt_views(extensions@) == rows.map_values(|row: TableRow| row.extension),
            string_views(paths@) == rows.map_values(|row: TableRow| row.path),
            n == rows.len(),
            names@.len() == n,
            extensions@.len() == n,
            paths@.len() == n,
            chosen@.len() == n,
            forall|j: int| 0 <= j < n ==> (#[trigger] chosen@[j] <==> idx.contains(j)),
            out@.len() == idx.len(),
            out@.len() <= top_n,
            forall|i: int| 0 <= i < idx.len() ==> 0 <= #[trigger] idx[i] < rows.len(),
            forall|i: int, m: int| 0 <= i < m < idx.len() ==> idx[i] != idx[m],
            forall|i: int| 0 <= i < out@.len() ==> describes(#[trigger] out@[i], rows[idx[i]]),
            forall|i: int, m: int| 0 <= i < m < out@.len() ==> out@[i].size >= out@[m].size,
            forall|j: int|
                0 <= j < n && (#[trigger] rows[j]).size is Some && !idx.contains(j) && out@.len() > 0
                    ==> rows[j].size.unwrap() <= out@[out@.len() - 1].size,
        ensures
            out@.len() == top_n || forall|j: int|
                0 <= j < n && (#[trigger] rows[j]).size is Some ==> idx.contains(j),
        decreases top_n - out@.len(),
    {
        // The largest unchosen row with a size; the first on ties.
        let mut best: Option<usize> = None;
        let mut best_size: u64 = 0;
        let mut j: usize = 0;
        while j < n
            invariant
                j <= n,
                n == rows.len(),
                chosen@.len() == n,
                sizes@ == rows.map_values(|row: TableRow| row.size),
                match best {
                    Some(b) => {
                        &&& b < j
                        &&& !chosen@[b as int]
                        &&& rows[b as int].size == Some(best_size)
                    },
                    None => true,
                },
                forall|m: int|
                    0 <= m < j && !chosen@[m] && (#[trigger] rows[m]).size is Some ==> best is Some
                        && rows[m].size.unwrap() <= best_size,
            decreases n - j,
        {
            assert(sizes@[j as int] == rows[j as int].size);
            if !chosen[j] {
                match sizes[j] {
                    Some(s) => {
                        if best.is_none() || s > best_size {
                            best = Some(j);
                            best_size = s;
                        }
                    },
                    None => {},
                }
            }
            j = j + 1;
        }
        match best {
            None => {
                assert forall|m: int|
                    0 <= m < n && (#[trigger] rows[m]).size is Some implies idx.contains(m) by {
                    if !idx.contains(m) {
                        assert(!chosen@[m]);
                    }
                }
                break;
            },
            Some(b) => {
                assert(sizes@[b as int] == rows[b as int].size);
                assert(string_views(names@)[b as int] == names@[b as int]@);
                assert(opt_views(extensions@)[b as int] == opt_chars(extensions@[b as int]));
                assert(string_views(paths@)[b as int] == paths@[b as int]@);
                let f = FileSize {
                    name: names[b].clone(),
                    size: best_size,
                    extension: clone_opt_string(&extensions[b]),
                    path: paths[b].clone(),
                };
                let ghost old_idx = idx;
                let ghost old_out = out@;
                if out.len() > 0 {
                    assert(!idx.contains(b as int));
                    assert(best_size <= old_out[old_out.len() - 1].size);
                }
                chosen.set(b, true);
                out.push(f);
                proof {
                    idx = idx.push(b as int);
                    assert forall|j2: int| 0 <= j2 < n implies (#[trigger] chosen@[j2] <==> idx.contains(j2)) by {
                        if j2 == b {
                            assert(idx[idx.len() - 1] == j2);
                        } else {
                            if old_idx.contains(j2) {
                                let w = choose|w: int| 0 <= w < old_idx.len() && old_idx[w] == j2;
                                assert(idx[w] == j2);
                            }
                            if idx.contains(j2) {
                                let w = choose|w: int| 0 <= w < idx.len() && idx[w] == j2;
                                assert(w < old_idx.len());
                                assert(old_idx[w] == j2);
                            }
                        }
                    }
                    assert forall|i: int, m: int| 0 <= i < m < idx.len() implies idx[i] != idx[m] by {
                        if m == idx.len() - 1 {
                            assert(old_idx.contains(idx[i]));
                            assert(!old_idx.contains(b as int));
                        }
                    }
                    assert forall|i: int| 0 <= i < out@.len() implies describes(#[trigger] out@[i], rows[idx[i]]) by {
                        if i < old_out.len() {
                            assert(out@[i] == old_out[i]);
                        }
                    }
                    assert forall|m: int|
                        0 <= m < n && (#[trigger] rows[m]).size is Some && !idx.contains(m) && out@.len() > 0
                            implies rows[m].size.unwrap() <= out@[out@.len() - 1].size by {
                        assert(!chosen@[m]);
                        assert(!old_idx.contains(m)) by {
                            if old_idx.contains(m) {
                                let w = choose|w: int| 0 <= w < old_idx.len() && old_idx[w] == m;
                                assert(idx[w] == m);
                            }
                        }
                    }
                }
            },
        }
    }
    assert(top_selection(t@, top_n as int, out@, idx));
    out
}

} // verus!

use vstd::prelude::*;

use crate::analysis::{lemma_weight_bound, size_sum};
use crate::path_data::{clone_opt_string, opt_chars, string_views};
use crate::table::{opt_views, Table, TableRow};

verus! {

/// What rows are grouped by, and what is summed per group.
#[derive(Clone, Copy, PartialEq, Eq, Debug, Structural)]
pub enum GroupBy {
    /// Rows with a size, by extension; their sizes are summed.
    ExtensionSize,
    /// All rows, by extension; they are counted.
    ExtensionCount,
    /// Rows with a size, by parent folder; their sizes are summed.
    ParentSize,
}

/// The key of a row's group.
pub open spec fn group_key(kind: GroupBy, row: TableRow) -> Option<Seq<char>> {
    match kind {
        GroupBy::ParentSize => Some(row.parent),
        _ => row.extension,
    }
}

/// What a row adds to its group, or `None` when it takes no part.
pub open spec fn group_weight(kind: GroupBy, row: TableRow) -> Option<u64> {
    match kind {
        GroupBy::ExtensionCount => Some(1u64),
        _ => row.size,
    }
}

/// Whether row `j` takes part and falls in the group of key `k`.
pub open spec fn in_group(rows: Seq<TableRow>, kind: GroupBy, j: int, k: Option<Seq<char>>) -> bool {
    &&& group_weight(kind, rows[j]) is Some
    &&& group_key(kind, rows[j]) == k
}

/// The sum of what the rows of the group of key `k` add.
#[verifier::opaque]
pub open spec fn group_total(rows: Seq<TableRow>, kind: GroupBy, k: Option<Seq<char>>) -> int
    decreases rows.len(),
{
    if rows.len() == 0 {
        0
    } else {
        let last = rows.last();
        group_total(rows.drop_last(), kind, k) + match group_weight(kind, last) {
            Some(w) => if group_key(kind, last) == k {
                w as int
            } else {
                0
            },
            None => 0,
        }
    }
}

/// One group of rows and what its rows add up to.
#[derive(Debug, Clone)]
pub struct GroupTotal {
    pub key: Option<String>,
    pub total: u128,
}

/// Whether `out` holds, largest total first, exactly one entry per group of
/// `rows` under `kind`, each with its group's total.
pub open spec fn grouped(rows: Seq<TableRow>, kind: GroupBy, out: Seq<GroupTotal>) -> bool {
    &&& forall|i: int|
        0 <= i < out.len() ==> (#[trigger] out[i]).total == group_total(rows, kind, opt_chars(out[i].key))
    &&& forall|i: int|
        0 <= i < out.len() ==> exists|j: int|
            0 <= j < rows.len() && in_group(rows, kind, j, opt_chars((#[trigger] out[i]).key))
    &&& forall|j: int|
        0 <= j < rows.len() && group_weight(kind, #[trigger] rows[j]) is Some ==> exists|i: int|
            0 <= i < out.len() && opt_chars((#[trigger] out[i]).key) == group_key(kind, rows[j])
    &&& forall|i: int, m: int|
        0 <= i < m < out.len() ==> opt_chars(out[i].key) != opt_chars(out[m].key)
    &&& forall|i: int, m: int| 0 <= i < m < out.len() ==> out[i].total >= out[m].total
}

proof fn lemma_group_total_bound(rows: Seq<TableRow>, kind: GroupBy, k: Option<Seq<char>>)
    ensures
        0 <= group_total(rows, kind, k) <= rows.len() * (u64::MAX as int),
    decreases rows.len(),
{
    reveal(group_total);
    if rows.len() > 0 {
        lemma_group_total_bound(rows.drop_last(), kind, k);
    }
}

proof fn lemma_group_total_absent(rows: Seq<TableRow>, kind: GroupBy, k: Option<Seq<char>>)
    requires
        forall|j: int| 0 <= j < rows.len() ==> !in_group(rows, kind, j, k),
    ensures
        group_total(rows, kind, k) == 0,
    decreases rows.len(),
{
    reveal(group_total);
    if rows.len() > 0 {
        let rest = rows.drop_last();
        assert forall|j: int| 0 <= j < rest.len() implies !in_group(rest, kind, j, k) by {
            assert(!in_group(rows, kind, j, k));
            assert(rest[j] == rows[j]);
        }
        assert(!in_group(rows, kind, rows.len() - 1, k));
        lemma_group_total_absent(rest, kind, k);
    }
}

/// Whether two optional strings hold the same characters.
fn same_key(a: &Option<String>, b: &Option<String>) -> (r: bool)
    ensures
        r == (opt_chars(*a) == opt_chars(*b)),
{
    match (a, b) {
        (Some(x), Some(y)) => *x == *y,
        (None, None) => true,
        _ => false,
    }
}

/// The index of the group with key `key`, searched from the most recent.
fn find_group(keys: &Vec<Option<String>>, key: &Option<String>) -> (r: Option<usize>)
    ensures
        match r {
            Some(a) => a < keys@.len() && opt_chars(keys@[a as int]) == opt_chars(*key),
            None => forall|b: int| 0 <= b < keys@.len() ==> opt_chars(#[trigger] keys@[b]) != opt_chars(*key),
        },
{
    let mut a: usize = keys.len();
    while a > 0
        invariant
            a <= keys@.len(),
            forall|b: int| a <= b < keys@.len() ==> opt_chars(#[trigger] keys@[b]) != opt_chars(*key),
        decreases a,
    {
        a = a - 1;
        if same_key(&keys[a], key) {
            return Some(a);
        }
    }
    None
}

/// Whether `keys` and `totals` hold the groups of the first `j` rows: keys
/// distinct, each with its total over those rows, each key that of some
/// row taking part, and each row taking part with its key present.
spec fn groups_of_prefix(
    rows: Seq<TableRow>,
    kind: GroupBy,
    j: int,
    keys: Seq<Option<String>>,
    totals: Seq<u128>,
) -> bool {
    &&& 0 <= j <= rows.len()
    &&& keys.len() == totals.len()
    &&& forall|a: int, b: int| 0 <= a < b < keys.len() ==> opt_chars(keys[a]) != opt_chars(keys[b])
    &&& forall|a: int|
        0 <= a < keys.len() ==> (#[trigger] totals[a]) == group_total(rows.take(j), kind, opt_chars(keys[a]))
    &&& forall|a: int|
        0 <= a < keys.len() ==> exists|jj: int|
            0 <= jj < j && in_group(rows, kind, jj, opt_chars(#[trigger] keys[a]))
    &&& forall|jj: int|
        0 <= jj < j && group_weight(kind, #[trigger] rows[jj]) is Some ==> exists|a: int|
            0 <= a < keys.len() && opt_chars(#[trigger] keys[a]) == group_key(kind, rows[jj])
}

proof fn lemma_group_total_step(rows: Seq<TableRow>, kind: GroupBy, j: int, k: Option<Seq<char>>)
    requires
        0 <= j < rows.len(),
    ensures
        group_total(rows.take(j + 1), kind, k) == group_total(rows.take(j), kind, k) + match group_weight(
            kind,
            rows[j],
        ) {
            Some(w) => if group_key(kind, rows[j]) == k {
                w as int
            } else {
                0
            },
            None => 0,
        },
{
    reveal(group_total);
    assert(rows.take(j + 1).drop_last() =~= rows.take(j));
    assert(rows.take(j + 1).last() == rows[j]);
}

proof fn lemma_bump_totals(
    rows: Seq<TableRow>,
    kind: GroupBy,
    j: int,
    keys: Seq<Option<String>>,
    old_totals: Seq<u128>,
    totals: Seq<u128>,
    a: int,
    w: u64,
)
    requires
        0 <= j < rows.len(),
        keys.len() == old_totals.len(),
        0 <= a < keys.len(),
        forall|x: int, y: int| 0 <= x < y < keys.len() ==> opt_chars(keys[x]) != opt_chars(keys[y]),
        forall|x: int|
            0 <= x < keys.len() ==> (#[trigger] old_totals[x]) == group_total(
                rows.take(j),
                kind,
                opt_chars(keys[x]),
            ),
        group_weight(kind, rows[j]) == Some(w),
        group_key(kind, rows[j]) == opt_chars(keys[a]),
        totals == old_totals.update(a, (old_totals[a] + w) as u128),
        old_totals[a] + w <= u128::MAX,
    ensures
        forall|x: int|
            0 <= x < keys.len() ==> (#[trigger] totals[x]) == group_total(
                rows.take(j + 1),
                kind,
                opt_chars(keys[x]),
            ),
{
    assert forall|x: int| 0 <= x < keys.len() implies (#[trigger] totals[x]) == group_total(
        rows.take(j + 1),
        kind,
        opt_chars(keys[x]),
    ) by {
        lemma_group_total_step(rows, kind, j, opt_chars(keys[x]));
        if x != a {
            assert(old_totals[x] == group_total(rows.take(j), kind, opt_chars(keys[x])));
            if x < a {
                assert(opt_chars(keys[x]) != opt_chars(keys[a]));
            } else {
                assert(opt_chars(keys[a]) != opt_chars(keys[x]));
            }
        } else {
            assert(old_totals[a] == group_total(rows.take(j), kind, opt_chars(keys[a])));
        }
    }
}

/// Adds row `j`, which takes part with weight `w`, to the existing group
/// `a` of its key.
#[verifier::spinoff_prover]
fn bump_group(
    keys: &Vec<Option<String>>,
    totals: &mut Vec<u128>,
    a: usize,
    w: u64,
    Ghost(rows): Ghost<Seq<TableRow>>,
    Ghost(kind): Ghost<GroupBy>,
    Ghost(j): Ghost<int>,
)
    requires
        j < rows.len() <= u64::MAX,
        groups_of_prefix(rows, kind, j, keys@, old(totals)@),
        group_weight(kind, rows[j]) == Some(w),
        a < keys@.len(),
        group_key(kind, rows[j]) == opt_chars(keys@[a as int]),
    ensures
        groups_of_prefix(rows, kind, j + 1, keys@, final(totals)@),
{
    let ghost next = rows.take(j + 1);
    let ghost key = opt_chars(keys@[a as int]);
    proof {
        lemma_group_total_step(rows, kind, j, key);
        lemma_group_total_bound(next, kind, key);
        lemma_weight_bound(j + 1);
    }
    let ghost old_totals = totals@;
    let nt = totals[a] + w as u128;
    totals.set(a, nt);
    proof {
        lemma_bump_totals(rows, kind, j, keys@, old_totals, totals@, a as int, w);
    }
}

/// Opens a new group for row `j`, which takes part with weight `w` and a
/// key that no earlier row taking part has.
#[verifier::spinoff_prover]
fn open_group(
    keys: &mut Vec<Option<String>>,
    totals: &mut Vec<u128>,
    key: Option<String>,
    w: u64,
    Ghost(rows): Ghost<Seq<TableRow>>,
    Ghost(kind): Ghost<GroupBy>,
    Ghost(j): Ghost<int>,
)
    requires
        j < rows.len(),
        groups_of_prefix(rows, kind, j, old(keys)@, old(totals)@),
        group_weight(kind, rows[j]) == Some(w),
        group_key(kind, rows[j]) == opt_chars(key),
        forall|b: int| 0 <= b < old(keys)@.len() ==> opt_chars(#[trigger] old(keys)@[b]) != opt_chars(key),
    ensures
        groups_of_prefix(rows, kind, j + 1, final(keys)@, final(totals)@),
{
    let ghost old_keys = keys@;
    let ghost pre = rows.take(j);
    let ghost next = rows.take(j + 1);
    proof {
        assert forall|jj: int| 0 <= jj < pre.len() implies !in_group(pre, kind, jj, opt_chars(key)) by {
            assert(pre[jj] == rows[jj]);
            if in_group(pre, kind, jj, opt_chars(key)) {
                let a = choose|a: int|
                    0 <= a < old_keys.len() && opt_chars(#[trigger] old_keys[a]) == group_key(kind, rows[jj]);
                assert(opt_chars(old_keys[a]) != opt_chars(key));
            }
        }
        lemma_group_total_absent(pre, kind, opt_chars(key));
        lemma_group_total_step(rows, kind, j, opt_chars(key));
    }
    keys.push(key);
    totals.push(w as u128);
    let ghost pos = old_keys.len() as int;
    assert forall|b: int| 0 <= b < keys@.len() implies (#[trigger] totals@[b]) == group_total(
        next,
        kind,
        opt_chars(keys@[b]),
    ) by {
        lemma_group_total_step(rows, kind, j, opt_chars(keys@[b]));
        if b < pos {
            assert(keys@[b] == old_keys[b]);
            assert(opt_chars(old_keys[b]) != opt_chars(keys@[pos]));
        }
    }
    assert forall|a: int, b: int| 0 <= a < b < keys@.len() implies opt_chars(keys@[a]) != opt_chars(
        keys@[b],
    ) by {
        assert(keys@[a] == old_keys[a]);
        if b < pos {
            assert(keys@[b] == old_keys[b]);
        }
    }
    assert forall|a: int| 0 <= a < keys@.len() implies exists|jj: int|
        0 <= jj < j + 1 && in_group(rows, kind, jj, opt_chars(#[trigger] keys@[a])) by {
        if a == pos {
            assert(in_group(rows, kind, j, opt_chars(keys@[a])));
        } else {
            assert(keys@[a] == old_keys[a]);
            let jj = choose|jj: int| 0 <= jj < j && in_group(rows, kind, jj, opt_chars(#[trigger] old_keys[a]));
        }
    }
    assert forall|jj: int|
        0 <= jj < j + 1 && group_weight(kind, #[trigger] rows[jj]) is Some implies exists|a: int|
            0 <= a < keys@.len() && opt_chars(#[trigger] keys@[a]) == group_key(kind, rows[jj]) by {
        if jj < j {
            let a = choose|a: int|
                0 <= a < old_keys.len() && opt_chars(#[trigger] old_keys[a]) == group_key(kind, rows[jj]);
            assert(keys@[a] == old_keys[a]);
        } else {
            assert(opt_chars(keys@[pos]) == group_key(kind, rows[jj]));
        }
    }
}

/// Sums what the rows of `t` add per group, groups in the order in which
/// their first row comes.
fn accumulate_groups(t: &Table, kind: GroupBy) -> (r: (Vec<Option<String>>, Vec<u128>))
    ensures
        groups_of_prefix(t@, kind, t@.len() as int, r.0@, r.1@),
{
    let sizes = t.size_column();
    let extensions = t.extension_column();
    let parents = t.parent_column();
    let n = sizes.len();
    let ghost rows = t@;
    assert(opt_views(extensions@).len() == extensions@.len());
    assert(string_views(parents@).len() == parents@.len());
    let mut keys: Vec<Option<String>> = Vec::new();
    let mut totals: Vec<u128> = Vec::new();
    let mut j: usize = 0;
    assert(groups_of_prefix(rows, kind, 0, keys@, totals@));
    while j < n
        invariant
            rows == t@,
            n == rows.len(),
            sizes@ == rows.map_values(|row: TableRow| row.size),
            opt_views(extensions@) == rows.map_values(|row: TableRow| row.extension),
            string_views(parents@) == rows.map_values(|row: TableRow| row.parent),
            extensions@.len() == n,
            parents@.len() == n,
            j <= n,
            groups_of_prefix(rows, kind, j as int, keys@, totals@),
        decreases n - j,
    {
        let weight: Option<u64> = match kind {
            GroupBy::ExtensionCount => Some(1u64),
            _ => sizes[j],
        };
        let key: Option<String> = match kind {
            GroupBy::ParentSize => Some(parents[j].clone()),
            _ => clone_opt_string(&extensions[j]),
        };
        assert(string_views(parents@)[j as int] == parents@[j as int]@);
        assert(opt_views(extensions@)[j as int] == opt_chars(extensions@[j as int]));
        match weight {
            None => {
                proof {
                    let pre = rows.take(j as int);
                    let next = rows.take(j + 1);
                    assert forall|a: int| 0 <= a < keys@.len() implies (#[trigger] totals@[a]) == group_total(
                        next,
                        kind,
                        opt_chars(keys@[a]),
                    ) by {
                        lemma_group_total_step(rows, kind, j as int, opt_chars(keys@[a]));
                    }
                    assert forall|a: int| 0 <= a < keys@.len() implies exists|jj: int|
                        0 <= jj < j + 1 && in_group(rows, kind, jj, opt_chars(#[trigger] keys@[a])) by {
                        let jj = choose|jj: int| 0 <= jj < j && in_group(rows, kind, jj, opt_chars(#[trigger] keys@[a]));
                    }
                }
            },
            Some(w) => match find_group(&keys, &key) {
                Some(a) => {
                    bump_group(&keys, &mut totals, a, w, Ghost(rows), Ghost(kind), Ghost(j as int));
                },
                None => {
                    open_group(&mut keys, &mut totals, key, w, Ghost(rows), Ghost(kind), Ghost(j as int));
                },
            },
        }
        j = j + 1;
    }
    assert(rows.take(n as int) =~= rows);
    (keys, totals)
}

/// Orders groups by total, largest first, by insertion; a group goes after
/// those of equal total, so ties keep their order.
fn order_groups(keys: &Vec<Option<String>>, totals: &Vec<u128>) -> (out: Vec<GroupTotal>)
    requires
        keys@.len() == totals@.len(),
        forall|a: int, b: int|
            0 <= a < b < keys@.len() ==> opt_chars(keys@[a]) != opt_chars(keys@[b]),
    ensures
        forall|q: int|
            0 <= q < out@.len() ==> exists|a: int|
                0 <= a < keys@.len() && (#[trigger] out@[q]).total == totals@[a] && opt_chars(out@[q].key)
                    == opt_chars(#[trigger] keys@[a]),
        forall|a: int|
            0 <= a < keys@.len() ==> exists|q: int|
                0 <= q < out@.len() && (#[trigger] out@[q]).total == totals@[a] && opt_chars(out@[q].key)
                    == opt_chars(#[trigger] keys@[a]),
        forall|a: int, b: int|
            0 <= a < b < out@.len() ==> opt_chars(out@[a].key) != opt_chars(out@[b].key),
        forall|a: int, b: int| 0 <= a < b < out@.len() ==> out@[a].total >= out@[b].total,
{
    let g = keys.len();
    let mut out: Vec<GroupTotal> = Vec::new();
    let ghost mut src: Seq<int> = Seq::empty();
    let mut i: usize = 0;
    while i < g
        invariant
            g == keys@.len(),
            g == totals@.len(),
            i <= g,
            out@.len() == i,
            src.len() == i,
            forall|p: int|
                0 <= p < i ==> {
                    &&& 0 <= #[trigger] src[p] < i
                    &&& out@[p].total == totals@[src[p]]
                    &&& opt_chars(out@[p].key) == opt_chars(keys@[src[p]])
                },
            forall|p: int, q: int| 0 <= p < q < i ==> src[p] != src[q],
            forall|m: int| 0 <= m < i ==> src.contains(m),
            forall|p: int, q: int| 0 <= p < q < i ==> out@[p].total >= out@[q].total,
        decreases g - i,
    {
        let x = totals[i];
        let mut p: usize = 0;
        while p < out.len() && out[p].total >= x
            invariant
                p <= out@.len(),
                forall|q: int| 0 <= q < p ==> (#[trigger] out@[q]).total >= x,
            decreases out@.len() - p,
        {
            p = p + 1;
        }
        let item = GroupTotal { key: clone_opt_string(&keys[i]), total: x };
        let ghost old_out = out@;
        let ghost old_src = src;
        out.insert(p, item);
        proof {
            src = src.insert(p as int, i as int);
            old_src.insert_ensures(p as int, i as int);
            assert(out@ == old_out.insert(p as int, item));
            old_out.insert_ensures(p as int, item);
            assert forall|q: int| 0 <= q < i + 1 implies {
                &&& 0 <= #[trigger] src[q] < i + 1
                &&& out@[q].total == totals@[src[q]]
                &&& opt_chars(out@[q].key) == opt_chars(keys@[src[q]])
            } by {
                if q < p {
                    assert(src[q] == old_src[q]);
                } else if q > p {
                    assert(src[q] == old_src[q - 1]);
                }
            }
            assert forall|a: int, b: int| 0 <= a < b < i + 1 implies src[a] != src[b] by {
                if a < p && b < p {
                } else if a < p && b == p {
                    assert(old_src[a] < i);
                } else if a < p {
                    assert(src[b] == old_src[b - 1]);
                } else if a == p {
                    assert(src[b] == old_src[b - 1]);
                    assert(old_src[b - 1] < i);
                } else {
                    assert(src[a] == old_src[a - 1]);
                    assert(src[b] == old_src[b - 1]);
                }
            }
            assert forall|m: int| 0 <= m < i + 1 implies src.contains(m) by {
                if m == i {
                    assert(src[p as int] == m);
                } else {
                    assert(old_src.contains(m));
                    let w = choose|w: int| 0 <= w < old_src.len() && old_src[w] == m;
                    if w < p {
                        assert(src[w] == m);
                    } else {
                        assert(src[w + 1] == m);
                    }
                }
            }
            assert forall|a: int, b: int| 0 <= a < b < i + 1 implies out@[a].total >= out@[b].total by {
                if b == p {
                } else if a == p {
                    assert(out@[b] == old_out[b - 1]);
                    if p < old_out.len() {
                        assert(old_out[p as int].total < x);
                        assert(old_out[p as int].total >= old_out[b - 1].total || b - 1 == p);
                    }
                } else if a < p && b < p {
                } else if a < p {
                    assert(out@[b] == old_out[b - 1]);
                } else {
                    assert(out@[a] == old_out[a - 1]);
                    assert(out@[b] == old_out[b - 1]);
                }
            }
        }
        i = i + 1;
    }
    proof {
        assert forall|q: int| 0 <= q < out@.len() implies exists|a: int|
            0 <= a < keys@.len() && (#[trigger] out@[q]).total == totals@[a] && opt_chars(out@[q].key)
                == opt_chars(#[trigger] keys@[a]) by {
            let a = src[q];
            assert(opt_chars(out@[q].key) == opt_chars(keys@[a]));
        }
        assert forall|a: int| 0 <= a < keys@.len() implies exists|q: int|
            0 <= q < out@.len() && (#[trigger] out@[q]).total == totals@[a] && opt_chars(out@[q].key)
                == opt_chars(#[trigger] keys@[a]) by {
            assert(src.contains(a));
            let q = choose|q: int| 0 <= q < src.len() && src[q] == a;
            assert(opt_chars(out@[q].key) == opt_chars(keys@[a]));
        }
        assert forall|a: int, b: int| 0 <= a < b < out@.len() implies opt_chars(out@[a].key) != opt_chars(
            out@[b].key,
        ) by {
            let sa = src[a];
            let sb = src[b];
            if sa < sb {
                assert(opt_chars(keys@[sa]) != opt_chars(keys@[sb]));
            } else {
                assert(opt_chars(keys@[sb]) != opt_chars(keys@[sa]));
            }
        }
    }
    out
}

/// Groups the rows of `t` under `kind`, largest total first; groups of
/// equal total keep the order in which their first row comes.
pub fn group_rows(t: &Table, kind: GroupBy) -> (r: Vec<GroupTotal>)
    ensures
        grouped(t@, kind, r@),
{
    let (keys, totals) = accumulate_groups(t, kind);
    let out = order_groups(&keys, &totals);
    let ghost rows = t@;
    assert(rows.take(rows.len() as int) =~= rows);
    assert forall|q: int| 0 <= q < out@.len() implies exists|jj: int|
        0 <= jj < rows.len() && in_group(rows, kind, jj, opt_chars((#[trigger] out@[q]).key)) by {
        let a = choose|a: int|
            0 <= a < keys@.len() && (#[trigger] out@[q]).total == totals@[a] && opt_chars(out@[q].key)
                == opt_chars(#[trigger] keys@[a]);
        let jj = choose|jj: int| 0 <= jj < rows.len() && in_group(rows, kind, jj, opt_chars(#[trigger] keys@[a]));
    }
    assert forall|jj: int|
        0 <= jj < rows.len() && group_weight(kind, #[trigger] rows[jj]) is Some implies exists|q: int|
            0 <= q < out@.len() && opt_chars((#[trigger] out@[q]).key) == group_key(kind, rows[jj]) by {
        let a = choose|a: int| 0 <= a < keys@.len() && opt_chars(#[trigger] keys@[a]) == group_key(kind, rows[jj]);
        let q = choose|q: int|
            0 <= q < out@.len() && (#[trigger] out@[q]).total == totals@[a] && opt_chars(out@[q].key)
                == opt_chars(#[trigger] keys@[a]);
    }
    assert forall|q: int| 0 <= q < out@.len() implies (#[trigger] out@[q]).total == group_total(
        rows,
        kind,
        opt_chars(out@[q].key),
    ) by {
        let a = choose|a: int|
            0 <= a < keys@.len() && (#[trigger] out@[q]).total == totals@[a] && opt_chars(out@[q].key)
                == opt_chars(#[trigger] keys@[a]);
    }
    out
}

/// Sizes summed per extension over the rows that have a size, largest sum
/// first.
pub fn file_size_per_extension(t: &Table) -> (r: Vec<GroupTotal>)
    ensures
        grouped(t@, GroupBy::ExtensionSize, r@),
{
    group_rows(t, GroupBy::ExtensionSize)
}

/// Rows counted per extension, folders included (in the group without an
/// extension), largest count first.
pub fn extension_counts(t: &Table) -> (r: Vec<GroupTotal>)
    ensures
        grouped(t@, GroupBy::ExtensionCount, r@),
{
    group_rows(t, GroupBy::ExtensionCount)
}

/// Sizes summed per parent folder over the rows that have a size, largest
/// sum first. A size counts for its immediate parent only.
pub fn largest_folders(t: &Table) -> (r: Vec<GroupTotal>)
    ensures
        grouped(t@, GroupBy::ParentSize, r@),
{
    group_rows(t, GroupBy::ParentSize)
}

/// The sum of what all rows that take part add.
pub open spec fn weight_sum(rows: Seq<TableRow>, kind: GroupBy) -> int
    decreases rows.len(),
{
    if rows.len() == 0 {
        0
    } else {
        weight_sum(rows.drop_last(), kind) + match group_weight(kind, rows.last()) {
            Some(w) => w as int,
            None => 0,
        }
    }
}

/// The sum of the totals of a list of groups.
pub open spec fn totals_sum(out: Seq<GroupTotal>) -> int
    decreases out.len(),
{
    if out.len() == 0 {
        0
    } else {
        totals_sum(out.drop_last()) + out.last().total
    }
}

spec fn keys_total(ks: Seq<Option<Seq<char>>>, rows: Seq<TableRow>, kind: GroupBy) -> int
    decreases ks.len(),
{
    if ks.len() == 0 {
        0
    } else {
        keys_total(ks.drop_last(), rows, kind) + group_total(rows, kind, ks.last())
    }
}

spec fn count_of(ks: Seq<Option<Seq<char>>>, k: Option<Seq<char>>) -> int
    decreases ks.len(),
{
    if ks.len() == 0 {
        0
    } else {
        count_of(ks.drop_last(), k) + if ks.last() == k {
            1int
        } else {
            0
        }
    }
}

proof fn lemma_count_of_distinct(ks: Seq<Option<Seq<char>>>, k: Option<Seq<char>>)
    requires
        forall|a: int, b: int| 0 <= a < b < ks.len() ==> ks[a] != ks[b],
    ensures
        count_of(ks, k) == if ks.contains(k) {
            1int
        } else {
            0
        },
    decreases ks.len(),
{
    if ks.len() > 0 {
        let rest = ks.drop_last();
        lemma_count_of_distinct(rest, k);
        if ks.last() == k {
            assert(!rest.contains(k)) by {
                if rest.contains(k) {
                    let w = choose|w: int| 0 <= w < rest.len() && rest[w] == k;
                    assert(ks[w] == ks[ks.len() - 1]);
                }
            }
            assert(ks.contains(k)) by {
                assert(ks[ks.len() - 1] == k);
            }
        } else {
            assert(ks.contains(k) == rest.contains(k)) by {
                if ks.contains(k) {
                    let w = choose|w: int| 0 <= w < ks.len() && ks[w] == k;
                    assert(rest[w] == k);
                }
                if rest.contains(k) {
                    let w = choose|w: int| 0 <= w < rest.len() && rest[w] == k;
                    assert(ks[w] == k);
                }
            }
        }
    }
}

proof fn lemma_keys_total_step(ks: Seq<Option<Seq<char>>>, rows: Seq<TableRow>, kind: GroupBy)
    requires
        rows.len() > 0,
    ensures
        keys_total(ks, rows, kind) == keys_total(ks, rows.drop_last(), kind) + match group_weight(
            kind,
            rows.last(),
        ) {
            Some(w) => w as int * count_of(ks, group_key(kind, rows.last())),
            None => 0,
        },
    decreases ks.len(),
{
    reveal(group_total);
    if ks.len() > 0 {
        lemma_keys_total_step(ks.drop_last(), rows, kind);
        match group_weight(kind, rows.last()) {
            Some(w) => {
                let c = count_of(ks.drop_last(), group_key(kind, rows.last()));
                assert(w as int * (c + 1) == w as int * c + w as int) by (nonlinear_arith);
            },
            None => {},
        }
    }
}

proof fn lemma_keys_total_no_rows(ks: Seq<Option<Seq<char>>>, rows: Seq<TableRow>, kind: GroupBy)
    requires
        rows.len() == 0,
    ensures
        keys_total(ks, rows, kind) == 0,
    decreases ks.len(),
{
    reveal(group_total);
    if ks.len() > 0 {
        lemma_keys_total_no_rows(ks.drop_last(), rows, kind);
    }
}

proof fn lemma_keys_total_partition(ks: Seq<Option<Seq<char>>>, rows: Seq<TableRow>, kind: GroupBy)
    requires
        forall|a: int, b: int| 0 <= a < b < ks.len() ==> ks[a] != ks[b],
        forall|j: int|
            0 <= j < rows.len() && group_weight(kind, #[trigger] rows[j]) is Some ==> ks.contains(
                group_key(kind, rows[j]),
            ),
    ensures
        keys_total(ks, rows, kind) == weight_sum(rows, kind),
    decreases rows.len(),
{
    if rows.len() == 0 {
        lemma_keys_total_no_rows(ks, rows, kind);
    } else {
        let rest = rows.drop_last();
        assert forall|j: int|
            0 <= j < rest.len() && group_weight(kind, #[trigger] rest[j]) is Some implies ks.contains(
                group_key(kind, rest[j]),
            ) by {
            assert(rest[j] == rows[j]);
        }
        lemma_keys_total_partition(ks, rest, kind);
        lemma_keys_total_step(ks, rows, kind);
        let last = rows.last();
        if group_weight(kind, last) is Some {
            assert(rows[rows.len() - 1] == last);
            lemma_count_of_distinct(ks, group_key(kind, last));
        }
    }
}

proof fn lemma_totals_sum_keys(rows: Seq<TableRow>, kind: GroupBy, out: Seq<GroupTotal>)
    requires
        forall|i: int|
            0 <= i < out.len() ==> (#[trigger] out[i]).total == group_total(rows, kind, opt_chars(out[i].key)),
    ensures
        totals_sum(out) == keys_total(out.map_values(|g: GroupTotal| opt_chars(g.key)), rows, kind),
    decreases out.len(),
{
    if out.len() > 0 {
        let rest = out.drop_last();
        assert forall|i: int|
            0 <= i < rest.len() implies (#[trigger] rest[i]).total == group_total(rows, kind, opt_chars(rest[i].key)) by {
            assert(rest[i] == out[i]);
        }
        lemma_totals_sum_keys(rows, kind, rest);
        let ks = out.map_values(|g: GroupTotal| opt_chars(g.key));
        assert(ks.drop_last() =~= rest.map_values(|g: GroupTotal| opt_chars(g.key)));
        assert(out[out.len() - 1] == out.last());
    }
}

proof fn lemma_weight_sum_count(rows: Seq<TableRow>)
    ensures
        weight_sum(rows, GroupBy::ExtensionCount) == rows.len(),
    decreases rows.len(),
{
    if rows.len() > 0 {
        lemma_weight_sum_count(rows.drop_last());
    }
}

proof fn lemma_weight_sum_size(rows: Seq<TableRow>, kind: GroupBy)
    requires
        kind != GroupBy::ExtensionCount,
    ensures
        weight_sum(rows, kind) == size_sum(rows),
    decreases rows.len(),
{
    if rows.len() > 0 {
        lemma_weight_sum_size(rows.drop_last(), kind);
    }
}

/// Groups partition the rows that take part: the groups' totals add up to
/// what all those rows add together.
pub proof fn lemma_groups_partition_rows(rows: Seq<TableRow>, kind: GroupBy, out: Seq<GroupTotal>)
    requires
        grouped(rows, kind, out),
    ensures
        totals_sum(out) == weight_sum(rows, kind),
{
    let ks = out.map_values(|g: GroupTotal| opt_chars(g.key));
    lemma_totals_sum_keys(rows, kind, out);
    assert forall|a: int, b: int| 0 <= a < b < ks.len() implies ks[a] != ks[b] by {
        assert(opt_chars(out[a].key) != opt_chars(out[b].key));
    }
    assert forall|j: int|
        0 <= j < rows.len() && group_weight(kind, #[trigger] rows[j]) is Some implies ks.contains(
            group_key(kind, rows[j]),
        ) by {
        let i = choose|i: int| 0 <= i < out.len() && opt_chars((#[trigger] out[i]).key) == group_key(kind, rows[j]);
        assert(ks[i] == group_key(kind, rows[j]));
    }
    lemma_keys_total_partition(ks, rows, kind);
}

/// Counting rows per extension accounts for every row once: the counts add
/// up to the number of rows.
pub proof fn lemma_extension_counts_cover_all_rows(rows: Seq<TableRow>, out: Seq<GroupTotal>)
    requires
        grouped(rows, GroupBy::ExtensionCount, out),
    ensures
        totals_sum(out) == rows.len(),
{
    lemma_groups_partition_rows(rows, GroupBy::ExtensionCount, out);
    lemma_weight_sum_count(rows);
}

/// Summing sizes per extension, or per parent folder, accounts for every
/// size once: the group sums add up to the total size.
pub proof fn lemma_size_groups_add_up_to_total(rows: Seq<TableRow>, kind: GroupBy, out: Seq<GroupTotal>)
    requires
        kind != GroupBy::ExtensionCount,
        grouped(rows, kind, out),
    ensures
        totals_sum(out) == size_sum(rows),
{
    lemma_groups_partition_rows(rows, kind, out);
    lemma_weight_sum_size(rows, kind);
}

} // verus!

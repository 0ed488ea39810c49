//! The order in which a finished history is drawn: every commit before its parents, one line of
//! history finished before the next is begun.
use vstd::prelude::*;

use crate::commit::{CommitRow, RowView};
use crate::lanes::is_ordering;
use crate::ids::ObjectId;

verus! {

/// The position of the last occurrence of `id` in `ids`.
pub open spec fn last_index(ids: Seq<ObjectId>, id: ObjectId) -> Option<int>
    decreases ids.len(),
{
    if ids.len() == 0 {
        None
    } else if ids.last() == id {
        Some(ids.len() - 1)
    } else {
        last_index(ids.drop_last(), id)
    }
}

/// The last occurrence is an occurrence, and no later position holds the identity.
pub proof fn lemma_last_index(ids: Seq<ObjectId>, id: ObjectId)
    ensures
        match last_index(ids, id) {
            Some(i) => 0 <= i < ids.len() && ids[i] == id && forall|j: int| i < j < ids.len() ==> ids[j] != id,
            None => forall|j: int| 0 <= j < ids.len() ==> ids[j] != id,
        },
    decreases ids.len(),
{
    if ids.len() > 0 && ids.last() != id {
        lemma_last_index(ids.drop_last(), id);
        assert forall|j: int| 0 <= j < ids.len() - 1 implies ids.drop_last()[j] == ids[j] by {}
    }
}

/// The parents of each row.
pub open spec fn parent_lists(rows: Seq<CommitRow>) -> Seq<Seq<ObjectId>> {
    rows.map_values(|r: CommitRow| r.parent_ids@)
}

/// How many of the first `j` parents of a row name the row at position `v`.
pub open spec fn occ_upto(ps: Seq<ObjectId>, ids: Seq<ObjectId>, v: int, j: int) -> nat
    decreases j,
{
    if j <= 0 {
        0
    } else {
        occ_upto(ps, ids, v, j - 1) + if last_index(ids, ps[j - 1]) == Some(v) {
            1nat
        } else {
            0nat
        }
    }
}

/// How many parents of a row name the row at position `v`.
pub open spec fn occ(ps: Seq<ObjectId>, ids: Seq<ObjectId>, v: int) -> nat {
    occ_upto(ps, ids, v, ps.len() as int)
}

/// How many parents of the rows before `k` that are not yet drawn name the row at position `v`.
pub open spec fn incoming_upto(parents: Seq<Seq<ObjectId>>, ids: Seq<ObjectId>, done: Seq<bool>, v: int, k: int) -> nat
    decreases k,
{
    if k <= 0 {
        0
    } else {
        incoming_upto(parents, ids, done, v, k - 1) + if done[k - 1] {
            0nat
        } else {
            occ(parents[k - 1], ids, v)
        }
    }
}

/// How many parents of the rows not yet drawn name the row at position `v`.
pub open spec fn incoming(parents: Seq<Seq<ObjectId>>, ids: Seq<ObjectId>, done: Seq<bool>, v: int) -> nat {
    incoming_upto(parents, ids, done, v, parents.len() as int)
}

/// Drawing one more row removes its parents from those still waiting.
pub proof fn lemma_incoming_done(parents: Seq<Seq<ObjectId>>, ids: Seq<ObjectId>, done: Seq<bool>, v: int, x: int, k: int)
    requires
        0 <= x < done.len(),
        done.len() == parents.len(),
        !done[x],
        0 <= k <= parents.len(),
    ensures
        incoming_upto(parents, ids, done.update(x, true), v, k) == incoming_upto(parents, ids, done, v, k) - (if x < k {
            occ(parents[x], ids, v) as int
        } else {
            0int
        }),
    decreases k,
{
    if k > 0 {
        lemma_incoming_done(parents, ids, done, v, x, k - 1);
    }
}

/// No row still waiting names a row among those counted.
pub proof fn lemma_incoming_zero(parents: Seq<Seq<ObjectId>>, ids: Seq<ObjectId>, done: Seq<bool>, v: int, k: int, u: int)
    requires
        incoming_upto(parents, ids, done, v, k) == 0,
        0 <= u < k <= parents.len(),
        k <= done.len(),
        !done[u],
    ensures
        occ(parents[u], ids, v) == 0,
    decreases k,
{
    if u < k - 1 {
        lemma_incoming_zero(parents, ids, done, v, k - 1, u);
    }
}

/// A parent that names `v` counts toward the occurrences of `v`.
pub proof fn lemma_occ_positive(ps: Seq<ObjectId>, ids: Seq<ObjectId>, v: int, j: int, k: int)
    requires
        0 <= j < k <= ps.len(),
        last_index(ids, ps[j]) == Some(v),
    ensures
        occ_upto(ps, ids, v, k) >= 1,
    decreases k,
{
    if j < k - 1 {
        lemma_occ_positive(ps, ids, v, j, k - 1);
    }
}

/// The occurrences counted up to `j` are at most all of them.
pub proof fn lemma_occ_monotone(ps: Seq<ObjectId>, ids: Seq<ObjectId>, v: int, j: int, k: int)
    requires
        0 <= j <= k,
    ensures
        occ_upto(ps, ids, v, j) <= occ_upto(ps, ids, v, k),
    decreases k,
{
    if j < k {
        lemma_occ_monotone(ps, ids, v, j, k - 1);
    }
}

/// The incoming count of a row up to `k` includes the occurrences from every waiting row before `k`.
pub proof fn lemma_incoming_includes(parents: Seq<Seq<ObjectId>>, ids: Seq<ObjectId>, done: Seq<bool>, v: int, k: int, u: int)
    requires
        0 <= u < k <= parents.len(),
        k <= done.len(),
        !done[u],
    ensures
        incoming_upto(parents, ids, done, v, k) >= occ(parents[u], ids, v),
    decreases k,
{
    if u < k - 1 {
        lemma_incoming_includes(parents, ids, done, v, k - 1, u);
    }
}

/// The incoming count with nothing drawn.
pub open spec fn in_degree(parents: Seq<Seq<ObjectId>>, ids: Seq<ObjectId>, v: int) -> nat {
    incoming(parents, ids, Seq::new(parents.len(), |i: int| false), v)
}

/// No row is named as a parent so often that its count would saturate.
pub open spec fn degrees_fit(parents: Seq<Seq<ObjectId>>, ids: Seq<ObjectId>) -> bool {
    forall|v: int| 0 <= v < ids.len() ==> #[trigger] in_degree(parents, ids, v) < usize::MAX
}

/// `order` lists every row whose parents all come later.
pub open spec fn parents_follow(parents: Seq<Seq<ObjectId>>, ids: Seq<ObjectId>, order: Seq<usize>) -> bool {
    forall|a: int, b: int|
        0 <= b <= a < order.len() ==> occ(parents[#[trigger] order[a] as int], ids, #[trigger] order[b] as int)
            == 0
}

/// The position of the last occurrence of `id` in `ids`.
pub fn last_position(ids: &Vec<ObjectId>, id: ObjectId) -> (r: Option<usize>)
    ensures
        match r {
            Some(i) => last_index(ids@, id) == Some(i as int),
            None => last_index(ids@, id) == None::<int>,
        },
{
    proof {
        lemma_last_index(ids@, id);
    }
    let mut i: usize = ids.len();
    while i > 0
        invariant
            i <= ids@.len(),
            forall|j: int| i <= j < ids@.len() ==> ids@[j] != id,
        decreases i,
    {
        if ids[i - 1] == id {
            proof {
                lemma_last_index(ids@, id);
                match last_index(ids@, id) {
                    Some(k) => {
                        if k < i - 1 {
                            assert(ids@[i - 1] != id);
                        }
                    },
                    None => {
                        assert(ids@[i - 1] != id);
                    },
                }
            }
            return Some(i - 1);
        }
        i -= 1;
    }
    None
}

/// The larger count saturates at the largest `usize`.
pub open spec fn sat(x: nat) -> nat {
    if x >= usize::MAX {
        usize::MAX as nat
    } else {
        x
    }
}

/// How many rows name each row as a parent, saturating: the counts that drawing starts from.
pub open spec fn initial_counts(parents: Seq<Seq<ObjectId>>, ids: Seq<ObjectId>) -> Seq<usize> {
    Seq::new(parents.len(), |v: int| sat(in_degree(parents, ids, v)) as usize)
}

/// The rows from `i` on whose count is zero, the last of them first, so that the first is on top.
pub open spec fn ready_from(counts: Seq<usize>, i: int) -> Seq<usize>
    decreases counts.len() - i,
{
    if 0 <= i < counts.len() {
        let rest = ready_from(counts, i + 1);
        if counts[i] == 0 {
            rest.push(i as usize)
        } else {
            rest
        }
    } else {
        seq![]
    }
}

/// Counts and ready rows once the first `j` parents of a drawn row, taken from the last, release
/// the rows they name: each named row loses one count, and a row whose count falls to zero becomes
/// ready on top.
pub open spec fn release(
    parents: Seq<ObjectId>,
    ids: Seq<ObjectId>,
    counts: Seq<usize>,
    ready: Seq<usize>,
    j: int,
) -> (Seq<usize>, Seq<usize>)
    decreases j,
{
    if j <= 0 {
        (counts, ready)
    } else {
        let (c, r) = match last_index(ids, parents[j - 1]) {
            Some(p) => if counts[p] > 0 {
                (counts.update(p, (counts[p] - 1) as usize), if counts[p] == 1 {
                    ready.push(p as usize)
                } else {
                    ready
                })
            } else {
                (counts, ready)
            },
            None => (counts, ready),
        };
        release(parents, ids, c, r, j - 1)
    }
}

/// The rows drawn from a state of counts and ready rows: the ready row on top is drawn next and
/// releases its parents, until every row was drawn or none is ready.
pub open spec fn drain(
    parents: Seq<Seq<ObjectId>>,
    ids: Seq<ObjectId>,
    counts: Seq<usize>,
    ready: Seq<usize>,
    order: Seq<usize>,
) -> Seq<usize>
    decreases parents.len() - order.len(),
{
    if order.len() >= parents.len() || ready.len() == 0 {
        order
    } else {
        let x = ready.last();
        let (c, r) = release(parents[x as int], ids, counts, ready.drop_last(), parents[x as int].len() as int);
        drain(parents, ids, c, r, order.push(x))
    }
}

/// The rows in the order they are drawn, from the rows that no row names.
pub open spec fn drawing_sequence(parents: Seq<Seq<ObjectId>>, ids: Seq<ObjectId>) -> Seq<usize> {
    let counts = initial_counts(parents, ids);
    drain(parents, ids, counts, ready_from(counts, 0), seq![])
}

/// No position occurs twice.
pub open spec fn distinct(s: Seq<usize>) -> bool {
    forall|a: int, b: int| 0 <= a < b < s.len() ==> s[a] != s[b]
}

/// Every row was drawn, each once.
pub open spec fn drawing_complete(parents: Seq<Seq<ObjectId>>, ids: Seq<ObjectId>) -> bool {
    let e = drawing_sequence(parents, ids);
    e.len() == parents.len() && distinct(e)
}

/// For every row, how many rows name it as a parent, saturating.
fn count_children(rows: &Vec<CommitRow>, ids: &Vec<ObjectId>) -> (children: Vec<usize>)
    requires
        ids@.len() == rows@.len(),
    ensures
        children@.len() == rows@.len(),
        forall|v: int|
            0 <= v < rows@.len() ==> #[trigger] children@[v] == sat(in_degree(parent_lists(rows@), ids@, v)),
{
    let n = rows.len();
    let ghost ps = parent_lists(rows@);
    let ghost none = Seq::new(ps.len(), |i: int| false);
    let mut children: Vec<usize> = vec![0usize; n];
    let mut i: usize = 0;
    while i < n
        invariant
            n == rows@.len(),
            ps == parent_lists(rows@),
            none == Seq::new(ps.len(), |i: int| false),
            ids@.len() == n,
            i <= n,
            children@.len() == n,
            forall|v: int| 0 <= v < n ==> #[trigger] children@[v] == sat(incoming_upto(ps, ids@, none, v, i as int)),
        decreases n - i,
    {
        let mut j: usize = 0;
        while j < rows[i].parent_ids.len()
            invariant
                n == rows@.len(),
                ps == parent_lists(rows@),
                none == Seq::new(ps.len(), |i: int| false),
                ids@.len() == n,
                i < n,
                j <= ps[i as int].len(),
                children@.len() == n,
                forall|v: int|
                    0 <= v < n ==> #[trigger] children@[v] == sat(
                        incoming_upto(ps, ids@, none, v, i as int) + occ_upto(ps[i as int], ids@, v, j as int),
                    ),
            decreases ps[i as int].len() - j,
        {
            let parent = rows[i].parent_ids[j];
            assert(ps[i as int][j as int] == parent);
            let target = last_position(ids, parent);
            if let Some(p) = target {
                proof {
                    lemma_last_index(ids@, parent);
                }
                let c = children[p];
                children.set(p, c.saturating_add(1));
            }
            j += 1;
        }
        proof {
            assert forall|v: int| 0 <= v < n implies #[trigger] children@[v] == sat(
                incoming_upto(ps, ids@, none, v, i + 1),
            ) by {
                assert(!none[i as int]);
            }
        }
        i += 1;
    }
    children
}

/// The rows can be drawn so that every row comes before the rows its parents name: some ordering
/// of all rows has the parents of each row after it, and no row names itself.
pub open spec fn drawable(parents: Seq<Seq<ObjectId>>, ids: Seq<ObjectId>, n: int) -> bool {
    exists|order: Seq<usize>|
        is_ordering(order.map_values(|v: usize| v as int), n) && #[trigger] parents_follow(parents, ids, order)
}

/// A row still counted as named by some waiting row is named by one of the first `k` rows that
/// waits.
proof fn lemma_incoming_witness(parents: Seq<Seq<ObjectId>>, ids: Seq<ObjectId>, done: Seq<bool>, v: int, k: int)
    requires
        incoming_upto(parents, ids, done, v, k) > 0,
    ensures
        exists|w: int| 0 <= w < k && !done[w] && #[trigger] occ(parents[w], ids, v) > 0,
    decreases k,
{
    if k > 0 {
        if incoming_upto(parents, ids, done, v, k - 1) > 0 {
            lemma_incoming_witness(parents, ids, done, v, k - 1);
            let w = choose|w: int| 0 <= w < k - 1 && !done[w] && #[trigger] occ(parents[w], ids, v) > 0;
            assert(occ(parents[w], ids, v) > 0);
        } else {
            assert(!done[k - 1] && occ(parents[k - 1], ids, v) > 0);
        }
    }
}

/// Where every waiting row is still named by a waiting row, an order that draws every row before
/// its parents draws only rows already drawn: the first waiting row of such an order would be named
/// by a row that comes after it.
proof fn lemma_stuck_rows_are_done(
    parents: Seq<Seq<ObjectId>>,
    ids: Seq<ObjectId>,
    done: Seq<bool>,
    order: Seq<usize>,
    m: int,
)
    requires
        parents.len() == done.len(),
        is_ordering(order.map_values(|v: usize| v as int), parents.len() as int),
        parents_follow(parents, ids, order),
        forall|v: int| 0 <= v < parents.len() && !done[v] ==> #[trigger] incoming(parents, ids, done, v) > 0,
        0 <= m <= parents.len(),
    ensures
        forall|k: int| 0 <= k < m ==> done[#[trigger] order[k] as int],
    decreases m,
{
    if m > 0 {
        lemma_stuck_rows_are_done(parents, ids, done, order, m - 1);
        let n = parents.len() as int;
        let ord = order.map_values(|v: usize| v as int);
        let v = order[m - 1] as int;
        assert(ord[m - 1] == v);
        assert(0 <= v < n);
        if !done[v] {
            assert(incoming(parents, ids, done, v) > 0);
            lemma_incoming_witness(parents, ids, done, v, n);
            let w = choose|w: int| 0 <= w < n && !done[w] && #[trigger] occ(parents[w], ids, v) > 0;
            lemma_ordering_onto(ord, n, w);
            let a = choose|a: int| 0 <= a < n && ord[a] == w;
            assert(order[a] as int == w);
            if a < m - 1 {
                assert(done[order[a] as int]);
            } else {
                assert(occ(parents[order[a] as int], ids, order[m - 1] as int) == 0);
            }
        }
    }
}

/// A list without repetitions that holds every position below `n` has at least `n` entries.
proof fn lemma_covering_list(order: Seq<usize>, n: int)
    requires
        0 <= n <= usize::MAX,
        forall|a: int, b: int| 0 <= a < b < order.len() ==> order[a] != order[b],
        forall|v: int| 0 <= v < n ==> #[trigger] order.contains(v as usize),
    ensures
        order.len() >= n,
{
    let s = order.map_values(|v: usize| v as int);
    assert(s.no_duplicates()) by {
        assert forall|a: int, b: int| 0 <= a < s.len() && 0 <= b < s.len() && a != b implies s[a] != s[b] by {
            if a < b {
                assert(order[a] != order[b]);
            } else {
                assert(order[b] != order[a]);
            }
        }
    }
    s.unique_seq_to_set();
    vstd::seq_lib::seq_to_set_is_finite(s);
    vstd::set_lib::lemma_int_range(0, n);
    let range = vstd::set_lib::set_int_range(0, n);
    assert(range.subset_of(s.to_set())) by {
        assert forall|x: int| range.contains(x) implies s.to_set().contains(x) by {
            assert(order.contains(x as usize));
            let k = choose|k: int| 0 <= k < order.len() && order[k] == x as usize;
            assert(s[k] == x);
        }
    }
    vstd::set_lib::lemma_len_subset(range, s.to_set());
}

/// The order in which the rows are drawn: a row is ready once every row naming it as a parent was
/// drawn, and the row that became ready last is drawn next, so that one line of history is finished
/// before the next begins; rows ready from the start are taken first to last. The order is exactly
/// `drawing_sequence`; it is `None` where that sequence does not draw every row once, as where parents
/// form a cycle.
pub fn emission_order(rows: &Vec<CommitRow>, ids: &Vec<ObjectId>) -> (r: Option<Vec<usize>>)
    requires
        ids@.len() == rows@.len(),
    ensures
        r is Some <==> drawing_complete(parent_lists(rows@), ids@),
        r matches Some(order) ==> order@ == drawing_sequence(parent_lists(rows@), ids@),
        r matches Some(order) ==> is_ordering(order@.map_values(|v: usize| v as int), rows@.len() as int),
        r matches Some(order) ==> (degrees_fit(parent_lists(rows@), ids@) ==> parents_follow(
            parent_lists(rows@),
            ids@,
            order@,
        )),
        degrees_fit(parent_lists(rows@), ids@) ==> (r is Some <==> drawable(
            parent_lists(rows@),
            ids@,
            rows@.len() as int,
        )),
{
    let n = rows.len();
    let ghost ps = parent_lists(rows@);
    let ghost fits = degrees_fit(ps, ids@);
    let mut children = count_children(rows, ids);
    let ghost counts = children@;
    let ghost mut done: Seq<bool> = Seq::new(n as nat, |i: int| false);
    proof {
        assert(done =~= Seq::new(ps.len(), |i: int| false));
        assert(counts =~= initial_counts(ps, ids@));
    }
    // Rows that no row names as a parent are ready, the first row on top.
    let mut ready: Vec<usize> = Vec::new();
    let mut i: usize = n;
    while i > 0
        invariant
            n == rows@.len(),
            ps == parent_lists(rows@),
            ids@.len() == n,
            fits == degrees_fit(ps, ids@),
            done == Seq::new(n as nat, |i: int| false),
            i <= n,
            children@.len() == n,
            children@ == counts,
            counts == initial_counts(ps, ids@),
            ready@ == ready_from(counts, i as int),
            forall|v: int| 0 <= v < n ==> #[trigger] children@[v] == sat(in_degree(ps, ids@, v)),
            forall|k: int| 0 <= k < ready@.len() ==> i <= #[trigger] ready@[k] < n,
            forall|k: int| 0 <= k < ready@.len() ==> children@[#[trigger] ready@[k] as int] == 0,
            ready@.no_duplicates(),
            forall|v: int| i <= v < n && #[trigger] children@[v] == 0 ==> ready@.contains(v as usize),
        decreases i,
    {
        i -= 1;
        let ghost before = ready@;
        if children[i] == 0 {
            ready.push(i);
            assert forall|v: int| i <= v < n && #[trigger] children@[v] == 0 implies ready@.contains(v as usize) by {
                if v == i {
                    assert(ready@[ready@.len() - 1] == v as usize);
                } else {
                    let k = choose|k: int| 0 <= k < before.len() && before[k] == v as usize;
                    assert(ready@[k] == v as usize);
                }
            }
        }
    }
    proof {
        if fits {
            assert forall|v: int| 0 <= v < n implies #[trigger] children@[v] == incoming(ps, ids@, done, v) by {
                assert(in_degree(ps, ids@, v) < usize::MAX);
                assert(done =~= Seq::new(ps.len(), |i: int| false));
            }
        }
    }
    // Draw a ready row, then make ready those of its parents that no other waiting row names.
    let mut order: Vec<usize> = Vec::new();
    proof {
        assert(order@ =~= seq![]);
    }
    while order.len() < n
        invariant
            n == rows@.len(),
            ps == parent_lists(rows@),
            ids@.len() == n,
            fits == degrees_fit(ps, ids@),
            done.len() == n,
            order@.len() <= n,
            children@.len() == n,
            drawing_sequence(ps, ids@) == drain(ps, ids@, children@, ready@, order@),
            forall|k: int| 0 <= k < ready@.len() ==> #[trigger] ready@[k] < n,
            forall|k: int| 0 <= k < order@.len() ==> #[trigger] order@[k] < n,
            fits ==> forall|v: int| 0 <= v < n ==> #[trigger] children@[v] == incoming(ps, ids@, done, v),
            fits ==> ready@.no_duplicates(),
            fits ==> forall|k: int| 0 <= k < ready@.len() ==> !done[#[trigger] ready@[k] as int],
            fits ==> forall|k: int| 0 <= k < ready@.len() ==> children@[#[trigger] ready@[k] as int] == 0,
            fits ==> forall|k: int| 0 <= k < order@.len() ==> done[#[trigger] order@[k] as int],
            fits ==> forall|v: int, u: int|
                0 <= v < n && 0 <= u < n && done[v] && !done[u] ==> #[trigger] occ(ps[u], ids@, v) == 0,
            fits ==> parents_follow(ps, ids@, order@),
            fits ==> forall|v: int|
                0 <= v < n && !done[v] && #[trigger] children@[v] == 0 ==> ready@.contains(v as usize),
            fits ==> forall|a: int, b: int| 0 <= a < b < order@.len() ==> order@[a] != order@[b],
            fits ==> forall|v: int| 0 <= v < n && #[trigger] done[v] ==> order@.contains(v as usize),
        ensures
            order@.len() >= n || ready@.len() == 0,
        decreases n - order@.len(),
    {
        let ghost full = ready@;
        let x = match ready.pop() {
            Some(x) => x,
            None => break,
        };
        let ghost popped = ready@;
        let ghost cx = children@;
        let ghost released = release(ps[x as int], ids@, cx, popped, ps[x as int].len() as int);
        proof {
            assert(drawing_sequence(ps, ids@) == drain(ps, ids@, released.0, released.1, order@.push(x)));
        }
        proof {
            if fits {
                assert(incoming(ps, ids@, done, x as int) == 0);
                assert(!done[x as int]);
                lemma_incoming_includes(ps, ids@, done, x as int, n as int, x as int);
                assert(forall|k: int| 0 <= k < popped.len() ==> #[trigger] popped[k] != x);
                assert(full =~= popped.push(x));
                assert forall|v: int|
                    0 <= v < n && v != x && !done[v] && #[trigger] children@[v] == 0 implies popped.contains(
                    v as usize,
                ) by {
                    let k = choose|k: int| 0 <= k < full.len() && full[k] == v as usize;
                    assert(k != full.len() - 1);
                    assert(popped[k] == v as usize);
                }
            }
        }
        let mut j: usize = rows[x].parent_ids.len();
        while j > 0
            invariant
                n == rows@.len(),
                ps == parent_lists(rows@),
                ids@.len() == n,
                fits == degrees_fit(ps, ids@),
                done.len() == n,
                x < n,
                j <= ps[x as int].len(),
                children@.len() == n,
                order@.len() < n,
                released == release(ps[x as int], ids@, cx, popped, ps[x as int].len() as int),
                release(ps[x as int], ids@, children@, ready@, j as int) == released,
                drawing_sequence(ps, ids@) == drain(ps, ids@, released.0, released.1, order@.push(x)),
                forall|k: int| 0 <= k < ready@.len() ==> #[trigger] ready@[k] < n,
                forall|k: int| 0 <= k < order@.len() ==> #[trigger] order@[k] < n,
                fits ==> !done[x as int],
                fits ==> occ(ps[x as int], ids@, x as int) == 0,
                fits ==> forall|v: int|
                    0 <= v < n ==> #[trigger] children@[v] + (occ(ps[x as int], ids@, v) - occ_upto(
                        ps[x as int],
                        ids@,
                        v,
                        j as int,
                    )) == incoming(ps, ids@, done, v),
                fits ==> ready@.no_duplicates(),
                fits ==> forall|k: int| 0 <= k < ready@.len() ==> #[trigger] ready@[k] != x,
                fits ==> forall|k: int| 0 <= k < ready@.len() ==> !done[#[trigger] ready@[k] as int],
                fits ==> forall|k: int| 0 <= k < ready@.len() ==> children@[#[trigger] ready@[k] as int] == 0,
                fits ==> forall|k: int| 0 <= k < order@.len() ==> done[#[trigger] order@[k] as int],
                fits ==> forall|v: int, u: int|
                    0 <= v < n && 0 <= u < n && done[v] && !done[u] ==> #[trigger] occ(ps[u], ids@, v) == 0,
                fits ==> parents_follow(ps, ids@, order@),
                fits ==> forall|v: int|
                    0 <= v < n && v != x && !done[v] && #[trigger] children@[v] == 0 ==> ready@.contains(v as usize),
                fits ==> forall|a: int, b: int| 0 <= a < b < order@.len() ==> order@[a] != order@[b],
                fits ==> forall|v: int| 0 <= v < n && #[trigger] done[v] ==> order@.contains(v as usize),
            decreases j,
        {
            j -= 1;
            let ghost ready_before = ready@;
            let ghost children_before = children@;
            proof {
                assert(release(ps[x as int], ids@, children_before, ready_before, j + 1) == released);
            }
            let parent = rows[x].parent_ids[j];
            assert(ps[x as int][j as int] == parent);
            if let Some(p) = last_position(ids, parent) {
                proof {
                    lemma_last_index(ids@, parent);
                    if fits {
                        lemma_occ_positive(ps[x as int], ids@, p as int, j as int, j + 1);
                        lemma_occ_monotone(ps[x as int], ids@, p as int, j + 1, ps[x as int].len() as int);
                        lemma_incoming_includes(ps, ids@, done, p as int, n as int, x as int);
                        if done[p as int] {
                            assert(occ(ps[x as int], ids@, p as int) >= 1);
                            assert(occ(ps[x as int], ids@, p as int) == 0);
                        }
                        if exists|k: int| 0 <= k < ready@.len() && ready@[k] == p {
                            let k = choose|k: int| 0 <= k < ready@.len() && ready@[k] == p;
                            assert(children@[ready@[k] as int] == 0);
                        }
                    }
                }
                let c = children[p];
                proof {
                    if fits {
                        assert(p as int != x as int) by {
                            if p as int == x as int {
                                assert(occ(ps[x as int], ids@, p as int) >= 1);
                            }
                        }
                    }
                }
                if c > 0 {
                    children.set(p, c - 1);
                    if c == 1 {
                        let ghost before = ready@;
                        ready.push(p);
                        proof {
                            if fits {
                                assert forall|a: int, b: int| 0 <= a < b < ready@.len() implies ready@[a]
                                    != ready@[b] by {
                                    if b == ready@.len() - 1 {
                                        assert(ready@[a] == before[a]);
                                    } else {
                                        assert(ready@[a] == before[a] && ready@[b] == before[b]);
                                    }
                                }
                            }
                        }
                    }
                }
            }
            proof {
                assert(release(ps[x as int], ids@, children_before, ready_before, j + 1) == release(
                    ps[x as int],
                    ids@,
                    children@,
                    ready@,
                    j as int,
                ));
            }
            proof {
                if fits {
                    assert forall|v: int|
                        0 <= v < n && v != x && !done[v] && #[trigger] children@[v] == 0 implies ready@.contains(
                        v as usize,
                    ) by {
                        if children_before[v] == 0 {
                            let k = choose|k: int| 0 <= k < ready_before.len() && ready_before[k] == v as usize;
                            assert(ready@[k] == v as usize);
                        } else {
                            assert(ready@[ready@.len() - 1] == v as usize);
                        }
                    }
                }
            }
        }
        let ghost prior = done;
        proof {
            if fits {
                assert forall|k: int| 0 <= k < order@.len() implies order@[k] != x by {
                    assert(prior[order@[k] as int]);
                }
                assert forall|v: int| 0 <= v < n implies #[trigger] children@[v] == incoming(
                    ps,
                    ids@,
                    done.update(x as int, true),
                    v,
                ) by {
                    lemma_incoming_done(ps, ids@, done, v, x as int, n as int);
                }
                assert forall|v: int, u: int|
                    0 <= v < n && 0 <= u < n && done.update(x as int, true)[v] && !done.update(
                        x as int,
                        true,
                    )[u] implies #[trigger] occ(ps[u], ids@, v) == 0 by {
                    if v == x {
                        lemma_incoming_zero(ps, ids@, done, x as int, n as int, u);
                    }
                }
            }
            done = done.update(x as int, true);
        }
        let ghost before_order = order@;
        order.push(x);
        proof {
            if fits {
                assert forall|a: int, b: int| 0 <= a < b < order@.len() implies order@[a] != order@[b] by {
                    if b == order@.len() - 1 {
                        assert(order@[a] == before_order[a]);
                        assert(prior[before_order[a] as int]);
                    } else {
                        assert(order@[a] == before_order[a] && order@[b] == before_order[b]);
                    }
                }
                assert forall|v: int| 0 <= v < n && #[trigger] done[v] implies order@.contains(v as usize) by {
                    if v == x {
                        assert(order@[order@.len() - 1] == v as usize);
                    } else {
                        assert(prior[v]);
                        let k = choose|k: int| 0 <= k < before_order.len() && before_order[k] == v as usize;
                        assert(order@[k] == v as usize);
                    }
                }
                assert forall|a: int, b: int|
                    0 <= b <= a < order@.len() implies occ(ps[#[trigger] order@[a] as int], ids@, #[trigger] order@[b] as int)
                    == 0 by {
                    if a == order@.len() - 1 {
                        if b < a {
                            assert(order@[b] == before_order[b]);
                            assert(done[order@[b] as int]);
                        }
                    } else {
                        assert(order@[a] == before_order[a] && order@[b] == before_order[b]);
                    }
                }
            }
        }
    }
    proof {
        assert(drain(ps, ids@, children@, ready@, order@) == order@);
    }
    if order.len() != n {
        proof {
            if fits {
                assert forall|v: int| 0 <= v < n && !done[v] implies #[trigger] incoming(ps, ids@, done, v) > 0 by {
                    if children@[v] == 0 {
                        assert(ready@.contains(v as usize));
                    }
                }
                if drawable(ps, ids@, n as int) {
                    let other = choose|o: Seq<usize>|
                        is_ordering(o.map_values(|v: usize| v as int), n as int) && #[trigger] parents_follow(ps, ids@, o);
                    lemma_stuck_rows_are_done(ps, ids@, done, other, n as int);
                    assert forall|v: int| 0 <= v < n implies #[trigger] order@.contains(v as usize) by {
                        let ord = other.map_values(|w: usize| w as int);
                        lemma_ordering_onto(ord, n as int, v);
                        let a = choose|a: int| 0 <= a < n && ord[a] == v;
                        assert(other[a] as int == v);
                        assert(done[other[a] as int]);
                    }
                    lemma_covering_list(order@, n as int);
                }
            }
        }
        return None;
    }
    // Every row drawn exactly once gives the new order.
    let mut seen: Vec<bool> = vec![false; n];
    let mut k: usize = 0;
    while k < n
        invariant
            k <= n,
            order@.len() == n,
            order@ == drawing_sequence(ps, ids@),
            seen@.len() == n,
            forall|j: int| 0 <= j < n ==> #[trigger] order@[j] < n,
            forall|j: int| 0 <= j < n ==> (#[trigger] seen@[j] <==> exists|a: int| 0 <= a < k && order@[a] == j),
            forall|a: int, b: int| 0 <= a < b < k ==> #[trigger] order@[a] != #[trigger] order@[b],
            fits == degrees_fit(ps, ids@),
            ps == parent_lists(rows@),
            fits ==> forall|a: int, b: int| 0 <= a < b < order@.len() ==> order@[a] != order@[b],
        decreases n - k,
    {
        let o = order[k];
        if seen[o] {
            proof {
                let a = choose|a: int| 0 <= a < k && order@[a] == o;
                assert(order@[a] == order@[k as int]);
                assert(!distinct(order@));
            }
            return None;
        }
        seen.set(o, true);
        k += 1;
    }
    proof {
        assert(is_ordering(order@.map_values(|v: usize| v as int), n as int));
        if fits {
            assert(parents_follow(ps, ids@, order@));
            assert(drawable(ps, ids@, n as int));
        }
    }
    Some(order)
}

/// Every parent of every row is the identity of a later row.
pub open spec fn parents_come_later(rows: Seq<RowView>) -> bool {
    forall|k: int, j: int|
        0 <= k < rows.len() && 0 <= j < rows[k].parents.len() ==> exists|m: int|
            k < m < rows.len() && rows[m].id == #[trigger] rows[k].parents[j]
}

/// An ordering of `n` positions lists every position.
pub proof fn lemma_ordering_onto(order: Seq<int>, n: int, v: int)
    requires
        is_ordering(order, n),
        0 <= v < n,
    ensures
        exists|k: int| 0 <= k < n && order[k] == v,
{
    assert(order.no_duplicates()) by {
        assert forall|a: int, b: int| 0 <= a < order.len() && 0 <= b < order.len() && a != b implies order[a]
            != order[b] by {
            if a < b {
                assert(order[a] != order[b]);
            } else {
                assert(order[b] != order[a]);
            }
        }
    }
    order.unique_seq_to_set();
    vstd::set_lib::lemma_int_range(0, n);
    let range = vstd::set_lib::set_int_range(0, n);
    assert(order.to_set().subset_of(range)) by {
        assert forall|x: int| order.to_set().contains(x) implies range.contains(x) by {
            let k = choose|k: int| 0 <= k < order.len() && order[k] == x;
        }
    }
    vstd::set_lib::lemma_subset_equality(order.to_set(), range);
    assert(range.contains(v));
    assert(order.to_set().contains(v));
}

/// Drawing rows in an order where every row comes before the rows its parents name puts every parent
/// after its child.
pub proof fn lemma_parents_come_later(
    ps: Seq<Seq<ObjectId>>,
    ids: Seq<ObjectId>,
    order: Seq<usize>,
    result: Seq<RowView>,
)
    requires
        ps.len() == ids.len(),
        is_ordering(order.map_values(|v: usize| v as int), ids.len() as int),
        parents_follow(ps, ids, order),
        result.len() == ids.len(),
        forall|i: int, x: ObjectId| 0 <= i < ps.len() && #[trigger] ps[i].contains(x) ==> ids.contains(x),
        forall|k: int|
            0 <= k < result.len() ==> (#[trigger] result[k]).id == ids[order[k] as int] && result[k].parents
                == ps[order[k] as int],
    ensures
        parents_come_later(result),
{
    let n = ids.len() as int;
    let ord = order.map_values(|v: usize| v as int);
    assert forall|k: int, j: int| 0 <= k < result.len() && 0 <= j < result[k].parents.len() implies exists|m: int|
        k < m < result.len() && result[m].id == #[trigger] result[k].parents[j] by {
        let u = order[k] as int;
        assert(ord[k] == u);
        let p = result[k].parents[j];
        assert(ps[u][j] == p);
        assert(ps[u].contains(p));
        assert(ids.contains(p));
        lemma_last_index(ids, p);
        let v = last_index(ids, p).unwrap();
        lemma_occ_positive(ps[u], ids, v, j, ps[u].len() as int);
        lemma_ordering_onto(ord, n, v);
        let m = choose|m: int| 0 <= m < n && ord[m] == v;
        assert(order[m] as int == v);
        if m <= k {
            assert(occ(ps[order[k] as int], ids, order[m] as int) == 0);
        }
        assert(result[m].id == ids[v]);
    }
}

} // verus!

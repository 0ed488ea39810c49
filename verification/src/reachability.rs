//! The ancestry preview: which rows descend along the selected rail from the anchor commit.
use vstd::prelude::*;

use crate::app::{App, State, same_changes, same_commit_view, same_display, same_history, same_navigation, same_progress, unchanged};
use crate::commit::{CommitRow, row_ids};
use crate::ids::ObjectId;
use crate::lanes::{contains_id, first_index, lemma_first_index, lemma_first_index_none, lemma_first_index_of};

verus! {

broadcast use vstd::seq_lib::lemma_seq_contains_after_push;

/// The identities still awaited when a scan of `rows` that starts at `start` reaches row `n`: a row is
/// reached if its identity is awaited, and then its parents are awaited instead.
pub open spec fn scan_pending(rows: Seq<CommitRow>, start: ObjectId, n: int) -> Set<ObjectId>
    decreases n,
{
    if n <= 0 {
        Set::empty().insert(start)
    } else {
        let p = scan_pending(rows, start, n - 1);
        let r = rows[n - 1];
        if p.contains(r.id) {
            p.remove(r.id).union(r.parent_ids@.to_set())
        } else {
            p
        }
    }
}

/// For each row, whether the scan from `start` reaches it.
pub open spec fn scan_marks(rows: Seq<CommitRow>, start: ObjectId) -> Seq<bool> {
    Seq::new(rows.len(), |i: int| scan_pending(rows, start, i).contains(rows[i].id))
}

/// The parent followed from a junction: the remembered one if it exists, else the second parent.
/// Commits with a single parent are no junction.
pub open spec fn junction_for(junction: Option<usize>, count: int) -> Option<usize> {
    if count > 1 {
        match junction {
            Some(p) => if p < count {
                Some(p)
            } else {
                Some(1)
            },
            None => Some(1),
        }
    } else {
        None
    }
}

/// The reachability marks and the junction parent computed for the view `a` when its junction parent is
/// `junction`; `None` marks mean the preview shows every row.
#[verifier::opaque]
pub open spec fn reach_result(a: App, junction: Option<usize>) -> (Option<Seq<bool>>, Option<usize>) {
    if a.state != State::Complete {
        (None, junction)
    } else {
        match a.reachability_anchor {
            None => (None, junction),
            Some(anchor) => match first_index(row_ids(a.rows@), anchor) {
                None => (Some(Seq::new(a.rows@.len(), |i: int| false)), junction),
                Some(ai) => {
                    let parents = a.rows@[ai].parent_ids@;
                    let j = junction_for(junction, parents.len() as int);
                    let start = if parents.len() > 1 {
                        parents[j.unwrap() as int]
                    } else {
                        anchor
                    };
                    let marks = scan_marks(a.rows@, start);
                    (
                        Some(
                            if start != anchor {
                                marks.update(ai, true)
                            } else {
                                marks
                            },
                        ),
                        j,
                    )
                },
            },
        }
    }
}

pub proof fn lemma_reach_result_frame(a: App, b: App, junction: Option<usize>)
    requires
        a.state == b.state,
        a.reachability_anchor == b.reachability_anchor,
        a.rows == b.rows,
    ensures
        reach_result(a, junction) == reach_result(b, junction),
{
    reveal(reach_result);
}

/// The marks held by the view.
pub open spec fn marks_of(reachable: Option<Vec<bool>>) -> Option<Seq<bool>> {
    match reachable {
        Some(v) => Some(v@),
        None => None,
    }
}

/// The preview's marks were recomputed as if the junction parent were `junction`; nothing else changed.
pub open spec fn reach_computed(a: App, b: App, junction: Option<usize>) -> bool {
    &&& marks_of(b.reachable_rows) == reach_result(a, junction).0
    &&& b.junction_parent == reach_result(a, junction).1
    &&& b.preview_author_copy == a.preview_author_copy
    &&& b.reachability_anchor == a.reachability_anchor
    &&& same_history(a, b)
    &&& same_navigation(a, b)
    &&& same_display(a, b)
    &&& same_changes(a, b)
    &&& same_commit_view(a, b)
    &&& same_progress(a, b)
}

/// The junction parent after cycling: the next or the previous of the junction's `count` parents.
pub open spec fn next_junction(current: int, count: int, forward: bool) -> int {
    if forward {
        (current + 1) % count
    } else {
        (current + count - 1) % count
    }
}

/// The junction parent that cycling selects, if the anchor of a complete view is a junction.
pub open spec fn junction_step(a: App, forward: bool) -> Option<usize> {
    if a.state != State::Complete {
        None
    } else {
        match a.reachability_anchor {
            None => None,
            Some(anchor) => match first_index(row_ids(a.rows@), anchor) {
                None => None,
                Some(ai) => {
                    let count = a.rows@[ai].parent_ids@.len() as int;
                    if count > 1 {
                        let current = match a.junction_parent {
                            Some(p) => p as int,
                            None => 1,
                        };
                        Some(next_junction(current, count, forward) as usize)
                    } else {
                        None
                    }
                },
            },
        }
    }
}

/// The junction parent was cycled and the preview recomputed, or, if the anchor is no junction of a
/// complete view, nothing changed.
pub open spec fn junction_cycled(a: App, b: App, forward: bool, cycled: bool) -> bool {
    match junction_step(a, forward) {
        None => !cycled && unchanged(a, b),
        Some(j) => cycled && reach_computed(a, b, Some(j)),
    }
}

/// The position of the first row with identity `id`.
pub fn row_position(rows: &Vec<CommitRow>, id: ObjectId) -> (r: Option<usize>)
    ensures
        match r {
            Some(i) => first_index(row_ids(rows@), id) == Some(i as int),
            None => first_index(row_ids(rows@), id) == None::<int>,
        },
{
    let ghost ids = row_ids(rows@);
    let mut i: usize = 0;
    while i < rows.len()
        invariant
            i <= rows@.len(),
            ids == row_ids(rows@),
            forall|j: int| 0 <= j < i ==> ids[j] != id,
        decreases rows@.len() - i,
    {
        if rows[i].id == id {
            proof {
                lemma_first_index_of(ids, id, i as int);
            }
            return Some(i);
        }
        i += 1;
    }
    proof {
        lemma_first_index_none(ids, id);
    }
    None
}

/// `pending` without `id`.
fn without(pending: &Vec<ObjectId>, id: ObjectId) -> (r: Vec<ObjectId>)
    ensures
        forall|x: ObjectId| r@.contains(x) <==> (pending@.contains(x) && x != id),
{
    let mut out: Vec<ObjectId> = Vec::new();
    let mut i: usize = 0;
    while i < pending.len()
        invariant
            i <= pending@.len(),
            forall|x: ObjectId| out@.contains(x) <==> (pending@.take(i as int).contains(x) && x != id),
        decreases pending@.len() - i,
    {
        let x = pending[i];
        let ghost before = out@;
        assert(pending@.take(i + 1) =~= pending@.take(i as int).push(x));
        if x != id {
            out.push(x);
        }
        i += 1;
    }
    assert(pending@.take(pending@.len() as int) =~= pending@);
    out
}

/// `pending` with every identity of `more` added.
fn with_all(pending: Vec<ObjectId>, more: &Vec<ObjectId>) -> (r: Vec<ObjectId>)
    ensures
        forall|x: ObjectId| r@.contains(x) <==> (pending@.contains(x) || more@.contains(x)),
{
    let mut out = pending;
    let ghost base = out@;
    let mut j: usize = 0;
    while j < more.len()
        invariant
            j <= more@.len(),
            out@ == base + more@.take(j as int),
        decreases more@.len() - j,
    {
        let p = more[j];
        out.push(p);
        j += 1;
        assert(more@.take(j as int) =~= more@.take(j - 1).push(p));
        assert(out@ =~= base + more@.take(j as int));
    }
    assert(more@.take(more@.len() as int) =~= more@);
    assert forall|x: ObjectId| out@.contains(x) <==> (base.contains(x) || more@.contains(x)) by {
        vstd::seq_lib::lemma_seq_concat_contains_all_elements(base, more@, x);
    }
    out
}

/// For each row, whether a scan from `start` reaches it.
pub fn scan_rows(rows: &Vec<CommitRow>, start: ObjectId) -> (r: Vec<bool>)
    ensures
        r@ == scan_marks(rows@, start),
{
    let mut pending: Vec<ObjectId> = Vec::new();
    pending.push(start);
    let mut marks: Vec<bool> = Vec::new();
    let mut i: usize = 0;
    proof {
        assert forall|x: ObjectId| pending@.contains(x) <==> scan_pending(rows@, start, 0).contains(x) by {
            if x == start {
                assert(pending@[0] == start);
            }
        }
    }
    while i < rows.len()
        invariant
            i <= rows@.len(),
            marks@.len() == i,
            forall|k: int| 0 <= k < i ==> #[trigger] marks@[k] == scan_marks(rows@, start)[k],
            forall|x: ObjectId| pending@.contains(x) <==> scan_pending(rows@, start, i as int).contains(x),
        decreases rows@.len() - i,
    {
        let row = &rows[i];
        let reached = contains_id(&pending, row.id);
        proof {
            assert(scan_marks(rows@, start)[i as int] == scan_pending(rows@, start, i as int).contains(rows@[i as int].id));
        }
        if reached {
            let next = without(&pending, row.id);
            pending = with_all(next, &row.parent_ids);
            proof {
                assert forall|x: ObjectId| pending@.contains(x) <==> scan_pending(rows@, start, i + 1).contains(x) by {
                    assert(rows@[i as int] == *row);
                    if row.parent_ids@.contains(x) {
                        assert(row.parent_ids@.to_set().contains(x));
                    }
                }
            }
        } else {
            proof {
                assert forall|x: ObjectId| pending@.contains(x) <==> scan_pending(rows@, start, i + 1).contains(x) by {
                    assert(rows@[i as int] == *row);
                }
            }
        }
        marks.push(reached);
        i += 1;
    }
    assert(marks@ =~= scan_marks(rows@, start));
    marks
}

fn falses(n: usize) -> (r: Vec<bool>)
    ensures
        r@ == Seq::new(n as nat, |i: int| false),
{
    let mut v: Vec<bool> = Vec::new();
    let mut i: usize = 0;
    while i < n
        invariant
            i <= n,
            v@ == Seq::new(i as nat, |k: int| false),
        decreases n - i,
    {
        v.push(false);
        i += 1;
        assert(v@ =~= Seq::new(i as nat, |k: int| false));
    }
    v
}

impl App {
    /// The preview's marks and junction parent for the view, given its junction parent.
    pub fn reach_outcome(&self, junction: Option<usize>) -> (r: (Option<Vec<bool>>, Option<usize>))
        ensures
            marks_of(r.0) == reach_result(*self, junction).0,
            r.1 == reach_result(*self, junction).1,
    {
        reveal(reach_result);
        if self.state != State::Complete {
            return (None, junction);
        }
        let anchor = match self.reachability_anchor {
            None => return (None, junction),
            Some(anchor) => anchor,
        };
        let ai = match row_position(&self.rows, anchor) {
            None => return (Some(falses(self.rows.len())), junction),
            Some(ai) => ai,
        };
        proof {
            lemma_first_index(row_ids(self.rows@), anchor);
        }
        let parents = &self.rows[ai].parent_ids;
        let count = parents.len();
        let (start, j) = if count > 1 {
            let p = match junction {
                Some(p) => if p < count {
                    p
                } else {
                    1
                },
                None => 1,
            };
            (parents[p], Some(p))
        } else {
            (anchor, None)
        };
        let mut marks = scan_rows(&self.rows, start);
        if start != anchor {
            marks.set(ai, true);
        }
        (Some(marks), j)
    }

    /// Recomputes which rows the ancestry preview includes.
    pub fn compute_reachable_rows(&mut self)
        ensures
            reach_computed(*old(self), *final(self), old(self).junction_parent),
    {
        let (marks, junction) = self.reach_outcome(self.junction_parent);
        self.reachable_rows = marks;
        self.junction_parent = junction;
    }

    /// The junction parent that cycling selects, if the anchor of a complete view is a junction.
    pub fn junction_target(&self, forward: bool) -> (r: Option<usize>)
        ensures
            r == junction_step(*self, forward),
    {
        if self.state != State::Complete {
            return None;
        }
        let anchor = match self.reachability_anchor {
            None => return None,
            Some(anchor) => anchor,
        };
        let ai = match row_position(&self.rows, anchor) {
            None => return None,
            Some(ai) => ai,
        };
        proof {
            lemma_first_index(row_ids(self.rows@), anchor);
        }
        let count = self.rows[ai].parent_ids.len();
        if count <= 1 {
            return None;
        }
        let current: usize = match self.junction_parent {
            Some(p) => p,
            None => 1,
        };
        let c = current as u128;
        let n = count as u128;
        let next = if forward {
            (c + 1) % n
        } else {
            (c + n - 1) % n
        };
        Some(next as usize)
    }

    /// Follows the next (or previous) parent of the anchor's junction; false if the anchor of a complete
    /// view is no junction.
    pub fn cycle_junction_parent(&mut self, forward: bool) -> (cycled: bool)
        ensures
            junction_cycled(*old(self), *final(self), forward, cycled),
    {
        let ghost a = *self;
        match self.junction_target(forward) {
            None => false,
            Some(j) => {
                self.follow_junction(j);
                let ghost m = *self;
                self.compute_reachable_rows();
                proof {
                    lemma_reach_result_frame(a, m, Some(j));
                }
                true
            },
        }
    }

    fn follow_junction(&mut self, j: usize)
        ensures
            final(self).junction_parent == Some(j),
            final(self).reachable_rows == old(self).reachable_rows,
            final(self).preview_author_copy == old(self).preview_author_copy,
            final(self).reachability_anchor == old(self).reachability_anchor,
            same_history(*old(self), *final(self)),
            same_navigation(*old(self), *final(self)),
            same_display(*old(self), *final(self)),
            same_changes(*old(self), *final(self)),
            same_commit_view(*old(self), *final(self)),
            same_progress(*old(self), *final(self)),
    {
        self.junction_parent = Some(j);
    }
}

} // verus!

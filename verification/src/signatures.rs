//! Checking the signatures of the commits in view.
use vstd::prelude::*;

use crate::app::{
    App, min_usize, same_changes, same_commit_view, same_display, same_history_but_rows, same_navigation,
    same_preview, sat_add,
};
use crate::commit::{CommitRow, RowView, SignatureState, row_views};
use crate::ids::ObjectId;
use crate::lanes::{contains_id, first_index, lemma_first_index};
use crate::reachability::row_position;
use crate::rows::{cache_put, cache_store, resigned, view_ids, with_signature};

verus! {

/// The rows, the cache and the number of failures once one verdict was recorded: the first row of the
/// commit reads as verified or failed, and is stored in the cache.
pub open spec fn verdict_step(s: (Seq<RowView>, Seq<RowView>, nat), v: (ObjectId, bool)) -> (
    Seq<RowView>,
    Seq<RowView>,
    nat,
) {
    match first_index(view_ids(s.0), v.0) {
        None => s,
        Some(i) => {
            let r = with_signature(s.0[i], if v.1 { SignatureState::Verified } else { SignatureState::Failed });
            (s.0.update(i, r), cache_put(s.1, r), if v.1 { s.2 } else { s.2 + 1 })
        },
    }
}

/// The rows, the cache and the number of failures once the verdicts were recorded in order.
pub open spec fn verdicts(rows: Seq<RowView>, cache: Seq<RowView>, results: Seq<(ObjectId, bool)>) -> (
    Seq<RowView>,
    Seq<RowView>,
    nat,
)
    decreases results.len(),
{
    if results.len() == 0 {
        (rows, cache, 0)
    } else {
        verdict_step(verdicts(rows, cache, results.drop_last()), results.last())
    }
}

/// The verdicts of a signature check were recorded; the check is no longer running.
pub open spec fn verdicts_recorded(a: App, b: App, results: Seq<(ObjectId, bool)>) -> bool {
    let v = verdicts(row_views(a.rows@), row_views(a.all_rows@), results);
    &&& row_views(b.rows@) == v.0
    &&& row_views(b.all_rows@) == v.1
    &&& b.signature_failures == v.2
    &&& !b.signature_verification_running
    &&& same_history_but_rows(a, b)
    &&& same_navigation(a, b)
    &&& same_display(a, b)
    &&& same_changes(a, b)
    &&& same_commit_view(a, b)
    &&& same_preview(a, b)
    &&& b.state == a.state
    &&& b.copy_feedback == a.copy_feedback
    &&& b.deferred_history_state == a.deferred_history_state
    &&& b.lane_time == a.lane_time
    &&& b.estimated_lane_width == a.estimated_lane_width
    &&& b.reload_selection == a.reload_selection
    &&& b.select_top_after_refresh == a.select_top_after_refresh
    &&& b.manual_refresh == a.manual_refresh
    &&& b.selection_relation == a.selection_relation
    &&& b.notice == a.notice
}

pub proof fn lemma_verdicts_len(rows: Seq<RowView>, cache: Seq<RowView>, results: Seq<(ObjectId, bool)>)
    ensures
        verdicts(rows, cache, results).0.len() == rows.len(),
        view_ids(verdicts(rows, cache, results).0) == view_ids(rows),
        verdicts(rows, cache, results).2 <= results.len(),
    decreases results.len(),
{
    if results.len() > 0 {
        lemma_verdicts_len(rows, cache, results.drop_last());
        let s = verdicts(rows, cache, results.drop_last());
        lemma_first_index(view_ids(s.0), results.last().0);
        if let Some(i) = first_index(view_ids(s.0), results.last().0) {
            let r = with_signature(s.0[i], if results.last().1 { SignatureState::Verified } else { SignatureState::Failed });
            assert(view_ids(s.0.update(i, r)) =~= view_ids(s.0));
        }
    }
}

/// Records the verdicts in the rows and the cache; returns the number of failed checks.
fn record_verdicts(rows: &mut Vec<CommitRow>, cache: &mut Vec<CommitRow>, results: &Vec<(ObjectId, bool)>) -> (failed:
    usize)
    ensures
        (row_views(final(rows)@), row_views(final(cache)@), failed as nat) == verdicts(
            row_views(old(rows)@),
            row_views(old(cache)@),
            results@,
        ),
{
    let ghost r0 = row_views(rows@);
    let ghost c0 = row_views(cache@);
    let mut failed: usize = 0;
    let mut i: usize = 0;
    while i < results.len()
        invariant
            i <= results@.len(),
            (row_views(rows@), row_views(cache@), failed as nat) == verdicts(r0, c0, results@.take(i as int)),
            failed <= i,
        decreases results@.len() - i,
    {
        let (id, valid) = results[i];
        proof {
            assert(results@.take(i + 1).drop_last() =~= results@.take(i as int));
            assert(results@.take(i + 1).last() == results@[i as int]);
            lemma_first_index(view_ids(row_views(rows@)), id);
            assert(view_ids(row_views(rows@)) =~= crate::commit::row_ids(rows@));
        }
        match row_position(rows, id) {
            None => {},
            Some(index) => {
                let state = if valid { SignatureState::Verified } else { SignatureState::Failed };
                let row = resigned(&rows[index], state);
                let ghost before = row_views(rows@);
                cache_store(cache, row.duplicate());
                rows.set(index, row);
                assert(row_views(rows@) =~= before.update(index as int, with_signature(before[index as int], state)));
                if !valid {
                    failed = failed + 1;
                }
            },
        }
        i += 1;
    }
    assert(results@.take(results@.len() as int) =~= results@);
    failed
}

impl App {
    /// Records the verdicts of a signature check: each commit's first row reads as verified or failed.
    pub fn finish_signature_verification(&mut self, results: Vec<(ObjectId, bool)>)
        ensures
            verdicts_recorded(*old(self), *final(self), results@),
    {
        let mut cur = self.take();
        let mut rows: Vec<CommitRow> = Vec::new();
        let mut cache: Vec<CommitRow> = Vec::new();
        std::mem::swap(&mut rows, &mut cur.rows);
        std::mem::swap(&mut cache, &mut cur.all_rows);
        let failed = record_verdicts(&mut rows, &mut cache, &results);
        *self = App {
            rows,
            all_rows: cache,
            signature_verification_running: false,
            signature_failures: failed,
            ..cur
        };
    }
}

// ---------------------------------------------------------------------------------------------
// Starting a check.
// ---------------------------------------------------------------------------------------------

/// The first row of the viewport window, clamped to the rows.
pub open spec fn window_start(a: App) -> int {
    min_usize(a.offset, a.rows@.len() as usize) as int
}

/// The row after the viewport window, clamped to the rows.
pub open spec fn window_end(a: App) -> int {
    min_usize(sat_add(window_start(a) as usize, a.viewport_rows), a.rows@.len() as usize) as int
}

/// The rows, the cache and the identities once every unverified row in `lo..hi` that is no boundary row
/// of hidden history was marked as being verified.
pub open spec fn marking(rows: Seq<RowView>, hidden: Seq<ObjectId>, cache: Seq<RowView>, lo: int, hi: int) -> (
    Seq<RowView>,
    Seq<RowView>,
    Seq<ObjectId>,
)
    decreases hi - lo,
{
    if hi <= lo {
        (rows, cache, Seq::empty())
    } else {
        let s = marking(rows, hidden, cache, lo, hi - 1);
        let r = rows[hi - 1];
        if !hidden.contains(r.id) && r.signature == SignatureState::Unverified {
            let v = with_signature(r, SignatureState::Verifying);
            (s.0.update(hi - 1, v), cache_put(s.1, v), s.2.push(r.id))
        } else {
            s
        }
    }
}

/// The visible, unverified rows are being verified; `ids` lists them.
pub open spec fn marked_for_check(a: App, b: App, ids: Seq<ObjectId>) -> bool {
    let m = marking(row_views(a.rows@), a.hidden_rows@, row_views(a.all_rows@), window_start(a), window_end(a));
    &&& ids == m.2
    &&& row_views(b.rows@) == m.0
    &&& row_views(b.all_rows@) == m.1
    &&& b.signature_verification_running == (a.signature_verification_running || ids.len() > 0)
    &&& same_history_but_rows(a, b)
    &&& same_navigation(a, b)
    &&& same_display(a, b)
    &&& same_changes(a, b)
    &&& same_commit_view(a, b)
    &&& same_preview(a, b)
    &&& b.state == a.state
    &&& b.signature_failures == a.signature_failures
    &&& b.copy_feedback == a.copy_feedback
    &&& b.deferred_history_state == a.deferred_history_state
    &&& b.lane_time == a.lane_time
    &&& b.estimated_lane_width == a.estimated_lane_width
    &&& b.reload_selection == a.reload_selection
    &&& b.select_top_after_refresh == a.select_top_after_refresh
    &&& b.manual_refresh == a.manual_refresh
    &&& b.selection_relation == a.selection_relation
    &&& b.notice == a.notice
}

pub proof fn lemma_marking_len(rows: Seq<RowView>, hidden: Seq<ObjectId>, cache: Seq<RowView>, lo: int, hi: int)
    requires
        0 <= lo,
        hi <= rows.len(),
    ensures
        marking(rows, hidden, cache, lo, hi).0.len() == rows.len(),
        forall|k: int| hi <= k < rows.len() ==> #[trigger] marking(rows, hidden, cache, lo, hi).0[k] == rows[k],
    decreases hi - lo,
{
    if hi > lo {
        lemma_marking_len(rows, hidden, cache, lo, hi - 1);
    }
}

/// Marks the unverified rows `lo..hi` that are no boundary rows of hidden history as being verified.
fn mark_window(
    rows: &mut Vec<CommitRow>,
    hidden: &Vec<ObjectId>,
    cache: &mut Vec<CommitRow>,
    lo: usize,
    hi: usize,
) -> (ids: Vec<ObjectId>)
    requires
        lo <= hi <= old(rows)@.len(),
    ensures
        (row_views(final(rows)@), row_views(final(cache)@), ids@) == marking(
            row_views(old(rows)@),
            hidden@,
            row_views(old(cache)@),
            lo as int,
            hi as int,
        ),
{
    let ghost r0 = row_views(rows@);
    let ghost c0 = row_views(cache@);
    let mut ids: Vec<ObjectId> = Vec::new();
    let mut k = lo;
    while k < hi
        invariant
            lo <= k <= hi <= rows@.len(),
            r0.len() == rows@.len(),
            (row_views(rows@), row_views(cache@), ids@) == marking(r0, hidden@, c0, lo as int, k as int),
        decreases hi - k,
    {
        proof {
            lemma_marking_len(r0, hidden@, c0, lo as int, k as int);
            assert(row_views(rows@)[k as int] == rows@[k as int]@);
        }
        let id = rows[k].id;
        let mark = !contains_id(hidden, id) && rows[k].signature == SignatureState::Unverified;
        if mark {
            let row = resigned(&rows[k], SignatureState::Verifying);
            let ghost before = row_views(rows@);
            cache_store(cache, row.duplicate());
            rows.set(k, row);
            assert(row_views(rows@) =~= before.update(k as int, with_signature(before[k as int], SignatureState::Verifying)));
            ids.push(id);
        }
        k += 1;
    }
    ids
}

fn either(a: bool, b: bool) -> (r: bool)
    ensures
        r == (a || b),
{
    a || b
}

impl App {
    /// The rows of the viewport window, clamped to the rows.
    pub fn window(&self) -> (r: (usize, usize))
        ensures
            r.0 == window_start(*self),
            r.1 == window_end(*self),
            r.0 <= r.1 <= self.rows@.len(),
    {
        let n = self.rows.len();
        let start = if self.offset <= n { self.offset } else { n };
        let end0 = start.saturating_add(self.viewport_rows);
        let end = if end0 <= n { end0 } else { n };
        (start, end)
    }

    /// Marks the visible, unverified rows as being verified and returns their identities; a check is then
    /// running if any were marked.
    pub fn mark_visible_for_check(&mut self) -> (ids: Vec<ObjectId>)
        ensures
            marked_for_check(*old(self), *final(self), ids@),
    {
        let (start, end) = self.window();
        let cur = self.take();
        let mut rows = cur.rows;
        let mut cache = cur.all_rows;
        let ids = mark_window(&mut rows, &cur.hidden_rows, &mut cache, start, end);
        let running = either(cur.signature_verification_running, ids.len() > 0);
        *self = App { rows, all_rows: cache, signature_verification_running: running, ..cur };
        ids
    }
}

} // verus!

//! Completing the layout of a loaded history, and reloading the view.
use vstd::prelude::*;

use crate::app::{App, ChangesView, State, fresh_changes_view, first_unhidden, row_hidden, nav_is, same_changes, same_commit_view, same_display, same_horizontal, spans_fit, unchanged, visible_offset, visible_offset_of};
use crate::commit::{CommitRow, RowView, row_ids, row_views};
use crate::ids::ObjectId;
use crate::lanes::{Graph, first_index, lemma_first_index, topology};
use crate::loading::lemma_first_unhidden_bound;
use crate::reachability::{marks_of, reach_result, row_position};
use crate::rows::views_fit;

verus! {

/// The index of the last row of `rows` with identity `id` whose metadata was loaded.
pub open spec fn last_loaded(rows: Seq<CommitRow>, id: ObjectId) -> Option<int>
    decreases rows.len(),
{
    if rows.len() == 0 {
        None
    } else if rows.last().id == id && rows.last().metadata_loaded {
        Some(rows.len() - 1)
    } else {
        last_loaded(rows.drop_last(), id)
    }
}

/// `r` with the metadata that the shown rows `old` had loaded for its commit, if any.
pub open spec fn restored(r: RowView, old: Seq<CommitRow>) -> RowView {
    match last_loaded(old, r.id) {
        Some(i) => {
            let o = old[i]@;
            RowView {
                committer_time: o.committer_time,
                author: o.author,
                attributions: o.attributions,
                title: o.title,
                metadata_loaded: true,
                has_agent_marker: o.has_agent_marker,
                signature: o.signature,
                ..r
            }
        },
        None => r,
    }
}

/// Some row still waits for its metadata.
pub open spec fn needs_restore(rows: Seq<CommitRow>) -> bool {
    exists|k: int| 0 <= k < rows.len() && !(#[trigger] rows[k]).metadata_loaded
}

/// A laid-out row: metadata loaded while the layout was computed is kept.
pub open spec fn laid_out(rows: Seq<CommitRow>, old: Seq<CommitRow>, k: int) -> RowView {
    if needs_restore(rows) {
        restored(rows[k]@, old)
    } else {
        rows[k]@
    }
}

/// Where the commit `kept` is selected again among the laid-out `rows`: its first row, unless that row is
/// a boundary row of hidden history, which is never restored as the selection; otherwise the newest
/// selectable row, if there is one.
pub open spec fn restored_selection(kept: Option<ObjectId>, rows: Seq<CommitRow>, hidden: Seq<ObjectId>) -> Option<usize> {
    match kept {
        Some(id) => match first_index(row_ids(rows), id) {
            Some(p) => if row_hidden(rows, hidden, p) {
                first_unhidden(rows, hidden, 0, rows.len() as int)
            } else {
                Some(p as usize)
            },
            None => first_unhidden(rows, hidden, 0, rows.len() as int),
        },
        None => first_unhidden(rows, hidden, 0, rows.len() as int),
    }
}

/// The selection once the layout is complete: the row that was selected, unless a refresh asked for the
/// top or the row became a boundary row of hidden history, else the newest selectable row.
pub open spec fn selection_after_layout(a: App, rows: Seq<CommitRow>, hidden: Seq<ObjectId>) -> Option<usize> {
    let kept = if a.select_top_after_refresh {
        None
    } else {
        match a.selected {
            Some(i) => Some(a.rows@[i as int].id),
            None => None,
        }
    };
    restored_selection(kept, rows, hidden)
}

/// The computed layout was adopted: its rows, with metadata loaded meanwhile, replace the shown rows,
/// pending boundary rows of hidden history take effect, the selection is kept or reset and the preview
/// is recomputed. Once the layout is no longer awaited, nothing changes.
pub open spec fn lanes_finished(a: App, rows: Seq<CommitRow>, graph: Graph, lane_time: u64, b: App) -> bool {
    if a.state != State::Computing {
        unchanged(a, b)
    } else {
        let hidden = match a.pending_hidden_rows {
            Some(p) => p@,
            None => a.hidden_rows@,
        };
        let sel = selection_after_layout(a, b.rows@, hidden);
        &&& b.rows@.len() == rows.len()
        &&& forall|k: int| 0 <= k < rows.len() ==> #[trigger] b.rows@[k]@ == laid_out(rows, a.rows@, k)
        &&& b.hidden_rows@ == hidden
        &&& b.pending_hidden_rows.is_none()
        &&& b.graph == Some(graph)
        &&& b.all_rows == a.all_rows
        &&& b.titles == a.titles
        &&& b.notes == a.notes
        &&& b.attributions == a.attributions
        &&& nav_is(a, b, sel, visible_offset(sel, a.offset, a.viewport_rows), a.follow_tail)
        &&& same_horizontal(a, b)
        &&& same_display(a, b)
        &&& same_changes(a, b)
        &&& same_commit_view(a, b)
        &&& b.preview_author_copy == a.preview_author_copy
        &&& b.reachability_anchor == a.reachability_anchor
        &&& if a.reachability_anchor.is_some() {
            &&& marks_of(b.reachable_rows) == reach_result(b, a.junction_parent).0
            &&& b.junction_parent == reach_result(b, a.junction_parent).1
        } else {
            b.reachable_rows == a.reachable_rows && b.junction_parent == a.junction_parent
        }
        &&& b.state == State::Complete
        &&& b.lane_time == Some(lane_time)
        &&& !b.select_top_after_refresh
        &&& b.signature_failures == a.signature_failures
        &&& b.signature_verification_running == a.signature_verification_running
        &&& b.copy_feedback == a.copy_feedback
        &&& b.deferred_history_state == a.deferred_history_state
        &&& b.estimated_lane_width == a.estimated_lane_width
        &&& b.reload_selection == a.reload_selection
        &&& b.manual_refresh == a.manual_refresh
        &&& b.selection_relation == a.selection_relation
        &&& b.notice == a.notice
    }
}

/// The computed layout was installed; the preview is not yet recomputed.
pub open spec fn layout_installed(a: App, rows: Seq<CommitRow>, graph: Graph, lane_time: u64, b: App) -> bool {
    let hidden = match a.pending_hidden_rows {
        Some(p) => p@,
        None => a.hidden_rows@,
    };
    let sel = selection_after_layout(a, b.rows@, hidden);
    &&& b.rows@.len() == rows.len()
    &&& forall|k: int| 0 <= k < rows.len() ==> #[trigger] b.rows@[k]@ == laid_out(rows, a.rows@, k)
    &&& b.hidden_rows@ == hidden
    &&& b.pending_hidden_rows.is_none()
    &&& b.graph == Some(graph)
    &&& b.all_rows == a.all_rows
    &&& b.titles == a.titles
    &&& b.notes == a.notes
    &&& b.attributions == a.attributions
    &&& nav_is(a, b, sel, visible_offset(sel, a.offset, a.viewport_rows), a.follow_tail)
    &&& same_horizontal(a, b)
    &&& same_display(a, b)
    &&& same_changes(a, b)
    &&& same_commit_view(a, b)
    &&& b.preview_author_copy == a.preview_author_copy
    &&& b.reachability_anchor == a.reachability_anchor
    &&& b.reachable_rows == a.reachable_rows
    &&& b.junction_parent == a.junction_parent
    &&& b.state == State::Complete
    &&& b.lane_time == Some(lane_time)
    &&& !b.select_top_after_refresh
    &&& b.signature_failures == a.signature_failures
    &&& b.signature_verification_running == a.signature_verification_running
    &&& b.copy_feedback == a.copy_feedback
    &&& b.deferred_history_state == a.deferred_history_state
    &&& b.estimated_lane_width == a.estimated_lane_width
    &&& b.reload_selection == a.reload_selection
    &&& b.manual_refresh == a.manual_refresh
    &&& b.selection_relation == a.selection_relation
    &&& b.notice == a.notice
}

proof fn lemma_finish_chain(a: App, rows: Seq<CommitRow>, graph: Graph, lane_time: u64, m: App, b: App)
    requires
        a.state == State::Computing,
        layout_installed(a, rows, graph, lane_time, m),
        m.wf(),
        if m.reachability_anchor.is_some() {
            crate::reachability::reach_computed(m, b, m.junction_parent)
        } else {
            b == m
        },
    ensures
        lanes_finished(a, rows, graph, lane_time, b),
        b.wf(),
{
    if m.reachability_anchor.is_some() {
        crate::reachability::lemma_reach_result_frame(m, b, m.junction_parent);
    }
}

/// Whether some row still waits for its metadata.
fn any_unloaded(rows: &Vec<CommitRow>) -> (r: bool)
    ensures
        r == needs_restore(rows@),
{
    let mut i: usize = 0;
    while i < rows.len()
        invariant
            i <= rows@.len(),
            forall|k: int| 0 <= k < i ==> (#[trigger] rows@[k]).metadata_loaded,
        decreases rows@.len() - i,
    {
        if !rows[i].metadata_loaded {
            assert(!rows@[i as int].metadata_loaded);
            return true;
        }
        i += 1;
    }
    false
}

/// The index of the last loaded row of `old` with identity `id`.
fn last_loaded_position(old: &Vec<CommitRow>, id: ObjectId) -> (r: Option<usize>)
    ensures
        match r {
            Some(i) => last_loaded(old@, id) == Some(i as int),
            None => last_loaded(old@, id) == None::<int>,
        },
{
    let mut i: usize = old.len();
    assert(old@.take(old@.len() as int) =~= old@);
    while i > 0
        invariant
            i <= old@.len(),
            last_loaded(old@, id) == last_loaded(old@.take(i as int), id),
        decreases i,
    {
        let ghost t = old@.take(i as int);
        assert(t.drop_last() =~= old@.take(i - 1));
        assert(t.last() == old@[i - 1]);
        if old[i - 1].id == id && old[i - 1].metadata_loaded {
            return Some(i - 1);
        }
        i -= 1;
    }
    None
}

/// A copy of `row` with the metadata the rows `old` had loaded for its commit.
fn restore_row(row: &CommitRow, old: &Vec<CommitRow>) -> (r: CommitRow)
    ensures
        r@ == restored(row@, old@),
{
    proof {
        assert(old@.take(old@.len() as int) =~= old@);
    }
    match last_loaded_position(old, row.id) {
        Some(i) => {
            proof {
                lemma_last_loaded_bound(old@, row.id);
            }
            let o = &old[i];
            CommitRow {
                id: row.id,
                parent_ids: crate::commit::copy_ids(&row.parent_ids),
                committer_time: o.committer_time,
                author: o.author.duplicate(),
                attributions: o.attributions,
                title: o.title,
                metadata_loaded: true,
                has_agent_marker: o.has_agent_marker,
                signature: o.signature,
            }
        },
        None => row.duplicate(),
    }
}

pub proof fn lemma_last_loaded_bound(rows: Seq<CommitRow>, id: ObjectId)
    ensures
        last_loaded(rows, id) matches Some(i) ==> 0 <= i < rows.len() && rows[i].id == id && rows[i].metadata_loaded,
    decreases rows.len(),
{
    if rows.len() > 0 {
        lemma_last_loaded_bound(rows.drop_last(), id);
    }
}

/// The laid-out rows, keeping metadata that the shown rows `old` loaded while the layout was computed.
pub fn restore_metadata(rows: Vec<CommitRow>, old: &Vec<CommitRow>) -> (r: Vec<CommitRow>)
    ensures
        r@.len() == rows@.len(),
        forall|k: int| 0 <= k < rows@.len() ==> #[trigger] r@[k]@ == laid_out(rows@, old@, k),
{
    if !any_unloaded(&rows) {
        return rows;
    }
    let mut out: Vec<CommitRow> = Vec::new();
    let mut i: usize = 0;
    while i < rows.len()
        invariant
            i <= rows@.len(),
            needs_restore(rows@),
            out@.len() == i,
            forall|k: int| 0 <= k < i ==> #[trigger] out@[k]@ == laid_out(rows@, old@, k),
        decreases rows@.len() - i,
    {
        out.push(restore_row(&rows[i], old));
        i += 1;
    }
    out
}

/// The selection once the layout is complete.
fn select_after_layout(kept: Option<ObjectId>, rows: &Vec<CommitRow>, hidden: &Vec<ObjectId>) -> (r: Option<usize>)
    ensures
        r == restored_selection(kept, rows@, hidden@),
{
    let first = first_open(rows, hidden, 0);
    match kept {
        Some(id) => match row_position(rows, id) {
            Some(p) => {
                proof {
                    lemma_first_index(row_ids(rows@), id);
                }
                if crate::lanes::contains_id(hidden, rows[p].id) {
                    first
                } else {
                    Some(p)
                }
            },
            None => first,
        },
        None => first,
    }
}

/// The first row at or after `lo` that is no boundary row of hidden history.
fn first_open(rows: &Vec<CommitRow>, hidden: &Vec<ObjectId>, lo: usize) -> (r: Option<usize>)
    ensures
        r == first_unhidden(rows@, hidden@, lo as int, rows@.len() as int),
    decreases rows@.len() - lo,
{
    if lo >= rows.len() {
        None
    } else if !crate::lanes::contains_id(hidden, rows[lo].id) {
        Some(lo)
    } else {
        first_open(rows, hidden, lo + 1)
    }
}

proof fn lemma_topology_kept(rows: Seq<CommitRow>, old: Seq<CommitRow>, new: Seq<CommitRow>)
    requires
        new.len() == rows.len(),
        forall|k: int| 0 <= k < rows.len() ==> #[trigger] new[k]@ == laid_out(rows, old, k),
    ensures
        topology(new) == topology(rows),
{
    assert forall|k: int| 0 <= k < rows.len() implies #[trigger] topology(new)[k] == topology(rows)[k] by {
        assert(new[k]@ == laid_out(rows, old, k));
    }
    assert(topology(new) =~= topology(rows));
}

proof fn lemma_laid_out_fits(rows: Seq<CommitRow>, old: Seq<CommitRow>, new: Seq<CommitRow>, titles: int, attributions: int)
    requires
        new.len() == rows.len(),
        forall|k: int| 0 <= k < rows.len() ==> #[trigger] new[k]@ == laid_out(rows, old, k),
        spans_fit(rows, titles, attributions),
        spans_fit(old, titles, attributions),
    ensures
        spans_fit(new, titles, attributions),
{
    assert forall|k: int| 0 <= k < new.len() implies #[trigger] row_views(new)[k].title.start <= row_views(new)[k].title.end
        <= titles && row_views(new)[k].attributions.start <= row_views(new)[k].attributions.end <= attributions by {
        assert(row_views(new)[k] == new[k]@);
        assert(row_views(rows)[k] == rows[k]@);
        lemma_last_loaded_bound(old, rows[k].id);
        if let Some(i) = last_loaded(old, rows[k].id) {
            assert(row_views(old)[i] == old[i]@);
        }
    }
}

impl App {
    /// The identity of the selected row, unless a refresh asked for the top.
    fn kept_selection(&self) -> (r: Option<ObjectId>)
        requires
            self.selected matches Some(s) ==> s < self.rows@.len(),
        ensures
            r == if self.select_top_after_refresh {
                None
            } else {
                match self.selected {
                    Some(i) => Some(self.rows@[i as int].id),
                    None => None,
                }
            },
    {
        if self.select_top_after_refresh {
            None
        } else {
            match self.selected {
                Some(i) => Some(self.rows[i].id),
                None => None,
            }
        }
    }

    fn install_layout(&mut self, rows: Vec<CommitRow>, graph: Graph, lane_time: u64)
        requires
            old(self).wf(),
            old(self).state == State::Computing,
            graph.matches(topology(rows@)),
            spans_fit(rows@, old(self).titles@.len() as int, old(self).attributions@.len() as int),
        ensures
            layout_installed(*old(self), rows@, graph, lane_time, *final(self)),
            final(self).wf(),
    {
        let ghost a = *self;
        let ghost given = rows@;
        let kept = self.kept_selection();
        let laid = restore_metadata(rows, &self.rows);
        let n = laid.len();
        let mut cur = self.take();
        let mut pending: Option<Vec<ObjectId>> = None;
        std::mem::swap(&mut pending, &mut cur.pending_hidden_rows);
        let mut hidden: Vec<ObjectId> = Vec::new();
        std::mem::swap(&mut hidden, &mut cur.hidden_rows);
        let hidden = match pending {
            Some(p) => p,
            None => hidden,
        };
        let sel = select_after_layout(kept, &laid, &hidden);
        let offset = visible_offset_of(sel, cur.offset, cur.viewport_rows);
        *self = App {
            rows: laid,
            hidden_rows: hidden,
            pending_hidden_rows: None,
            graph: Some(graph),
            lane_time: Some(lane_time),
            select_top_after_refresh: false,
            state: State::Complete,
            selected: sel,
            offset,
            ..cur
        };
        proof {
            let m = *self;
            lemma_topology_kept(given, a.rows@, m.rows@);
            lemma_laid_out_fits(given, a.rows@, m.rows@, a.titles@.len() as int, a.attributions@.len() as int);
            lemma_first_unhidden_bound(m.rows@, m.hidden_rows@, 0, m.rows@.len() as int);
            if let Some(id) = kept {
                lemma_first_index(row_ids(m.rows@), id);
            }
        }
    }

    fn adopt_layout(&mut self, rows: Vec<CommitRow>, graph: Graph, lane_time: u64)
        requires
            old(self).wf(),
            old(self).state == State::Computing,
            graph.matches(topology(rows@)),
            spans_fit(rows@, old(self).titles@.len() as int, old(self).attributions@.len() as int),
        ensures
            lanes_finished(*old(self), rows@, graph, lane_time, *final(self)),
            final(self).wf(),
    {
        let ghost a = *self;
        let ghost given = rows@;
        self.install_layout(rows, graph, lane_time);
        let ghost m = *self;
        if self.reachability_anchor.is_some() {
            self.compute_reachable_rows();
        }
        proof {
            lemma_finish_chain(a, given, graph, lane_time, m, *self);
        }
    }

    /// Adopts the computed layout of the rows handed out when it started; ignored once the layout is no
    /// longer awaited.
    pub fn finish_lane_computation(&mut self, rows: Vec<CommitRow>, graph: Graph, lane_time: u64)
        requires
            old(self).wf(),
            graph.matches(topology(rows@)),
            spans_fit(rows@, old(self).titles@.len() as int, old(self).attributions@.len() as int),
        ensures
            lanes_finished(*old(self), rows@, graph, lane_time, *final(self)),
            final(self).wf(),
    {
        if self.state == State::Computing {
            self.adopt_layout(rows, graph, lane_time);
        }
    }
}

/// The view was reloaded from scratch: the history is dropped and loads again, showing hidden history as
/// asked; the selected commit is selected again once it is loaded, and transient state is reset.
pub open spec fn reloaded(a: App, b: App, show_hidden: bool) -> bool {
    &&& b.reload_selection == match a.selected {
        Some(i) => if 0 <= i < a.rows@.len() {
            Some(a.rows@[i as int].id)
        } else {
            None
        },
        None => None,
    }
    &&& !b.select_top_after_refresh
    &&& b.rows@.len() == 0
    &&& b.all_rows@.len() == 0
    &&& b.hidden_rows@.len() == 0
    &&& b.pending_hidden_rows.is_none()
    &&& b.titles@.len() == 0
    &&& b.notes@.len() == 0
    &&& b.graph.is_none()
    &&& b.attributions@.len() == 0
    &&& b.selected.is_none()
    &&& b.offset == 0
    &&& b.state == State::Loading
    &&& b.lane_time.is_none()
    &&& b.estimated_lane_width == 0
    &&& b.show_hidden == show_hidden
    &&& !b.changes_suppressed
    &&& b.horizontal_offset == 0
    &&& b.changes_focus.is_none()
    &&& b.focus_feedback.is_none()
    &&& b.commit_offset == 0
    &&& b.commit_max == 0
    &&& b.tree_changes == fresh_changes_view()
    &&& b.worktree_changes == fresh_changes_view()
    &&& !b.follow_tail
    &&& !b.preview_author_copy
    &&& b.reachability_anchor.is_none()
    &&& b.junction_parent.is_none()
    &&& b.reachable_rows.is_none()
    &&& b.signature_failures == 0
    &&& !b.signature_verification_running
    &&& b.viewport_rows == a.viewport_rows
    &&& b.horizontal_page == a.horizontal_page
    &&& b.horizontal_max == a.horizontal_max
    &&& b.show_committer_date == a.show_committer_date
    &&& b.name_mode == a.name_mode
    &&& b.show_emails == a.show_emails
    &&& b.show_trailers == a.show_trailers
    &&& b.use_mailmap == a.use_mailmap
    &&& b.ref_mode == a.ref_mode
    &&& b.has_hidden_filter == a.has_hidden_filter
    &&& b.align_metadata == a.align_metadata
    &&& b.show_commit == a.show_commit
    &&& b.history_display_expanded == a.history_display_expanded
    &&& b.inline == a.inline
    &&& b.show_selection_tail == a.show_selection_tail
    &&& b.changes_mode == a.changes_mode
    &&& b.worktree_changes_available == a.worktree_changes_available
    &&& b.changes_layout == a.changes_layout
    &&& b.tree_changes_visible == a.tree_changes_visible
    &&& b.worktree_changes_visible == a.worktree_changes_visible
    &&& b.changes_parent == a.changes_parent
    &&& b.commit_page == a.commit_page
    &&& b.copy_feedback == a.copy_feedback
    &&& b.deferred_history_state == a.deferred_history_state
    &&& b.manual_refresh == a.manual_refresh
    &&& b.selection_relation == a.selection_relation
    &&& b.notice == a.notice
}

impl App {
    fn selected_id(&self) -> (r: Option<ObjectId>)
        ensures
            r == match self.selected {
                Some(i) => if 0 <= i < self.rows@.len() {
                    Some(self.rows@[i as int].id)
                } else {
                    None
                },
                None => None,
            },
    {
        match self.selected {
            Some(i) => if i < self.rows.len() {
                Some(self.rows[i].id)
            } else {
                None
            },
            None => None,
        }
    }

    /// Drops the loaded history so that it can load again, showing hidden history as asked.
    pub fn reload(&mut self, show_hidden: bool)
        ensures
            reloaded(*old(self), *final(self), show_hidden),
            final(self).wf(),
    {
        let reload = self.selected_id();
        let cur = self.take();
        *self = App {
            reload_selection: reload,
            select_top_after_refresh: false,
            rows: Vec::new(),
            all_rows: Vec::new(),
            hidden_rows: Vec::new(),
            pending_hidden_rows: None,
            titles: Vec::new(),
            notes: Vec::new(),
            graph: None,
            attributions: Vec::new(),
            selected: None,
            offset: 0,
            state: State::Loading,
            lane_time: None,
            estimated_lane_width: 0,
            show_hidden,
            changes_suppressed: false,
            horizontal_offset: 0,
            changes_focus: None,
            focus_feedback: None,
            commit_offset: 0,
            commit_max: 0,
            tree_changes: ChangesView::new(),
            worktree_changes: ChangesView::new(),
            follow_tail: false,
            preview_author_copy: false,
            reachability_anchor: None,
            junction_parent: None,
            reachable_rows: None,
            signature_failures: 0,
            signature_verification_running: false,
            ..cur
        };
    }
}

} // verus!

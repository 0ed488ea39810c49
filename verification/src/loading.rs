//! Loading history into the view: batches of commits while the history is walked, deferred metadata,
//! and the start of the layout once the walk is complete.
use vstd::prelude::*;

use crate::app::{App, LoadedCommits, Metadata, State, first_unhidden, last_unhidden, min_usize, nav_is, preview_is, row_hidden, same_changes, same_commit_view, same_display, same_history, same_horizontal, same_navigation, same_preview, same_progress, spans_fit, unchanged, visible_offset};
use crate::author::Attribution;
use crate::commit::{CommitRow, LoadedCommit, RowView, Span, row_ids, row_views};
use crate::ids::ObjectId;
use crate::lanes::{estimate_lane_width, first_index, lane_width_estimate, lemma_first_index, topology};
use crate::reachability::{reach_result, row_position};
use crate::rows::{attribution_views, batch_titles, cache_put, cache_put_all, cache_store, lemma_cache_put_all_fits, lemma_cache_put_fits, lemma_fits_grow, store_batch, stored_rows, views_fit};

verus! {

// ---------------------------------------------------------------------------------------------
// Storing batches.
// ---------------------------------------------------------------------------------------------

/// The loaded history is unchanged, but for the rows, the cache, the hidden rows and the buffers.
pub open spec fn same_notes_graph(a: App, b: App) -> bool {
    &&& b.pending_hidden_rows == a.pending_hidden_rows
    &&& b.notes == a.notes
    &&& b.graph == a.graph
}

/// A batch was appended to the shared buffers and its rows to the cache; nothing else changed.
pub open spec fn batch_stored(a: App, b: App, batch: LoadedCommits, stored: Seq<RowView>) -> bool {
    let s = stored_rows(batch.rows@, a.titles@.len() as int, a.attributions@.len() as int);
    &&& stored == s
    &&& b.titles@ == a.titles@ + batch_titles(batch.rows@)
    &&& attribution_views(b.attributions@) == attribution_views(a.attributions@) + attribution_views(
        batch.attributions@,
    )
    &&& row_views(b.all_rows@) == cache_put_all(row_views(a.all_rows@), s)
    &&& views_fit(s, b.titles@.len() as int, b.attributions@.len() as int)
    &&& b.rows == a.rows
    &&& b.hidden_rows == a.hidden_rows
    &&& same_notes_graph(a, b)
    &&& same_navigation(a, b)
    &&& same_display(a, b)
    &&& same_changes(a, b)
    &&& same_commit_view(a, b)
    &&& same_preview(a, b)
    &&& same_progress(a, b)
}

/// The selection after a batch was appended to the rows `rows`: the first batch selects the newest
/// selectable row, a followed tail the oldest.
pub open spec fn batch_selection(
    was_empty: bool,
    follow: bool,
    selected: Option<usize>,
    rows: Seq<CommitRow>,
    hidden: Seq<ObjectId>,
) -> Option<usize> {
    if was_empty {
        first_unhidden(rows, hidden, 0, rows.len() as int)
    } else if follow {
        last_unhidden(rows, hidden, 0, rows.len() as int)
    } else {
        selected
    }
}

/// The viewport offset after a batch was appended.
pub open spec fn batch_offset(was_empty: bool, follow: bool, sel: Option<usize>, offset: usize, viewport: usize) -> usize {
    if was_empty || follow {
        visible_offset(sel, offset, viewport)
    } else {
        offset
    }
}

/// The selection a reload asked for, once its row arrived: the row itself unless it is a hidden
/// boundary row, in which case the selection stays.
pub open spec fn reload_target(a: App, rows: Seq<CommitRow>, hidden: Seq<ObjectId>, sel: Option<usize>) -> Option<
    Option<usize>,
> {
    match a.reload_selection {
        None => None,
        Some(id) => match first_index(row_ids(rows), id) {
            None => None,
            Some(p) => Some(
                if !row_hidden(rows, hidden, p) {
                    Some(p as usize)
                } else {
                    sel
                },
            ),
        },
    }
}

/// The batch was accepted: its rows were appended to the history, whose boundary rows of hidden history
/// are `hidden`.
pub open spec fn batch_accepted(a: App, hidden: Seq<ObjectId>, batch: LoadedCommits, b: App) -> bool {
    let s = stored_rows(batch.rows@, a.titles@.len() as int, a.attributions@.len() as int);
    let rows = b.rows@;
    let sel1 = batch_selection(a.rows@.len() == 0, a.follow_tail, a.selected, rows, hidden);
    let off1 = batch_offset(a.rows@.len() == 0, a.follow_tail, sel1, a.offset, a.viewport_rows);
    let reload = reload_target(a, rows, hidden, sel1);
    let sel2 = match reload {
        Some(s) => s,
        None => sel1,
    };
    let off2 = match reload {
        Some(s) => visible_offset(s, off1, a.viewport_rows),
        None => off1,
    };
    &&& row_views(rows) == row_views(a.rows@) + s
    &&& b.titles@ == a.titles@ + batch_titles(batch.rows@)
    &&& attribution_views(b.attributions@) == attribution_views(a.attributions@) + attribution_views(
        batch.attributions@,
    )
    &&& row_views(b.all_rows@) == cache_put_all(row_views(a.all_rows@), s)
    &&& b.hidden_rows@ == hidden
    &&& same_notes_graph(a, b)
    &&& nav_is(a, b, sel2, off2, a.follow_tail)
    &&& same_horizontal(a, b)
    &&& same_display(a, b)
    &&& same_changes(a, b)
    &&& same_commit_view(a, b)
    &&& b.preview_author_copy == a.preview_author_copy
    &&& b.reachability_anchor == a.reachability_anchor
    &&& b.junction_parent == a.junction_parent
    &&& b.reachable_rows == if a.reachability_anchor.is_some() {
        None
    } else {
        a.reachable_rows
    }
    &&& b.estimated_lane_width == if a.rows@.len() == 0 {
        lane_width_estimate(rows, min_usize(a.viewport_rows, rows.len() as usize) as int) as usize
    } else {
        a.estimated_lane_width
    }
    &&& b.reload_selection == match reload {
        Some(_) => None,
        None => a.reload_selection,
    }
    &&& b.state == a.state
    &&& b.signature_failures == a.signature_failures
    &&& b.signature_verification_running == a.signature_verification_running
    &&& b.copy_feedback == a.copy_feedback
    &&& b.deferred_history_state == a.deferred_history_state
    &&& b.lane_time == a.lane_time
    &&& b.select_top_after_refresh == a.select_top_after_refresh
    &&& b.manual_refresh == a.manual_refresh
    &&& b.selection_relation == a.selection_relation
    &&& b.notice == a.notice
}

/// While history loads, a non-empty batch is appended to the rows; otherwise nothing but the hidden
/// rows, which become `hidden`, changes.
pub open spec fn batch_extended(a: App, hidden: Seq<ObjectId>, batch: LoadedCommits, b: App) -> bool {
    if a.state == State::Loading && a.graph is None && batch.rows@.len() > 0 {
        batch_accepted(a, hidden, batch, b)
    } else {
        &&& b.hidden_rows@ == hidden
        &&& b.rows == a.rows
        &&& b.all_rows == a.all_rows
        &&& b.titles == a.titles
        &&& b.attributions == a.attributions
        &&& same_notes_graph(a, b)
        &&& same_navigation(a, b)
        &&& same_display(a, b)
        &&& same_changes(a, b)
        &&& same_commit_view(a, b)
        &&& same_preview(a, b)
        &&& same_progress(a, b)
    }
}

impl App {
    /// Appends a batch to the shared title and attribution buffers and its rows to the cache; returns the
    /// stored rows, which hold spans of those buffers.
    pub fn store_commits(&mut self, commits: LoadedCommits) -> (stored: Vec<CommitRow>)
        requires
            commits.wf(),
        ensures
            batch_stored(*old(self), *final(self), commits, row_views(stored@)),
    {
        let LoadedCommits { rows, attributions } = commits;
        let mut batch_attributions = attributions;
        let mut titles: Vec<u8> = Vec::new();
        let mut shared: Vec<Attribution> = Vec::new();
        let mut cache: Vec<CommitRow> = Vec::new();
        std::mem::swap(&mut titles, &mut self.titles);
        std::mem::swap(&mut shared, &mut self.attributions);
        std::mem::swap(&mut cache, &mut self.all_rows);
        let stored = store_batch(&mut titles, &mut shared, &mut cache, &rows, &mut batch_attributions);
        self.titles = titles;
        self.attributions = shared;
        self.all_rows = cache;
        stored
    }

    fn append_rows(&mut self, stored: Vec<CommitRow>)
        ensures
            row_views(final(self).rows@) == row_views(old(self).rows@) + row_views(stored@),
            final(self).all_rows == old(self).all_rows,
            final(self).hidden_rows == old(self).hidden_rows,
            final(self).titles == old(self).titles,
            final(self).attributions == old(self).attributions,
            same_notes_graph(*old(self), *final(self)),
            same_navigation(*old(self), *final(self)),
            same_display(*old(self), *final(self)),
            same_changes(*old(self), *final(self)),
            same_commit_view(*old(self), *final(self)),
            same_preview(*old(self), *final(self)),
            same_progress(*old(self), *final(self)),
    {
        let mut rows: Vec<CommitRow> = Vec::new();
        std::mem::swap(&mut rows, &mut self.rows);
        let mut more = stored;
        let ghost r0 = row_views(rows@);
        rows.append(&mut more);
        assert(row_views(rows@) =~= r0 + row_views(stored@));
        self.rows = rows;
    }
}

pub proof fn lemma_first_unhidden_bound(rows: Seq<CommitRow>, hidden: Seq<ObjectId>, lo: int, hi: int)
    requires
        0 <= lo,
        hi <= usize::MAX,
    ensures
        first_unhidden(rows, hidden, lo, hi) matches Some(i) ==> lo <= i < hi && !row_hidden(rows, hidden, i as int),
    decreases hi - lo,
{
    if lo < hi && row_hidden(rows, hidden, lo) {
        lemma_first_unhidden_bound(rows, hidden, lo + 1, hi);
    }
}

pub proof fn lemma_last_unhidden_bound(rows: Seq<CommitRow>, hidden: Seq<ObjectId>, lo: int, hi: int)
    requires
        0 <= lo,
        hi <= usize::MAX + 1,
    ensures
        last_unhidden(rows, hidden, lo, hi) matches Some(i) ==> lo <= i < hi && !row_hidden(rows, hidden, i as int),
    decreases hi - lo,
{
    if lo < hi && row_hidden(rows, hidden, hi - 1) {
        lemma_last_unhidden_bound(rows, hidden, lo, hi - 1);
    }
}

pub proof fn lemma_fits_concat(a: Seq<RowView>, b: Seq<RowView>, titles: int, attributions: int)
    requires
        views_fit(a, titles, attributions),
        views_fit(b, titles, attributions),
    ensures
        views_fit(a + b, titles, attributions),
{
    assert forall|k: int| 0 <= k < (a + b).len() implies #[trigger] (a + b)[k].title.start <= (a + b)[k].title.end
        <= titles && (a + b)[k].attributions.start <= (a + b)[k].attributions.end <= attributions by {
        if k < a.len() {
            assert((a + b)[k] == a[k]);
        } else {
            assert((a + b)[k] == b[k - a.len()]);
        }
    }
}

pub proof fn lemma_reach_incomplete(a: App, junction: Option<usize>)
    requires
        a.state != State::Complete,
    ensures
        reach_result(a, junction) == (None::<Seq<bool>>, junction),
{
    reveal(reach_result);
}

impl App {
    fn select_first_batch(&mut self)
        ensures
            final(self).estimated_lane_width == lane_width_estimate(
                old(self).rows@,
                min_usize(old(self).viewport_rows, old(self).rows@.len() as usize) as int,
            ),
            final(self).selected == first_unhidden(old(self).rows@, old(self).hidden_rows@, 0, old(self).rows@.len() as int),
            final(self).offset == visible_offset(final(self).selected, old(self).offset, old(self).viewport_rows),
            final(self).follow_tail == old(self).follow_tail,
            final(self).viewport_rows == old(self).viewport_rows,
            same_history(*old(self), *final(self)),
            same_horizontal(*old(self), *final(self)),
            same_display(*old(self), *final(self)),
            same_changes(*old(self), *final(self)),
            same_commit_view(*old(self), *final(self)),
            same_preview(*old(self), *final(self)),
            final(self).state == old(self).state,
            final(self).signature_failures == old(self).signature_failures,
            final(self).signature_verification_running == old(self).signature_verification_running,
            final(self).copy_feedback == old(self).copy_feedback,
            final(self).deferred_history_state == old(self).deferred_history_state,
            final(self).lane_time == old(self).lane_time,
            final(self).reload_selection == old(self).reload_selection,
            final(self).select_top_after_refresh == old(self).select_top_after_refresh,
            final(self).manual_refresh == old(self).manual_refresh,
            final(self).selection_relation == old(self).selection_relation,
            final(self).notice == old(self).notice,
    {
        let n = self.rows.len();
        let count = clamp_to_len(self.viewport_rows, n);
        let width = estimate_lane_width(&self.rows, count);
        let sel = self.first_selectable();
        let offset = crate::app::visible_offset_of(sel, self.offset, self.viewport_rows);
        self.estimated_lane_width = width;
        self.selected = sel;
        self.offset = offset;
    }

    fn follow_last(&mut self)
        ensures
            final(self).selected == last_unhidden(old(self).rows@, old(self).hidden_rows@, 0, old(self).rows@.len() as int),
            final(self).offset == visible_offset(final(self).selected, old(self).offset, old(self).viewport_rows),
            final(self).follow_tail == old(self).follow_tail,
            final(self).viewport_rows == old(self).viewport_rows,
            same_history(*old(self), *final(self)),
            same_horizontal(*old(self), *final(self)),
            same_display(*old(self), *final(self)),
            same_changes(*old(self), *final(self)),
            same_commit_view(*old(self), *final(self)),
            same_preview(*old(self), *final(self)),
            same_progress(*old(self), *final(self)),
    {
        let sel = self.last_selectable();
        let offset = crate::app::visible_offset_of(sel, self.offset, self.viewport_rows);
        self.selected = sel;
        self.offset = offset;
    }

    /// The selection a pending reload asks for, once its row is loaded.
    pub fn reload_choice(&self) -> (r: Option<Option<usize>>)
        ensures
            r == reload_target(*self, self.rows@, self.hidden_rows@, self.selected),
    {
        match self.reload_selection {
            None => None,
            Some(id) => {
                proof {
                    lemma_first_index(row_ids(self.rows@), id);
                }
                match row_position(&self.rows, id) {
                    None => None,
                    Some(p) => {
                        if !self.is_row_hidden(p) {
                            Some(Some(p))
                        } else {
                            Some(self.selected)
                        }
                    },
                }
            },
        }
    }

    fn take_reload(&mut self, sel: Option<usize>)
        ensures
            final(self).selected == sel,
            final(self).offset == visible_offset(sel, old(self).offset, old(self).viewport_rows),
            final(self).reload_selection.is_none(),
            final(self).follow_tail == old(self).follow_tail,
            final(self).viewport_rows == old(self).viewport_rows,
            same_history(*old(self), *final(self)),
            same_horizontal(*old(self), *final(self)),
            same_display(*old(self), *final(self)),
            same_changes(*old(self), *final(self)),
            same_commit_view(*old(self), *final(self)),
            same_preview(*old(self), *final(self)),
            final(self).state == old(self).state,
            final(self).signature_failures == old(self).signature_failures,
            final(self).signature_verification_running == old(self).signature_verification_running,
            final(self).copy_feedback == old(self).copy_feedback,
            final(self).deferred_history_state == old(self).deferred_history_state,
            final(self).lane_time == old(self).lane_time,
            final(self).estimated_lane_width == old(self).estimated_lane_width,
            final(self).select_top_after_refresh == old(self).select_top_after_refresh,
            final(self).manual_refresh == old(self).manual_refresh,
            final(self).selection_relation == old(self).selection_relation,
            final(self).notice == old(self).notice,
    {
        let offset = crate::app::visible_offset_of(sel, self.offset, self.viewport_rows);
        self.selected = sel;
        self.reload_selection = None;
        self.offset = offset;
    }
}

/// `a` clamped to at most `n`.
fn clamp_to_len(a: usize, n: usize) -> (r: usize)
    ensures
        r == min_usize(a, n),
        r <= n,
{
    if a <= n { a } else { n }
}

/// The batch's rows were stored and appended to the rows shown; nothing else changed.
pub open spec fn batch_appended(a: App, b: App, batch: LoadedCommits) -> bool {
    let s = stored_rows(batch.rows@, a.titles@.len() as int, a.attributions@.len() as int);
    &&& row_views(b.rows@) == row_views(a.rows@) + s
    &&& b.titles@ == a.titles@ + batch_titles(batch.rows@)
    &&& attribution_views(b.attributions@) == attribution_views(a.attributions@) + attribution_views(
        batch.attributions@,
    )
    &&& row_views(b.all_rows@) == cache_put_all(row_views(a.all_rows@), s)
    &&& b.hidden_rows == a.hidden_rows
    &&& same_notes_graph(a, b)
    &&& same_navigation(a, b)
    &&& same_display(a, b)
    &&& same_changes(a, b)
    &&& same_commit_view(a, b)
    &&& same_preview(a, b)
    &&& same_progress(a, b)
}

/// The selection, viewport offset and estimated width were adjusted to rows just appended to a history
/// that was empty or not.
pub open spec fn batch_viewed(a: App, b: App, was_empty: bool) -> bool {
    let sel = batch_selection(was_empty, a.follow_tail, a.selected, a.rows@, a.hidden_rows@);
    &&& same_history(a, b)
    &&& nav_is(a, b, sel, batch_offset(was_empty, a.follow_tail, sel, a.offset, a.viewport_rows), a.follow_tail)
    &&& same_horizontal(a, b)
    &&& same_display(a, b)
    &&& same_changes(a, b)
    &&& same_commit_view(a, b)
    &&& same_preview(a, b)
    &&& b.estimated_lane_width == if was_empty {
        lane_width_estimate(a.rows@, min_usize(a.viewport_rows, a.rows@.len() as usize) as int) as usize
    } else {
        a.estimated_lane_width
    }
    &&& b.state == a.state
    &&& b.signature_failures == a.signature_failures
    &&& b.signature_verification_running == a.signature_verification_running
    &&& b.copy_feedback == a.copy_feedback
    &&& b.deferred_history_state == a.deferred_history_state
    &&& b.lane_time == a.lane_time
    &&& b.reload_selection == a.reload_selection
    &&& b.select_top_after_refresh == a.select_top_after_refresh
    &&& b.manual_refresh == a.manual_refresh
    &&& b.selection_relation == a.selection_relation
    &&& b.notice == a.notice
}

/// A pending reload selected its row, if it arrived.
pub open spec fn reload_adopted(a: App, b: App) -> bool {
    let reload = reload_target(a, a.rows@, a.hidden_rows@, a.selected);
    &&& same_history(a, b)
    &&& nav_is(
        a,
        b,
        match reload {
            Some(s) => s,
            None => a.selected,
        },
        match reload {
            Some(s) => visible_offset(s, a.offset, a.viewport_rows),
            None => a.offset,
        },
        a.follow_tail,
    )
    &&& same_horizontal(a, b)
    &&& same_display(a, b)
    &&& same_changes(a, b)
    &&& same_commit_view(a, b)
    &&& same_preview(a, b)
    &&& b.reload_selection == match reload {
        Some(_) => None,
        None => a.reload_selection,
    }
    &&& b.state == a.state
    &&& b.signature_failures == a.signature_failures
    &&& b.signature_verification_running == a.signature_verification_running
    &&& b.copy_feedback == a.copy_feedback
    &&& b.deferred_history_state == a.deferred_history_state
    &&& b.lane_time == a.lane_time
    &&& b.estimated_lane_width == a.estimated_lane_width
    &&& b.select_top_after_refresh == a.select_top_after_refresh
    &&& b.manual_refresh == a.manual_refresh
    &&& b.selection_relation == a.selection_relation
    &&& b.notice == a.notice
}

/// While loading, an anchored preview has no marks yet.
pub open spec fn marks_dropped(a: App, b: App) -> bool {
    &&& same_history(a, b)
    &&& same_navigation(a, b)
    &&& same_display(a, b)
    &&& same_changes(a, b)
    &&& same_commit_view(a, b)
    &&& preview_is(
        b,
        a.preview_author_copy,
        a.reachability_anchor,
        a.junction_parent,
        if a.reachability_anchor.is_some() {
            None
        } else {
            a.reachable_rows
        },
    )
    &&& same_progress(a, b)
}

impl App {
    fn store_and_append(&mut self, commits: LoadedCommits)
        requires
            old(self).wf(),
            commits.wf(),
        ensures
            batch_appended(*old(self), *final(self), commits),
            spans_fit(final(self).rows@, final(self).titles@.len() as int, final(self).attributions@.len() as int),
            spans_fit(final(self).all_rows@, final(self).titles@.len() as int, final(self).attributions@.len() as int),
            final(self).rows@.len() == old(self).rows@.len() + commits.rows@.len(),
    {
        let ghost a = *self;
        let stored = self.store_commits(commits);
        let ghost s = row_views(stored@);
        self.append_rows(stored);
        let ghost m2 = *self;
        proof {
            assert(attribution_views(m2.attributions@).len() == m2.attributions@.len());
            assert(attribution_views(a.attributions@).len() == a.attributions@.len());
            lemma_fits_grow(
                row_views(a.rows@),
                a.titles@.len() as int,
                a.attributions@.len() as int,
                m2.titles@.len() as int,
                m2.attributions@.len() as int,
            );
            lemma_fits_concat(row_views(a.rows@), s, m2.titles@.len() as int, m2.attributions@.len() as int);
            lemma_fits_grow(
                row_views(a.all_rows@),
                a.titles@.len() as int,
                a.attributions@.len() as int,
                m2.titles@.len() as int,
                m2.attributions@.len() as int,
            );
            lemma_cache_put_all_fits(row_views(a.all_rows@), s, m2.titles@.len() as int, m2.attributions@.len() as int);
            assert(row_views(m2.rows@).len() == m2.rows@.len());
        }
    }

    fn view_batch(&mut self, was_empty: bool)
        ensures
            batch_viewed(*old(self), *final(self), was_empty),
    {
        if was_empty {
            self.select_first_batch();
        } else if self.follow_tail {
            self.follow_last();
        }
    }

    fn adopt_reload(&mut self)
        ensures
            reload_adopted(*old(self), *final(self)),
    {
        match self.reload_choice() {
            None => {},
            Some(sel) => self.take_reload(sel),
        }
    }

    fn drop_marks_while_loading(&mut self)
        requires
            old(self).state != State::Complete,
        ensures
            marks_dropped(*old(self), *final(self)),
    {
        let ghost a = *self;
        if self.reachability_anchor.is_some() {
            self.compute_reachable_rows();
            proof {
                lemma_reach_incomplete(a, a.junction_parent);
            }
        }
    }

    fn accept_batch(&mut self, commits: LoadedCommits)
        requires
            old(self).wf(),
            commits.wf(),
            old(self).state == State::Loading,
            old(self).graph.is_none(),
        ensures
            batch_accepted(*old(self), old(self).hidden_rows@, commits, *final(self)),
            final(self).wf(),
    {
        let ghost a = *self;
        let was_empty = self.rows.len() == 0;
        self.store_and_append(commits);
        let n2 = self.rows.len();
        let ghost m2 = *self;
        self.view_batch(was_empty);
        let ghost m3 = *self;
        self.adopt_reload();
        let ghost m4 = *self;
        self.drop_marks_while_loading();
        proof {
            lemma_accept_chain(a, m2, m3, m4, *self, commits, was_empty);
        }
    }

    /// Appends a batch of loaded commits while history is loading, before any layout was adopted (a refresh
    /// that reloads over a laid-out history streams no batches); otherwise the batch is ignored. The
    /// first batch selects the newest selectable row and estimates the graph's width, a followed tail
    /// selects the oldest, and a pending reload selects its row once that arrives.
    pub fn extend_commits(&mut self, commits: LoadedCommits)
        requires
            old(self).wf(),
            commits.wf(),
        ensures
            batch_extended(*old(self), old(self).hidden_rows@, commits, *final(self)),
            final(self).wf(),
    {
        let accept = self.state == State::Loading && self.graph.is_none() && commits.rows.len() > 0;
        if accept {
            self.accept_batch(commits);
        }
    }

    fn hide_rows(&mut self, rows: &Vec<LoadedCommit>)
        ensures
            final(self).hidden_rows@ == old(self).hidden_rows@ + loaded_ids(rows@),
            final(self).rows == old(self).rows,
            final(self).all_rows == old(self).all_rows,
            final(self).titles == old(self).titles,
            final(self).attributions == old(self).attributions,
            same_notes_graph(*old(self), *final(self)),
            same_navigation(*old(self), *final(self)),
            same_display(*old(self), *final(self)),
            same_changes(*old(self), *final(self)),
            same_commit_view(*old(self), *final(self)),
            same_preview(*old(self), *final(self)),
            same_progress(*old(self), *final(self)),
    {
        let mut hidden: Vec<ObjectId> = Vec::new();
        std::mem::swap(&mut hidden, &mut self.hidden_rows);
        let hidden = with_ids(hidden, rows);
        self.hidden_rows = hidden;
    }

    /// Appends a batch of commits that bound the hidden history: they are drawn but cannot be selected.
    pub fn extend_hidden_commits(&mut self, commits: LoadedCommits)
        requires
            old(self).wf(),
            commits.wf(),
        ensures
            batch_extended(*old(self), old(self).hidden_rows@ + loaded_ids(commits.rows@), commits, *final(self)),
            final(self).wf(),
    {
        self.hide_rows(&commits.rows);
        self.extend_commits(commits);
    }
}

/// The identities of loaded commits.
pub open spec fn loaded_ids(rows: Seq<LoadedCommit>) -> Seq<ObjectId> {
    rows.map_values(|r: LoadedCommit| r.id)
}

fn with_ids(ids: Vec<ObjectId>, rows: &Vec<LoadedCommit>) -> (r: Vec<ObjectId>)
    ensures
        r@ == ids@ + loaded_ids(rows@),
{
    let mut out = ids;
    let ghost base = out@;
    let mut i: usize = 0;
    while i < rows.len()
        invariant
            i <= rows@.len(),
            out@ == base + loaded_ids(rows@).take(i as int),
        decreases rows@.len() - i,
    {
        out.push(rows[i].id);
        i += 1;
        assert(out@ =~= base + loaded_ids(rows@).take(i as int));
    }
    assert(loaded_ids(rows@).take(rows@.len() as int) =~= loaded_ids(rows@));
    out
}

proof fn lemma_accept_chain(a: App, m2: App, m3: App, m4: App, b: App, commits: LoadedCommits, was_empty: bool)
    requires
        a.wf(),
        a.state == State::Loading,
        a.graph is None,
        was_empty == (a.rows@.len() == 0),
        batch_appended(a, m2, commits),
        spans_fit(m2.rows@, m2.titles@.len() as int, m2.attributions@.len() as int),
        spans_fit(m2.all_rows@, m2.titles@.len() as int, m2.attributions@.len() as int),
        m2.rows@.len() <= usize::MAX,
        batch_viewed(m2, m3, was_empty),
        reload_adopted(m3, m4),
        marks_dropped(m4, b),
    ensures
        batch_accepted(a, a.hidden_rows@, commits, b),
        b.wf(),
{
    lemma_first_unhidden_bound(m2.rows@, m2.hidden_rows@, 0, m2.rows@.len() as int);
    lemma_last_unhidden_bound(m2.rows@, m2.hidden_rows@, 0, m2.rows@.len() as int);
    if let Some(id) = m3.reload_selection {
        lemma_first_index(row_ids(m3.rows@), id);
    }
    assert(row_views(m2.rows@).len() == m2.rows@.len());
    assert(row_views(a.rows@).len() == a.rows@.len());
}

// ---------------------------------------------------------------------------------------------
// Deferred metadata and the start of the layout.
// ---------------------------------------------------------------------------------------------

/// A row once its deferred metadata arrived: its title starts at `title_start` of the shared title buffer
/// and its attributions are shifted by `base` into the shared attribution buffer.
pub open spec fn metadata_row(r: RowView, m: Metadata, title_start: int, base: int) -> RowView {
    RowView {
        id: r.id,
        parents: r.parents,
        committer_time: m.committer_time,
        author: m.author@,
        attributions: Span { start: (base + m.attributions.start) as usize, end: (base + m.attributions.end) as usize },
        title: Span { start: title_start as usize, end: (title_start + m.title@.len()) as usize },
        metadata_loaded: true,
        has_agent_marker: m.has_agent_marker,
        signature: m.signature,
    }
}

/// Row `index` is shown and still waits for its metadata.
pub open spec fn awaits_metadata(a: App, index: int) -> bool {
    0 <= index < a.rows@.len() && !a.rows@[index].metadata_loaded
}

/// The metadata of row `index` was stored, if the row still waited for it.
pub open spec fn metadata_set(a: App, b: App, index: usize, m: Metadata, attributions: Seq<Attribution>) -> bool {
    if awaits_metadata(a, index as int) {
        let r = metadata_row(a.rows@[index as int]@, m, a.titles@.len() as int, a.attributions@.len() as int);
        &&& b.titles@ == a.titles@ + m.title@
        &&& attribution_views(b.attributions@) == attribution_views(a.attributions@) + attribution_views(attributions)
        &&& b.rows@.len() == a.rows@.len()
        &&& b.rows@[index as int]@ == r
        &&& forall|k: int| 0 <= k < a.rows@.len() && k != index ==> b.rows@[k] == a.rows@[k]
        &&& row_views(b.all_rows@) == cache_put(row_views(a.all_rows@), r)
        &&& b.hidden_rows == a.hidden_rows
        &&& same_notes_graph(a, b)
        &&& same_navigation(a, b)
        &&& same_display(a, b)
        &&& same_changes(a, b)
        &&& same_commit_view(a, b)
        &&& same_preview(a, b)
        &&& same_progress(a, b)
    } else {
        unchanged(a, b)
    }
}

/// The layout started: a loading history starts computing it from a copy of its rows, a cancelled walk
/// ends; otherwise nothing changes and no rows are handed out.
pub open spec fn lanes_started(a: App, b: App, rows: Option<Seq<RowView>>) -> bool {
    match a.state {
        State::Loading => {
            &&& rows == Some(row_views(a.rows@))
            &&& b.state == State::Computing
            &&& !b.follow_tail
            &&& b.reload_selection.is_none()
            &&& computing_frame(a, b)
        },
        State::Cancelling => {
            &&& rows.is_none()
            &&& b.state == State::Cancelled
            &&& !b.follow_tail
            &&& b.reload_selection == a.reload_selection
            &&& computing_frame(a, b)
        },
        _ => rows.is_none() && unchanged(a, b),
    }
}

/// Everything but the state, whether the tail is followed and the pending reload is unchanged.
pub open spec fn computing_frame(a: App, b: App) -> bool {
    &&& same_history(a, b)
    &&& b.selected == a.selected
    &&& b.offset == a.offset
    &&& b.viewport_rows == a.viewport_rows
    &&& same_horizontal(a, b)
    &&& same_display(a, b)
    &&& same_changes(a, b)
    &&& same_commit_view(a, b)
    &&& same_preview(a, b)
    &&& b.signature_failures == a.signature_failures
    &&& b.signature_verification_running == a.signature_verification_running
    &&& b.copy_feedback == a.copy_feedback
    &&& b.deferred_history_state == a.deferred_history_state
    &&& b.lane_time == a.lane_time
    &&& b.estimated_lane_width == a.estimated_lane_width
    &&& b.select_top_after_refresh == a.select_top_after_refresh
    &&& b.manual_refresh == a.manual_refresh
    &&& b.selection_relation == a.selection_relation
    &&& b.notice == a.notice
}

impl App {
    /// Whether row `index` is shown and still waits for its metadata.
    pub fn metadata_pending(&self, index: usize) -> (r: bool)
        ensures
            r == awaits_metadata(*self, index as int),
    {
        index < self.rows.len() && !self.rows[index].metadata_loaded
    }

    fn apply_metadata(&mut self, index: usize, metadata: Metadata, attributions: Vec<Attribution>)
        requires
            old(self).wf(),
            awaits_metadata(*old(self), index as int),
            metadata.attributions.start <= metadata.attributions.end <= attributions@.len(),
        ensures
            metadata_set(*old(self), *final(self), index, metadata, attributions@),
            final(self).wf(),
    {
        let ghost a = *self;
        let mut titles: Vec<u8> = Vec::new();
        let mut shared: Vec<Attribution> = Vec::new();
        let mut cache: Vec<CommitRow> = Vec::new();
        let mut rows: Vec<CommitRow> = Vec::new();
        std::mem::swap(&mut titles, &mut self.titles);
        std::mem::swap(&mut shared, &mut self.attributions);
        std::mem::swap(&mut cache, &mut self.all_rows);
        std::mem::swap(&mut rows, &mut self.rows);
        let row = with_metadata(&rows[index], &metadata, &mut titles, &mut shared, attributions);
        cache_store(&mut cache, row.duplicate());
        let ghost before = rows@;
        rows.set(index, row);
        self.titles = titles;
        self.attributions = shared;
        self.all_rows = cache;
        self.rows = rows;
        proof {
            let b = *self;
            let r = b.rows@[index as int]@;
            assert(attribution_views(b.attributions@).len() == b.attributions@.len());
            assert(attribution_views(a.attributions@).len() == a.attributions@.len());
            assert(attribution_views(b.attributions@) =~= attribution_views(a.attributions@) + attribution_views(
                attributions@,
            ));
            lemma_fits_grow(
                row_views(a.all_rows@),
                a.titles@.len() as int,
                a.attributions@.len() as int,
                b.titles@.len() as int,
                b.attributions@.len() as int,
            );
            assert(views_fit(seq![r], b.titles@.len() as int, b.attributions@.len() as int)) by {
                assert(seq![r][0] == r);
            }
            lemma_cache_put_fits(row_views(a.all_rows@), r, b.titles@.len() as int, b.attributions@.len() as int);
            assert forall|k: int| 0 <= k < b.rows@.len() implies #[trigger] row_views(b.rows@)[k].title.start
                <= row_views(b.rows@)[k].title.end <= b.titles@.len() && row_views(b.rows@)[k].attributions.start
                <= row_views(b.rows@)[k].attributions.end <= b.attributions@.len() by {
                if k != index {
                    assert(row_views(a.rows@)[k] == a.rows@[k]@);
                }
            }
            assert(crate::lanes::topology(b.rows@) =~= crate::lanes::topology(a.rows@));
        }
    }

    /// Stores the deferred metadata of row `index`, unless the row is missing or already has it.
    pub fn set_metadata(&mut self, index: usize, metadata: Metadata, attributions: Vec<Attribution>)
        requires
            old(self).wf(),
            metadata.attributions.start <= metadata.attributions.end <= attributions@.len(),
        ensures
            metadata_set(*old(self), *final(self), index, metadata, attributions@),
            final(self).wf(),
    {
        if self.metadata_pending(index) {
            self.apply_metadata(index, metadata, attributions);
        }
    }

    fn begin_computing(&mut self) -> (rows: Vec<CommitRow>)
        ensures
            row_views(rows@) == row_views(old(self).rows@),
            final(self).state == State::Computing,
            !final(self).follow_tail,
            final(self).reload_selection.is_none(),
            computing_frame(*old(self), *final(self)),
    {
        self.state = State::Computing;
        self.follow_tail = false;
        self.reload_selection = None;
        crate::commit::copy_rows(&self.rows)
    }

    fn end_cancelling(&mut self)
        ensures
            final(self).state == State::Cancelled,
            !final(self).follow_tail,
            final(self).reload_selection == old(self).reload_selection,
            computing_frame(*old(self), *final(self)),
    {
        let cur = self.take();
        *self = App { state: State::Cancelled, follow_tail: false, ..cur };
    }

    /// Starts laying out a completely loaded history and hands out a copy of its rows to lay out; a walk
    /// cancelled meanwhile ends instead.
    pub fn start_lane_computation(&mut self) -> (rows: Option<Vec<CommitRow>>)
        ensures
            lanes_started(
                *old(self),
                *final(self),
                match rows {
                    Some(r) => Some(row_views(r@)),
                    None => None,
                },
            ),
    {
        match self.state {
            State::Loading => Some(self.begin_computing()),
            State::Cancelling => {
                self.end_cancelling();
                None
            },
            _ => None,
        }
    }
}

/// A copy of `row` with the deferred metadata `m`, whose title and attributions are appended to the
/// shared buffers.
fn with_metadata(
    row: &CommitRow,
    m: &Metadata,
    titles: &mut Vec<u8>,
    shared: &mut Vec<Attribution>,
    attributions: Vec<Attribution>,
) -> (r: CommitRow)
    requires
        m.attributions.start <= m.attributions.end <= attributions@.len(),
    ensures
        r@ == metadata_row(row@, *m, old(titles)@.len() as int, old(shared)@.len() as int),
        final(titles)@ == old(titles)@ + m.title@,
        final(shared)@ == old(shared)@ + attributions@,
        r.title.start <= r.title.end == final(titles)@.len(),
        r.attributions.start <= r.attributions.end <= final(shared)@.len(),
{
    let title_start = titles.len();
    crate::bytes::push_all(titles, m.title.as_slice());
    let title_end = titles.len();
    let base = shared.len();
    let mut more = attributions;
    shared.append(&mut more);
    let total = shared.len();
    assert(base + m.attributions.end <= total);
    CommitRow {
        id: row.id,
        parent_ids: crate::commit::copy_ids(&row.parent_ids),
        committer_time: m.committer_time,
        author: m.author.duplicate(),
        attributions: Span { start: base + m.attributions.start, end: base + m.attributions.end },
        title: Span { start: title_start, end: title_end },
        metadata_loaded: true,
        has_agent_marker: m.has_agent_marker,
        signature: m.signature,
    }
}

} // verus!

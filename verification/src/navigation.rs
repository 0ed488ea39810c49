//! Moving the selection through the history, scrolling, and reading what the view holds.
use vstd::prelude::*;

use crate::app::{App, RefMode, at_least_one, clamp_to, display_is, max1, min_usize, nav_is, nearest_unhidden, preview_is, progress_is, row_hidden, same_changes, same_commit_view, same_display, same_history, same_history_but_rows, same_horizontal, same_navigation, same_preview, same_progress, sat_add, sat_sub, unchanged, visible_offset, visible_offset_of};
use crate::author::Attribution;
use crate::commit::{CommitRow, copy_ids, row_views};
use crate::ids::ObjectId;
use crate::lanes::{
    RenderedLanes, drawn_lane, first_index, lemma_first_index, lemma_first_index_none,
    lemma_first_index_of, topology,
};
use crate::rows::{recache_failed, unfail, unfail_rows};

verus! {

// ---------------------------------------------------------------------------------------------
// Signatures that failed to verify.
// ---------------------------------------------------------------------------------------------

/// Every row whose signature check failed reads as unverified, in the rows shown and in the cache.
pub open spec fn rows_reset(a: App, b: App) -> bool {
    &&& b.rows@.len() == a.rows@.len()
    &&& forall|k: int| 0 <= k < a.rows@.len() ==> #[trigger] b.rows@[k]@ == unfail(a.rows@[k]@)
    &&& row_views(b.all_rows@) == recache_failed(row_views(a.all_rows@), row_views(a.rows@))
}

/// Failed signature checks were reset so that they can be retried.
pub open spec fn failures_reset(a: App, b: App) -> bool {
    &&& rows_reset(a, b)
    &&& same_history_but_rows(a, b)
    &&& same_navigation(a, b)
    &&& same_display(a, b)
    &&& same_changes(a, b)
    &&& same_commit_view(a, b)
    &&& same_preview(a, b)
    &&& progress_is(a, b, a.state, 0, a.signature_verification_running, a.copy_feedback)
}

/// Failed signature checks are offered again, if there were any.
pub open spec fn retried(a: App, b: App) -> bool {
    if a.signature_failures == 0 {
        unchanged(a, b)
    } else {
        failures_reset(a, b)
    }
}

/// `sel` is selected and scrolled into view, whether the tail is followed becomes `follow`, and a changed
/// selection offers failed signature checks again.
pub open spec fn moved_to_following(a: App, b: App, sel: Option<usize>, follow: bool) -> bool {
    let retry = sel != a.selected && a.signature_failures != 0;
    &&& if retry {
        rows_reset(a, b)
    } else {
        b.rows == a.rows && b.all_rows == a.all_rows
    }
    &&& same_history_but_rows(a, b)
    &&& nav_is(a, b, sel, visible_offset(sel, a.offset, a.viewport_rows), follow)
    &&& same_horizontal(a, b)
    &&& same_display(a, b)
    &&& same_changes(a, b)
    &&& same_commit_view(a, b)
    &&& same_preview(a, b)
    &&& progress_is(
        a,
        b,
        a.state,
        if retry { 0 } else { a.signature_failures },
        a.signature_verification_running,
        a.copy_feedback,
    )
}

/// `sel` is selected and scrolled into view, the tail is no longer followed, and a changed selection
/// offers failed signature checks again.
pub open spec fn moved_to(a: App, b: App, sel: Option<usize>) -> bool {
    moved_to_following(a, b, sel, false)
}

/// Row `index` is selected, clamped to the history, unless it is hidden or the history is empty.
pub open spec fn selected_index(a: App, b: App, index: usize) -> bool {
    if a.rows@.len() > 0 && !row_hidden(a.rows@, a.hidden_rows@, index as int) {
        moved_to(a, b, Some(min_usize(index, (a.rows@.len() - 1) as usize)))
    } else {
        unchanged(a, b)
    }
}

/// The row `distance` rows away from `s`, clamped to the `n` rows.
pub open spec fn target_of(s: usize, distance: usize, down: bool, n: int) -> usize {
    if down {
        min_usize(sat_add(s, distance), (n - 1) as usize)
    } else {
        sat_sub(s, distance)
    }
}

/// The selection moved by `distance` rows to the nearest selectable row.
pub open spec fn moved_by(a: App, b: App, distance: usize, down: bool) -> bool {
    match a.selected {
        None => unchanged(a, b),
        Some(s) => moved_to(
            a,
            b,
            nearest_unhidden(a.rows@, a.hidden_rows@, target_of(s, distance, down, a.rows@.len() as int) as int, down),
        ),
    }
}

/// Row `i` may be selected and belongs to the ancestry preview.
pub open spec fn reach_ok(a: App, reach: Seq<bool>, i: int) -> bool {
    !row_hidden(a.rows@, a.hidden_rows@, i) && 0 <= i < reach.len() && reach[i]
}

/// The `k`-th row at or after `i` and before `hi` that may be selected within the preview.
pub open spec fn nth_up(a: App, reach: Seq<bool>, i: int, hi: int, k: int) -> Option<usize>
    decreases hi - i,
{
    if i >= hi {
        None
    } else if reach_ok(a, reach, i) {
        if k <= 1 {
            Some(i as usize)
        } else {
            nth_up(a, reach, i + 1, hi, k - 1)
        }
    } else {
        nth_up(a, reach, i + 1, hi, k)
    }
}

/// The `k`-th row before `i`, counting towards the top, that may be selected within the preview.
pub open spec fn nth_down(a: App, reach: Seq<bool>, i: int, k: int) -> Option<usize>
    decreases i,
{
    if i <= 0 {
        None
    } else if reach_ok(a, reach, i - 1) {
        if k <= 1 {
            Some((i - 1) as usize)
        } else {
            nth_down(a, reach, i - 1, k - 1)
        }
    } else {
        nth_down(a, reach, i - 1, k)
    }
}

/// The row `distance` steps away within the ancestry preview; `None` if the preview is off.
pub open spec fn reachable_step(a: App, distance: usize, down: bool) -> Option<Option<usize>> {
    match (a.selected, a.reachable_rows) {
        (Some(s), Some(r)) => Some(
            if down {
                nth_up(a, r@, s + 1, a.rows@.len() as int, max1(distance) as int)
            } else {
                nth_down(a, r@, s as int, max1(distance) as int)
            },
        ),
        _ => None,
    }
}

/// The selection moved by `distance` rows; within the ancestry preview only its rows are visited.
pub open spec fn moved_within(a: App, b: App, distance: usize, down: bool) -> bool {
    match reachable_step(a, distance, down) {
        None => moved_by(a, b, distance, down),
        Some(Some(next)) => selected_index(a, b, next),
        Some(None) => unchanged(a, b),
    }
}

impl App {
    fn reset_failed(&mut self)
        ensures
            failures_reset(*old(self), *final(self)),
    {
        let mut cache: Vec<CommitRow> = Vec::new();
        std::mem::swap(&mut cache, &mut self.all_rows);
        let rows = unfail_rows(&self.rows, &mut cache);
        self.rows = rows;
        self.all_rows = cache;
        self.signature_failures = 0;
    }

    /// Offers signatures whose check failed for checking again.
    pub fn retry_failed_signatures(&mut self)
        ensures
            retried(*old(self), *final(self)),
    {
        if self.signature_failures != 0 {
            self.reset_failed();
        }
    }

    fn place_selection(&mut self, sel: Option<usize>, follow: bool)
        ensures
            same_history(*old(self), *final(self)),
            nav_is(*old(self), *final(self), sel, visible_offset(sel, old(self).offset, old(self).viewport_rows), follow),
            same_horizontal(*old(self), *final(self)),
            same_display(*old(self), *final(self)),
            same_changes(*old(self), *final(self)),
            same_commit_view(*old(self), *final(self)),
            same_preview(*old(self), *final(self)),
            same_progress(*old(self), *final(self)),
    {
        let offset = visible_offset_of(sel, self.offset, self.viewport_rows);
        self.selected = sel;
        self.follow_tail = follow;
        self.offset = offset;
    }

    /// Selects `sel` and scrolls it into view, following the tail or not; a changed selection offers
    /// failed signature checks again.
    pub fn move_to_following(&mut self, sel: Option<usize>, follow: bool)
        ensures
            moved_to_following(*old(self), *final(self), sel, follow),
    {
        let changed = sel != self.selected;
        if changed {
            self.retry_failed_signatures();
        }
        self.place_selection(sel, follow);
    }

    /// Selects `sel` and scrolls it into view; a changed selection offers failed signature checks again.
    pub fn move_to(&mut self, sel: Option<usize>)
        ensures
            moved_to(*old(self), *final(self), sel),
    {
        self.move_to_following(sel, false);
    }

    /// Selects row `index`, clamped to the history, unless it is a hidden boundary row.
    pub fn select(&mut self, index: usize)
        ensures
            selected_index(*old(self), *final(self), index),
    {
        let n = self.rows.len();
        let hidden = self.is_row_hidden(index);
        if n > 0 && !hidden {
            let target = clamp_to(index, n - 1);
            self.move_to(Some(target));
        }
    }

    /// Moves the selection by `distance` rows to the nearest row that may be selected.
    pub fn move_selection(&mut self, distance: usize, down: bool)
        requires
            old(self).selected matches Some(s) ==> s < old(self).rows@.len(),
        ensures
            moved_by(*old(self), *final(self), distance, down),
    {
        let n = self.rows.len();
        let sel = self.selected;
        if let Some(s) = sel {
            let target = step_target(s, distance, down, n);
            let next = self.nearest_selectable(target, down);
            self.move_to(next);
        }
    }

    fn nth_reachable_up(&self, reach: &Vec<bool>, start: usize, count: usize) -> (r: Option<usize>)
        requires
            count >= 1,
            start <= self.rows@.len(),
        ensures
            r == nth_up(*self, reach@, start as int, self.rows@.len() as int, count as int),
    {
        let n = self.rows.len();
        let mut i = start;
        let mut k = count;
        while i < n
            invariant
                start <= i <= n,
                n == self.rows@.len(),
                k >= 1,
                nth_up(*self, reach@, start as int, n as int, count as int) == nth_up(*self, reach@, i as int, n as int, k as int),
            decreases n - i,
        {
            let ok = !self.is_row_hidden(i) && i < reach.len() && reach[i];
            if ok {
                if k == 1 {
                    assert(nth_up(*self, reach@, i as int, n as int, k as int) == Some(i));
                    return Some(i);
                }
                k -= 1;
            }
            i += 1;
        }
        None
    }

    fn nth_reachable_down(&self, reach: &Vec<bool>, start: usize, count: usize) -> (r: Option<usize>)
        requires
            count >= 1,
        ensures
            r == nth_down(*self, reach@, start as int, count as int),
    {
        let mut i = start;
        let mut k = count;
        while i > 0
            invariant
                i <= start,
                k >= 1,
                nth_down(*self, reach@, start as int, count as int) == nth_down(*self, reach@, i as int, k as int),
            decreases i,
        {
            let ok = !self.is_row_hidden(i - 1) && i - 1 < reach.len() && reach[i - 1];
            if ok {
                if k == 1 {
                    assert(nth_down(*self, reach@, i as int, k as int) == Some((i - 1) as usize));
                    return Some(i - 1);
                }
                k -= 1;
            }
            i -= 1;
        }
        None
    }

    /// The row `distance` steps away within the ancestry preview, or `None` if the preview is off.
    pub fn reachable_target(&self, distance: usize, down: bool) -> (r: Option<Option<usize>>)
        requires
            self.selected matches Some(s) ==> s < self.rows@.len(),
        ensures
            r == reachable_step(*self, distance, down),
    {
        let n = self.rows.len();
        match (self.selected, &self.reachable_rows) {
            (Some(s), Some(reach)) => {
                let k = at_least_one(distance);
                if down {
                    Some(self.nth_reachable_up(reach, s + 1, k))
                } else {
                    Some(self.nth_reachable_down(reach, s, k))
                }
            },
            _ => None,
        }
    }

    /// Moves the selection by `distance` rows; while the ancestry preview is shown only its rows are
    /// visited.
    pub fn move_reachable(&mut self, distance: usize, down: bool)
        requires
            old(self).selected matches Some(s) ==> s < old(self).rows@.len(),
        ensures
            moved_within(*old(self), *final(self), distance, down),
    {
        let step = self.reachable_target(distance, down);
        match step {
            None => self.move_selection(distance, down),
            Some(Some(next)) => self.select(next),
            Some(None) => {},
        }
    }
}

/// The row `distance` rows away from `s`, clamped to the `n` rows.
pub fn step_target(s: usize, distance: usize, down: bool, n: usize) -> (r: usize)
    requires
        s < n,
    ensures
        r == target_of(s, distance, down, n as int),
        r < n,
{
    if down {
        let t = s.saturating_add(distance);
        if t <= n - 1 { t } else { n - 1 }
    } else {
        s.saturating_sub(distance)
    }
}

// ---------------------------------------------------------------------------------------------
// Settings and viewports.
// ---------------------------------------------------------------------------------------------

/// Whether hidden revisions were configured was recorded; they hide references.
pub open spec fn filter_configured(a: App, b: App, present: bool) -> bool {
    &&& same_history(a, b)
    &&& same_navigation(a, b)
    &&& display_is(
        a,
        b,
        a.show_committer_date,
        a.name_mode,
        a.show_emails,
        a.show_trailers,
        a.use_mailmap,
        refs_with_filter(present, a.ref_mode),
        present,
        a.show_hidden,
        a.align_metadata,
        a.show_commit,
        a.history_display_expanded,
    )
    &&& same_changes(a, b)
    &&& same_commit_view(a, b)
    &&& same_preview(a, b)
    &&& same_progress(a, b)
}

/// The references shown once hidden revisions were configured or not.
pub open spec fn refs_with_filter(present: bool, refs: RefMode) -> RefMode {
    if present {
        RefMode::Off
    } else {
        refs
    }
}

/// Everything but the horizontal bounds of the graph is unchanged.
pub open spec fn horizontal_is(a: App, b: App, offset: usize, page: usize, max: usize) -> bool {
    &&& same_history(a, b)
    &&& nav_is(a, b, a.selected, a.offset, a.follow_tail)
    &&& b.horizontal_offset == offset
    &&& b.horizontal_page == page
    &&& b.horizontal_max == max
    &&& same_display(a, b)
    &&& same_changes(a, b)
    &&& same_commit_view(a, b)
    &&& same_preview(a, b)
    &&& same_progress(a, b)
}

/// Everything but the commit message viewport is unchanged.
pub open spec fn commit_scrolled(a: App, b: App, offset: usize, page: usize, max: usize) -> bool {
    &&& same_history(a, b)
    &&& same_navigation(a, b)
    &&& same_display(a, b)
    &&& same_changes(a, b)
    &&& b.commit_offset == offset
    &&& b.commit_page == page
    &&& b.commit_max == max
    &&& same_preview(a, b)
    &&& same_progress(a, b)
}

/// The ancestry preview ended.
pub open spec fn preview_cleared(a: App, b: App) -> bool {
    &&& same_history(a, b)
    &&& same_navigation(a, b)
    &&& same_display(a, b)
    &&& same_changes(a, b)
    &&& same_commit_view(a, b)
    &&& preview_is(b, false, None, None, None)
    &&& same_progress(a, b)
}

impl App {
    /// Sets whether hidden revisions were configured; they hide references by default.
    pub fn configure_hidden_filter(&mut self, present: bool)
        ensures
            filter_configured(*old(self), *final(self), present),
    {
        if present {
            self.hide_refs();
        }
        self.record_filter(present);
    }

    fn record_filter(&mut self, present: bool)
        ensures
            same_history(*old(self), *final(self)),
            same_navigation(*old(self), *final(self)),
            display_is(
                *old(self),
                *final(self),
                old(self).show_committer_date,
                old(self).name_mode,
                old(self).show_emails,
                old(self).show_trailers,
                old(self).use_mailmap,
                old(self).ref_mode,
                present,
                old(self).show_hidden,
                old(self).align_metadata,
                old(self).show_commit,
                old(self).history_display_expanded,
            ),
            same_changes(*old(self), *final(self)),
            same_commit_view(*old(self), *final(self)),
            same_preview(*old(self), *final(self)),
            same_progress(*old(self), *final(self)),
    {
        self.has_hidden_filter = present;
    }

    fn hide_refs(&mut self)
        ensures
            same_history(*old(self), *final(self)),
            same_navigation(*old(self), *final(self)),
            display_is(
                *old(self),
                *final(self),
                old(self).show_committer_date,
                old(self).name_mode,
                old(self).show_emails,
                old(self).show_trailers,
                old(self).use_mailmap,
                RefMode::Off,
                old(self).has_hidden_filter,
                old(self).show_hidden,
                old(self).align_metadata,
                old(self).show_commit,
                old(self).history_display_expanded,
            ),
            same_changes(*old(self), *final(self)),
            same_commit_view(*old(self), *final(self)),
            same_preview(*old(self), *final(self)),
            same_progress(*old(self), *final(self)),
    {
        self.ref_mode = RefMode::Off;
    }

    /// Adopts the graph's horizontal page and the widest scroll position; the position is clamped.
    pub fn set_horizontal_bounds(&mut self, page: usize, max: usize)
        ensures
            horizontal_is(*old(self), *final(self), min_usize(old(self).horizontal_offset, max), max1(page), max),
    {
        let offset = clamp_to(self.horizontal_offset, max);
        self.horizontal_page = at_least_one(page);
        self.horizontal_max = max;
        self.horizontal_offset = offset;
    }

    /// Pans the graph by one page to the left or, up to its widest position, to the right.
    pub fn pan_graph(&mut self, right: bool)
        ensures
            horizontal_is(
                *old(self),
                *final(self),
                if right {
                    min_usize(sat_add(old(self).horizontal_offset, old(self).horizontal_page), old(self).horizontal_max)
                } else {
                    sat_sub(old(self).horizontal_offset, old(self).horizontal_page)
                },
                old(self).horizontal_page,
                old(self).horizontal_max,
            ),
    {
        let offset = paged(self.horizontal_offset, self.horizontal_page, self.horizontal_max, right);
        self.horizontal_offset = offset;
    }

    /// Adopts the commit message's page and last scroll position; the position is clamped.
    pub fn set_commit_bounds(&mut self, page: usize, max: usize)
        ensures
            commit_scrolled(*old(self), *final(self), min_usize(old(self).commit_offset, max), max1(page), max),
    {
        let offset = clamp_to(self.commit_offset, max);
        self.commit_page = at_least_one(page);
        self.commit_max = max;
        self.commit_offset = offset;
    }

    /// Scrolls the commit message back to its top.
    pub fn reset_commit_view(&mut self)
        ensures
            commit_scrolled(*old(self), *final(self), 0, old(self).commit_page, 0),
    {
        self.commit_offset = 0;
        self.commit_max = 0;
    }

    /// Pages the commit message up or, up to its last position, down.
    pub fn page_commit(&mut self, down: bool)
        ensures
            commit_scrolled(
                *old(self),
                *final(self),
                if down {
                    min_usize(sat_add(old(self).commit_offset, old(self).commit_page), old(self).commit_max)
                } else {
                    sat_sub(old(self).commit_offset, old(self).commit_page)
                },
                old(self).commit_page,
                old(self).commit_max,
            ),
    {
        let offset = paged(self.commit_offset, self.commit_page, self.commit_max, down);
        self.commit_offset = offset;
    }

    /// Ends the ancestry preview.
    pub fn clear_preview_author_copy(&mut self)
        ensures
            preview_cleared(*old(self), *final(self)),
    {
        self.preview_author_copy = false;
        self.reachability_anchor = None;
        self.junction_parent = None;
        self.reachable_rows = None;
    }
}

/// `offset` moved one `page` back, or forward up to `max`.
pub fn paged(offset: usize, page: usize, max: usize, forward: bool) -> (r: usize)
    ensures
        r == if forward { min_usize(sat_add(offset, page), max) } else { sat_sub(offset, page) },
{
    if forward {
        let o = offset.saturating_add(page);
        if o <= max { o } else { max }
    } else {
        offset.saturating_sub(page)
    }
}

// ---------------------------------------------------------------------------------------------
// Reading the view.
// ---------------------------------------------------------------------------------------------

/// The identities of stored notes, in order.
pub open spec fn note_ids(notes: Seq<(ObjectId, Vec<Vec<u8>>)>) -> Seq<ObjectId> {
    notes.map_values(|n: (ObjectId, Vec<Vec<u8>>)| n.0)
}

/// The notes stored for `id`, if any were loaded.
pub open spec fn notes_of(notes: Seq<(ObjectId, Vec<Vec<u8>>)>, id: ObjectId) -> Option<Seq<Seq<u8>>> {
    match first_index(note_ids(notes), id) {
        Some(i) => Some(notes[i].1@.map_values(|b: Vec<u8>| b@)),
        None => None,
    }
}

/// Whether row `index` is drawn as reachable from the ancestry preview's anchor.
pub open spec fn reachable_at(reachable: Option<Vec<bool>>, index: int) -> bool {
    match reachable {
        None => true,
        Some(v) => 0 <= index < v@.len() && v@[index],
    }
}

/// The notes of `id` were stored, replacing notes stored before; nothing else changed.
pub open spec fn notes_stored(a: App, b: App, id: ObjectId, notes: Seq<Seq<u8>>) -> bool {
    &&& notes_of(b.notes@, id) == Some(notes)
    &&& forall|other: ObjectId| other != id ==> notes_of(b.notes@, other) == notes_of(a.notes@, other)
    &&& b.rows == a.rows
    &&& b.all_rows == a.all_rows
    &&& b.hidden_rows == a.hidden_rows
    &&& b.pending_hidden_rows == a.pending_hidden_rows
    &&& b.titles == a.titles
    &&& b.graph == a.graph
    &&& b.attributions == a.attributions
    &&& same_navigation(a, b)
    &&& same_display(a, b)
    &&& same_changes(a, b)
    &&& same_commit_view(a, b)
    &&& same_preview(a, b)
    &&& same_progress(a, b)
}

fn note_position(notes: &Vec<(ObjectId, Vec<Vec<u8>>)>, id: ObjectId) -> (r: Option<usize>)
    ensures
        match r {
            Some(i) => first_index(note_ids(notes@), id) == Some(i as int),
            None => first_index(note_ids(notes@), id) == None::<int>,
        },
{
    let ghost ids = note_ids(notes@);
    let mut i: usize = 0;
    while i < notes.len()
        invariant
            i <= notes@.len(),
            ids == note_ids(notes@),
            forall|j: int| 0 <= j < i ==> ids[j] != id,
        decreases notes@.len() - i,
    {
        if notes[i].0 == id {
            proof {
                lemma_first_index_of(ids, id, i as int);
            }
            return Some(i);
        }
        i += 1;
    }
    proof {
        lemma_first_index_none(ids, id);
    }
    None
}

/// The notes with those of `id` stored, replacing notes stored before.
fn with_notes(notes: Vec<(ObjectId, Vec<Vec<u8>>)>, id: ObjectId, new: Vec<Vec<u8>>) -> (r: Vec<
    (ObjectId, Vec<Vec<u8>>),
>)
    ensures
        notes_of(r@, id) == Some(new@.map_values(|b: Vec<u8>| b@)),
        forall|other: ObjectId| other != id ==> notes_of(r@, other) == notes_of(notes@, other),
{
    let ghost before = notes@;
    proof {
        lemma_first_index(note_ids(before), id);
    }
    let mut notes = notes;
    match note_position(&notes, id) {
        Some(i) => {
            notes.set(i, (id, new));
            proof {
                let after = notes@;
                assert(note_ids(after) =~= note_ids(before));
                assert forall|other: ObjectId| other != id implies notes_of(after, other) == notes_of(before, other) by {
                    lemma_first_index(note_ids(before), other);
                }
            }
        },
        None => {
            notes.push((id, new));
            proof {
                let after = notes@;
                assert(note_ids(after) =~= note_ids(before).push(id));
                lemma_first_index_of(note_ids(after), id, before.len() as int);
                assert forall|other: ObjectId| other != id implies notes_of(after, other) == notes_of(before, other) by {
                    lemma_first_index(note_ids(before), other);
                    match first_index(note_ids(before), other) {
                        Some(k) => {
                            lemma_first_index_of(note_ids(after), other, k);
                        },
                        None => {
                            lemma_first_index_none(note_ids(after), other);
                        },
                    }
                }
            }
        },
    }
    notes
}

impl App {
    /// Whether the ancestry preview includes row `index`; without a preview every row does.
    pub fn is_row_reachable(&self, index: usize) -> (r: bool)
        ensures
            r == reachable_at(self.reachable_rows, index as int),
    {
        match &self.reachable_rows {
            None => true,
            Some(v) => index < v.len() && v[index],
        }
    }

    /// The one-based number of the parent followed from the junction at row `index`, if that row anchors
    /// the ancestry preview.
    pub fn junction_parent(&self, index: usize) -> (r: Option<usize>)
        requires
            self.junction_parent matches Some(p) ==> p < usize::MAX,
        ensures
            r == if index < self.rows@.len() && self.reachability_anchor == Some(self.rows@[index as int].id) {
                match self.junction_parent {
                    Some(p) => Some((p + 1) as usize),
                    None => None,
                }
            } else {
                None
            },
    {
        if index >= self.rows.len() {
            return None;
        }
        if self.reachability_anchor == Some(self.rows[index].id) {
            match self.junction_parent {
                Some(p) => Some(p + 1),
                None => None,
            }
        } else {
            None
        }
    }

    /// The title of `row`, a span of the shared title buffer.
    pub fn title(&self, row: &CommitRow) -> (t: &[u8])
        requires
            row.title.start <= row.title.end <= self.titles@.len(),
        ensures
            t@ == self.titles@.subrange(row.title.start as int, row.title.end as int),
    {
        vstd::slice::slice_subrange(self.titles.as_slice(), row.title.start, row.title.end)
    }

    /// The attributions of `row`, a span of the shared attribution buffer.
    pub fn attributions(&self, row: &CommitRow) -> (a: &[Attribution])
        requires
            row.attributions.start <= row.attributions.end <= self.attributions@.len(),
        ensures
            a@ == self.attributions@.subrange(row.attributions.start as int, row.attributions.end as int),
    {
        vstd::slice::slice_subrange(self.attributions.as_slice(), row.attributions.start, row.attributions.end)
    }

    /// Whether the notes of commit `id` were loaded.
    pub fn notes_loaded(&self, id: ObjectId) -> (r: bool)
        ensures
            r == notes_of(self.notes@, id).is_some(),
    {
        note_position(&self.notes, id).is_some()
    }

    /// Stores the notes of commit `id`, replacing notes stored before.
    pub fn set_notes(&mut self, id: ObjectId, notes: Vec<Vec<u8>>)
        ensures
            notes_stored(*old(self), *final(self), id, notes@.map_values(|b: Vec<u8>| b@)),
    {
        let mut stored: Vec<(ObjectId, Vec<Vec<u8>>)> = Vec::new();
        std::mem::swap(&mut stored, &mut self.notes);
        let stored = with_notes(stored, id, notes);
        self.notes = stored;
    }

    /// The notes of commit `id`; none if they were not loaded.
    pub fn notes(&self, id: ObjectId) -> (n: &[Vec<u8>])
        ensures
            n@.map_values(|b: Vec<u8>| b@) == match notes_of(self.notes@, id) {
                Some(s) => s,
                None => Seq::<Seq<u8>>::empty(),
            },
    {
        proof {
            lemma_first_index(note_ids(self.notes@), id);
        }
        match note_position(&self.notes, id) {
            Some(i) => self.notes[i].1.as_slice(),
            None => {
                let empty: &[Vec<u8>] = &[];
                assert(empty@.map_values(|b: Vec<u8>| b@) =~= Seq::<Seq<u8>>::empty());
                empty
            },
        }
    }

    /// Draws the graph for rows `start..end`; before the layout is complete the rows are drawn empty.
    pub fn render_lanes(&self, start: usize, end: usize) -> (r: RenderedLanes)
        requires
            self.wf(),
        ensures
            match self.graph {
                Some(g) => {
                    let s = if start <= self.rows@.len() { start as int } else { self.rows@.len() as int };
                    let e = if end <= self.rows@.len() { end as int } else { self.rows@.len() as int };
                    &&& r@.len() == if s < e { e - s } else { 0 }
                    &&& forall|k: int|
                        0 <= k < r@.len() ==> #[trigger] r@[k] == drawn_lane(topology(self.rows@), s + k)
                },
                None => {
                    &&& r@.len() == sat_sub(end, start)
                    &&& forall|k: int| 0 <= k < r@.len() ==> #[trigger] r@[k] == Seq::<char>::empty()
                },
            },
    {
        match &self.graph {
            Some(graph) => graph.render(&self.rows, start, end),
            None => RenderedLanes::empty(end.saturating_sub(start)),
        }
    }

    /// The boundary rows of hidden history.
    pub fn hidden_ids(&self) -> (ids: Vec<ObjectId>)
        ensures
            ids@ == self.hidden_rows@,
    {
        copy_ids(&self.hidden_rows)
    }
}

} // verus!

//! How the view reacts to a user action.
use vstd::prelude::*;

use crate::app::{Action, App, ChangePane, ChangesMode, ChangesView, CopyKind, Effect, EffectView, NameMode, RefMode, State, changes_is, commit_view_is, display_is, effect_views, first_unhidden, fresh_changes_view, last_unhidden, max1, at_least_one, min_usize, nearest_unhidden, pane_wf, preview_is, progress_is, same_changes, same_commit_view, same_display, same_history, same_navigation, same_preview, same_progress, sat_add, sat_sub, unchanged};
use crate::loading::{lemma_first_unhidden_bound, lemma_last_unhidden_bound};
use crate::author::Author;
use crate::commit::CommitRow;
use crate::ids::ObjectId;
use crate::navigation::{commit_scrolled, horizontal_is, moved_by, moved_to_following, moved_within, preview_cleared, selected_index, target_of};
use crate::panes::{
    PaneStep, focused_pane, focused_pane_is, history_focused, next_focus, only_changes, stepped_pane,
};
use crate::reachability::{junction_cycled, junction_step, marks_of, reach_result};
use crate::rows::view_ids;
use crate::signatures::{marked_for_check, marking, window_end, window_start};

verus! {

/// The actions that change what the history display shows and keep its settings group open.
pub open spec fn grouped(action: Action) -> bool {
    match action {
        Action::ToggleHistoryDisplay | Action::ToggleDate | Action::ToggleEmail | Action::ToggleName
        | Action::ToggleTrailers | Action::ToggleMailmap | Action::ToggleRefs | Action::ToggleHidden => true,
        _ => false,
    }
}

/// The view as an action finds it: any notice is dismissed, and the history display's settings group
/// closes unless the action belongs to it.
pub open spec fn prepared(a: App, action: Action) -> App {
    App {
        notice: None,
        history_display_expanded: if grouped(action) {
            a.history_display_expanded
        } else {
            false
        },
        ..a
    }
}

/// Nothing but the display settings changed.
pub open spec fn only_display(a: App, b: App) -> bool {
    &&& same_history(a, b)
    &&& same_navigation(a, b)
    &&& same_changes(a, b)
    &&& same_commit_view(a, b)
    &&& same_preview(a, b)
    &&& same_progress(a, b)
}

/// The next way of showing references: all, the default ones, none.
pub open spec fn next_ref_mode(m: RefMode) -> RefMode {
    match m {
        RefMode::All => RefMode::Default,
        RefMode::Default => RefMode::Off,
        RefMode::Off => RefMode::All,
    }
}

/// Some row in the viewport window carries attributions.
pub open spec fn attributions_in_view(a: App) -> bool {
    exists|k: int|
        window_start(a) <= k < window_end(a) && (#[trigger] a.rows@[k]).metadata_loaded
            && a.rows@[k].attributions.start < a.rows@[k].attributions.end
}

/// The next way of showing names; attributions are skipped while none is in view.
pub open spec fn next_name_mode(m: NameMode, attributed: bool) -> NameMode {
    match m {
        NameMode::All => if attributed {
            NameMode::Author
        } else {
            NameMode::Off
        },
        NameMode::Author => NameMode::Off,
        NameMode::Off => NameMode::All,
    }
}

/// The next choice of change panes: both, tree changes only, none, and back to both where a worktree
/// exists.
pub open spec fn next_changes_mode(m: Option<ChangesMode>, worktree: bool) -> Option<ChangesMode> {
    match m {
        Some(ChangesMode::Both) => Some(ChangesMode::Tree),
        Some(ChangesMode::Tree) => None,
        None => if worktree {
            Some(ChangesMode::Both)
        } else {
            Some(ChangesMode::Tree)
        },
    }
}

/// What the focus feedback says of the focused pane.
pub open spec fn focus_label(focus: Option<ChangePane>) -> &'static str {
    match focus {
        Some(ChangePane::Tree) => "tree changes",
        Some(ChangePane::Worktree) => "worktree changes",
        None => "history",
    }
}

/// The selected row, if the selection names one.
pub open spec fn selected_row(a: App) -> Option<CommitRow> {
    match a.selected {
        Some(i) => if 0 <= i < a.rows@.len() {
            Some(a.rows@[i as int])
        } else {
            None
        },
        None => None,
    }
}

/// Only the state of the history walk changed, to `s`.
pub open spec fn state_set(a: App, b: App, s: State) -> bool {
    &&& same_history(a, b)
    &&& same_navigation(a, b)
    &&& same_display(a, b)
    &&& same_changes(a, b)
    &&& same_commit_view(a, b)
    &&& same_preview(a, b)
    &&& progress_is(a, b, s, a.signature_failures, a.signature_verification_running, a.copy_feedback)
}

/// Only the copy feedback changed, to `kind`.
pub open spec fn copy_noted(a: App, b: App, kind: CopyKind) -> bool {
    &&& same_history(a, b)
    &&& same_navigation(a, b)
    &&& same_display(a, b)
    &&& same_changes(a, b)
    &&& same_commit_view(a, b)
    &&& same_preview(a, b)
    &&& progress_is(a, b, a.state, a.signature_failures, a.signature_verification_running, Some(kind))
}

/// The oldest selectable row was selected and scrolled into view; the tail is followed while loading.
pub open spec fn last_followed(a: App, b: App, i: usize) -> bool {
    moved_to_following(a, b, Some(i), a.state == State::Loading)
}

/// The ancestry preview started at the selected row.
pub open spec fn preview_started(a: App, b: App) -> bool {
    let anchor = match selected_row(a) {
        Some(r) => Some(r.id),
        None => None,
    };
    &&& b.reachability_anchor == anchor
    &&& b.preview_author_copy
    &&& marks_of(b.reachable_rows) == reach_result(b, a.junction_parent).0
    &&& b.junction_parent == reach_result(b, a.junction_parent).1
    &&& same_history(a, b)
    &&& same_navigation(a, b)
    &&& same_display(a, b)
    &&& same_changes(a, b)
    &&& same_commit_view(a, b)
    &&& same_progress(a, b)
}

/// The selection (or, while a change pane has focus, its selection) moved by `distance` rows.
pub open spec fn stepped_rows(p: App, b: App, distance: usize, down: bool) -> bool {
    if p.changes_focus.is_some() {
        focused_pane_is(p, b, stepped_pane(focused_pane(p), PaneStep::Move(distance, down)))
    } else {
        moved_within(p, b, distance, down)
    }
}

/// The focused change pane or else the graph was panned; while the preview's anchor is a junction of a
/// complete history, its next or previous parent is followed instead.
pub open spec fn scrolled_sideways(p: App, b: App, right: bool) -> bool {
    if p.changes_focus.is_some() {
        focused_pane_is(p, b, stepped_pane(focused_pane(p), PaneStep::Pan(right)))
    } else if junction_step(p, right).is_some() {
        junction_cycled(p, b, right, true)
    } else {
        horizontal_is(
            p,
            b,
            if right {
                min_usize(sat_add(p.horizontal_offset, p.horizontal_page), p.horizontal_max)
            } else {
                sat_sub(p.horizontal_offset, p.horizontal_page)
            },
            p.horizontal_page,
            p.horizontal_max,
        )
    }
}

/// Half a page up or down, in the focused change pane or else in the history.
pub open spec fn half_paged(p: App, b: App, down: bool) -> bool {
    if p.changes_focus.is_some() {
        focused_pane_is(p, b, stepped_pane(focused_pane(p), PaneStep::Move(max1((focused_pane(p).page / 2) as usize), down)))
    } else {
        moved_by(p, b, max1((p.viewport_rows / 2) as usize), down)
    }
}

/// A page up or down: in the focused change pane, else in an open commit message that overflows, else in
/// the history.
pub open spec fn paged_view(p: App, b: App, down: bool) -> bool {
    if p.changes_focus.is_some() {
        focused_pane_is(p, b, stepped_pane(focused_pane(p), PaneStep::Move(focused_pane(p).page, down)))
    } else if p.show_commit && p.commit_max > 0 {
        commit_scrolled(
            p,
            b,
            if down {
                min_usize(sat_add(p.commit_offset, p.commit_page), p.commit_max)
            } else {
                sat_sub(p.commit_offset, p.commit_page)
            },
            p.commit_page,
            p.commit_max,
        )
    } else {
        moved_by(p, b, max1(p.viewport_rows), down)
    }
}

/// The first row of the focused change pane, or the newest selectable commit, was selected.
pub open spec fn went_first(p: App, b: App) -> bool {
    if p.changes_focus.is_some() {
        focused_pane_is(p, b, stepped_pane(focused_pane(p), PaneStep::Jump(false)))
    } else {
        match first_unhidden(p.rows@, p.hidden_rows@, 0, p.rows@.len() as int) {
            Some(i) => selected_index(p, b, i),
            None => unchanged(p, b),
        }
    }
}

/// The last row of the focused change pane, or the oldest selectable commit, was selected; while the
/// history loads, its tail is then followed.
pub open spec fn went_last(p: App, b: App) -> bool {
    if p.changes_focus.is_some() {
        focused_pane_is(p, b, stepped_pane(focused_pane(p), PaneStep::Jump(true)))
    } else {
        match last_unhidden(p.rows@, p.hidden_rows@, 0, p.rows@.len() as int) {
            Some(i) => last_followed(p, b, i),
            None => unchanged(p, b),
        }
    }
}

/// Only the display settings changed, to the given values.
pub open spec fn displayed(
    p: App,
    b: App,
    date: bool,
    name: NameMode,
    emails: bool,
    trailers: bool,
    mailmap: bool,
    refs: RefMode,
    align: bool,
    expanded: bool,
) -> bool {
    &&& only_display(p, b)
    &&& display_is(
        p,
        b,
        date,
        name,
        emails,
        trailers,
        mailmap,
        refs,
        p.has_hidden_filter,
        p.show_hidden,
        align,
        p.show_commit,
        expanded,
    )
}

/// The full commit message was shown or hidden, and scrolled back to its top.
pub open spec fn commit_toggled(p: App, b: App) -> bool {
    &&& same_history(p, b)
    &&& same_navigation(p, b)
    &&& display_is(
        p,
        b,
        p.show_committer_date,
        p.name_mode,
        p.show_emails,
        p.show_trailers,
        p.use_mailmap,
        p.ref_mode,
        p.has_hidden_filter,
        p.show_hidden,
        p.align_metadata,
        !p.show_commit,
        p.history_display_expanded,
    )
    &&& same_changes(p, b)
    &&& commit_view_is(p, b, 0, 0)
    &&& same_preview(p, b)
    &&& same_progress(p, b)
}

/// The change panes cycled to the next choice; their navigation was reset.
pub open spec fn changes_toggled(p: App, b: App) -> bool {
    let mode = next_changes_mode(p.changes_mode, p.worktree_changes_available);
    &&& only_changes(p, b)
    &&& changes_is(
        p,
        b,
        mode,
        if mode.is_none() { false } else { p.changes_suppressed },
        if mode.is_none() { None } else { p.changes_focus },
        fresh_changes_view(),
        fresh_changes_view(),
        0,
        None,
    )
}

/// Focus moved to the next visible change pane, or back to the history; focusing a pane ends the
/// ancestry preview, and the feedback names what has focus.
pub open spec fn focus_toggled(p: App, b: App) -> bool {
    if p.changes_mode.is_some() {
        let focus = next_focus(p.changes_layout, p.tree_changes_visible, p.worktree_changes_visible, p.changes_focus);
        &&& same_history(p, b)
        &&& same_navigation(p, b)
        &&& same_display(p, b)
        &&& changes_is(
            p,
            b,
            p.changes_mode,
            p.changes_suppressed,
            focus,
            p.tree_changes,
            p.worktree_changes,
            p.changes_parent,
            Some(focus_label(focus)),
        )
        &&& same_commit_view(p, b)
        &&& if focus.is_some() {
            preview_is(b, false, None, None, None)
        } else {
            same_preview(p, b)
        }
        &&& same_progress(p, b)
    } else {
        unchanged(p, b)
    }
}

/// While the tree pane has focus, its changes are compared against the next parent.
pub open spec fn parent_cycled(p: App, b: App) -> bool {
    if p.changes_focus == Some(ChangePane::Tree) {
        &&& only_changes(p, b)
        &&& changes_is(
            p,
            b,
            p.changes_mode,
            p.changes_suppressed,
            p.changes_focus,
            ChangesView { error: None, ..p.tree_changes },
            p.worktree_changes,
            sat_add(p.changes_parent, 1),
            p.focus_feedback,
        )
    } else {
        unchanged(p, b)
    }
}

/// The focused pane's error is dismissed before its selected file's diff opens.
pub open spec fn diff_opened(p: App, b: App) -> bool {
    if p.changes_focus.is_some() {
        focused_pane_is(p, b, ChangesView { error: None, ..focused_pane(p) })
    } else {
        unchanged(p, b)
    }
}

/// A cancelling walk was confirmed as cancelled.
pub open spec fn walk_cancelled(p: App, b: App) -> bool {
    if p.state == State::Cancelling {
        state_set(p, b, State::Cancelled)
    } else {
        unchanged(p, b)
    }
}

/// The identities of the rows whose signatures a check would verify.
pub open spec fn check_ids(p: App) -> Seq<ObjectId> {
    marking(
        crate::commit::row_views(p.rows@),
        p.hidden_rows@,
        crate::commit::row_views(p.all_rows@),
        window_start(p),
        window_end(p),
    ).2
}

/// Unless a check runs, the visible unverified signatures are marked for checking.
pub open spec fn check_requested(p: App, b: App) -> bool {
    if !p.signature_verification_running {
        marked_for_check(p, b, check_ids(p))
    } else {
        unchanged(p, b)
    }
}

/// Escape leaves a focused pane, else cancels a loading walk.
pub open spec fn cancel_pressed(p: App, b: App) -> bool {
    if p.changes_focus.is_some() {
        history_focused(p, b)
    } else if p.state == State::Loading {
        state_set(p, b, State::Cancelling)
    } else {
        unchanged(p, b)
    }
}

/// Quitting leaves a focused pane, else changes nothing in the view.
pub open spec fn quit_pressed(p: App, b: App) -> bool {
    if p.changes_focus.is_some() {
        history_focused(p, b)
    } else {
        unchanged(p, b)
    }
}

/// Pressing the preview modifier starts the ancestry preview at the selected commit, releasing it ends
/// the preview; a focused pane ignores it.
pub open spec fn preview_toggled(p: App, b: App, v: bool) -> bool {
    if p.changes_focus.is_some() {
        unchanged(p, b)
    } else if v && !p.preview_author_copy {
        preview_started(p, b)
    } else if !v {
        preview_cleared(p, b)
    } else {
        unchanged(p, b)
    }
}

/// Copying the selected commit's identity is noted.
pub open spec fn id_copied(p: App, b: App) -> bool {
    match selected_row(p) {
        Some(_) => copy_noted(p, b, CopyKind::Id),
        None => unchanged(p, b),
    }
}

/// Copying the selected commit's author is noted, once its metadata is loaded.
pub open spec fn author_copied(p: App, b: App) -> bool {
    match selected_row(p) {
        Some(r) => if r.metadata_loaded {
            copy_noted(p, b, CopyKind::Author)
        } else {
            unchanged(p, b)
        },
        None => unchanged(p, b),
    }
}

/// The reaction of a prepared view to an action.
pub open spec fn dispatched(p: App, action: Action, b: App) -> bool {
    let d = p.show_committer_date;
    let n = p.name_mode;
    let e = p.show_emails;
    let t = p.show_trailers;
    let m = p.use_mailmap;
    let r = p.ref_mode;
    let al = p.align_metadata;
    let x = p.history_display_expanded;
    match action {
        Action::Cancelled => walk_cancelled(p, b),
        Action::MoveUp => stepped_rows(p, b, 1, false),
        Action::MoveDown => stepped_rows(p, b, 1, true),
        Action::MoveUpBy(distance) => stepped_rows(p, b, distance, false),
        Action::MoveDownBy(distance) => stepped_rows(p, b, distance, true),
        Action::ScrollLeft => scrolled_sideways(p, b, false),
        Action::ScrollRight => scrolled_sideways(p, b, true),
        Action::HalfPageUp => half_paged(p, b, false),
        Action::HalfPageDown => half_paged(p, b, true),
        Action::PageUp => paged_view(p, b, false),
        Action::PageDown => paged_view(p, b, true),
        Action::First => went_first(p, b),
        Action::Last => went_last(p, b),
        Action::ToggleDate => displayed(p, b, !d, n, e, t, m, r, al, x),
        Action::ToggleName => displayed(p, b, d, next_name_mode(n, attributions_in_view(p)), e, t, m, r, al, x),
        Action::ToggleEmail => displayed(p, b, d, n, !e, t, m, r, al, x),
        Action::ToggleTrailers => displayed(p, b, d, n, e, !t, m, r, al, x),
        Action::ToggleMailmap => displayed(p, b, d, n, e, t, !m, r, al, x),
        Action::ToggleRefs => displayed(p, b, d, n, e, t, m, next_ref_mode(r), al, x),
        Action::ToggleHistoryDisplay => displayed(p, b, d, n, e, t, m, r, al, !x),
        Action::ToggleAlign => displayed(p, b, d, n, e, t, m, r, !al, x),
        Action::ToggleCommit => commit_toggled(p, b),
        Action::ToggleChanges => changes_toggled(p, b),
        Action::ToggleChangesFocus => focus_toggled(p, b),
        Action::CycleChangesParent => parent_cycled(p, b),
        Action::OpenDiff => diff_opened(p, b),
        Action::VerifySignatures => check_requested(p, b),
        Action::Cancel => cancel_pressed(p, b),
        Action::Quit => quit_pressed(p, b),
        Action::PreviewAuthorCopy(v) => preview_toggled(p, b, v),
        Action::Copy => id_copied(p, b),
        Action::CopyAuthor => author_copied(p, b),
        _ => unchanged(p, b),
    }
}

/// What an action asks the surrounding program to do, besides changing the view.
pub open spec fn effects_of(p: App, action: Action) -> Seq<EffectView> {
    let focused = p.changes_focus.is_some();
    let finished = p.state == State::Complete || p.state == State::Cancelled;
    match action {
        Action::Refresh => if finished {
            seq![EffectView::Reload(p.show_hidden)]
        } else {
            seq![]
        },
        Action::ToggleHidden => if p.has_hidden_filter && finished {
            seq![EffectView::Reload(!p.show_hidden)]
        } else {
            seq![]
        },
        Action::OpenDiff => match p.changes_focus {
            Some(pane) => seq![EffectView::OpenDiff(pane, focused_pane(p).selected)],
            None => seq![],
        },
        Action::VerifySignatures => if !p.signature_verification_running && check_ids(p).len() > 0 {
            seq![EffectView::VerifySignatures(check_ids(p))]
        } else {
            seq![]
        },
        Action::ForceQuit => seq![EffectView::Quit],
        Action::Cancel => if !focused && p.state == State::Loading {
            seq![EffectView::Cancel]
        } else {
            seq![]
        },
        Action::Quit => if focused {
            seq![]
        } else if p.state == State::Loading || p.state == State::Cancelling {
            seq![EffectView::Cancel, EffectView::Quit]
        } else {
            seq![EffectView::Quit]
        },
        Action::Copy => match selected_row(p) {
            Some(r) => seq![EffectView::CopyId(r.id)],
            None => seq![],
        },
        Action::CopyPath(path) => seq![EffectView::CopyPath(path@)],
        Action::CopyAuthor => match selected_row(p) {
            Some(r) => if r.metadata_loaded {
                seq![EffectView::CopyAuthor(r.author@)]
            } else {
                seq![]
            },
            None => seq![],
        },
        _ => seq![],
    }
}

/// The reaction of the view `a` to `action`: the view becomes `b` and `effects` are asked for.
pub open spec fn updated(a: App, action: Action, b: App, effects: Seq<EffectView>) -> bool {
    &&& dispatched(prepared(a, action), action, b)
    &&& effects == effects_of(prepared(a, action), action)
}

// ---------------------------------------------------------------------------------------------
// The reaction, step by step.
// ---------------------------------------------------------------------------------------------

fn is_grouped(action: &Action) -> (r: bool)
    ensures
        r == grouped(*action),
{
    match action {
        Action::ToggleHistoryDisplay | Action::ToggleDate | Action::ToggleEmail | Action::ToggleName
        | Action::ToggleTrailers | Action::ToggleMailmap | Action::ToggleRefs | Action::ToggleHidden => true,
        _ => false,
    }
}

fn half_page(page: usize) -> (r: usize)
    ensures
        r == max1((page / 2) as usize),
{
    let h = page / 2;
    if h >= 1 { h } else { 1 }
}

fn label_of(focus: Option<ChangePane>) -> (r: &'static str)
    ensures
        r == focus_label(focus),
{
    match focus {
        Some(ChangePane::Tree) => "tree changes",
        Some(ChangePane::Worktree) => "worktree changes",
        None => "history",
    }
}

fn ref_mode_after(m: RefMode) -> (r: RefMode)
    ensures
        r == next_ref_mode(m),
{
    match m {
        RefMode::All => RefMode::Default,
        RefMode::Default => RefMode::Off,
        RefMode::Off => RefMode::All,
    }
}

fn name_mode_after(m: NameMode, attributed: bool) -> (r: NameMode)
    ensures
        r == next_name_mode(m, attributed),
{
    match m {
        NameMode::All => if attributed {
            NameMode::Author
        } else {
            NameMode::Off
        },
        NameMode::Author => NameMode::Off,
        NameMode::Off => NameMode::All,
    }
}

fn changes_mode_after(m: Option<ChangesMode>, worktree: bool) -> (r: Option<ChangesMode>)
    ensures
        r == next_changes_mode(m, worktree),
{
    match m {
        Some(ChangesMode::Both) => Some(ChangesMode::Tree),
        Some(ChangesMode::Tree) => None,
        None => if worktree {
            Some(ChangesMode::Both)
        } else {
            Some(ChangesMode::Tree)
        },
    }
}

fn effects0() -> (r: Vec<Effect>)
    ensures
        effect_views(r@) == Seq::<EffectView>::empty(),
{
    let r: Vec<Effect> = Vec::new();
    assert(effect_views(r@) =~= Seq::<EffectView>::empty());
    r
}

fn effects1(e: Effect) -> (r: Vec<Effect>)
    ensures
        effect_views(r@) == seq![e@],
{
    let mut r: Vec<Effect> = Vec::new();
    r.push(e);
    assert(effect_views(r@) =~= seq![e@]);
    r
}

fn effects2(e: Effect, f: Effect) -> (r: Vec<Effect>)
    ensures
        effect_views(r@) == seq![e@, f@],
{
    let mut r: Vec<Effect> = Vec::new();
    r.push(e);
    r.push(f);
    assert(effect_views(r@) =~= seq![e@, f@]);
    r
}

impl App {
    fn prepare(&mut self, action: &Action)
        ensures
            *final(self) == prepared(*old(self), *action),
    {
        let keep = is_grouped(action);
        let cur = self.take();
        let expanded = keep && cur.history_display_expanded;
        *self = App { notice: None, history_display_expanded: expanded, ..cur };
    }

    /// Whether some row in the viewport window carries attributions.
    pub fn has_attributions_in_view(&self) -> (r: bool)
        ensures
            r == attributions_in_view(*self),
    {
        let (start, end) = self.window();
        let mut k = start;
        while k < end
            invariant
                start <= k <= end <= self.rows@.len(),
                start == window_start(*self),
                end == window_end(*self),
                forall|j: int|
                    start <= j < k ==> !((#[trigger] self.rows@[j]).metadata_loaded && self.rows@[j].attributions.start
                        < self.rows@[j].attributions.end),
            decreases end - k,
        {
            let row = &self.rows[k];
            if row.metadata_loaded && row.attributions.start < row.attributions.end {
                assert(self.rows@[k as int].metadata_loaded);
                return true;
            }
            k += 1;
        }
        false
    }

}

/// The selection names a row and the change panes are consistent.
pub open spec fn nav_wf(a: App) -> bool {
    &&& (a.selected matches Some(s) ==> s < a.rows@.len())
    &&& pane_wf(a.tree_changes)
    &&& pane_wf(a.worktree_changes)
}

pub proof fn lemma_stepped_pane_wf(c: ChangesView, step: PaneStep)
    requires
        pane_wf(c),
    ensures
        pane_wf(stepped_pane(c, step)),
{
}

pub proof fn lemma_nearest_bound(rows: Seq<CommitRow>, hidden: Seq<ObjectId>, target: int, down: bool)
    requires
        0 <= target < rows.len(),
        rows.len() <= usize::MAX,
    ensures
        nearest_unhidden(rows, hidden, target, down) matches Some(i) ==> i < rows.len(),
{
    lemma_first_unhidden_bound(rows, hidden, target, rows.len() as int);
    lemma_last_unhidden_bound(rows, hidden, 0, target);
    lemma_last_unhidden_bound(rows, hidden, 0, target + 1);
    lemma_first_unhidden_bound(rows, hidden, target + 1, rows.len() as int);
}

impl App {
    fn move_rows(&mut self, distance: usize, down: bool)
        requires
            nav_wf(*old(self)),
        ensures
            stepped_rows(*old(self), *final(self), distance, down),
            nav_wf(*final(self)),
    {
        let n = self.rows.len();
        let ghost a = *self;
        if self.changes_focus.is_some() {
            self.move_changes(distance, down);
            proof {
                lemma_stepped_pane_wf(focused_pane(a), PaneStep::Move(distance, down));
            }
        } else {
            self.move_reachable(distance, down);
            proof {
                if let Some(s) = a.selected {
                    lemma_nearest_bound(a.rows@, a.hidden_rows@, target_of(s, distance, down, n as int) as int, down);
                }
            }
        }
    }
}

impl App {
    fn scroll_sideways(&mut self, right: bool)
        requires
            nav_wf(*old(self)),
        ensures
            scrolled_sideways(*old(self), *final(self), right),
            nav_wf(*final(self)),
    {
        let ghost a = *self;
        if self.changes_focus.is_some() {
            self.pan_changes(right);
            proof {
                lemma_stepped_pane_wf(focused_pane(a), PaneStep::Pan(right));
            }
        } else {
            self.pan_or_cycle(right);
        }
    }

    fn half_page_move(&mut self, down: bool)
        requires
            nav_wf(*old(self)),
        ensures
            half_paged(*old(self), *final(self), down),
            nav_wf(*final(self)),
    {
        let ghost a = *self;
        let n = self.rows.len();
        if self.changes_focus.is_some() {
            let page = self.focused_changes().page;
            self.move_changes(half_page(page), down);
            proof {
                lemma_stepped_pane_wf(focused_pane(a), PaneStep::Move(max1((focused_pane(a).page / 2) as usize), down));
            }
        } else {
            let distance = half_page(self.viewport_rows);
            self.move_selection(distance, down);
            proof {
                if let Some(s) = a.selected {
                    lemma_nearest_bound(a.rows@, a.hidden_rows@, target_of(s, distance, down, n as int) as int, down);
                }
            }
        }
    }

    fn page_move(&mut self, down: bool)
        requires
            nav_wf(*old(self)),
        ensures
            paged_view(*old(self), *final(self), down),
            nav_wf(*final(self)),
    {
        let ghost a = *self;
        let n = self.rows.len();
        if self.changes_focus.is_some() {
            let page = self.focused_changes().page;
            self.move_changes(page, down);
            proof {
                lemma_stepped_pane_wf(focused_pane(a), PaneStep::Move(focused_pane(a).page, down));
            }
        } else if self.show_commit && self.commit_max > 0 {
            self.page_commit(down);
        } else {
            let distance = at_least_one(self.viewport_rows);
            self.move_selection(distance, down);
            proof {
                if let Some(s) = a.selected {
                    lemma_nearest_bound(a.rows@, a.hidden_rows@, target_of(s, distance, down, n as int) as int, down);
                }
            }
        }
    }

    fn go_first(&mut self)
        requires
            nav_wf(*old(self)),
        ensures
            went_first(*old(self), *final(self)),
            nav_wf(*final(self)),
    {
        let ghost a = *self;
        let n = self.rows.len();
        if self.changes_focus.is_some() {
            self.select_change(false);
            proof {
                lemma_stepped_pane_wf(focused_pane(a), PaneStep::Jump(false));
            }
        } else {
            match self.first_selectable() {
                Some(i) => self.select(i),
                None => {},
            }
        }
    }

    fn jump_last(&mut self, i: usize)
        requires
            i < old(self).rows@.len(),
        ensures
            last_followed(*old(self), *final(self), i),
    {
        let loading = self.state == State::Loading;
        self.move_to_following(Some(i), loading);
    }

    fn go_last(&mut self)
        requires
            nav_wf(*old(self)),
        ensures
            went_last(*old(self), *final(self)),
            nav_wf(*final(self)),
    {
        let ghost a = *self;
        let n = self.rows.len();
        if self.changes_focus.is_some() {
            self.select_change(true);
            proof {
                lemma_stepped_pane_wf(focused_pane(a), PaneStep::Jump(true));
            }
        } else {
            proof {
                lemma_last_unhidden_bound(a.rows@, a.hidden_rows@, 0, n as int);
            }
            match self.last_selectable() {
                Some(i) => self.jump_last(i),
                None => {},
            }
        }
    }

    fn show_display(
        &mut self,
        date: bool,
        name: NameMode,
        emails: bool,
        trailers: bool,
        mailmap: bool,
        refs: RefMode,
        align: bool,
        expanded: bool,
    )
        requires
            nav_wf(*old(self)),
        ensures
            displayed(*old(self), *final(self), date, name, emails, trailers, mailmap, refs, align, expanded),
            nav_wf(*final(self)),
    {
        let cur = self.take();
        *self = App {
            show_committer_date: date,
            name_mode: name,
            show_emails: emails,
            show_trailers: trailers,
            use_mailmap: mailmap,
            ref_mode: refs,
            align_metadata: align,
            history_display_expanded: expanded,
            ..cur
        };
    }

    fn toggle_commit(&mut self)
        requires
            nav_wf(*old(self)),
        ensures
            commit_toggled(*old(self), *final(self)),
            nav_wf(*final(self)),
    {
        let cur = self.take();
        *self = App { show_commit: !cur.show_commit, commit_offset: 0, commit_max: 0, ..cur };
    }

    fn toggle_changes(&mut self)
        requires
            nav_wf(*old(self)),
        ensures
            changes_toggled(*old(self), *final(self)),
            nav_wf(*final(self)),
    {
        let cur = self.take();
        let mode = changes_mode_after(cur.changes_mode, cur.worktree_changes_available);
        let hide = mode.is_none();
        let suppressed = if hide { false } else { cur.changes_suppressed };
        let focus = if hide { None } else { cur.changes_focus };
        *self = App {
            changes_mode: mode,
            changes_suppressed: suppressed,
            changes_focus: focus,
            tree_changes: ChangesView::new(),
            worktree_changes: ChangesView::new(),
            changes_parent: 0,
            focus_feedback: None,
            ..cur
        };
    }

    fn note_focus(&mut self)
        ensures
            same_history(*old(self), *final(self)),
            same_navigation(*old(self), *final(self)),
            same_display(*old(self), *final(self)),
            changes_is(
                *old(self),
                *final(self),
                old(self).changes_mode,
                old(self).changes_suppressed,
                old(self).changes_focus,
                old(self).tree_changes,
                old(self).worktree_changes,
                old(self).changes_parent,
                Some(focus_label(old(self).changes_focus)),
            ),
            same_commit_view(*old(self), *final(self)),
            same_preview(*old(self), *final(self)),
            same_progress(*old(self), *final(self)),
    {
        let cur = self.take();
        let label = label_of(cur.changes_focus);
        *self = App { focus_feedback: Some(label), ..cur };
    }

    fn toggle_changes_focus(&mut self)
        requires
            nav_wf(*old(self)),
        ensures
            focus_toggled(*old(self), *final(self)),
            nav_wf(*final(self)),
    {
        if self.changes_mode.is_some() {
            self.refocus_panes();
        }
    }

    fn refocus_panes(&mut self)
        requires
            old(self).changes_mode.is_some(),
            nav_wf(*old(self)),
        ensures
            focus_toggled(*old(self), *final(self)),
            nav_wf(*final(self)),
    {
        let ghost a = *self;
        self.cycle_changes_focus();
        let ghost m1 = *self;
        self.leave_preview_if_focused();
        let ghost m2 = *self;
        self.note_focus();
        proof {
            lemma_focus_toggled(a, m1, m2, *self);
        }
    }

    fn leave_preview_if_focused(&mut self)
        ensures
            if old(self).changes_focus.is_some() {
                preview_cleared(*old(self), *final(self))
            } else {
                unchanged(*old(self), *final(self))
            },
    {
        if self.changes_focus.is_some() {
            self.clear_preview_author_copy();
        }
    }

    fn cycle_parent(&mut self)
        requires
            nav_wf(*old(self)),
        ensures
            parent_cycled(*old(self), *final(self)),
            nav_wf(*final(self)),
    {
        if self.changes_focus == Some(ChangePane::Tree) {
            let cur = self.take();
            let parent = cur.changes_parent.saturating_add(1);
            let tree = ChangesView { error: None, ..cur.tree_changes };
            *self = App { changes_parent: parent, tree_changes: tree, ..cur };
        }
    }

    fn clear_pane_error(&mut self)
        ensures
            focused_pane_is(*old(self), *final(self), ChangesView { error: None, ..focused_pane(*old(self)) }),
    {
        let cur = self.take();
        let focus = cur.changes_focus;
        let (tree, worktree) = without_focused_error(cur.tree_changes, cur.worktree_changes, focus);
        *self = App { tree_changes: tree, worktree_changes: worktree, ..cur };
    }

    fn open_diff(&mut self) -> (effects: Vec<Effect>)
        requires
            nav_wf(*old(self)),
        ensures
            diff_opened(*old(self), *final(self)),
            effect_views(effects@) == effects_of(*old(self), Action::OpenDiff),
            nav_wf(*final(self)),
    {
        match self.changes_focus {
            Some(pane) => {
                let selected = self.focused_changes().selected;
                self.clear_pane_error();
                effects1(Effect::OpenDiff(pane, selected))
            },
            None => effects0(),
        }
    }

    fn set_state(&mut self, state: State)
        ensures
            state_set(*old(self), *final(self), state),
    {
        let cur = self.take();
        *self = App { state, ..cur };
    }

    fn confirm_cancelled(&mut self)
        requires
            nav_wf(*old(self)),
        ensures
            walk_cancelled(*old(self), *final(self)),
            nav_wf(*final(self)),
    {
        if self.state == State::Cancelling {
            self.set_state(State::Cancelled);
        }
    }

    fn request_check(&mut self) -> (effects: Vec<Effect>)
        requires
            nav_wf(*old(self)),
        ensures
            check_requested(*old(self), *final(self)),
            effect_views(effects@) == effects_of(*old(self), Action::VerifySignatures),
            nav_wf(*final(self)),
    {
        let ghost a = *self;
        if !self.signature_verification_running {
            proof {
                crate::signatures::lemma_marking_len(
                    crate::commit::row_views(a.rows@),
                    a.hidden_rows@,
                    crate::commit::row_views(a.all_rows@),
                    window_start(a),
                    window_end(a),
                );
                assert(crate::commit::row_views(a.rows@).len() == a.rows@.len());
            }
            let ids = self.mark_visible_for_check();
            proof {
                assert(crate::commit::row_views(self.rows@).len() == self.rows@.len());
            }
            if ids.len() > 0 {
                effects1(Effect::VerifySignatures(ids))
            } else {
                effects0()
            }
        } else {
            effects0()
        }
    }

    fn press_cancel(&mut self) -> (effects: Vec<Effect>)
        requires
            nav_wf(*old(self)),
        ensures
            cancel_pressed(*old(self), *final(self)),
            effect_views(effects@) == effects_of(*old(self), Action::Cancel),
            nav_wf(*final(self)),
    {
        if self.changes_focus.is_some() {
            self.focus_history();
            effects0()
        } else if self.state == State::Loading {
            self.set_state(State::Cancelling);
            effects1(Effect::Cancel)
        } else {
            effects0()
        }
    }

    fn press_quit(&mut self) -> (effects: Vec<Effect>)
        requires
            nav_wf(*old(self)),
        ensures
            quit_pressed(*old(self), *final(self)),
            effect_views(effects@) == effects_of(*old(self), Action::Quit),
            nav_wf(*final(self)),
    {
        if self.changes_focus.is_some() {
            self.focus_history();
            effects0()
        } else if self.state == State::Loading || self.state == State::Cancelling {
            effects2(Effect::Cancel, Effect::Quit)
        } else {
            effects1(Effect::Quit)
        }
    }

    /// The identity of the selected row, if the selection names one.
    pub fn selected_row_id(&self) -> (r: Option<ObjectId>)
        ensures
            r == match selected_row(*self) {
                Some(row) => Some(row.id),
                None => None,
            },
    {
        match self.selected {
            Some(i) => if i < self.rows.len() {
                Some(self.rows[i].id)
            } else {
                None
            },
            None => None,
        }
    }

    fn set_anchor(&mut self, anchor: Option<ObjectId>)
        ensures
            final(self).reachability_anchor == anchor,
            final(self).preview_author_copy == old(self).preview_author_copy,
            final(self).junction_parent == old(self).junction_parent,
            final(self).reachable_rows == old(self).reachable_rows,
            same_history(*old(self), *final(self)),
            same_navigation(*old(self), *final(self)),
            same_display(*old(self), *final(self)),
            same_changes(*old(self), *final(self)),
            same_commit_view(*old(self), *final(self)),
            same_progress(*old(self), *final(self)),
    {
        let cur = self.take();
        *self = App { reachability_anchor: anchor, ..cur };
    }

    fn set_preview(&mut self, on: bool)
        ensures
            final(self).preview_author_copy == on,
            final(self).reachability_anchor == old(self).reachability_anchor,
            final(self).junction_parent == old(self).junction_parent,
            final(self).reachable_rows == old(self).reachable_rows,
            same_history(*old(self), *final(self)),
            same_navigation(*old(self), *final(self)),
            same_display(*old(self), *final(self)),
            same_changes(*old(self), *final(self)),
            same_commit_view(*old(self), *final(self)),
            same_progress(*old(self), *final(self)),
    {
        let cur = self.take();
        *self = App { preview_author_copy: on, ..cur };
    }

    fn start_preview(&mut self)
        ensures
            preview_started(*old(self), *final(self)),
    {
        let anchor = self.selected_row_id();
        self.set_anchor(anchor);
        let ghost m1 = *self;
        self.compute_reachable_rows();
        let ghost m2 = *self;
        self.set_preview(true);
        proof {
            crate::reachability::lemma_reach_result_frame(m1, *self, m1.junction_parent);
        }
    }

    fn toggle_preview(&mut self, on: bool)
        requires
            nav_wf(*old(self)),
        ensures
            preview_toggled(*old(self), *final(self), on),
            nav_wf(*final(self)),
    {
        if self.changes_focus.is_some() {
        } else if on && !self.preview_author_copy {
            self.start_preview();
        } else if !on {
            self.clear_preview_author_copy();
        }
    }

    fn note_copy(&mut self, kind: CopyKind)
        ensures
            copy_noted(*old(self), *final(self), kind),
    {
        let cur = self.take();
        *self = App { copy_feedback: Some(kind), ..cur };
    }

    fn copy_id(&mut self) -> (effects: Vec<Effect>)
        requires
            nav_wf(*old(self)),
        ensures
            id_copied(*old(self), *final(self)),
            effect_views(effects@) == effects_of(*old(self), Action::Copy),
            nav_wf(*final(self)),
    {
        match self.selected_row_id() {
            Some(id) => {
                self.note_copy(CopyKind::Id);
                effects1(Effect::CopyId(id))
            },
            None => effects0(),
        }
    }

    /// The author of the selected row, once its metadata is loaded.
    pub fn selected_author(&self) -> (r: Option<Author>)
        ensures
            match selected_row(*self) {
                Some(row) => if row.metadata_loaded {
                    r matches Some(a) && a@ == row.author@
                } else {
                    r.is_none()
                },
                None => r.is_none(),
            },
    {
        match self.selected {
            Some(i) => if i < self.rows.len() && self.rows[i].metadata_loaded {
                Some(self.rows[i].author.duplicate())
            } else {
                None
            },
            None => None,
        }
    }

    fn copy_author(&mut self) -> (effects: Vec<Effect>)
        requires
            nav_wf(*old(self)),
        ensures
            author_copied(*old(self), *final(self)),
            effect_views(effects@) == effects_of(*old(self), Action::CopyAuthor),
            nav_wf(*final(self)),
    {
        match self.selected_author() {
            Some(author) => {
                self.note_copy(CopyKind::Author);
                effects1(Effect::CopyAuthor(author))
            },
            None => effects0(),
        }
    }

    fn reload_effects(&self, toggle: bool) -> (effects: Vec<Effect>)
        ensures
            effect_views(effects@) == effects_of(*self, if toggle { Action::ToggleHidden } else { Action::Refresh }),
    {
        let finished = self.state == State::Complete || self.state == State::Cancelled;
        if toggle {
            if self.has_hidden_filter && finished {
                effects1(Effect::Reload(!self.show_hidden))
            } else {
                effects0()
            }
        } else if finished {
            effects1(Effect::Reload(self.show_hidden))
        } else {
            effects0()
        }
    }
}

proof fn lemma_focus_toggled(a: App, m1: App, m2: App, b: App)
    requires
        a.changes_mode.is_some(),
        crate::panes::focus_cycled(a, m1),
        if m1.changes_focus.is_some() {
            preview_cleared(m1, m2)
        } else {
            unchanged(m1, m2)
        },
        same_history(m2, b),
        same_navigation(m2, b),
        same_display(m2, b),
        changes_is(
            m2,
            b,
            m2.changes_mode,
            m2.changes_suppressed,
            m2.changes_focus,
            m2.tree_changes,
            m2.worktree_changes,
            m2.changes_parent,
            Some(focus_label(m2.changes_focus)),
        ),
        same_commit_view(m2, b),
        same_preview(m2, b),
        same_progress(m2, b),
    ensures
        focus_toggled(a, b),
{
}

/// The graph was panned, or the preview's junction cycled.
pub open spec fn panned_or_cycled(p: App, b: App, right: bool) -> bool {
    if junction_step(p, right).is_some() {
        junction_cycled(p, b, right, true)
    } else {
        horizontal_is(
            p,
            b,
            if right {
                min_usize(sat_add(p.horizontal_offset, p.horizontal_page), p.horizontal_max)
            } else {
                sat_sub(p.horizontal_offset, p.horizontal_page)
            },
            p.horizontal_page,
            p.horizontal_max,
        )
    }
}

/// The panes with the focused one's error dismissed.
fn without_focused_error(tree: ChangesView, worktree: ChangesView, focus: Option<ChangePane>) -> (r: (
    ChangesView,
    ChangesView,
))
    ensures
        r.0 == (if focus == Some(ChangePane::Tree) { ChangesView { error: None, ..tree } } else { tree }),
        r.1 == (if focus == Some(ChangePane::Worktree) { ChangesView { error: None, ..worktree } } else { worktree }),
{
    match focus {
        Some(ChangePane::Tree) => (ChangesView { error: None, ..tree }, worktree),
        Some(ChangePane::Worktree) => (tree, ChangesView { error: None, ..worktree }),
        None => (tree, worktree),
    }
}

impl App {
    fn pan_or_cycle(&mut self, right: bool)
        ensures
            panned_or_cycled(*old(self), *final(self), right),
    {
        match self.junction_target(right) {
            Some(_) => {
                self.cycle_junction_parent(right);
            },
            None => self.pan_graph(right),
        }
    }
}

impl App {
    fn dispatch_moves(&mut self, action: Action) -> (effects: Vec<Effect>)
        requires
            nav_wf(*old(self)),
            is_dispatched_move(action),
        ensures
            dispatched(*old(self), action, *final(self)),
            effect_views(effects@) == effects_of(*old(self), action),
            nav_wf(*final(self)),
    {
        match action {
            Action::Cancelled => {
                self.confirm_cancelled();
                effects0()
            },
            Action::MoveUp => {
                self.move_rows(1, false);
                effects0()
            },
            Action::MoveDown => {
                self.move_rows(1, true);
                effects0()
            },
            Action::MoveUpBy(distance) => {
                self.move_rows(distance, false);
                effects0()
            },
            Action::MoveDownBy(distance) => {
                self.move_rows(distance, true);
                effects0()
            },
            Action::ScrollLeft => {
                self.scroll_sideways(false);
                effects0()
            },
            Action::ScrollRight => {
                self.scroll_sideways(true);
                effects0()
            },
            Action::HalfPageUp => {
                self.half_page_move(false);
                effects0()
            },
            Action::HalfPageDown => {
                self.half_page_move(true);
                effects0()
            },
            Action::PageUp => {
                self.page_move(false);
                effects0()
            },
            Action::PageDown => {
                self.page_move(true);
                effects0()
            },
            Action::First => {
                self.go_first();
                effects0()
            },
            Action::Last => {
                self.go_last();
                effects0()
            },
            _ => effects0(),
        }
    }

    fn dispatch_display(&mut self, action: Action) -> (effects: Vec<Effect>)
        requires
            nav_wf(*old(self)),
            is_display(action),
        ensures
            dispatched(*old(self), action, *final(self)),
            effect_views(effects@) == effects_of(*old(self), action),
            nav_wf(*final(self)),
    {
        let d = self.show_committer_date;
        let n = self.name_mode;
        let e = self.show_emails;
        let t = self.show_trailers;
        let m = self.use_mailmap;
        let r = self.ref_mode;
        let al = self.align_metadata;
        let x = self.history_display_expanded;
        match action {
            Action::ToggleDate => {
                self.show_display(!d, n, e, t, m, r, al, x);
                effects0()
            },
            Action::ToggleName => {
                let attributed = self.has_attributions_in_view();
                self.show_display(d, name_mode_after(n, attributed), e, t, m, r, al, x);
                effects0()
            },
            Action::ToggleEmail => {
                self.show_display(d, n, !e, t, m, r, al, x);
                effects0()
            },
            Action::ToggleTrailers => {
                self.show_display(d, n, e, !t, m, r, al, x);
                effects0()
            },
            Action::ToggleMailmap => {
                self.show_display(d, n, e, t, !m, r, al, x);
                effects0()
            },
            Action::ToggleRefs => {
                self.show_display(d, n, e, t, m, ref_mode_after(r), al, x);
                effects0()
            },
            Action::ToggleHistoryDisplay => {
                self.show_display(d, n, e, t, m, r, al, !x);
                effects0()
            },
            Action::ToggleAlign => {
                self.show_display(d, n, e, t, m, r, !al, x);
                effects0()
            },
            Action::ToggleCommit => {
                self.toggle_commit();
                effects0()
            },
            _ => effects0(),
        }
    }

    fn dispatch_rest(&mut self, action: Action) -> (effects: Vec<Effect>)
        requires
            nav_wf(*old(self)),
            !is_dispatched_move(action) && !is_display(action),
        ensures
            dispatched(*old(self), action, *final(self)),
            effect_views(effects@) == effects_of(*old(self), action),
            nav_wf(*final(self)),
    {
        match action {
            Action::Refresh => self.reload_effects(false),
            Action::ToggleHidden => self.reload_effects(true),
            Action::ToggleChanges => {
                self.toggle_changes();
                effects0()
            },
            Action::ToggleChangesFocus => {
                self.toggle_changes_focus();
                effects0()
            },
            Action::CycleChangesParent => {
                self.cycle_parent();
                effects0()
            },
            Action::OpenDiff => self.open_diff(),
            Action::VerifySignatures => self.request_check(),
            Action::Cancel => self.press_cancel(),
            Action::Copy => self.copy_id(),
            Action::CopyPath(path) => effects1(Effect::CopyPath(path)),
            Action::CopyAuthor => self.copy_author(),
            Action::PreviewAuthorCopy(on) => {
                self.toggle_preview(on);
                effects0()
            },
            Action::ForceQuit => effects1(Effect::Quit),
            Action::Quit => self.press_quit(),
            _ => effects0(),
        }
    }

    fn dispatch(&mut self, action: Action) -> (effects: Vec<Effect>)
        requires
            nav_wf(*old(self)),
        ensures
            dispatched(*old(self), action, *final(self)),
            effect_views(effects@) == effects_of(*old(self), action),
            nav_wf(*final(self)),
    {
        if is_move_action(&action) {
            self.dispatch_moves(action)
        } else if is_display_action(&action) {
            self.dispatch_display(action)
        } else {
            self.dispatch_rest(action)
        }
    }

    /// Whether the view is in a state that `update` accepts: the selection names a row and both
    /// change panes keep their selection within their bounds.
    pub fn accepts_actions(&self) -> (r: bool)
        ensures
            r == nav_wf(*self),
    {
        let selection = match self.selected {
            Some(s) => s < self.rows.len(),
            None => true,
        };
        let tree = &self.tree_changes;
        let worktree = &self.worktree_changes;
        selection && tree.selected <= tree.max && tree.max < usize::MAX && tree.page >= 1
            && worktree.selected <= worktree.max && worktree.max < usize::MAX && worktree.page >= 1
    }

    /// Reacts to a user action: the view changes as `updated` describes, and the returned effects are
    /// what the surrounding program is asked to do.
    pub fn update(&mut self, action: Action) -> (effects: Vec<Effect>)
        requires
            nav_wf(*old(self)),
        ensures
            updated(*old(self), action, *final(self), effect_views(effects@)),
            nav_wf(*final(self)),
    {
        self.prepare(&action);
        self.dispatch(action)
    }
}

/// The actions that move the selection or a viewport, or confirm a cancelled walk.
pub open spec fn is_dispatched_move(action: Action) -> bool {
    match action {
        Action::Cancelled | Action::MoveUp | Action::MoveDown | Action::MoveUpBy(_) | Action::MoveDownBy(_)
        | Action::ScrollLeft | Action::ScrollRight | Action::HalfPageUp | Action::HalfPageDown | Action::PageUp
        | Action::PageDown | Action::First | Action::Last => true,
        _ => false,
    }
}

/// The actions that change display settings.
pub open spec fn is_display(action: Action) -> bool {
    match action {
        Action::ToggleDate | Action::ToggleEmail | Action::ToggleName | Action::ToggleTrailers
        | Action::ToggleMailmap | Action::ToggleHistoryDisplay | Action::ToggleRefs | Action::ToggleAlign
        | Action::ToggleCommit => true,
        _ => false,
    }
}

fn is_move_action(action: &Action) -> (r: bool)
    ensures
        r == is_dispatched_move(*action),
{
    match action {
        Action::Cancelled | Action::MoveUp | Action::MoveDown | Action::MoveUpBy(_) | Action::MoveDownBy(_)
        | Action::ScrollLeft | Action::ScrollRight | Action::HalfPageUp | Action::HalfPageDown | Action::PageUp
        | Action::PageDown | Action::First | Action::Last => true,
        _ => false,
    }
}

fn is_display_action(action: &Action) -> (r: bool)
    ensures
        r == is_display(*action),
{
    match action {
        Action::ToggleDate | Action::ToggleEmail | Action::ToggleName | Action::ToggleTrailers
        | Action::ToggleMailmap | Action::ToggleHistoryDisplay | Action::ToggleRefs | Action::ToggleAlign
        | Action::ToggleCommit => true,
        _ => false,
    }
}

} // verus!

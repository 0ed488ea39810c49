//! The decisions of the program's event loop: how each event changes the view and the loop's own state,
//! and what the surrounding program is asked to do next (start workers, take a reference snapshot, copy
//! text, draw, quit).
use vstd::prelude::*;

use crate::app::{
    Action, App, ChangePane, ChangesMode, Effect, EffectView, LoadedCommits, State, effect_views, spans_fit,
};
use crate::commit::{CommitRow, RowView, row_ids, row_views};
use crate::ids::ObjectId;
use crate::keys::{Key, MouseScroll, grouped_action, grouped_key_action, mouse_scroll_action};
use crate::lanes::{Graph, topology};
use crate::laws::{lemma_update_keeps_wf, lemma_verdicts_keep_wf};
use crate::loading::{batch_extended, lanes_started, loaded_ids};
use crate::completion::lanes_finished;
use crate::refresh::refresh_started;
use crate::screen::{actor, actor_bytes};
use crate::signatures::verdicts_recorded;
use crate::summary::{full_hex, full_hex_of};
use crate::update::{nav_wf, updated};

verus! {

/// The state the event loop keeps besides the view.
pub struct LoopState {
    /// The loop ends once the layout of the history is adopted.
    pub quit_on_finish: bool,
    /// The history walk has ended, complete or cancelled.
    pub history_finished: bool,
    /// The terminal has focus.
    pub focused: bool,
    /// References changed, or a reload was asked for, since the last snapshot of them.
    pub refresh_pending: bool,
    /// The next refresh expands the boundary rows of hidden history.
    pub expand_hidden: bool,
    /// The running refresh, if any, selects the newest row once adopted.
    pub refresh_select_top: bool,
    /// A refresh walk runs.
    pub refresh_running: bool,
    /// A layout is computed.
    pub layout_running: bool,
    /// The tips of the last snapshot of references: those shown.
    pub view_tips: Vec<ObjectId>,
    /// The tips of the last snapshot of references: those hidden.
    pub hidden_tips: Vec<ObjectId>,
}

/// Something the event loop is told.
pub enum LoopEvent {
    /// A batch of commits of the history walk.
    Commits(LoadedCommits),
    /// A batch of commits of hidden history.
    HiddenCommits(LoadedCommits),
    /// The history walk completed.
    HistoryComplete,
    /// The history walk was cancelled.
    HistoryCancelled,
    /// The layout worker ordered the rows it was handed, taking this long.
    LanesComputed(Vec<CommitRow>, u64),
    /// A refresh walk loaded these commits for these shown and hidden tips.
    RefreshLoaded(LoadedCommits, Vec<ObjectId>, Vec<ObjectId>),
    /// A snapshot of references was taken: the tips shown and the tips hidden.
    Snapshot(Vec<ObjectId>, Vec<ObjectId>),
    /// The signature check reported its verdicts.
    SignaturesChecked(Vec<(ObjectId, bool)>),
    /// A key was pressed, repeated or released.
    Key(Key),
    /// The mouse wheel turned.
    Mouse(MouseScroll),
    /// The terminal lost focus.
    FocusLost,
    /// The terminal gained focus.
    FocusGained,
    /// The terminal was resized.
    Resize,
    /// A reference changed on disk.
    RefsChanged,
    /// The reference watcher stopped.
    RefWatchFailed,
    /// The worktree changed and stayed idle since.
    WorktreeChanged,
    /// Time passed without another event.
    Tick,
}

/// Something the event loop asks of the surrounding program.
pub enum LoopAction {
    /// Compute the layout of these rows.
    StartLanes(Vec<CommitRow>),
    /// Take a snapshot of the references and report it.
    TakeSnapshot,
    /// Walk the history again, the view loading again meanwhile: with hidden history shown or not,
    /// expanding these boundary rows, with these commits already known.
    StartRefresh { show_hidden: bool, expand: Vec<ObjectId>, known: Vec<ObjectId> },
    /// Check the signatures of these commits.
    StartVerification(Vec<ObjectId>),
    /// Cancel the history walk.
    CancelWalk,
    /// Put this text on the clipboard.
    Copy(Vec<u8>),
    /// Open the diff of the path at this index of a change pane.
    OpenDiff(ChangePane, usize),
    /// Show hidden history or not, as the view asks, and open the notes again, for a reloaded history.
    Reload(bool),
    /// Forget the relation held for the selected commit, in the view and in the cache.
    ClearRelation,
    /// Compare the references shown with those on disk, the tips being unchanged.
    CompareDecorations,
    /// The held worktree changes are stale.
    InvalidateWorktree,
    /// The change panes were switched: whether they are shown, whether both are, whether both were.
    ChangesToggled { shown: bool, both: bool, was_both: bool },
    /// Draw a frame, at once if urgent.
    Draw(bool),
    /// End the loop, with the time the layout took where it ends on finishing.
    Quit(Option<u64>),
}

/// A loop action as plain values.
pub enum LoopActionView {
    StartLanes(Seq<RowView>),
    TakeSnapshot,
    StartRefresh { show_hidden: bool, expand: Seq<ObjectId>, known: Seq<ObjectId> },
    StartVerification(Seq<ObjectId>),
    CancelWalk,
    Copy(Seq<u8>),
    OpenDiff(ChangePane, usize),
    Reload(bool),
    ClearRelation,
    CompareDecorations,
    InvalidateWorktree,
    ChangesToggled { shown: bool, both: bool, was_both: bool },
    Draw(bool),
    Quit(Option<u64>),
}

impl View for LoopAction {
    type V = LoopActionView;

    open spec fn view(&self) -> LoopActionView {
        match self {
            LoopAction::StartLanes(rows) => LoopActionView::StartLanes(row_views(rows@)),
            LoopAction::TakeSnapshot => LoopActionView::TakeSnapshot,
            LoopAction::StartRefresh { show_hidden, expand, known } => LoopActionView::StartRefresh {
                show_hidden: *show_hidden,
                expand: expand@,
                known: known@,
            },
            LoopAction::StartVerification(ids) => LoopActionView::StartVerification(ids@),
            LoopAction::CancelWalk => LoopActionView::CancelWalk,
            LoopAction::Copy(text) => LoopActionView::Copy(text@),
            LoopAction::OpenDiff(pane, index) => LoopActionView::OpenDiff(*pane, *index),
            LoopAction::Reload(show) => LoopActionView::Reload(*show),
            LoopAction::ClearRelation => LoopActionView::ClearRelation,
            LoopAction::CompareDecorations => LoopActionView::CompareDecorations,
            LoopAction::InvalidateWorktree => LoopActionView::InvalidateWorktree,
            LoopAction::ChangesToggled { shown, both, was_both } => LoopActionView::ChangesToggled {
                shown: *shown,
                both: *both,
                was_both: *was_both,
            },
            LoopAction::Draw(urgent) => LoopActionView::Draw(*urgent),
            LoopAction::Quit(time) => LoopActionView::Quit(*time),
        }
    }
}

/// The views of a list of loop actions.
pub open spec fn action_views(actions: Seq<LoopAction>) -> Seq<LoopActionView> {
    actions.map_values(|a: LoopAction| a@)
}

// ---------------------------------------------------------------------------------------------
// What the view's effects ask for.
// ---------------------------------------------------------------------------------------------

/// The text a copy effect puts on the clipboard: an identity's forty hexadecimal digits, a path, or an
/// author as `name <email>`.
pub open spec fn copied_bytes(e: EffectView) -> Option<Seq<u8>> {
    match e {
        EffectView::CopyId(id) => Some(full_hex(id)),
        EffectView::CopyPath(p) => Some(p),
        EffectView::CopyAuthor(a) => Some(actor(a.name, a.email)),
        _ => None,
    }
}

/// The text a copy effect puts on the clipboard; other effects copy nothing.
pub fn copied_text(effect: &Effect) -> (r: Option<Vec<u8>>)
    ensures
        match r {
            Some(t) => copied_bytes(effect@) == Some(t@),
            None => copied_bytes(effect@) is None,
        },
{
    match effect {
        Effect::CopyId(id) => Some(full_hex_of(*id)),
        Effect::CopyPath(path) => Some(crate::bytes::copy_bytes(path.as_slice())),
        Effect::CopyAuthor(author) => Some(actor_bytes(author)),
        _ => None,
    }
}

/// What the loop asks for on an effect of the view.
pub open spec fn effect_action(e: EffectView) -> LoopActionView {
    match e {
        EffectView::Cancel => LoopActionView::CancelWalk,
        EffectView::CopyId(id) => LoopActionView::Copy(full_hex(id)),
        EffectView::CopyPath(p) => LoopActionView::Copy(p),
        EffectView::CopyAuthor(a) => LoopActionView::Copy(actor(a.name, a.email)),
        EffectView::Reload(show) => LoopActionView::Reload(show),
        EffectView::OpenDiff(pane, index) => LoopActionView::OpenDiff(pane, index),
        EffectView::VerifySignatures(ids) => LoopActionView::StartVerification(ids),
        EffectView::Quit => LoopActionView::Quit(None),
    }
}

/// The effects handled in order, up to and including the first that quits: the actions they ask for,
/// the hidden-history setting the last reload among them asks for, whether one reloads, and whether one
/// quits.
pub open spec fn handled(e: Seq<EffectView>) -> (Seq<LoopActionView>, Option<bool>, bool, bool)
    decreases e.len(),
{
    if e.len() == 0 {
        (seq![], None, false, false)
    } else {
        let o = handled(e.drop_last());
        if o.3 {
            o
        } else {
            match e.last() {
                EffectView::Quit => (o.0.push(LoopActionView::Quit(None)), o.1, o.2, true),
                EffectView::Reload(show) => (o.0.push(LoopActionView::Reload(show)), Some(show), true, false),
                x => (o.0.push(effect_action(x)), o.1, o.2, false),
            }
        }
    }
}

proof fn lemma_handled_stops(e: Seq<EffectView>, i: int, j: int)
    requires
        0 <= i <= j <= e.len(),
        handled(e.take(i)).3,
    ensures
        handled(e.take(j)) == handled(e.take(i)),
    decreases j - i,
{
    if j > i {
        lemma_handled_stops(e, i, j - 1);
        assert(e.take(j).drop_last() =~= e.take(j - 1));
    }
}

// ---------------------------------------------------------------------------------------------
// The step.
// ---------------------------------------------------------------------------------------------

/// A reference snapshot is due: a refresh is pending, no refresh walk or layout runs, and the history is
/// complete or cancelled.
pub open spec fn snapshot_due(s: LoopState, history: State) -> bool {
    &&& s.refresh_pending
    &&& !s.refresh_running
    &&& !s.layout_running
    &&& (history == State::Complete || history == State::Cancelled)
}

/// The end of every step that does not quit, with the history in state `history`: where a snapshot is
/// due, it is asked for and the refresh is no longer pending.
pub open spec fn checked(
    history: State,
    u: LoopState,
    before: Seq<LoopActionView>,
    t: LoopState,
    actions: Seq<LoopActionView>,
) -> bool {
    if snapshot_due(u, history) {
        &&& t == LoopState { refresh_pending: false, ..u }
        &&& actions == before.push(LoopActionView::TakeSnapshot)
    } else {
        &&& t == u
        &&& actions == before
    }
}

/// The view and the loop's state are unchanged but for the end of the step.
pub open spec fn idle_step(a: App, s: LoopState, before: Seq<LoopActionView>, b: App, t: LoopState, actions: Seq<LoopActionView>) -> bool {
    b == a && checked(a.state, s, before, t, actions)
}

/// The view is well formed.
#[verifier::opaque]
pub open spec fn view_wf(a: App) -> bool {
    a.wf()
}

/// The view `b` is the view `a` once a batch was received, the hidden rows becoming `hidden`.
#[verifier::opaque]
pub open spec fn batch_done(a: App, hidden: Seq<ObjectId>, c: LoadedCommits, b: App) -> bool {
    batch_extended(a, hidden, c, b)
}

/// The view `b` is the view `a` once the layout of `rows` was started, or not.
#[verifier::opaque]
pub open spec fn layout_started(a: App, b: App, rows: Option<Seq<RowView>>) -> bool {
    lanes_started(a, b, rows)
}

/// The view `b` is the view `a` once it adopted the layout of `rows`, computed in `time`.
#[verifier::opaque]
pub open spec fn layout_done(a: App, rows: Seq<CommitRow>, time: u64, b: App) -> bool {
    exists|g: Graph| g.matches(topology(rows)) && lanes_finished(a, rows, g, time, b)
}

/// The view `b` is the view `a` once a refresh projected `c` onto the tips, handing out `rows`.
#[verifier::opaque]
pub open spec fn refresh_done(
    a: App,
    b: App,
    c: LoadedCommits,
    view: Seq<ObjectId>,
    hidden: Seq<ObjectId>,
    select_top: bool,
    rows: Seq<RowView>,
) -> bool {
    refresh_started(a, b, c, view, hidden, select_top, rows)
}

/// The view `b` is the view `a` once it recorded the verdicts of a signature check.
#[verifier::opaque]
pub open spec fn verdicts_done(a: App, b: App, results: Seq<(ObjectId, bool)>) -> bool {
    verdicts_recorded(a, b, results)
}

/// The view `b` and effects `effects` are what applying `action` to the view `a` gives.
#[verifier::opaque]
pub open spec fn view_updated(a: App, action: Action, b: App, effects: Seq<EffectView>) -> bool {
    updated(a, action, b, effects)
}

/// The actions asked for before the effects of `action`: the worktree changes are stale after a refresh
/// that shows both panes, and switching the panes is reported.
pub open spec fn pre_actions(a: App, action: Action, m: App) -> Seq<LoopActionView> {
    (if action == Action::Refresh && a.changes_mode == Some(ChangesMode::Both) {
        seq![LoopActionView::InvalidateWorktree]
    } else {
        seq![]
    }) + (if action == Action::ToggleChanges {
        seq![
            LoopActionView::ChangesToggled {
                shown: m.changes_mode is Some,
                both: m.changes_mode == Some(ChangesMode::Both),
                was_both: a.changes_mode == Some(ChangesMode::Both),
            },
        ]
    } else {
        seq![]
    })
}

/// After the view became `m` with `effects`: the effects are handled in order; a reload is passed on with
/// whether hidden history is to be shown, and asks for a refresh that expands the boundary rows; quitting
/// ends the step
/// at once; otherwise a frame is drawn, at once if `urgent`.
pub open spec fn acted(
    s: LoopState,
    m: App,
    effects: Seq<EffectView>,
    before: Seq<LoopActionView>,
    urgent: bool,
    b: App,
    t: LoopState,
    actions: Seq<LoopActionView>,
) -> bool {
    let o = handled(effects);
    let u = LoopState { refresh_pending: s.refresh_pending || o.2, expand_hidden: s.expand_hidden || o.2, ..s };
    &&& b == m
    &&& if o.3 {
        t == u && actions == before + o.0
    } else {
        checked(b.state, u, before + o.0 + seq![LoopActionView::Draw(urgent)], t, actions)
    }
}

/// An action of the view was applied and its effects handled.
pub open spec fn action_applied(
    a: App,
    s: LoopState,
    action: Action,
    urgent: bool,
    b: App,
    t: LoopState,
    actions: Seq<LoopActionView>,
) -> bool {
    exists|m: App, e: Seq<EffectView>|
        #[trigger] view_updated(a, action, m, e) && acted(s, m, e, pre_actions(a, action, m), urgent, b, t, actions)
}

/// The navigation a scroll of the mouse wheel asks for.
pub open spec fn scroll_action(m: MouseScroll) -> Option<Action> {
    match m {
        MouseScroll::Up => Some(Action::MoveUp),
        MouseScroll::Down => Some(Action::MoveDown),
        MouseScroll::Left => Some(Action::ScrollLeft),
        MouseScroll::Right => Some(Action::ScrollRight),
        MouseScroll::Other => None,
    }
}

/// The view's action for an event, if any, and whether its frame is urgent, while the terminal has
/// focus.
pub open spec fn input_action(a: App, s: LoopState, event: LoopEvent) -> Option<(Action, bool)> {
    match event {
        LoopEvent::Key(k) => match grouped_key_action(k, a.history_display_expanded) {
            Some(x) => if s.focused {
                Some((x, true))
            } else {
                None
            },
            None => None,
        },
        LoopEvent::Mouse(m) => match scroll_action(m) {
            Some(x) => if s.focused {
                Some((x, false))
            } else {
                None
            },
            None => None,
        },
        _ => None,
    }
}

/// A batch of the history walk arrived; once the walk ended, batches are ignored.
pub open spec fn batch_received(
    a: App,
    s: LoopState,
    hidden: Seq<ObjectId>,
    c: LoadedCommits,
    b: App,
    t: LoopState,
    actions: Seq<LoopActionView>,
) -> bool {
    if s.history_finished {
        idle_step(a, s, seq![], b, t, actions)
    } else {
        batch_done(a, hidden, c, b) && checked(b.state, s, seq![LoopActionView::Draw(false)], t, actions)
    }
}

/// The history walk completed: the layout of its rows is started, if the view hands any out.
pub open spec fn walk_completed(a: App, s: LoopState, b: App, t: LoopState, actions: Seq<LoopActionView>) -> bool {
    if s.history_finished {
        idle_step(a, s, seq![], b, t, actions)
    } else {
        exists|rows: Option<Seq<RowView>>|
            {
                &&& layout_started(a, b, rows)
                &&& checked(
                    b.state,
                    LoopState { history_finished: true, layout_running: s.layout_running || rows is Some, ..s },
                    match rows {
                        Some(r) => seq![LoopActionView::StartLanes(r), LoopActionView::Draw(false)],
                        None => seq![LoopActionView::Draw(false)],
                    },
                    t,
                    actions,
                )
            }
    }
}

/// The history walk was cancelled: the view confirms it.
pub open spec fn walk_cancelled_step(a: App, s: LoopState, b: App, t: LoopState, actions: Seq<LoopActionView>) -> bool {
    if s.history_finished {
        idle_step(a, s, seq![], b, t, actions)
    } else {
        exists|e: Seq<EffectView>|
            view_updated(a, Action::Cancelled, b, e) && checked(
                b.state,
                LoopState { history_finished: true, ..s },
                seq![LoopActionView::Draw(false)],
                t,
                actions,
            )
    }
}

/// The layout was computed: the view adopts it and the relation of the selected commit is forgotten; the
/// loop ends here, with the time the layout took, where it quits on finishing.
pub open spec fn layout_adopted(
    a: App,
    s: LoopState,
    rows: Seq<CommitRow>,
    time: u64,
    b: App,
    t: LoopState,
    actions: Seq<LoopActionView>,
) -> bool {
    {
            &&& layout_done(a, rows, time, b)
            &&& if s.quit_on_finish {
                &&& t == LoopState { layout_running: false, ..s }
                &&& actions == seq![LoopActionView::ClearRelation, LoopActionView::Quit(b.lane_time)]
            } else {
                checked(
                    b.state,
                    LoopState { layout_running: false, ..s },
                    seq![LoopActionView::ClearRelation, LoopActionView::Draw(false)],
                    t,
                    actions,
                )
            }
        }
}

/// The hidden tips a refresh projects: none while hidden history is shown.
pub open spec fn projected_hidden(a: App, hidden: Seq<ObjectId>) -> Seq<ObjectId> {
    if a.show_hidden {
        seq![]
    } else {
        hidden
    }
}

/// A refresh walk loaded its commits: the view projects them onto the tips and the layout is started.
pub open spec fn refresh_adopted(
    a: App,
    s: LoopState,
    c: LoadedCommits,
    view: Seq<ObjectId>,
    hidden: Seq<ObjectId>,
    b: App,
    t: LoopState,
    actions: Seq<LoopActionView>,
) -> bool {
    exists|m: App, rows: Seq<RowView>|
        {
            &&& #[trigger] refresh_done(a, m, c, view, projected_hidden(a, hidden), s.refresh_select_top, rows)
            &&& b == m
            &&& checked(
                b.state,
                LoopState { refresh_running: false, layout_running: true, ..s },
                seq![LoopActionView::ClearRelation, LoopActionView::StartLanes(rows), LoopActionView::Draw(false)],
                t,
                actions,
            )
        }
}

/// A snapshot of references was taken: where the tips changed or expansion was asked for, a refresh walk
/// starts, expanding the boundary rows where the hidden tips changed or expansion was asked for; otherwise
/// only the references shown are compared.
pub open spec fn snapshot_compared(
    a: App,
    s: LoopState,
    view: Vec<ObjectId>,
    hidden: Vec<ObjectId>,
    b: App,
    t: LoopState,
    actions: Seq<LoopActionView>,
) -> bool {
    let hidden_changed = hidden@ != s.hidden_tips@;
    let changed = view@ != s.view_tips@ || hidden_changed;
    if changed || s.expand_hidden {
        &&& b == a
        &&& checked(
            b.state,
            LoopState {
                view_tips: view,
                hidden_tips: hidden,
                expand_hidden: false,
                refresh_select_top: !s.expand_hidden,
                refresh_running: true,
                ..s
            },
            seq![
                LoopActionView::StartRefresh {
                    show_hidden: a.show_hidden,
                    expand: if s.expand_hidden || hidden_changed {
                        a.hidden_rows@
                    } else {
                        seq![]
                    },
                    known: row_ids(a.all_rows@),
                },
            ],
            t,
            actions,
        )
    } else {
        idle_step(a, LoopState { view_tips: view, hidden_tips: hidden, ..s }, seq![LoopActionView::CompareDecorations], b, t, actions)
    }
}

/// The terminal lost focus: pending pane suppression ends and the author preview is left.
pub open spec fn focus_left(a: App, s: LoopState, b: App, t: LoopState, actions: Seq<LoopActionView>) -> bool {
    exists|e: Seq<EffectView>|
        view_updated(App { changes_suppressed: false, ..a }, Action::PreviewAuthorCopy(false), b, e) && checked(
            b.state,
            LoopState { focused: false, ..s },
            seq![LoopActionView::Draw(true)],
            t,
            actions,
        )
}

/// How one event changes the view `a` into `b` and the loop's state `s` into `t`, and what the loop asks
/// for.
pub open spec fn loop_stepped(
    a: App,
    s: LoopState,
    event: LoopEvent,
    b: App,
    t: LoopState,
    actions: Seq<LoopActionView>,
) -> bool {
    match input_action(a, s, event) {
        Some((action, urgent)) => action_applied(a, s, action, urgent, b, t, actions),
        None => match event {
            LoopEvent::Commits(c) => batch_received(a, s, a.hidden_rows@, c, b, t, actions),
            LoopEvent::HiddenCommits(c) => batch_received(a, s, a.hidden_rows@ + loaded_ids(c.rows@), c, b, t, actions),
            LoopEvent::HistoryComplete => walk_completed(a, s, b, t, actions),
            LoopEvent::HistoryCancelled => walk_cancelled_step(a, s, b, t, actions),
            LoopEvent::LanesComputed(rows, time) => layout_adopted(a, s, rows@, time, b, t, actions),
            LoopEvent::RefreshLoaded(c, view, hidden) => refresh_adopted(a, s, c, view@, hidden@, b, t, actions),
            LoopEvent::Snapshot(view, hidden) => snapshot_compared(a, s, view, hidden, b, t, actions),
            LoopEvent::SignaturesChecked(results) => verdicts_done(a, b, results@) && checked(
                b.state,
                s,
                seq![LoopActionView::Draw(false)],
                t,
                actions,
            ),
            LoopEvent::FocusLost => focus_left(a, s, b, t, actions),
            LoopEvent::FocusGained => idle_step(a, LoopState { focused: true, ..s }, seq![], b, t, actions),
            LoopEvent::Resize => idle_step(a, s, seq![LoopActionView::Draw(true)], b, t, actions),
            LoopEvent::RefsChanged => idle_step(a, LoopState { refresh_pending: true, ..s }, seq![], b, t, actions),
            LoopEvent::RefWatchFailed => b == (App { manual_refresh: true, ..a }) && checked(
                b.state,
                s,
                seq![],
                t,
                actions,
            ),
            LoopEvent::WorktreeChanged => idle_step(
                a,
                s,
                seq![LoopActionView::InvalidateWorktree, LoopActionView::Draw(true)],
                b,
                t,
                actions,
            ),
            _ => idle_step(a, s, seq![], b, t, actions),
        },
    }
}

/// What an event must hold: batches whose attribution spans lie within their attributions, and laid-out
/// rows whose spans lie within the view's buffers.
pub open spec fn event_wf(a: App, event: LoopEvent) -> bool {
    match event {
        LoopEvent::Commits(c) => c.wf(),
        LoopEvent::HiddenCommits(c) => c.wf(),
        LoopEvent::RefreshLoaded(c, _, _) => c.wf(),
        LoopEvent::LanesComputed(rows, _) => spans_fit(rows@, a.titles@.len() as int, a.attributions@.len() as int),
        _ => true,
    }
}

impl LoadedCommits {
    /// Whether every attribution span of the batch lies within its attributions.
    pub fn fits(&self) -> (r: bool)
        ensures
            r == self.wf(),
    {
        let mut k: usize = 0;
        while k < self.rows.len()
            invariant
                k <= self.rows@.len(),
                forall|j: int|
                    0 <= j < k ==> (#[trigger] self.rows@[j]).attributions.start <= self.rows@[j].attributions.end
                        <= self.attributions@.len(),
            decreases self.rows@.len() - k,
        {
            let span = self.rows[k].attributions;
            if !(span.start <= span.end && span.end <= self.attributions.len()) {
                return false;
            }
            k += 1;
        }
        true
    }
}

/// Whether every span of `rows` lies within buffers of `titles` bytes and `attributions` attributions.
pub fn spans_within(rows: &Vec<CommitRow>, titles: usize, attributions: usize) -> (r: bool)
    ensures
        r == spans_fit(rows@, titles as int, attributions as int),
{
    let mut k: usize = 0;
    while k < rows.len()
        invariant
            k <= rows@.len(),
            forall|j: int|
                0 <= j < k ==> #[trigger] row_views(rows@)[j].title.start <= row_views(rows@)[j].title.end <= titles
                    && row_views(rows@)[j].attributions.start <= row_views(rows@)[j].attributions.end
                    <= attributions,
        decreases rows@.len() - k,
    {
        let t = rows[k].title;
        let a = rows[k].attributions;
        assert(row_views(rows@)[k as int] == rows@[k as int]@);
        if !(t.start <= t.end && t.end <= titles && a.start <= a.end && a.end <= attributions) {
            return false;
        }
        assert(row_views(rows@)[k as int].title.start <= row_views(rows@)[k as int].title.end <= titles
            && row_views(rows@)[k as int].attributions.start <= row_views(rows@)[k as int].attributions.end
            <= attributions);
        k += 1;
    }
    true
}

fn same_ids(a: &Vec<ObjectId>, b: &Vec<ObjectId>) -> (r: bool)
    ensures
        r == (a@ == b@),
{
    if a.len() != b.len() {
        return false;
    }
    let mut k: usize = 0;
    while k < a.len()
        invariant
            k <= a@.len(),
            a@.len() == b@.len(),
            forall|j: int| 0 <= j < k ==> a@[j] == b@[j],
        decreases a@.len() - k,
    {
        if a[k] != b[k] {
            return false;
        }
        k += 1;
    }
    assert(a@ =~= b@);
    true
}

/// What an effect asks of the surrounding program.
fn effect_loop_action(effect: &Effect) -> (r: LoopAction)
    ensures
        r@ == effect_action(effect@),
{
    match effect {
        Effect::Cancel => LoopAction::CancelWalk,
        Effect::CopyId(id) => LoopAction::Copy(full_hex_of(*id)),
        Effect::CopyPath(path) => LoopAction::Copy(crate::bytes::copy_bytes(path.as_slice())),
        Effect::CopyAuthor(author) => LoopAction::Copy(actor_bytes(author)),
        Effect::Reload(show) => LoopAction::Reload(*show),
        Effect::OpenDiff(pane, index) => LoopAction::OpenDiff(*pane, *index),
        Effect::VerifySignatures(ids) => LoopAction::StartVerification(crate::commit::copy_ids(ids)),
        Effect::Quit => LoopAction::Quit(None),
    }
}

/// Handles the effects in order until one quits: returns the hidden-history setting the last reload asks
/// for, whether one reloads, and whether one quits.
fn handle_effects(effects: &Vec<Effect>, actions: &mut Vec<LoopAction>) -> (r: (Option<bool>, bool, bool))
    ensures
        action_views(final(actions)@) == action_views(old(actions)@) + handled(effect_views(effects@)).0,
        r == (handled(effect_views(effects@)).1, handled(effect_views(effects@)).2, handled(effect_views(effects@)).3),
{
    let ghost e = effect_views(effects@);
    let ghost before = action_views(actions@);
    assert(before == action_views(old(actions)@));
    proof {
        assert(e.take(0) =~= Seq::<EffectView>::empty());
        assert(action_views(actions@) =~= before + handled(e.take(0)).0);
    }
    let mut reload: Option<bool> = None;
    let mut reloaded = false;
    let mut i: usize = 0;
    while i < effects.len()
        invariant
            i <= effects@.len(),
            e == effect_views(effects@),
            before == action_views(old(actions)@),
            action_views(actions@) == before + handled(e.take(i as int)).0,
            reload == handled(e.take(i as int)).1,
            reloaded == handled(e.take(i as int)).2,
            !handled(e.take(i as int)).3,
        decreases effects@.len() - i,
    {
        let ghost prev = action_views(actions@);
        proof {
            assert(e.take(i + 1).drop_last() =~= e.take(i as int));
            assert(e.take(i + 1).last() == effects@[i as int]@);
        }
        match &effects[i] {
            Effect::Quit => {
                actions.push(LoopAction::Quit(None));
                proof {
                    assert(action_views(actions@) =~= prev.push(LoopActionView::Quit(None)));
                    lemma_handled_stops(e, i + 1, e.len() as int);
                    assert(e.take(e.len() as int) =~= e);
                }
                proof {
                    assert(handled(e.take(i + 1)) == (
                        handled(e.take(i as int)).0.push(LoopActionView::Quit(None)),
                        reload,
                        reloaded,
                        true,
                    ));
                }
                assert(action_views(actions@) =~= before + handled(e).0);
                return (reload, reloaded, true);
            },
            Effect::Reload(v) => {
                reload = Some(*v);
                reloaded = true;
                actions.push(LoopAction::Reload(*v));
                proof {
                    assert(action_views(actions@) =~= prev.push(LoopActionView::Reload(*v)));
                }
            },
            other => {
                let a = effect_loop_action(other);
                actions.push(a);
                proof {
                    assert(action_views(actions@) =~= prev.push(effect_action(effects@[i as int]@)));
                }
            },
        }
        i += 1;
    }
    proof {
        assert(e.take(effects@.len() as int) =~= e);
    }
    (reload, reloaded, false)
}


/// Applies an action to the view, keeping it well formed.
fn update_view(app: &mut App, action: Action) -> (effects: Vec<Effect>)
    requires
        view_wf(*old(app)),
    ensures
        view_updated(*old(app), action, *final(app), effect_views(effects@)),
        view_wf(*final(app)),
{
    let ghost a = *app;
    let ghost act = action;
    proof {
        reveal(view_wf);
    }
    let effects = app.update(action);
    proof {
        lemma_update_keeps_wf(a, act, *app, effect_views(effects@));
        reveal(view_updated);
    }
    effects
}

/// Receives a batch of shown or of hidden history.
fn extend_view(app: &mut App, commits: LoadedCommits, hidden: bool)
    requires
        view_wf(*old(app)),
        commits.wf(),
    ensures
        batch_done(
            *old(app),
            if hidden {
                old(app).hidden_rows@ + loaded_ids(commits.rows@)
            } else {
                old(app).hidden_rows@
            },
            commits,
            *final(app),
        ),
        view_wf(*final(app)),
{
    proof {
        reveal(view_wf);
        reveal(batch_done);
    }
    if hidden {
        app.extend_hidden_commits(commits);
    } else {
        app.extend_commits(commits);
    }
}

/// Starts the layout of the loaded history, where the view hands out rows.
fn start_layout(app: &mut App) -> (rows: Option<Vec<CommitRow>>)
    requires
        view_wf(*old(app)),
    ensures
        layout_started(
            *old(app),
            *final(app),
            match rows {
                Some(r) => Some(row_views(r@)),
                None => None,
            },
        ),
        view_wf(*final(app)),
{
    proof {
        reveal(view_wf);
        reveal(layout_started);
    }
    app.start_lane_computation()
}

/// Adopts the layout of `rows`.
fn adopt_layout(app: &mut App, rows: Vec<CommitRow>, time: u64)
    requires
        view_wf(*old(app)),
        spans_fit(rows@, old(app).titles@.len() as int, old(app).attributions@.len() as int),
    ensures
        layout_done(*old(app), rows@, time, *final(app)),
        view_wf(*final(app)),
{
    proof {
        reveal(view_wf);
        reveal(layout_done);
    }
    let ghost given = rows@;
    let graph = Graph::new(&rows);
    let ghost g = graph;
    app.finish_lane_computation(rows, graph, time);
    assert(g.matches(topology(given)));
}

/// Projects a refresh onto the tips.
fn project_refresh(
    app: &mut App,
    commits: LoadedCommits,
    view: &Vec<ObjectId>,
    hidden: &Vec<ObjectId>,
    select_top: bool,
) -> (rows: Vec<CommitRow>)
    requires
        view_wf(*old(app)),
        commits.wf(),
    ensures
        refresh_done(*old(app), *final(app), commits, view@, hidden@, select_top, row_views(rows@)),
        view_wf(*final(app)),
{
    proof {
        reveal(view_wf);
        reveal(refresh_done);
    }
    match app.start_refresh(commits, view, hidden, select_top) {
        Some(rows) => rows,
        None => {
            assert(false);
            Vec::new()
        },
    }
}

/// Records the verdicts of a signature check.
fn record_verdicts(app: &mut App, results: Vec<(ObjectId, bool)>)
    requires
        view_wf(*old(app)),
    ensures
        verdicts_done(*old(app), *final(app), results@),
        view_wf(*final(app)),
{
    proof {
        reveal(view_wf);
        reveal(verdicts_done);
    }
    let ghost a = *app;
    let ghost r = results@;
    app.finish_signature_verification(results);
    proof {
        lemma_verdicts_keep_wf(a, *app, r);
    }
}

fn release_changes(app: &mut App)
    requires
        view_wf(*old(app)),
    ensures
        *final(app) == (App { changes_suppressed: false, ..*old(app) }),
        view_wf(*final(app)),
{
    proof {
        reveal(view_wf);
    }
    app.release_changes();
}

fn refresh_by_hand(app: &mut App)
    requires
        view_wf(*old(app)),
    ensures
        *final(app) == (App { manual_refresh: true, ..*old(app) }),
        view_wf(*final(app)),
{
    proof {
        reveal(view_wf);
    }
    app.set_manual_refresh();
}

/// Ends a step: asks for a reference snapshot where one is due.
fn finish_step(state: &mut LoopState, history: State, actions: &mut Vec<LoopAction>)
    ensures
        checked(history, *old(state), action_views(old(actions)@), *final(state), action_views(final(actions)@)),
{
    let due = state.refresh_pending && !state.refresh_running && !state.layout_running && match history {
        State::Complete | State::Cancelled => true,
        _ => false,
    };
    if due {
        state.refresh_pending = false;
        let ghost before = actions@;
        actions.push(LoopAction::TakeSnapshot);
        assert(action_views(actions@) =~= action_views(before).push(LoopActionView::TakeSnapshot));
    }
}

fn no_actions() -> (r: Vec<LoopAction>)
    ensures
        action_views(r@) == Seq::<LoopActionView>::empty(),
{
    let r: Vec<LoopAction> = Vec::new();
    assert(action_views(r@) =~= Seq::<LoopActionView>::empty());
    r
}

fn one_action(a: LoopAction) -> (r: Vec<LoopAction>)
    ensures
        action_views(r@) == seq![a@],
{
    let mut r: Vec<LoopAction> = Vec::new();
    r.push(a);
    assert(action_views(r@) =~= seq![a@]);
    r
}

fn two_actions(a: LoopAction, b: LoopAction) -> (r: Vec<LoopAction>)
    ensures
        action_views(r@) == seq![a@, b@],
{
    let mut r: Vec<LoopAction> = Vec::new();
    r.push(a);
    r.push(b);
    assert(action_views(r@) =~= seq![a@, b@]);
    r
}

/// Ends a step after `first`, changing nothing else.
fn idle(history: State, state: &mut LoopState, first: Vec<LoopAction>) -> (actions: Vec<LoopAction>)
    ensures
        checked(history, *old(state), action_views(first@), *final(state), action_views(actions@)),
{
    let mut actions = first;
    finish_step(state, history, &mut actions);
    actions
}

/// Applies an action of the view and handles its effects.
fn apply_action(app: &mut App, state: &mut LoopState, action: Action, urgent: bool) -> (actions: Vec<LoopAction>)
    requires
        view_wf(*old(app)),
    ensures
        action_applied(*old(app), *old(state), action, urgent, *final(app), *final(state), action_views(actions@)),
        view_wf(*final(app)),
{
    let ghost a = *app;
    let ghost s = *state;
    let ghost act = action;
    let refreshes_worktree = match action {
        Action::Refresh => match app.changes_mode {
            Some(ChangesMode::Both) => true,
            _ => false,
        },
        _ => false,
    };
    let toggles = match action {
        Action::ToggleChanges => true,
        _ => false,
    };
    let was_both = match app.changes_mode {
        Some(ChangesMode::Both) => true,
        _ => false,
    };
    let effects = update_view(app, action);
    let ghost m = *app;
    let ghost e = effect_views(effects@);
    let mut actions: Vec<LoopAction> = Vec::new();
    if refreshes_worktree {
        actions.push(LoopAction::InvalidateWorktree);
    }
    if toggles {
        let shown = app.changes_mode.is_some();
        let both = match app.changes_mode {
            Some(ChangesMode::Both) => true,
            _ => false,
        };
        actions.push(LoopAction::ChangesToggled { shown, both, was_both });
    }
    let ghost before = action_views(actions@);
    assert(before =~= pre_actions(a, act, m));
    let r = conclude_effects(app, state, &effects, actions, urgent);
    assert(view_updated(a, act, m, e) && acted(s, m, e, pre_actions(a, act, m), urgent, *app, *state, action_views(r@)));
    r
}

/// Handles the effects of an action, after the actions `actions`.
fn conclude_effects(
    app: &mut App,
    state: &mut LoopState,
    effects: &Vec<Effect>,
    actions: Vec<LoopAction>,
    urgent: bool,
) -> (r: Vec<LoopAction>)
    requires
        view_wf(*old(app)),
    ensures
        acted(
            *old(state),
            *old(app),
            effect_views(effects@),
            action_views(actions@),
            urgent,
            *final(app),
            *final(state),
            action_views(r@),
        ),
        view_wf(*final(app)),
{
    let ghost s = *state;
    let ghost m = *app;
    let ghost before = action_views(actions@);
    let mut actions = actions;
    let (reload, reloaded, quit) = handle_effects(effects, &mut actions);
    if reloaded {
        state.refresh_pending = true;
        state.expand_hidden = true;
    }
    let history = app.state;
    if !quit {
        let ghost mid = action_views(actions@);
        actions.push(LoopAction::Draw(urgent));
        assert(action_views(actions@) =~= mid + seq![LoopActionView::Draw(urgent)]);
        finish_step(state, history, &mut actions);
    }
    actions
}

/// A batch of the history walk, of shown or of hidden history.
fn on_batch(app: &mut App, state: &mut LoopState, commits: LoadedCommits, hidden: bool) -> (actions: Vec<LoopAction>)
    requires
        view_wf(*old(app)),
        commits.wf(),
    ensures
        batch_received(
            *old(app),
            *old(state),
            if hidden {
                old(app).hidden_rows@ + loaded_ids(commits.rows@)
            } else {
                old(app).hidden_rows@
            },
            commits,
            *final(app),
            *final(state),
            action_views(actions@),
        ),
        view_wf(*final(app)),
{
    if state.history_finished {
        return idle(app.state, state, no_actions());
    }
    extend_view(app, commits, hidden);
    idle(app.state, state, one_action(LoopAction::Draw(false)))
}

/// The history walk completed.
fn on_complete(app: &mut App, state: &mut LoopState) -> (actions: Vec<LoopAction>)
    requires
        view_wf(*old(app)),
    ensures
        walk_completed(*old(app), *old(state), *final(app), *final(state), action_views(actions@)),
        view_wf(*final(app)),
{
    if state.history_finished {
        return idle(app.state, state, no_actions());
    }
    let rows = start_layout(app);
    state.history_finished = true;
    match rows {
        Some(v) => {
            let ghost r = row_views(v@);
            state.layout_running = true;
            idle(app.state, state, two_actions(LoopAction::StartLanes(v), LoopAction::Draw(false)))
        },
        None => idle(app.state, state, one_action(LoopAction::Draw(false))),
    }
}

/// The history walk was cancelled.
fn on_cancelled(app: &mut App, state: &mut LoopState) -> (actions: Vec<LoopAction>)
    requires
        view_wf(*old(app)),
    ensures
        walk_cancelled_step(*old(app), *old(state), *final(app), *final(state), action_views(actions@)),
        view_wf(*final(app)),
{
    if state.history_finished {
        return idle(app.state, state, no_actions());
    }
    let effects = update_view(app, Action::Cancelled);
    state.history_finished = true;
    idle(app.state, state, one_action(LoopAction::Draw(false)))
}

/// The layout worker reported.
fn on_lanes(app: &mut App, state: &mut LoopState, rows: Vec<CommitRow>, time: u64) -> (actions: Vec<LoopAction>)
    requires
        view_wf(*old(app)),
        spans_fit(rows@, old(app).titles@.len() as int, old(app).attributions@.len() as int),
    ensures
        layout_adopted(*old(app), *old(state), rows@, time, *final(app), *final(state), action_views(actions@)),
        view_wf(*final(app)),
{
    let ghost a = *app;
    let ghost s = *state;
    let ghost given = rows@;
    adopt_layout(app, rows, time);
    let ghost m = *app;
    let lane_time = app.lane_time;
    let history = app.state;
    state.layout_running = false;
    assert(layout_done(a, given, time, m));
    if state.quit_on_finish {
        two_actions(LoopAction::ClearRelation, LoopAction::Quit(lane_time))
    } else {
        idle(history, state, two_actions(LoopAction::ClearRelation, LoopAction::Draw(false)))
    }
}

/// A refresh walk reported its commits.
fn on_refresh(
    app: &mut App,
    state: &mut LoopState,
    commits: LoadedCommits,
    view: Vec<ObjectId>,
    hidden: Vec<ObjectId>,
) -> (actions: Vec<LoopAction>)
    requires
        view_wf(*old(app)),
        commits.wf(),
    ensures
        refresh_adopted(*old(app), *old(state), commits, view@, hidden@, *final(app), *final(state), action_views(actions@)),
        view_wf(*final(app)),
{
    let ghost a = *app;
    let projected: Vec<ObjectId> = if app.show_hidden { Vec::new() } else { hidden };
    assert(projected@ =~= projected_hidden(a, hidden@));
    let ghost s = *state;
    let rows = project_refresh(app, commits, &view, &projected, state.refresh_select_top);
    let ghost rv = row_views(rows@);
    let ghost m = *app;
    assert(refresh_done(a, m, commits, view@, projected_hidden(a, hidden@), s.refresh_select_top, rv));
    state.refresh_running = false;
    state.layout_running = true;
    let mut first: Vec<LoopAction> = Vec::new();
    first.push(LoopAction::ClearRelation);
    first.push(LoopAction::StartLanes(rows));
    first.push(LoopAction::Draw(false));
    assert(action_views(first@) =~= seq![
        LoopActionView::ClearRelation,
        LoopActionView::StartLanes(rv),
        LoopActionView::Draw(false),
    ]);
    idle(app.state, state, first)
}

/// A snapshot of references was taken.
fn on_snapshot(app: &mut App, state: &mut LoopState, view: Vec<ObjectId>, hidden: Vec<ObjectId>) -> (actions: Vec<LoopAction>)
    requires
        view_wf(*old(app)),
    ensures
        snapshot_compared(*old(app), *old(state), view, hidden, *final(app), *final(state), action_views(actions@)),
        view_wf(*final(app)),
{
    let hidden_changed = !same_ids(&hidden, &state.hidden_tips);
    let changed = !same_ids(&view, &state.view_tips) || hidden_changed;
    let expand_asked = state.expand_hidden;
    state.view_tips = view;
    state.hidden_tips = hidden;
    if changed || expand_asked {
        let ghost a = *app;
        let expand = if expand_asked || hidden_changed { app.hidden_ids() } else { Vec::new() };
        assert(expand@ =~= if expand_asked || hidden_changed { a.hidden_rows@ } else { seq![] });
        let known = crate::lanes::row_id_list(&app.all_rows);
        let first = one_action(LoopAction::StartRefresh { show_hidden: app.show_hidden, expand, known });
        state.expand_hidden = false;
        state.refresh_select_top = !expand_asked;
        state.refresh_running = true;
        idle(app.state, state, first)
    } else {
        idle(app.state, state, one_action(LoopAction::CompareDecorations))
    }
}

/// The signature check reported.
fn on_verdicts(app: &mut App, state: &mut LoopState, results: Vec<(ObjectId, bool)>) -> (actions: Vec<LoopAction>)
    requires
        view_wf(*old(app)),
    ensures
        verdicts_done(*old(app), *final(app), results@),
        checked(final(app).state, *old(state), seq![LoopActionView::Draw(false)], *final(state), action_views(actions@)),
        view_wf(*final(app)),
{
    record_verdicts(app, results);
    idle(app.state, state, one_action(LoopAction::Draw(false)))
}

/// The terminal lost focus.
fn on_focus_lost(app: &mut App, state: &mut LoopState) -> (actions: Vec<LoopAction>)
    requires
        view_wf(*old(app)),
    ensures
        focus_left(*old(app), *old(state), *final(app), *final(state), action_views(actions@)),
        view_wf(*final(app)),
{
    release_changes(app);
    let effects = update_view(app, Action::PreviewAuthorCopy(false));
    state.focused = false;
    idle(app.state, state, one_action(LoopAction::Draw(true)))
}

/// The events handled without a worker's result or a batch.
pub open spec fn quiet(event: LoopEvent) -> bool {
    match event {
        LoopEvent::Commits(_) | LoopEvent::HiddenCommits(_) | LoopEvent::HistoryComplete
        | LoopEvent::HistoryCancelled | LoopEvent::LanesComputed(_, _) | LoopEvent::RefreshLoaded(_, _, _)
        | LoopEvent::Snapshot(_, _) => false,
        _ => true,
    }
}

/// The events that change nothing but the loop's own state.
fn on_quiet_event(app: &mut App, state: &mut LoopState, event: LoopEvent) -> (actions: Vec<LoopAction>)
    requires
        view_wf(*old(app)),
        input_action(*old(app), *old(state), event) is None,
        quiet(event),
    ensures
        loop_stepped(*old(app), *old(state), event, *final(app), *final(state), action_views(actions@)),
        view_wf(*final(app)),
{
    match event {
        LoopEvent::FocusGained => {
            state.focused = true;
            idle(app.state, state, no_actions())
        },
        LoopEvent::Resize => idle(app.state, state, one_action(LoopAction::Draw(true))),
        LoopEvent::RefsChanged => {
            state.refresh_pending = true;
            idle(app.state, state, no_actions())
        },
        LoopEvent::RefWatchFailed => {
            refresh_by_hand(app);
            idle(app.state, state, no_actions())
        },
        LoopEvent::WorktreeChanged => idle(
            app.state,
            state,
            two_actions(LoopAction::InvalidateWorktree, LoopAction::Draw(true)),
        ),
        LoopEvent::FocusLost => on_focus_lost(app, state),
        LoopEvent::SignaturesChecked(results) => on_verdicts(app, state, results),
        _ => idle(app.state, state, no_actions()),
    }
}

/// Decides one step of the event loop: changes the view and the loop's state as `event` asks, and returns
/// what the surrounding program is to do, in order.
pub fn loop_step(app: &mut App, state: &mut LoopState, event: LoopEvent) -> (actions: Vec<LoopAction>)
    requires
        old(app).wf(),
        event_wf(*old(app), event),
    ensures
        loop_stepped(*old(app), *old(state), event, *final(app), *final(state), action_views(actions@)),
        final(app).wf(),
{
    assert(view_wf(*app)) by {
        reveal(view_wf);
    }
    let actions = match event {
        LoopEvent::Key(k) => match grouped_action(k, app.history_display_expanded) {
            Some(x) => if state.focused {
                apply_action(app, state, x, true)
            } else {
                idle(app.state, state, no_actions())
            },
            None => idle(app.state, state, no_actions()),
        },
        LoopEvent::Mouse(m) => match mouse_scroll_action(m) {
            Some(x) => if state.focused {
                apply_action(app, state, x, false)
            } else {
                idle(app.state, state, no_actions())
            },
            None => idle(app.state, state, no_actions()),
        },
        LoopEvent::Commits(c) => on_batch(app, state, c, false),
        LoopEvent::HiddenCommits(c) => on_batch(app, state, c, true),
        LoopEvent::HistoryComplete => on_complete(app, state),
        LoopEvent::HistoryCancelled => on_cancelled(app, state),
        LoopEvent::LanesComputed(rows, time) => on_lanes(app, state, rows, time),
        LoopEvent::RefreshLoaded(c, view, hidden) => on_refresh(app, state, c, view, hidden),
        LoopEvent::Snapshot(view, hidden) => on_snapshot(app, state, view, hidden),
        other => on_quiet_event(app, state, other),
    };
    assert(app.wf()) by {
        reveal(view_wf);
    }
    actions
}

} // verus!

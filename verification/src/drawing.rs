//! What a frame needs loaded before it is drawn: notes and metadata of the visible rows, the message,
//! changes and upstream relation of the selected commit, and which cached results no longer apply.
use vstd::prelude::*;

use crate::app::{ChangesMode, SelectionRelation, State};
use crate::ids::ObjectId;

verus! {

/// The rows a frame of `height` history lines shows from `offset` on, among `len` rows.
pub open spec fn window_spec(offset: usize, height: usize, len: usize) -> (usize, usize) {
    let start = if offset <= len { offset } else { len };
    let end = if start + height <= len { (start + height) as usize } else { len };
    (start, end)
}

/// The rows `start..end` that a frame of `height` history lines shows from `offset` on.
pub fn visible_window(offset: usize, height: usize, len: usize) -> (r: (usize, usize))
    ensures
        r == window_spec(offset, height, len),
        r.0 <= r.1 <= len,
{
    let start = if offset <= len { offset } else { len };
    let end = if height <= len - start { start + height } else { len };
    (start, end)
}

/// The upstream relation computed for a commit, kept between frames.
#[derive(Clone, Copy, Debug, PartialEq, Eq, Structural)]
pub struct RelationCache {
    pub id: ObjectId,
    pub relation: Option<SelectionRelation>,
}

/// What a frame is drawn from: the view's state, and the keys of what earlier frames loaded.
pub struct DrawState {
    /// The history loading phase.
    pub history: State,
    /// The identity of the selected commit.
    pub selected: Option<ObjectId>,
    /// The commit message pane is shown.
    pub show_commit: bool,
    /// Which change panes are shown.
    pub changes_mode: Option<ChangesMode>,
    /// The change panes have room on the screen.
    pub changes_visible: bool,
    /// The parent whose changes the tree pane shows.
    pub changes_parent: usize,
    /// For every row, whether its metadata was loaded.
    pub metadata_loaded: Vec<bool>,
    /// For every row, whether its notes were loaded.
    pub notes_loaded: Vec<bool>,
    /// The commit whose message is held.
    pub message: Option<ObjectId>,
    /// The commit and parent whose tree changes are held.
    pub tree_changes: Option<(ObjectId, usize)>,
    /// The marker of the held worktree changes; the largest `usize` asks for a reload.
    pub worktree_changes: Option<usize>,
    /// The relation held for a commit.
    pub relation: Option<RelationCache>,
}

/// A draw state as plain values.
pub struct DrawStateView {
    pub history: State,
    pub selected: Option<ObjectId>,
    pub show_commit: bool,
    pub changes_mode: Option<ChangesMode>,
    pub changes_visible: bool,
    pub changes_parent: usize,
    pub metadata_loaded: Seq<bool>,
    pub notes_loaded: Seq<bool>,
    pub message: Option<ObjectId>,
    pub tree_changes: Option<(ObjectId, usize)>,
    pub worktree_changes: Option<usize>,
    pub relation: Option<RelationCache>,
}

impl View for DrawState {
    type V = DrawStateView;

    open spec fn view(&self) -> DrawStateView {
        DrawStateView {
            history: self.history,
            selected: self.selected,
            show_commit: self.show_commit,
            changes_mode: self.changes_mode,
            changes_visible: self.changes_visible,
            changes_parent: self.changes_parent,
            metadata_loaded: self.metadata_loaded@,
            notes_loaded: self.notes_loaded@,
            message: self.message,
            tree_changes: self.tree_changes,
            worktree_changes: self.worktree_changes,
            relation: self.relation,
        }
    }
}

/// What to load, show and drop before a frame is drawn.
pub struct DrawRequests {
    /// The visible rows whose notes are loaded, in order.
    pub notes: Vec<usize>,
    /// The relation shown: the held one where it belongs to the selected commit.
    pub relation: Option<SelectionRelation>,
    /// The commit whose relation is computed.
    pub relation_to_load: Option<ObjectId>,
    /// The commit whose message is loaded.
    pub message_to_load: Option<ObjectId>,
    /// The parent the tree pane shows: the first one once another commit is selected.
    pub changes_parent: usize,
    /// The commit whose tree changes are loaded.
    pub tree_changes_to_load: Option<ObjectId>,
    /// The worktree changes are loaded.
    pub worktree_changes_to_load: bool,
    /// The message pane starts over at its top.
    pub reset_commit_view: bool,
    /// The change panes start over at their top.
    pub reset_changes_view: bool,
    /// The held message is dropped.
    pub drop_message: bool,
    /// The held tree and worktree changes are dropped.
    pub drop_changes: bool,
    /// The visible rows whose metadata is loaded, in order.
    pub metadata: Vec<usize>,
    /// Something is loaded from the repository.
    pub open_repository: bool,
}

/// Draw requests as plain values.
pub struct DrawRequestsView {
    pub notes: Seq<usize>,
    pub relation: Option<SelectionRelation>,
    pub relation_to_load: Option<ObjectId>,
    pub message_to_load: Option<ObjectId>,
    pub changes_parent: usize,
    pub tree_changes_to_load: Option<ObjectId>,
    pub worktree_changes_to_load: bool,
    pub reset_commit_view: bool,
    pub reset_changes_view: bool,
    pub drop_message: bool,
    pub drop_changes: bool,
    pub metadata: Seq<usize>,
    pub open_repository: bool,
}

impl View for DrawRequests {
    type V = DrawRequestsView;

    open spec fn view(&self) -> DrawRequestsView {
        DrawRequestsView {
            notes: self.notes@,
            relation: self.relation,
            relation_to_load: self.relation_to_load,
            message_to_load: self.message_to_load,
            changes_parent: self.changes_parent,
            tree_changes_to_load: self.tree_changes_to_load,
            worktree_changes_to_load: self.worktree_changes_to_load,
            reset_commit_view: self.reset_commit_view,
            reset_changes_view: self.reset_changes_view,
            drop_message: self.drop_message,
            drop_changes: self.drop_changes,
            metadata: self.metadata@,
            open_repository: self.open_repository,
        }
    }
}

/// The rows in `start..end` whose flag is not set, in order.
pub open spec fn unset_in(flags: Seq<bool>, start: int, end: int) -> Seq<usize>
    decreases end - start,
{
    if end <= start {
        seq![]
    } else {
        let rest = unset_in(flags, start, end - 1);
        if flags[end - 1] {
            rest
        } else {
            rest.push((end - 1) as usize)
        }
    }
}

/// The commit the message and change panes show: the selected one, while either is open.
pub open spec fn pane_commit(s: DrawStateView) -> Option<ObjectId> {
    if s.show_commit || s.changes_mode is Some {
        s.selected
    } else {
        None
    }
}

/// The relation held for the selected commit.
pub open spec fn held_relation(s: DrawStateView) -> Option<SelectionRelation> {
    match s.relation {
        Some(c) => if s.selected == Some(c.id) {
            c.relation
        } else {
            None
        },
        None => None,
    }
}

/// The selected commit, once the history is complete or cancelled, unless its relation is held.
pub open spec fn relation_needed(s: DrawStateView) -> Option<ObjectId> {
    match s.selected {
        Some(id) => if (s.history == State::Complete || s.history == State::Cancelled) && match s.relation {
            Some(c) => c.id != id,
            None => true,
        } {
            Some(id)
        } else {
            None
        },
        None => None,
    }
}

/// The commit whose message is loaded: the shown one, unless its message is held.
pub open spec fn message_needed(s: DrawStateView) -> Option<ObjectId> {
    match pane_commit(s) {
        Some(id) => if s.show_commit && s.message != Some(id) {
            Some(id)
        } else {
            None
        },
        None => None,
    }
}

/// The parent the tree pane shows: the first one where the held changes belong to another commit.
pub open spec fn parent_shown(s: DrawStateView) -> usize {
    let held = match s.tree_changes {
        Some(t) => Some(t.0),
        None => None,
    };
    if s.changes_visible && pane_commit(s) is Some && held != pane_commit(s) {
        0
    } else {
        s.changes_parent
    }
}

/// The commit whose tree changes are loaded: the shown one, unless its changes against the shown parent
/// are held.
pub open spec fn tree_changes_needed(s: DrawStateView) -> Option<ObjectId> {
    match pane_commit(s) {
        Some(id) => if s.changes_visible && s.changes_mode is Some && match s.tree_changes {
            Some(t) => t.0 != id || t.1 != parent_shown(s),
            None => true,
        } {
            Some(id)
        } else {
            None
        },
        None => None,
    }
}

/// The worktree changes are loaded: both panes are shown and none are held, or a reload was asked for.
pub open spec fn worktree_changes_needed(s: DrawStateView) -> bool {
    &&& s.changes_visible
    &&& s.changes_mode == Some(ChangesMode::Both)
    &&& match s.worktree_changes {
        Some(marker) => marker == usize::MAX,
        None => true,
    }
}

/// What a frame showing rows `viewport.0..viewport.1` loads, shows and drops.
pub open spec fn draw_requests_spec(s: DrawStateView, viewport: (usize, usize)) -> DrawRequestsView {
    let metadata = unset_in(s.metadata_loaded, viewport.0 as int, viewport.1 as int);
    let message = message_needed(s);
    let tree = tree_changes_needed(s);
    let worktree = worktree_changes_needed(s);
    let relation = relation_needed(s);
    DrawRequestsView {
        notes: unset_in(s.notes_loaded, viewport.0 as int, viewport.1 as int),
        relation: held_relation(s),
        relation_to_load: relation,
        message_to_load: message,
        changes_parent: parent_shown(s),
        tree_changes_to_load: tree,
        worktree_changes_to_load: worktree,
        reset_commit_view: message is Some,
        reset_changes_view: tree is Some || worktree,
        drop_message: !s.show_commit || pane_commit(s) is None,
        drop_changes: s.changes_mode is None,
        metadata,
        open_repository: metadata.len() > 0 || message is Some || tree is Some || worktree || relation is Some,
    }
}

/// The rows in `start..end` whose flag is not set.
fn unset_rows(flags: &Vec<bool>, start: usize, end: usize) -> (r: Vec<usize>)
    requires
        start <= end <= flags@.len(),
    ensures
        r@ == unset_in(flags@, start as int, end as int),
{
    let mut out: Vec<usize> = Vec::new();
    let mut i: usize = start;
    proof {
        assert(out@ =~= unset_in(flags@, start as int, start as int));
    }
    while i < end
        invariant
            start <= i <= end <= flags@.len(),
            out@ == unset_in(flags@, start as int, i as int),
        decreases end - i,
    {
        if !flags[i] {
            out.push(i);
        }
        i += 1;
    }
    out
}

fn same_id(a: Option<ObjectId>, b: ObjectId) -> (r: bool)
    ensures
        r == (a == Some(b)),
{
    match a {
        Some(x) => x == b,
        None => false,
    }
}

/// Decides what a frame showing rows `viewport.0..viewport.1` loads, shows and drops.
pub fn draw_requests(state: &DrawState, viewport: (usize, usize)) -> (r: DrawRequests)
    requires
        viewport.0 <= viewport.1 <= state.metadata_loaded@.len(),
        viewport.1 <= state.notes_loaded@.len(),
    ensures
        r@ == draw_requests_spec(state@, viewport),
{
    let ghost s = state@;
    let (start, end) = viewport;
    let notes = unset_rows(&state.notes_loaded, start, end);
    let metadata = unset_rows(&state.metadata_loaded, start, end);
    let pane = if state.show_commit || state.changes_mode.is_some() {
        state.selected
    } else {
        None
    };
    let relation = match state.relation {
        Some(c) => if same_id(state.selected, c.id) {
            c.relation
        } else {
            None
        },
        None => None,
    };
    let finished = match state.history {
        State::Complete | State::Cancelled => true,
        _ => false,
    };
    let relation_to_load = match state.selected {
        Some(id) => {
            let held = match state.relation {
                Some(c) => c.id == id,
                None => false,
            };
            if finished && !held {
                Some(id)
            } else {
                None
            }
        },
        None => None,
    };
    let message_to_load = match pane {
        Some(id) => if state.show_commit && !same_id(state.message, id) {
            Some(id)
        } else {
            None
        },
        None => None,
    };
    let changes_parent = match pane {
        Some(id) => {
            let held = match state.tree_changes {
                Some(t) => t.0 == id,
                None => false,
            };
            if state.changes_visible && !held {
                0
            } else {
                state.changes_parent
            }
        },
        None => state.changes_parent,
    };
    let tree_changes_to_load = match pane {
        Some(id) => {
            let stale = match state.tree_changes {
                Some(t) => t.0 != id || t.1 != changes_parent,
                None => true,
            };
            if state.changes_visible && state.changes_mode.is_some() && stale {
                Some(id)
            } else {
                None
            }
        },
        None => None,
    };
    let both = match state.changes_mode {
        Some(ChangesMode::Both) => true,
        _ => false,
    };
    let worktree_missing = match state.worktree_changes {
        Some(marker) => marker == usize::MAX,
        None => true,
    };
    let worktree_changes_to_load = state.changes_visible && both && worktree_missing;
    let open_repository = metadata.len() > 0 || message_to_load.is_some() || tree_changes_to_load.is_some()
        || worktree_changes_to_load || relation_to_load.is_some();
    DrawRequests {
        notes,
        relation,
        relation_to_load,
        message_to_load,
        changes_parent,
        tree_changes_to_load,
        worktree_changes_to_load,
        reset_commit_view: message_to_load.is_some(),
        reset_changes_view: tree_changes_to_load.is_some() || worktree_changes_to_load,
        drop_message: !state.show_commit || pane.is_none(),
        drop_changes: state.changes_mode.is_none(),
        metadata,
        open_repository,
    }
}

} // verus!

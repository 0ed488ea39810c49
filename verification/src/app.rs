//! The interactive state of the history view and its reaction to user actions.
use vstd::prelude::*;

use crate::author::{Attribution, Author, AuthorView};
use crate::commit::{CommitRow, LoadedCommit, SignatureState, Span, Time, row_views};
use crate::rows::views_fit;
use crate::ids::ObjectId;
use crate::lanes::{Graph, contains_id, topology};

verus! {

/// How a path changed.
#[derive(Clone, Copy, Debug, PartialEq, Eq, Structural)]
pub enum ChangeKind {
    Added,
    Modified,
    Deleted,
    Renamed,
    Copied,
    TypeChanged,
    Unmerged,
}

impl ChangeKind {
    /// The letter Git uses for this kind of change.
    pub fn letter(self) -> (c: char)
        ensures
            c == match self {
                ChangeKind::Added => 'A',
                ChangeKind::Modified => 'M',
                ChangeKind::Deleted => 'D',
                ChangeKind::Renamed => 'R',
                ChangeKind::Copied => 'C',
                ChangeKind::TypeChanged => 'T',
                ChangeKind::Unmerged => 'U',
            },
    {
        match self {
            ChangeKind::Added => 'A',
            ChangeKind::Modified => 'M',
            ChangeKind::Deleted => 'D',
            ChangeKind::Renamed => 'R',
            ChangeKind::Copied => 'C',
            ChangeKind::TypeChanged => 'T',
            ChangeKind::Unmerged => 'U',
        }
    }
}

/// Which change panes are shown.
#[derive(Clone, Copy, Debug, PartialEq, Eq, Structural)]
pub enum ChangesMode {
    Tree,
    Both,
}

/// One of the change panes.
#[derive(Clone, Copy, Debug, PartialEq, Eq, Structural)]
pub enum ChangePane {
    Tree,
    Worktree,
}

/// How the change panes share the screen.
#[derive(Clone, Copy, Debug, PartialEq, Eq, Structural)]
pub enum ChangesLayout {
    SideBySide,
    Stacked,
}

/// Where a change was found.
#[derive(Clone, Copy, Debug, PartialEq, Eq, Structural)]
pub enum ChangeGroup {
    Tree,
    Staged,
    Unstaged,
}

/// The navigation state of one change pane.
#[derive(Debug)]
pub struct ChangesView {
    pub selected: usize,
    pub offset: usize,
    pub horizontal_offset: usize,
    pub error: Option<String>,
    pub page: usize,
    pub max: usize,
    pub horizontal_page: usize,
    pub horizontal_max: usize,
}

impl ChangesView {
    /// The state of a pane that shows nothing yet: one-row pages and nothing selected beyond the first row.
    pub fn new() -> (v: ChangesView)
        ensures
            v == (ChangesView {
                selected: 0,
                offset: 0,
                horizontal_offset: 0,
                error: None,
                page: 1,
                max: 0,
                horizontal_page: 1,
                horizontal_max: 0,
            }),
    {
        ChangesView {
            selected: 0,
            offset: 0,
            horizontal_offset: 0,
            error: None,
            page: 1,
            max: 0,
            horizontal_page: 1,
            horizontal_max: 0,
        }
    }
}

/// The parent a commit is compared against.
#[derive(Clone, Copy, Debug, PartialEq, Eq, Structural)]
pub struct ComparedParent {
    pub index: usize,
    pub total: usize,
    pub id: ObjectId,
}

/// One changed path.
#[derive(Debug)]
pub struct PathChange {
    pub kind: ChangeKind,
    pub group: ChangeGroup,
    pub source: Option<Vec<u8>>,
    pub path: Vec<u8>,
    pub lines: Option<(u32, u32)>,
}

/// The changes of a commit or of the worktree.
#[derive(Debug)]
pub struct Changes {
    pub parent: Option<ComparedParent>,
    pub paths: Vec<PathChange>,
    pub lines_added: u64,
    pub lines_removed: u64,
}

impl Changes {
    pub fn new() -> (c: Changes)
        ensures
            c.parent.is_none(),
            c.paths@.len() == 0,
            c.lines_added == 0,
            c.lines_removed == 0,
    {
        Changes { parent: None, paths: Vec::new(), lines_added: 0, lines_removed: 0 }
    }

    /// Changes are shown when a parent was compared or some path changed.
    pub fn is_visible(&self) -> (r: bool)
        ensures
            r == (self.parent.is_some() || self.paths@.len() > 0),
    {
        self.parent.is_some() || self.paths.len() > 0
    }
}

/// How the selected commit relates to its upstream or to the hidden history.
#[derive(Clone, Copy, Debug, PartialEq, Eq, Structural)]
pub enum SelectionRelation {
    Tracking { ahead: usize, behind: usize },
    Visible(usize),
}

/// Metadata of a commit that was deferred while loading.
#[derive(Debug)]
pub struct Metadata {
    pub committer_time: Time,
    pub author: Author,
    pub attributions: Span,
    pub title: Vec<u8>,
    pub has_agent_marker: bool,
    pub signature: SignatureState,
}

/// A batch of loaded commits with the attributions their spans refer to.
#[derive(Debug)]
pub struct LoadedCommits {
    pub rows: Vec<LoadedCommit>,
    pub attributions: Vec<Attribution>,
}

impl LoadedCommits {
    /// A batch without attributions.
    pub fn from(rows: Vec<LoadedCommit>) -> (c: LoadedCommits)
        ensures
            c.rows@ == rows@,
            c.attributions@.len() == 0,
    {
        LoadedCommits { rows, attributions: Vec::new() }
    }

    /// Every row's attribution span lies within the batch's attributions.
    pub open spec fn wf(&self) -> bool {
        forall|k: int|
            0 <= k < self.rows@.len() ==> (#[trigger] self.rows@[k]).attributions.start
                <= self.rows@[k].attributions.end <= self.attributions@.len()
    }
}

/// The history loading phase.
#[derive(Clone, Copy, Debug, PartialEq, Eq, Structural)]
pub enum State {
    Loading,
    Cancelling,
    Computing,
    Complete,
    Cancelled,
}

/// Which references are shown.
#[derive(Clone, Copy, Debug, PartialEq, Eq, Structural)]
pub enum RefMode {
    All,
    Default,
    Off,
}

/// Which names are shown.
#[derive(Clone, Copy, Debug, PartialEq, Eq, Structural)]
pub enum NameMode {
    All,
    Author,
    Off,
}

/// What was copied last.
#[derive(Clone, Copy, Debug, PartialEq, Eq, Structural)]
pub enum CopyKind {
    Id,
    Author,
}

/// A user action.
#[derive(Debug, PartialEq, Eq)]
pub enum Action {
    Cancelled,
    MoveUp,
    MoveDown,
    MoveUpBy(usize),
    MoveDownBy(usize),
    ScrollLeft,
    ScrollRight,
    HalfPageUp,
    HalfPageDown,
    PageUp,
    PageDown,
    First,
    Last,
    ToggleDate,
    ToggleName,
    ToggleEmail,
    ToggleTrailers,
    ToggleMailmap,
    ToggleRefs,
    Refresh,
    ToggleHidden,
    ToggleHistoryDisplay,
    ToggleAlign,
    ToggleCommit,
    ToggleChanges,
    ToggleChangesFocus,
    CycleChangesParent,
    OpenDiff,
    VerifySignatures,
    Cancel,
    Copy,
    CopyPath(Vec<u8>),
    CopyAuthor,
    PreviewAuthorCopy(bool),
    ForceQuit,
    Quit,
}

/// Work the surrounding program performs on behalf of the view.
#[derive(Debug, PartialEq, Eq)]
pub enum Effect {
    Cancel,
    CopyId(ObjectId),
    CopyPath(Vec<u8>),
    CopyAuthor(Author),
    Reload(bool),
    OpenDiff(ChangePane, usize),
    VerifySignatures(Vec<ObjectId>),
    Quit,
}

/// The mathematical value of an [`Effect`].
pub enum EffectView {
    Cancel,
    CopyId(ObjectId),
    CopyPath(Seq<u8>),
    CopyAuthor(AuthorView),
    Reload(bool),
    OpenDiff(ChangePane, usize),
    VerifySignatures(Seq<ObjectId>),
    Quit,
}

impl View for Effect {
    type V = EffectView;

    open spec fn view(&self) -> EffectView {
        match self {
            Effect::Cancel => EffectView::Cancel,
            Effect::CopyId(id) => EffectView::CopyId(*id),
            Effect::CopyPath(p) => EffectView::CopyPath(p@),
            Effect::CopyAuthor(a) => EffectView::CopyAuthor(a@),
            Effect::Reload(b) => EffectView::Reload(*b),
            Effect::OpenDiff(p, i) => EffectView::OpenDiff(*p, *i),
            Effect::VerifySignatures(ids) => EffectView::VerifySignatures(ids@),
            Effect::Quit => EffectView::Quit,
        }
    }
}

pub open spec fn effect_views(e: Seq<Effect>) -> Seq<EffectView> {
    e.map_values(|x: Effect| x@)
}

/// The interactive history view.
pub struct App {
    pub rows: Vec<CommitRow>,
    pub all_rows: Vec<CommitRow>,
    pub hidden_rows: Vec<ObjectId>,
    pub pending_hidden_rows: Option<Vec<ObjectId>>,
    pub titles: Vec<u8>,
    pub notes: Vec<(ObjectId, Vec<Vec<u8>>)>,
    pub graph: Option<Graph>,
    pub attributions: Vec<Attribution>,
    pub selected: Option<usize>,
    pub offset: usize,
    pub state: State,
    pub deferred_history_state: Option<State>,
    pub viewport_rows: usize,
    pub lane_time: Option<u64>,
    pub show_committer_date: bool,
    pub name_mode: NameMode,
    pub show_emails: bool,
    pub show_trailers: bool,
    pub use_mailmap: bool,
    pub ref_mode: RefMode,
    pub has_hidden_filter: bool,
    pub show_hidden: bool,
    pub align_metadata: bool,
    pub show_commit: bool,
    pub changes_mode: Option<ChangesMode>,
    pub worktree_changes_available: bool,
    pub changes_suppressed: bool,
    pub changes_focus: Option<ChangePane>,
    pub changes_layout: ChangesLayout,
    pub tree_changes_visible: bool,
    pub worktree_changes_visible: bool,
    pub tree_changes: ChangesView,
    pub worktree_changes: ChangesView,
    pub changes_parent: usize,
    pub commit_offset: usize,
    pub commit_page: usize,
    pub commit_max: usize,
    pub show_selection_tail: bool,
    pub preview_author_copy: bool,
    pub reachability_anchor: Option<ObjectId>,
    pub junction_parent: Option<usize>,
    pub reachable_rows: Option<Vec<bool>>,
    pub copy_feedback: Option<CopyKind>,
    pub focus_feedback: Option<&'static str>,
    pub notice: Option<String>,
    pub history_display_expanded: bool,
    pub estimated_lane_width: usize,
    pub horizontal_offset: usize,
    pub horizontal_page: usize,
    pub horizontal_max: usize,
    pub follow_tail: bool,
    pub reload_selection: Option<ObjectId>,
    pub select_top_after_refresh: bool,
    pub signature_failures: usize,
    pub signature_verification_running: bool,
    pub manual_refresh: bool,
    pub selection_relation: Option<SelectionRelation>,
    pub inline: bool,
}

} // verus!

verus! {

/// The state of a change pane that shows nothing yet.
pub open spec fn fresh_changes_view() -> ChangesView {
    ChangesView {
        selected: 0,
        offset: 0,
        horizontal_offset: 0,
        error: None,
        page: 1,
        max: 0,
        horizontal_page: 1,
        horizontal_max: 0,
    }
}

/// `a + b`, saturating at the largest `usize`.
pub open spec fn sat_add(a: usize, b: usize) -> usize {
    if a + b > usize::MAX {
        usize::MAX
    } else {
        (a + b) as usize
    }
}

/// `a - b`, saturating at zero.
pub open spec fn sat_sub(a: usize, b: usize) -> usize {
    if a >= b {
        (a - b) as usize
    } else {
        0
    }
}

pub open spec fn min_usize(a: usize, b: usize) -> usize {
    if a <= b {
        a
    } else {
        b
    }
}

pub open spec fn max1(a: usize) -> usize {
    if a >= 1 {
        a
    } else {
        1
    }
}

/// Row `i` is a boundary row of hidden history: it is drawn but cannot be selected.
pub open spec fn row_hidden(rows: Seq<CommitRow>, hidden: Seq<ObjectId>, i: int) -> bool {
    0 <= i < rows.len() && hidden.contains(rows[i].id)
}

/// The first row in `lo..hi` that may be selected.
pub open spec fn first_unhidden(rows: Seq<CommitRow>, hidden: Seq<ObjectId>, lo: int, hi: int) -> Option<usize>
    decreases hi - lo,
{
    if lo >= hi {
        None
    } else if !row_hidden(rows, hidden, lo) {
        Some(lo as usize)
    } else {
        first_unhidden(rows, hidden, lo + 1, hi)
    }
}

/// The last row in `lo..hi` that may be selected.
pub open spec fn last_unhidden(rows: Seq<CommitRow>, hidden: Seq<ObjectId>, lo: int, hi: int) -> Option<usize>
    decreases hi - lo,
{
    if lo >= hi {
        None
    } else if !row_hidden(rows, hidden, hi - 1) {
        Some((hi - 1) as usize)
    } else {
        last_unhidden(rows, hidden, lo, hi - 1)
    }
}

/// The selectable row nearest to `target` in the direction of travel, else the nearest one behind it.
pub open spec fn nearest_unhidden(rows: Seq<CommitRow>, hidden: Seq<ObjectId>, target: int, down: bool) -> Option<
    usize,
> {
    if down {
        match first_unhidden(rows, hidden, target, rows.len() as int) {
            Some(i) => Some(i),
            None => last_unhidden(rows, hidden, 0, target),
        }
    } else {
        match last_unhidden(rows, hidden, 0, target + 1) {
            Some(i) => Some(i),
            None => first_unhidden(rows, hidden, target + 1, rows.len() as int),
        }
    }
}

/// The viewport offset that keeps `selected` visible, moving as little as possible.
pub open spec fn visible_offset(selected: Option<usize>, offset: usize, viewport: usize) -> usize {
    match selected {
        None => offset,
        Some(s) => {
            let h = max1(viewport);
            if s < offset {
                s
            } else if s >= sat_add(offset, h) {
                (s + 1 - h) as usize
            } else {
                offset
            }
        },
    }
}

/// A change pane's selection lies within its rows, and its pages are never empty.
pub open spec fn pane_wf(c: ChangesView) -> bool {
    &&& c.selected <= c.max
    &&& c.max < usize::MAX
    &&& c.page >= 1
}

/// Every span of a row lies within the shared title and attribution buffers.
pub open spec fn spans_fit(rows: Seq<CommitRow>, titles: int, attributions: int) -> bool {
    views_fit(row_views(rows), titles, attributions)
}

// ---------------------------------------------------------------------------------------------
// How one state of the view relates to the next, field group by field group.
// ---------------------------------------------------------------------------------------------

/// The loaded history is unchanged.
pub open spec fn same_history(a: App, b: App) -> bool {
    &&& b.rows == a.rows
    &&& b.all_rows == a.all_rows
    &&& same_history_but_rows(a, b)
}

/// The loaded history is unchanged, but for the rows shown and the row cache.
pub open spec fn same_history_but_rows(a: App, b: App) -> bool {
    &&& b.hidden_rows == a.hidden_rows
    &&& b.pending_hidden_rows == a.pending_hidden_rows
    &&& b.titles == a.titles
    &&& b.notes == a.notes
    &&& b.graph == a.graph
    &&& b.attributions == a.attributions
}

/// The selection, the vertical viewport and whether the tail is followed hold the given values.
pub open spec fn nav_is(a: App, b: App, selected: Option<usize>, offset: usize, follow_tail: bool) -> bool {
    &&& b.selected == selected
    &&& b.offset == offset
    &&& b.follow_tail == follow_tail
    &&& b.viewport_rows == a.viewport_rows
}

/// Horizontal panning of the graph is unchanged.
pub open spec fn same_horizontal(a: App, b: App) -> bool {
    &&& b.horizontal_offset == a.horizontal_offset
    &&& b.horizontal_page == a.horizontal_page
    &&& b.horizontal_max == a.horizontal_max
}

/// The selection and the viewport are unchanged.
pub open spec fn same_navigation(a: App, b: App) -> bool {
    &&& nav_is(a, b, a.selected, a.offset, a.follow_tail)
    &&& same_horizontal(a, b)
}

/// The display settings hold the given values.
pub open spec fn display_is(
    a: App,
    b: App,
    date: bool,
    name: NameMode,
    emails: bool,
    trailers: bool,
    mailmap: bool,
    refs: RefMode,
    hidden_filter: bool,
    show_hidden: bool,
    align: bool,
    commit: bool,
    expanded: bool,
) -> bool {
    &&& b.show_committer_date == date
    &&& b.name_mode == name
    &&& b.show_emails == emails
    &&& b.show_trailers == trailers
    &&& b.use_mailmap == mailmap
    &&& b.ref_mode == refs
    &&& b.has_hidden_filter == hidden_filter
    &&& b.show_hidden == show_hidden
    &&& b.align_metadata == align
    &&& b.show_commit == commit
    &&& b.history_display_expanded == expanded
    &&& b.inline == a.inline
    &&& b.show_selection_tail == a.show_selection_tail
}

/// The display settings are unchanged.
pub open spec fn same_display(a: App, b: App) -> bool {
    display_is(
        a,
        b,
        a.show_committer_date,
        a.name_mode,
        a.show_emails,
        a.show_trailers,
        a.use_mailmap,
        a.ref_mode,
        a.has_hidden_filter,
        a.show_hidden,
        a.align_metadata,
        a.show_commit,
        a.history_display_expanded,
    )
}

/// The change panes hold the given values; their availability, layout and visibility are unchanged.
pub open spec fn changes_is(
    a: App,
    b: App,
    mode: Option<ChangesMode>,
    suppressed: bool,
    focus: Option<ChangePane>,
    tree: ChangesView,
    worktree: ChangesView,
    parent: usize,
    feedback: Option<&'static str>,
) -> bool {
    &&& b.changes_mode == mode
    &&& b.changes_suppressed == suppressed
    &&& b.changes_focus == focus
    &&& b.tree_changes == tree
    &&& b.worktree_changes == worktree
    &&& b.changes_parent == parent
    &&& b.focus_feedback == feedback
    &&& b.worktree_changes_available == a.worktree_changes_available
    &&& b.changes_layout == a.changes_layout
    &&& b.tree_changes_visible == a.tree_changes_visible
    &&& b.worktree_changes_visible == a.worktree_changes_visible
}

/// The change panes are unchanged.
pub open spec fn same_changes(a: App, b: App) -> bool {
    changes_is(
        a,
        b,
        a.changes_mode,
        a.changes_suppressed,
        a.changes_focus,
        a.tree_changes,
        a.worktree_changes,
        a.changes_parent,
        a.focus_feedback,
    )
}

/// The commit message viewport holds the given values; its page is unchanged.
pub open spec fn commit_view_is(a: App, b: App, offset: usize, max: usize) -> bool {
    &&& b.commit_offset == offset
    &&& b.commit_max == max
    &&& b.commit_page == a.commit_page
}

/// The commit message viewport is unchanged.
pub open spec fn same_commit_view(a: App, b: App) -> bool {
    commit_view_is(a, b, a.commit_offset, a.commit_max)
}

/// The ancestry preview holds the given values.
pub open spec fn preview_is(
    b: App,
    preview: bool,
    anchor: Option<ObjectId>,
    junction: Option<usize>,
    reachable: Option<Vec<bool>>,
) -> bool {
    &&& b.preview_author_copy == preview
    &&& b.reachability_anchor == anchor
    &&& b.junction_parent == junction
    &&& b.reachable_rows == reachable
}

/// The ancestry preview is unchanged.
pub open spec fn same_preview(a: App, b: App) -> bool {
    preview_is(b, a.preview_author_copy, a.reachability_anchor, a.junction_parent, a.reachable_rows)
}

/// Loading progress, signature checks and copy feedback hold the given values; the rest of the
/// background state is unchanged.
pub open spec fn progress_is(
    a: App,
    b: App,
    state: State,
    failures: usize,
    running: bool,
    copy_feedback: Option<CopyKind>,
) -> bool {
    &&& b.state == state
    &&& b.signature_failures == failures
    &&& b.signature_verification_running == running
    &&& b.copy_feedback == copy_feedback
    &&& b.deferred_history_state == a.deferred_history_state
    &&& b.lane_time == a.lane_time
    &&& b.estimated_lane_width == a.estimated_lane_width
    &&& b.reload_selection == a.reload_selection
    &&& b.select_top_after_refresh == a.select_top_after_refresh
    &&& b.manual_refresh == a.manual_refresh
    &&& b.selection_relation == a.selection_relation
    &&& b.notice == a.notice
}

/// Loading progress and background work are unchanged.
pub open spec fn same_progress(a: App, b: App) -> bool {
    progress_is(a, b, a.state, a.signature_failures, a.signature_verification_running, a.copy_feedback)
}

/// Nothing changed.
pub open spec fn unchanged(a: App, b: App) -> bool {
    &&& same_history(a, b)
    &&& same_navigation(a, b)
    &&& same_display(a, b)
    &&& same_changes(a, b)
    &&& same_commit_view(a, b)
    &&& same_preview(a, b)
    &&& same_progress(a, b)
}

/// Only the viewport offset may have changed, to `offset`.
pub open spec fn scrolled_to(a: App, b: App, offset: usize) -> bool {
    &&& same_history(a, b)
    &&& nav_is(a, b, a.selected, offset, a.follow_tail)
    &&& same_horizontal(a, b)
    &&& same_display(a, b)
    &&& same_changes(a, b)
    &&& same_commit_view(a, b)
    &&& same_preview(a, b)
    &&& same_progress(a, b)
}

impl App {
    /// The well-formedness of the view: the selection names a row, every span lies within the shared
    /// buffers, the change panes are consistent and a saved layout belongs to the rows shown.
    pub open spec fn wf(&self) -> bool {
        &&& (self.selected matches Some(s) ==> s < self.rows@.len())
        &&& spans_fit(self.rows@, self.titles@.len() as int, self.attributions@.len() as int)
        &&& spans_fit(self.all_rows@, self.titles@.len() as int, self.attributions@.len() as int)
        &&& pane_wf(self.tree_changes)
        &&& pane_wf(self.worktree_changes)
        &&& (self.graph matches Some(g) ==> g.matches(topology(self.rows@)))
    }

    /// Row `i` is a boundary row of hidden history.
    pub open spec fn hidden_at(&self, i: int) -> bool {
        row_hidden(self.rows@, self.hidden_rows@, i)
    }

    /// Shows the change panes again, if they were suppressed.
    pub(crate) fn release_changes(&mut self)
        ensures
            *final(self) == (App { changes_suppressed: false, ..*old(self) }),
    {
        self.changes_suppressed = false;
    }

    /// References are refreshed by hand only.
    pub(crate) fn set_manual_refresh(&mut self)
        ensures
            *final(self) == (App { manual_refresh: true, ..*old(self) }),
    {
        self.manual_refresh = true;
    }

    /// A view of an empty history that is about to load, showing `viewport_rows` rows at a time.
    pub fn new(viewport_rows: usize) -> (app: App)
        ensures
            app.wf(),
            app.rows@.len() == 0,
            app.all_rows@.len() == 0,
            app.hidden_rows@.len() == 0,
            app.pending_hidden_rows.is_none(),
            app.titles@.len() == 0,
            app.notes@.len() == 0,
            app.graph.is_none(),
            app.attributions@.len() == 0,
            app.selected.is_none(),
            app.offset == 0,
            app.state == State::Loading,
            app.deferred_history_state.is_none(),
            app.viewport_rows == viewport_rows,
            app.lane_time.is_none(),
            app.show_committer_date,
            app.name_mode == NameMode::All,
            !app.show_emails,
            app.show_trailers,
            app.use_mailmap,
            app.ref_mode == RefMode::Default,
            !app.has_hidden_filter,
            !app.show_hidden,
            app.align_metadata,
            !app.show_commit,
            app.changes_mode == Some(ChangesMode::Both),
            app.worktree_changes_available,
            !app.changes_suppressed,
            app.changes_focus.is_none(),
            app.changes_layout == ChangesLayout::SideBySide,
            !app.tree_changes_visible,
            !app.worktree_changes_visible,
            app.tree_changes == fresh_changes_view(),
            app.worktree_changes == fresh_changes_view(),
            app.changes_parent == 0,
            app.commit_offset == 0,
            app.commit_page == 1,
            app.commit_max == 0,
            app.show_selection_tail,
            !app.preview_author_copy,
            app.reachability_anchor.is_none(),
            app.junction_parent.is_none(),
            app.reachable_rows.is_none(),
            app.copy_feedback.is_none(),
            app.focus_feedback.is_none(),
            app.notice.is_none(),
            !app.history_display_expanded,
            app.estimated_lane_width == 0,
            app.horizontal_offset == 0,
            app.horizontal_page == 1,
            app.horizontal_max == 0,
            !app.follow_tail,
            app.reload_selection.is_none(),
            !app.select_top_after_refresh,
            app.signature_failures == 0,
            !app.signature_verification_running,
            !app.manual_refresh,
            app.selection_relation.is_none(),
            !app.inline,
    {
        App {
            rows: Vec::new(),
            all_rows: Vec::new(),
            hidden_rows: Vec::new(),
            pending_hidden_rows: None,
            titles: Vec::new(),
            notes: Vec::new(),
            graph: None,
            attributions: Vec::new(),
            selected: None,
            offset: 0,
            state: State::Loading,
            deferred_history_state: None,
            viewport_rows,
            lane_time: None,
            show_committer_date: true,
            name_mode: NameMode::All,
            show_emails: false,
            show_trailers: true,
            use_mailmap: true,
            ref_mode: RefMode::Default,
            has_hidden_filter: false,
            show_hidden: false,
            align_metadata: true,
            show_commit: false,
            changes_mode: Some(ChangesMode::Both),
            worktree_changes_available: true,
            changes_suppressed: false,
            changes_focus: None,
            changes_layout: ChangesLayout::SideBySide,
            tree_changes_visible: false,
            worktree_changes_visible: false,
            tree_changes: ChangesView::new(),
            worktree_changes: ChangesView::new(),
            changes_parent: 0,
            commit_offset: 0,
            commit_page: 1,
            commit_max: 0,
            show_selection_tail: true,
            preview_author_copy: false,
            reachability_anchor: None,
            junction_parent: None,
            reachable_rows: None,
            copy_feedback: None,
            focus_feedback: None,
            notice: None,
            history_display_expanded: false,
            estimated_lane_width: 0,
            horizontal_offset: 0,
            horizontal_page: 1,
            horizontal_max: 0,
            follow_tail: false,
            reload_selection: None,
            select_top_after_refresh: false,
            signature_failures: 0,
            signature_verification_running: false,
            manual_refresh: false,
            selection_relation: None,
            inline: false,
        }
    }

    /// Whether row `index` is a boundary row of hidden history.
    pub fn is_row_hidden(&self, index: usize) -> (r: bool)
        ensures
            r == self.hidden_at(index as int),
    {
        if index >= self.rows.len() {
            return false;
        }
        contains_id(&self.hidden_rows, self.rows[index].id)
    }

    fn first_unhidden_in(&self, lo: usize, hi: usize) -> (r: Option<usize>)
        requires
            hi <= self.rows@.len(),
        ensures
            r == first_unhidden(self.rows@, self.hidden_rows@, lo as int, hi as int),
        decreases hi - lo,
    {
        if lo >= hi {
            None
        } else if !self.is_row_hidden(lo) {
            Some(lo)
        } else {
            self.first_unhidden_in(lo + 1, hi)
        }
    }

    fn last_unhidden_in(&self, lo: usize, hi: usize) -> (r: Option<usize>)
        requires
            hi <= self.rows@.len(),
        ensures
            r == last_unhidden(self.rows@, self.hidden_rows@, lo as int, hi as int),
        decreases hi - lo,
    {
        if lo >= hi {
            None
        } else if !self.is_row_hidden(hi - 1) {
            Some(hi - 1)
        } else {
            self.last_unhidden_in(lo, hi - 1)
        }
    }

    /// The newest row that may be selected.
    pub fn first_selectable(&self) -> (r: Option<usize>)
        ensures
            r == first_unhidden(self.rows@, self.hidden_rows@, 0, self.rows@.len() as int),
    {
        self.first_unhidden_in(0, self.rows.len())
    }

    /// The oldest row that may be selected.
    pub fn last_selectable(&self) -> (r: Option<usize>)
        ensures
            r == last_unhidden(self.rows@, self.hidden_rows@, 0, self.rows@.len() as int),
    {
        self.last_unhidden_in(0, self.rows.len())
    }

    /// The selectable row nearest to `target`, preferring the direction of travel.
    pub fn nearest_selectable(&self, target: usize, down: bool) -> (r: Option<usize>)
        requires
            target < self.rows@.len(),
        ensures
            r == nearest_unhidden(self.rows@, self.hidden_rows@, target as int, down),
    {
        let n = self.rows.len();
        if down {
            match self.first_unhidden_in(target, n) {
                Some(i) => Some(i),
                None => self.last_unhidden_in(0, target),
            }
        } else {
            match self.last_unhidden_in(0, target + 1) {
                Some(i) => Some(i),
                None => self.first_unhidden_in(target + 1, self.rows.len()),
            }
        }
    }

    /// Moves the view out, leaving an empty view in its place.
    pub fn take(&mut self) -> (cur: App)
        ensures
            cur == *old(self),
    {
        let mut cur = App::new(0);
        std::mem::swap(&mut cur, self);
        cur
    }

    /// Scrolls the history so that the selected row is visible.
    pub fn ensure_visible(&mut self)
        ensures
            scrolled_to(*old(self), *final(self), visible_offset(old(self).selected, old(self).offset, old(self).viewport_rows)),
    {
        let offset = visible_offset_of(self.selected, self.offset, self.viewport_rows);
        self.offset = offset;
    }
}

/// The viewport offset that keeps the selection visible.
pub fn visible_offset_of(selected: Option<usize>, offset: usize, viewport: usize) -> (r: usize)
    ensures
        r == visible_offset(selected, offset, viewport),
{
    let selected = match selected {
        Some(s) => s,
        None => return offset,
    };
    let height = if viewport >= 1 { viewport } else { 1 };
    if selected < offset {
        selected
    } else if selected >= offset.saturating_add(height) {
        selected - (height - 1)
    } else {
        offset
    }
}

/// `a` clamped to at most `max`.
pub fn clamp_to(a: usize, max: usize) -> (r: usize)
    ensures
        r == min_usize(a, max),
{
    if a <= max { a } else { max }
}

/// `a`, or one if `a` is zero.
pub fn at_least_one(a: usize) -> (r: usize)
    ensures
        r == max1(a),
{
    if a >= 1 { a } else { 1 }
}

} // verus!

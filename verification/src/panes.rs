//! The change panes beside the history: their navigation and which of them has focus.
use vstd::prelude::*;

use crate::app::{
    App, ChangePane, ChangesLayout, ChangesMode, ChangesView, changes_is, fresh_changes_view, max1, min_usize,
    pane_wf, sat_add, sat_sub, same_commit_view, same_display, same_history, same_navigation, same_preview,
    same_progress,
};

verus! {

// ---------------------------------------------------------------------------------------------
// Change panes.
// ---------------------------------------------------------------------------------------------

/// The offset of a pane that keeps its selection visible and shows no blank page after its last row.
pub open spec fn pane_offset(c: ChangesView) -> usize {
    let o = if c.selected < c.offset {
        c.selected
    } else if c.selected >= sat_add(c.offset, c.page) {
        (c.selected + 1 - c.page) as usize
    } else {
        c.offset
    };
    min_usize(o, sat_sub(sat_add(c.max, 1), c.page))
}

/// The pane scrolled so that its selection is visible.
pub open spec fn scrolled_pane(c: ChangesView) -> ChangesView {
    ChangesView { offset: pane_offset(c), ..c }
}

/// The pane after moving its selection by `distance` rows, clamped to its rows; a pending error is dismissed.
pub open spec fn moved_pane(c: ChangesView, distance: usize, down: bool) -> ChangesView {
    let selected = if down {
        min_usize(sat_add(c.selected, distance), c.max)
    } else {
        sat_sub(c.selected, distance)
    };
    scrolled_pane(ChangesView { selected, error: None, ..c })
}

/// The pane after panning by one page, clamped to its content.
pub open spec fn panned_pane(c: ChangesView, right: bool) -> ChangesView {
    let h = if right {
        min_usize(sat_add(c.horizontal_offset, c.horizontal_page), c.horizontal_max)
    } else {
        sat_sub(c.horizontal_offset, c.horizontal_page)
    };
    ChangesView { horizontal_offset: h, ..c }
}

/// The pane after its viewport and its number of rows changed.
pub open spec fn bounded_pane(c: ChangesView, page: usize, len: usize, horizontal_page: usize, horizontal_max: usize) -> ChangesView {
    let c1 = ChangesView { page: max1(page), max: sat_sub(len, 1), ..c };
    let c2 = if len == 0 {
        ChangesView { selected: 0, offset: 0, ..c1 }
    } else {
        scrolled_pane(ChangesView { selected: min_usize(c1.selected, c1.max), ..c1 })
    };
    ChangesView {
        horizontal_page: max1(horizontal_page),
        horizontal_max,
        horizontal_offset: min_usize(c2.horizontal_offset, horizontal_max),
        ..c2
    }
}

fn pane_offset_of(selected: usize, offset: usize, page: usize, max: usize) -> (r: usize)
    requires
        page >= 1,
    ensures
        r == pane_offset(ChangesView { selected, offset, page, max, ..fresh_changes_view() }),
{
    let o = if selected < offset {
        selected
    } else if selected >= offset.saturating_add(page) {
        selected - (page - 1)
    } else {
        offset
    };
    let limit = max.saturating_add(1).saturating_sub(page);
    if o <= limit { o } else { limit }
}

impl ChangesView {
    /// Scrolls the pane so that its selection is visible.
    pub fn scroll_into_view(&mut self)
        requires
            old(self).page >= 1,
        ensures
            *final(self) == scrolled_pane(*old(self)),
    {
        self.offset = pane_offset_of(self.selected, self.offset, self.page, self.max);
    }

    /// Moves the selection by `distance` rows, clamped to the pane.
    pub fn move_by(&mut self, distance: usize, down: bool)
        requires
            old(self).page >= 1,
        ensures
            *final(self) == moved_pane(*old(self), distance, down),
    {
        self.error = None;
        self.selected = if down {
            let s = self.selected.saturating_add(distance);
            if s <= self.max { s } else { self.max }
        } else {
            self.selected.saturating_sub(distance)
        };
        self.scroll_into_view();
    }

    /// Pans the pane by one page, clamped to its content.
    pub fn pan(&mut self, right: bool)
        ensures
            *final(self) == panned_pane(*old(self), right),
    {
        self.horizontal_offset = if right {
            let h = self.horizontal_offset.saturating_add(self.horizontal_page);
            if h <= self.horizontal_max { h } else { self.horizontal_max }
        } else {
            self.horizontal_offset.saturating_sub(self.horizontal_page)
        };
    }

    /// Adopts a new viewport of `page` rows over `len` rows and new horizontal bounds.
    pub fn set_bounds(&mut self, page: usize, len: usize, horizontal_page: usize, horizontal_max: usize)
        ensures
            *final(self) == bounded_pane(*old(self), page, len, horizontal_page, horizontal_max),
    {
        self.page = if page >= 1 { page } else { 1 };
        self.max = len.saturating_sub(1);
        if len == 0 {
            self.selected = 0;
            self.offset = 0;
        } else {
            if self.selected > self.max {
                self.selected = self.max;
            }
            self.scroll_into_view();
        }
        self.horizontal_page = if horizontal_page >= 1 { horizontal_page } else { 1 };
        self.horizontal_max = horizontal_max;
        if self.horizontal_offset > horizontal_max {
            self.horizontal_offset = horizontal_max;
        }
    }
}


/// The pane that gains focus when focus cycles: the visible panes in screen order, then the history.
pub open spec fn next_focus(
    layout: ChangesLayout,
    tree_visible: bool,
    worktree_visible: bool,
    focus: Option<ChangePane>,
) -> Option<ChangePane> {
    let (first, second) = match layout {
        ChangesLayout::SideBySide => (ChangePane::Tree, ChangePane::Worktree),
        ChangesLayout::Stacked => (ChangePane::Worktree, ChangePane::Tree),
    };
    let visible = |p: ChangePane| match p {
        ChangePane::Tree => tree_visible,
        ChangePane::Worktree => worktree_visible,
    };
    match focus {
        None => if visible(first) {
            Some(first)
        } else if visible(second) {
            Some(second)
        } else {
            None
        },
        Some(current) => if current == first && visible(second) {
            Some(second)
        } else {
            None
        },
    }
}

/// The focus once the panes' visibility changed: a hidden pane hands focus to the other visible pane.
pub open spec fn refocused(focus: Option<ChangePane>, tree_visible: bool, worktree_visible: bool) -> Option<ChangePane> {
    if focus == Some(ChangePane::Tree) && !tree_visible {
        if worktree_visible {
            Some(ChangePane::Worktree)
        } else {
            None
        }
    } else if focus == Some(ChangePane::Worktree) && !worktree_visible {
        if tree_visible {
            Some(ChangePane::Tree)
        } else {
            None
        }
    } else {
        focus
    }
}

/// The change panes shown once it is known whether a worktree exists.
pub open spec fn mode_with(mode: Option<ChangesMode>, available: bool) -> Option<ChangesMode> {
    if !available && mode == Some(ChangesMode::Both) {
        Some(ChangesMode::Tree)
    } else {
        mode
    }
}

fn mode_with_worktree(mode: Option<ChangesMode>, available: bool) -> (r: Option<ChangesMode>)
    ensures
        r == mode_with(mode, available),
{
    if !available && mode == Some(ChangesMode::Both) {
        Some(ChangesMode::Tree)
    } else {
        mode
    }
}

fn refocus(focus: Option<ChangePane>, tree_visible: bool, worktree_visible: bool) -> (r: Option<ChangePane>)
    ensures
        r == refocused(focus, tree_visible, worktree_visible),
{
    if focus == Some(ChangePane::Tree) && !tree_visible {
        if worktree_visible { Some(ChangePane::Worktree) } else { None }
    } else if focus == Some(ChangePane::Worktree) && !worktree_visible {
        if tree_visible { Some(ChangePane::Tree) } else { None }
    } else {
        focus
    }
}


/// Everything but the change panes is unchanged.
pub open spec fn only_changes(a: App, b: App) -> bool {
    &&& same_history(a, b)
    &&& same_navigation(a, b)
    &&& same_display(a, b)
    &&& same_commit_view(a, b)
    &&& same_preview(a, b)
    &&& same_progress(a, b)
}

/// The pane that has focus; the tree pane if none has.
pub open spec fn focused_pane(a: App) -> ChangesView {
    match a.changes_focus {
        Some(ChangePane::Worktree) => a.worktree_changes,
        _ => a.tree_changes,
    }
}

/// The focused pane now reads `c`; nothing else changed.
pub open spec fn focused_pane_is(a: App, b: App, c: ChangesView) -> bool {
    &&& only_changes(a, b)
    &&& changes_is(
        a,
        b,
        a.changes_mode,
        a.changes_suppressed,
        a.changes_focus,
        if a.changes_focus == Some(ChangePane::Tree) { c } else { a.tree_changes },
        if a.changes_focus == Some(ChangePane::Worktree) { c } else { a.worktree_changes },
        a.changes_parent,
        a.focus_feedback,
    )
}

/// `pane` adopted new bounds.
pub open spec fn pane_bounded(
    a: App,
    b: App,
    pane: ChangePane,
    page: usize,
    len: usize,
    horizontal_page: usize,
    horizontal_max: usize,
) -> bool {
    &&& only_changes(a, b)
    &&& changes_is(
        a,
        b,
        a.changes_mode,
        a.changes_suppressed,
        a.changes_focus,
        if pane == ChangePane::Tree {
            bounded_pane(a.tree_changes, page, len, horizontal_page, horizontal_max)
        } else {
            a.tree_changes
        },
        if pane == ChangePane::Worktree {
            bounded_pane(a.worktree_changes, page, len, horizontal_page, horizontal_max)
        } else {
            a.worktree_changes
        },
        a.changes_parent,
        a.focus_feedback,
    )
}

/// Both panes returned to their initial state.
pub open spec fn panes_reset(a: App, b: App) -> bool {
    &&& only_changes(a, b)
    &&& changes_is(
        a,
        b,
        a.changes_mode,
        a.changes_suppressed,
        a.changes_focus,
        fresh_changes_view(),
        fresh_changes_view(),
        a.changes_parent,
        a.focus_feedback,
    )
}

/// Focus returned to the history.
pub open spec fn history_focused(a: App, b: App) -> bool {
    &&& only_changes(a, b)
    &&& changes_is(
        a,
        b,
        a.changes_mode,
        a.changes_suppressed,
        None,
        a.tree_changes,
        a.worktree_changes,
        a.changes_parent,
        None,
    )
}

/// Focus moved on to the next visible pane, or back to the history.
pub open spec fn focus_cycled(a: App, b: App) -> bool {
    &&& only_changes(a, b)
    &&& changes_is(
        a,
        b,
        a.changes_mode,
        a.changes_suppressed,
        next_focus(a.changes_layout, a.tree_changes_visible, a.worktree_changes_visible, a.changes_focus),
        a.tree_changes,
        a.worktree_changes,
        a.changes_parent,
        a.focus_feedback,
    )
}

/// Whether a worktree exists was recorded; without one only tree changes are shown, and the worktree pane
/// gives up focus.
pub open spec fn worktree_recorded(a: App, b: App, available: bool) -> bool {
    &&& only_changes(a, b)
    &&& b.worktree_changes_available == available
    &&& b.changes_mode == mode_with(a.changes_mode, available)
    &&& b.changes_focus == (if !available && a.changes_focus == Some(ChangePane::Worktree) { None } else { a.changes_focus })
    &&& b.focus_feedback == (if !available && a.changes_focus == Some(ChangePane::Worktree) { None } else { a.focus_feedback })
    &&& b.changes_suppressed == a.changes_suppressed
    &&& b.changes_layout == a.changes_layout
    &&& b.tree_changes_visible == a.tree_changes_visible
    &&& b.worktree_changes_visible == a.worktree_changes_visible
    &&& b.tree_changes == a.tree_changes
    &&& b.worktree_changes == a.worktree_changes
    &&& b.changes_parent == a.changes_parent
}

/// The panes' layout and visibility were recorded; focus left a pane that disappeared.
pub open spec fn layout_recorded(a: App, b: App, layout: ChangesLayout, tree_visible: bool, worktree_visible: bool) -> bool {
    &&& only_changes(a, b)
    &&& b.changes_layout == layout
    &&& b.tree_changes_visible == tree_visible
    &&& b.worktree_changes_visible == worktree_visible
    &&& b.changes_focus == refocused(a.changes_focus, tree_visible, worktree_visible)
    &&& b.worktree_changes_available == a.worktree_changes_available
    &&& b.changes_mode == a.changes_mode
    &&& b.changes_suppressed == a.changes_suppressed
    &&& b.tree_changes == a.tree_changes
    &&& b.worktree_changes == a.worktree_changes
    &&& b.changes_parent == a.changes_parent
    &&& b.focus_feedback == a.focus_feedback
}

impl App {
    /// Adopts a pane's viewport of `page` rows over `len` paths and its horizontal bounds.
    pub fn set_changes_bounds(
        &mut self,
        pane: ChangePane,
        page: usize,
        len: usize,
        horizontal_page: usize,
        horizontal_max: usize,
    )
        ensures
            pane_bounded(*old(self), *final(self), pane, page, len, horizontal_page, horizontal_max),
    {
        match pane {
            ChangePane::Tree => self.tree_changes.set_bounds(page, len, horizontal_page, horizontal_max),
            ChangePane::Worktree => self.worktree_changes.set_bounds(page, len, horizontal_page, horizontal_max),
        }
    }

    /// Returns both panes to their initial state.
    pub fn reset_changes_view(&mut self)
        ensures
            panes_reset(*old(self), *final(self)),
    {
        self.tree_changes = ChangesView::new();
        self.worktree_changes = ChangesView::new();
    }

    /// The navigation state of `pane`.
    pub fn changes(&self, pane: ChangePane) -> (c: &ChangesView)
        ensures
            *c == match pane {
                ChangePane::Tree => self.tree_changes,
                ChangePane::Worktree => self.worktree_changes,
            },
    {
        match pane {
            ChangePane::Tree => &self.tree_changes,
            ChangePane::Worktree => &self.worktree_changes,
        }
    }

    /// The navigation state of the focused pane.
    pub fn focused_changes(&self) -> (c: &ChangesView)
        requires
            self.changes_focus.is_some(),
        ensures
            *c == focused_pane(*self),
    {
        match self.changes_focus {
            Some(ChangePane::Worktree) => &self.worktree_changes,
            _ => &self.tree_changes,
        }
    }

    /// Returns keyboard focus to the history.
    pub fn focus_history(&mut self)
        ensures
            history_focused(*old(self), *final(self)),
    {
        self.changes_focus = None;
        self.focus_feedback = None;
    }

    /// Records whether the repository has a worktree; without one only tree changes can be shown.
    pub fn set_worktree_changes_available(&mut self, available: bool)
        ensures
            worktree_recorded(*old(self), *final(self), available),
    {
        let leave = leaves_worktree(available, self.changes_focus);
        self.record_worktree(available);
        if leave {
            self.focus_history();
        }
    }

    fn record_worktree(&mut self, available: bool)
        ensures
            only_changes(*old(self), *final(self)),
            final(self).worktree_changes_available == available,
            final(self).changes_mode == mode_with(old(self).changes_mode, available),
            final(self).changes_focus == old(self).changes_focus,
            final(self).focus_feedback == old(self).focus_feedback,
            final(self).changes_suppressed == old(self).changes_suppressed,
            final(self).changes_layout == old(self).changes_layout,
            final(self).tree_changes_visible == old(self).tree_changes_visible,
            final(self).worktree_changes_visible == old(self).worktree_changes_visible,
            final(self).tree_changes == old(self).tree_changes,
            final(self).worktree_changes == old(self).worktree_changes,
            final(self).changes_parent == old(self).changes_parent,
    {
        let mode = mode_with_worktree(self.changes_mode, available);
        self.worktree_changes_available = available;
        self.changes_mode = mode;
    }

    /// Whether the change panes are shown.
    pub fn changes_visible(&self) -> (r: bool)
        ensures
            r == (self.changes_mode.is_some() && !self.changes_suppressed),
    {
        self.changes_mode.is_some() && !self.changes_suppressed
    }

    /// Moves focus to the next visible pane in screen order, and from the last one back to the history.
    pub fn cycle_changes_focus(&mut self)
        ensures
            focus_cycled(*old(self), *final(self)),
    {
        let focus = next_focus_of(
            self.changes_layout,
            self.tree_changes_visible,
            self.worktree_changes_visible,
            self.changes_focus,
        );
        self.changes_focus = focus;
    }

    /// Records how the panes are laid out and which are visible; focus leaves a pane that disappeared.
    pub fn set_changes_layout(&mut self, layout: ChangesLayout, tree_visible: bool, worktree_visible: bool)
        ensures
            layout_recorded(*old(self), *final(self), layout, tree_visible, worktree_visible),
    {
        let focus = refocus(self.changes_focus, tree_visible, worktree_visible);
        self.changes_layout = layout;
        self.tree_changes_visible = tree_visible;
        self.worktree_changes_visible = worktree_visible;
        self.changes_focus = focus;
    }

    /// Moves the focused pane's selection by `distance` rows.
    pub fn move_changes(&mut self, distance: usize, down: bool)
        requires
            pane_wf(old(self).tree_changes),
            pane_wf(old(self).worktree_changes),
        ensures
            focused_pane_is(*old(self), *final(self), stepped_pane(focused_pane(*old(self)), PaneStep::Move(distance, down))),
    {
        let (tree, worktree) = self.take_panes();
        let (tree, worktree) = on_focused(tree, worktree, self.changes_focus, PaneStep::Move(distance, down));
        self.tree_changes = tree;
        self.worktree_changes = worktree;
    }

    /// Pans the focused pane by one page.
    pub fn pan_changes(&mut self, right: bool)
        requires
            pane_wf(old(self).tree_changes),
            pane_wf(old(self).worktree_changes),
        ensures
            focused_pane_is(*old(self), *final(self), stepped_pane(focused_pane(*old(self)), PaneStep::Pan(right))),
    {
        let (tree, worktree) = self.take_panes();
        let (tree, worktree) = on_focused(tree, worktree, self.changes_focus, PaneStep::Pan(right));
        self.tree_changes = tree;
        self.worktree_changes = worktree;
    }

    /// Scrolls the focused pane so that its selection is visible.
    pub fn ensure_changes_visible(&mut self)
        requires
            pane_wf(old(self).tree_changes),
            pane_wf(old(self).worktree_changes),
        ensures
            focused_pane_is(*old(self), *final(self), stepped_pane(focused_pane(*old(self)), PaneStep::Scroll)),
    {
        let (tree, worktree) = self.take_panes();
        let (tree, worktree) = on_focused(tree, worktree, self.changes_focus, PaneStep::Scroll);
        self.tree_changes = tree;
        self.worktree_changes = worktree;
    }

    /// Selects the focused pane's row `index` (its first or its last) and scrolls it into view.
    pub fn select_change(&mut self, last: bool)
        requires
            pane_wf(old(self).tree_changes),
            pane_wf(old(self).worktree_changes),
        ensures
            focused_pane_is(*old(self), *final(self), stepped_pane(focused_pane(*old(self)), PaneStep::Jump(last))),
    {
        let (tree, worktree) = self.take_panes();
        let (tree, worktree) = on_focused(tree, worktree, self.changes_focus, PaneStep::Jump(last));
        self.tree_changes = tree;
        self.worktree_changes = worktree;
    }
}

/// The pane with its first or last row selected and scrolled into view; a pending error is dismissed.
pub open spec fn jumped_pane(c: ChangesView, last: bool) -> ChangesView {
    scrolled_pane(ChangesView { selected: if last { c.max } else { 0 }, error: None, ..c })
}

impl ChangesView {
    /// Selects the first or the last row and scrolls it into view.
    pub fn jump(&mut self, last: bool)
        requires
            old(self).page >= 1,
        ensures
            *final(self) == jumped_pane(*old(self), last),
    {
        let target = if last { self.max } else { 0 };
        self.selected = target;
        self.error = None;
        self.scroll_into_view();
    }
}

/// A step of navigation within a pane.
#[derive(Clone, Copy)]
pub enum PaneStep {
    Move(usize, bool),
    Pan(bool),
    Scroll,
    Jump(bool),
}

/// The pane after a navigation step.
pub open spec fn stepped_pane(c: ChangesView, step: PaneStep) -> ChangesView {
    match step {
        PaneStep::Move(distance, down) => moved_pane(c, distance, down),
        PaneStep::Pan(right) => panned_pane(c, right),
        PaneStep::Scroll => scrolled_pane(c),
        PaneStep::Jump(last) => jumped_pane(c, last),
    }
}

/// Applies a step to the focused one of two panes.
fn on_focused(tree: ChangesView, worktree: ChangesView, focus: Option<ChangePane>, step: PaneStep) -> (r: (
    ChangesView,
    ChangesView,
))
    requires
        pane_wf(tree),
        pane_wf(worktree),
    ensures
        r.0 == (if focus == Some(ChangePane::Tree) { stepped_pane(tree, step) } else { tree }),
        r.1 == (if focus == Some(ChangePane::Worktree) { stepped_pane(worktree, step) } else { worktree }),
{
    let mut tree = tree;
    let mut worktree = worktree;
    match focus {
        Some(ChangePane::Tree) => tree.step(step),
        Some(ChangePane::Worktree) => worktree.step(step),
        None => {},
    }
    (tree, worktree)
}

impl ChangesView {
    /// Applies a navigation step.
    pub fn step(&mut self, step: PaneStep)
        requires
            old(self).page >= 1,
        ensures
            *final(self) == stepped_pane(*old(self), step),
    {
        match step {
            PaneStep::Move(distance, down) => self.move_by(distance, down),
            PaneStep::Pan(right) => self.pan(right),
            PaneStep::Scroll => self.scroll_into_view(),
            PaneStep::Jump(last) => self.jump(last),
        }
    }
}

impl App {
    /// Takes both panes out of the view, leaving fresh ones in their place.
    fn take_panes(&mut self) -> (r: (ChangesView, ChangesView))
        ensures
            r.0 == old(self).tree_changes,
            r.1 == old(self).worktree_changes,
            panes_reset(*old(self), *final(self)),
    {
        let mut tree = ChangesView::new();
        let mut worktree = ChangesView::new();
        std::mem::swap(&mut tree, &mut self.tree_changes);
        std::mem::swap(&mut worktree, &mut self.worktree_changes);
        (tree, worktree)
    }
}

fn leaves_worktree(available: bool, focus: Option<ChangePane>) -> (r: bool)
    ensures
        r == (!available && focus == Some(ChangePane::Worktree)),
{
    !available && focus == Some(ChangePane::Worktree)
}

fn next_focus_of(
    layout: ChangesLayout,
    tree_visible: bool,
    worktree_visible: bool,
    focus: Option<ChangePane>,
) -> (r: Option<ChangePane>)
    ensures
        r == next_focus(layout, tree_visible, worktree_visible, focus),
{
    let (first, second) = match layout {
        ChangesLayout::SideBySide => (ChangePane::Tree, ChangePane::Worktree),
        ChangesLayout::Stacked => (ChangePane::Worktree, ChangePane::Tree),
    };
    let first_visible = match first {
        ChangePane::Tree => tree_visible,
        ChangePane::Worktree => worktree_visible,
    };
    let second_visible = match second {
        ChangePane::Tree => tree_visible,
        ChangePane::Worktree => worktree_visible,
    };
    match focus {
        None => if first_visible {
            Some(first)
        } else if second_visible {
            Some(second)
        } else {
            None
        },
        Some(current) => if current == first && second_visible {
            Some(second)
        } else {
            None
        },
    }
}

} // verus!

//! Where the change panes go on the screen.
use vstd::prelude::*;

use crate::app::{ChangePane, ChangesLayout};

verus! {

/// A rectangle of terminal cells: its top-left corner and its size.
#[derive(Clone, Copy, Debug, PartialEq, Eq, Structural)]
pub struct Area {
    pub x: u16,
    pub y: u16,
    pub width: u16,
    pub height: u16,
}

/// `a - b`, or zero where `b` is larger.
pub open spec fn sat_sub16(a: u16, b: u16) -> u16 {
    if a >= b {
        (a - b) as u16
    } else {
        0
    }
}

/// `a + b`, or the largest value where it does not fit.
pub open spec fn sat_add16(a: u16, b: u16) -> u16 {
    if a + b <= u16::MAX {
        (a + b) as u16
    } else {
        u16::MAX
    }
}

/// The rectangle at `(x, y)` of the given size, shrunk where it would reach past the last cell.
pub open spec fn area_at(x: u16, y: u16, width: u16, height: u16) -> Area {
    Area {
        x,
        y,
        width: if width > u16::MAX - x {
            (u16::MAX - x) as u16
        } else {
            width
        },
        height: if height > u16::MAX - y {
            (u16::MAX - y) as u16
        } else {
            height
        },
    }
}

impl Area {
    /// The rectangle at `(x, y)` of the given size, shrunk where it would reach past the last cell.
    pub fn new(x: u16, y: u16, width: u16, height: u16) -> (a: Area)
        ensures
            a == area_at(x, y, width, height),
    {
        let max_width = u16::MAX - x;
        let max_height = u16::MAX - y;
        Area {
            x,
            y,
            width: if width > max_width {
                max_width
            } else {
                width
            },
            height: if height > max_height {
                max_height
            } else {
                height
            },
        }
    }

    /// The first row below the rectangle.
    pub fn bottom(self) -> (b: u16)
        ensures
            b == sat_add16(self.y, self.height),
    {
        if self.height <= u16::MAX - self.y {
            self.y + self.height
        } else {
            u16::MAX
        }
    }
}

/// Where one change pane is drawn, border included.
#[derive(Clone, Copy, Debug, PartialEq, Eq, Structural)]
pub struct PaneArea {
    pub pane: ChangePane,
    pub outer: Area,
}

/// The smaller of two heights.
pub open spec fn min16(a: u16, b: u16) -> u16 {
    if a <= b {
        a
    } else {
        b
    }
}

/// The larger of two heights.
pub open spec fn max16(a: u16, b: u16) -> u16 {
    if a >= b {
        a
    } else {
        b
    }
}

/// A single pane across the whole width, at the bottom of `area`, at most `max_height` high.
pub open spec fn single_pane(area: Area, max_height: u16, pane: ChangePane, height: u16) -> (
    ChangesLayout,
    Seq<PaneArea>,
    u16,
) {
    let h = min16(height, max_height);
    (
        ChangesLayout::SideBySide,
        seq![PaneArea { pane, outer: area_at(area.x, sat_sub16(sat_add16(area.y, area.height), h), area.width, h) }],
        h,
    )
}

/// The heights of stacked panes, worktree first: both as asked where they fit together;
/// otherwise a pane that fits in half keeps its height and the other takes the rest, and where
/// neither does, the worktree pane gets the larger half.
pub open spec fn stacked_heights(max_height: u16, tree_height: u16, worktree_height: u16) -> (u16, u16) {
    let half = (max_height / 2) as u16;
    if sat_add16(tree_height, worktree_height) <= max_height {
        (worktree_height, tree_height)
    } else if worktree_height <= half {
        (worktree_height, sat_sub16(max_height, worktree_height))
    } else if tree_height <= half {
        (sat_sub16(max_height, tree_height), tree_height)
    } else {
        (sat_add16(half, (max_height % 2) as u16), half)
    }
}

/// Where the change panes go at the bottom of `area`, given the height and the title width that
/// each shown pane asks for: side by side, each in its half of the width and at most
/// `max_height` high, where both titles fit in their halves; otherwise stacked, the worktree pane
/// above the tree pane. Also the height that the panes take.
pub open spec fn pane_areas(
    area: Area,
    max_height: u16,
    tree: Option<(u16, usize)>,
    worktree: Option<(u16, usize)>,
) -> (ChangesLayout, Seq<PaneArea>, u16) {
    let bottom = sat_add16(area.y, area.height);
    match (tree, worktree) {
        (None, None) => (ChangesLayout::SideBySide, Seq::empty(), 0),
        (Some((height, _)), None) => single_pane(area, max_height, ChangePane::Tree, height),
        (None, Some((height, _))) => single_pane(area, max_height, ChangePane::Worktree, height),
        (Some((tree_height, tree_title)), Some((worktree_height, worktree_title))) => {
            let tree_width = (area.width / 2) as u16;
            let worktree_width = sat_sub16(area.width, tree_width);
            if tree_title <= tree_width && worktree_title <= worktree_width {
                let th = min16(tree_height, max_height);
                let wh = min16(worktree_height, max_height);
                (
                    ChangesLayout::SideBySide,
                    seq![
                        PaneArea {
                            pane: ChangePane::Tree,
                            outer: area_at(area.x, sat_sub16(bottom, th), tree_width, th),
                        },
                        PaneArea {
                            pane: ChangePane::Worktree,
                            outer: area_at(sat_add16(area.x, tree_width), sat_sub16(bottom, wh), worktree_width, wh),
                        },
                    ],
                    max16(th, wh),
                )
            } else {
                let (wh, th) = stacked_heights(max_height, tree_height, worktree_height);
                let tree_y = sat_sub16(bottom, th);
                (
                    ChangesLayout::Stacked,
                    seq![
                        PaneArea {
                            pane: ChangePane::Worktree,
                            outer: area_at(area.x, sat_sub16(tree_y, wh), area.width, wh),
                        },
                        PaneArea { pane: ChangePane::Tree, outer: area_at(area.x, tree_y, area.width, th) },
                    ],
                    sat_add16(wh, th),
                )
            }
        },
    }
}

fn sub16(a: u16, b: u16) -> (r: u16)
    ensures
        r == sat_sub16(a, b),
{
    if a >= b {
        a - b
    } else {
        0
    }
}

fn add16(a: u16, b: u16) -> (r: u16)
    ensures
        r == sat_add16(a, b),
{
    if b <= u16::MAX - a {
        a + b
    } else {
        u16::MAX
    }
}

fn lesser(a: u16, b: u16) -> (r: u16)
    ensures
        r == min16(a, b),
{
    if a <= b {
        a
    } else {
        b
    }
}

fn greater(a: u16, b: u16) -> (r: u16)
    ensures
        r == max16(a, b),
{
    if a >= b {
        a
    } else {
        b
    }
}

/// Where the change panes go at the bottom of `area`, and the height they take together, which
/// is never more than `max_height`.
pub fn changes_pane_areas(
    area: Area,
    max_height: u16,
    tree: Option<(u16, usize)>,
    worktree: Option<(u16, usize)>,
) -> (r: (ChangesLayout, Vec<PaneArea>, u16))
    ensures
        (r.0, r.1@, r.2) == pane_areas(area, max_height, tree, worktree),
        r.2 <= max_height,
{
    let bottom = area.bottom();
    match (tree, worktree) {
        (None, None) => (ChangesLayout::SideBySide, Vec::new(), 0),
        (Some((height, _)), None) => {
            let height = lesser(height, max_height);
            let mut panes = Vec::new();
            panes.push(PaneArea { pane: ChangePane::Tree, outer: Area::new(area.x, sub16(bottom, height), area.width, height) });
            assert(panes@ =~= single_pane(area, max_height, ChangePane::Tree, height).1);
            (ChangesLayout::SideBySide, panes, height)
        },
        (None, Some((height, _))) => {
            let height = lesser(height, max_height);
            let mut panes = Vec::new();
            panes.push(
                PaneArea { pane: ChangePane::Worktree, outer: Area::new(area.x, sub16(bottom, height), area.width, height) },
            );
            assert(panes@ =~= single_pane(area, max_height, ChangePane::Worktree, height).1);
            (ChangesLayout::SideBySide, panes, height)
        },
        (Some((tree_height, tree_title)), Some((worktree_height, worktree_title))) => {
            let tree_width = area.width / 2;
            let worktree_width = sub16(area.width, tree_width);
            if tree_title <= tree_width as usize && worktree_title <= worktree_width as usize {
                let tree_height = lesser(tree_height, max_height);
                let worktree_height = lesser(worktree_height, max_height);
                let height = greater(tree_height, worktree_height);
                let mut panes = Vec::new();
                panes.push(
                    PaneArea {
                        pane: ChangePane::Tree,
                        outer: Area::new(area.x, sub16(bottom, tree_height), tree_width, tree_height),
                    },
                );
                panes.push(
                    PaneArea {
                        pane: ChangePane::Worktree,
                        outer: Area::new(
                            add16(area.x, tree_width),
                            sub16(bottom, worktree_height),
                            worktree_width,
                            worktree_height,
                        ),
                    },
                );
                assert(panes@ =~= pane_areas(area, max_height, tree, worktree).1);
                (ChangesLayout::SideBySide, panes, height)
            } else {
                let total = add16(tree_height, worktree_height);
                let (worktree_height, tree_height) = if total <= max_height {
                    (worktree_height, tree_height)
                } else {
                    let half = max_height / 2;
                    if worktree_height <= half {
                        (worktree_height, sub16(max_height, worktree_height))
                    } else if tree_height <= half {
                        (sub16(max_height, tree_height), tree_height)
                    } else {
                        (add16(half, max_height % 2), half)
                    }
                };
                let height = add16(worktree_height, tree_height);
                let tree_y = sub16(bottom, tree_height);
                let mut panes = Vec::new();
                panes.push(
                    PaneArea {
                        pane: ChangePane::Worktree,
                        outer: Area::new(area.x, sub16(tree_y, worktree_height), area.width, worktree_height),
                    },
                );
                panes.push(PaneArea { pane: ChangePane::Tree, outer: Area::new(area.x, tree_y, area.width, tree_height) });
                assert(panes@ =~= pane_areas(area, max_height, tree, worktree).1);
                (ChangesLayout::Stacked, panes, height)
            }
        },
    }
}

/// A piece of the line drawn between side-by-side change panes.
#[derive(Clone, Copy, Debug, PartialEq, Eq, Structural)]
pub enum Stroke {
    /// Where both panes start on the same row.
    TeeDown,
    /// Where the tree pane starts above the worktree pane.
    CornerDown,
    /// Where the tree pane starts below the worktree pane.
    TeeLeft,
    /// Where the worktree pane starts above the tree pane.
    CornerRight,
    /// Where the worktree pane starts below the tree pane.
    TeeRight,
    /// Anywhere else.
    Vertical,
}

/// The stroke of the divider on row `y`, between the tree pane `tree` and the worktree pane
/// `worktree`.
pub open spec fn stroke_at(tree: Area, worktree: Area, y: u16) -> Stroke {
    if tree.y == worktree.y && y == tree.y {
        Stroke::TeeDown
    } else if y == tree.y {
        if tree.y < worktree.y {
            Stroke::CornerDown
        } else {
            Stroke::TeeLeft
        }
    } else if y == worktree.y {
        if worktree.y < tree.y {
            Stroke::CornerRight
        } else {
            Stroke::TeeRight
        }
    } else {
        Stroke::Vertical
    }
}

/// The first pane of `panes` that shows `pane`.
pub open spec fn first_pane(panes: Seq<PaneArea>, pane: ChangePane) -> Option<Area>
    decreases panes.len(),
{
    if panes.len() == 0 {
        None
    } else if panes[0].pane == pane {
        Some(panes[0].outer)
    } else {
        first_pane(panes.drop_first(), pane)
    }
}

/// The line between a tree pane and a worktree pane.
pub struct Divider {
    /// The column of the line: the first column of the worktree pane.
    pub x: u16,
    /// The line is dimmed while no change pane has focus.
    pub dim: bool,
    /// Each row of the line, from the top of the higher pane to the bottom of the lower one.
    pub strokes: Vec<(u16, Stroke)>,
}

/// The rows `top..bottom` of the divider between `tree` and `worktree`, each with its stroke.
pub open spec fn divider_strokes(tree: Area, worktree: Area) -> Seq<(u16, Stroke)> {
    let top = min16(tree.y, worktree.y);
    let bottom = max16(sat_add16(tree.y, tree.height), sat_add16(worktree.y, worktree.height));
    Seq::new(
        if bottom >= top {
            (bottom - top) as nat
        } else {
            0
        },
        |i: int| ((top + i) as u16, stroke_at(tree, worktree, (top + i) as u16)),
    )
}

/// The first pane of `panes` that shows `pane`.
fn find_pane(panes: &Vec<PaneArea>, pane: ChangePane) -> (r: Option<Area>)
    ensures
        r == first_pane(panes@, pane),
{
    let mut k: usize = 0;
    assert(panes@.subrange(0, panes@.len() as int) =~= panes@);
    while k < panes.len()
        invariant
            k <= panes@.len(),
            first_pane(panes@, pane) == first_pane(panes@.subrange(k as int, panes@.len() as int), pane),
        decreases panes@.len() - k,
    {
        assert(panes@.subrange(k as int, panes@.len() as int).drop_first() =~= panes@.subrange(k + 1, panes@.len() as int));
        if panes[k].pane == pane {
            return Some(panes[k].outer);
        }
        k += 1;
    }
    None
}

/// The line between the tree pane and the worktree pane, where both are laid out: at the worktree
/// pane's first column, dimmed unless a change pane has focus.
pub fn changes_divider(panes: &Vec<PaneArea>, focused: bool) -> (r: Option<Divider>)
    ensures
        match (first_pane(panes@, ChangePane::Tree), first_pane(panes@, ChangePane::Worktree)) {
            (Some(tree), Some(worktree)) => r matches Some(d) && d.x == worktree.x && d.dim == !focused
                && d.strokes@ == divider_strokes(tree, worktree),
            _ => r is None,
        },
{
    let tree = match find_pane(panes, ChangePane::Tree) {
        Some(a) => a,
        None => return None,
    };
    let worktree = match find_pane(panes, ChangePane::Worktree) {
        Some(a) => a,
        None => return None,
    };
    let top = lesser(tree.y, worktree.y);
    let bottom = greater(tree.bottom(), worktree.bottom());
    let mut strokes: Vec<(u16, Stroke)> = Vec::new();
    let mut y = top;
    while y < bottom
        invariant
            top <= y,
            top == min16(tree.y, worktree.y),
            bottom == max16(sat_add16(tree.y, tree.height), sat_add16(worktree.y, worktree.height)),
            y <= bottom || top >= bottom,
            top >= bottom ==> y == top,
            strokes@ == divider_strokes(tree, worktree).take((y - top) as int),
        decreases bottom - y,
    {
        let stroke = if tree.y == worktree.y && y == tree.y {
            Stroke::TeeDown
        } else if y == tree.y {
            if tree.y < worktree.y {
                Stroke::CornerDown
            } else {
                Stroke::TeeLeft
            }
        } else if y == worktree.y {
            if worktree.y < tree.y {
                Stroke::CornerRight
            } else {
                Stroke::TeeRight
            }
        } else {
            Stroke::Vertical
        };
        strokes.push((y, stroke));
        assert(divider_strokes(tree, worktree).take((y + 1 - top) as int) =~= divider_strokes(tree, worktree).take(
            (y - top) as int,
        ).push((y, stroke)));
        y += 1;
    }
    proof {
        let all = divider_strokes(tree, worktree);
        if top < bottom {
            assert(y == bottom);
            assert(all.len() == (bottom - top) as nat);
        } else {
            assert(all.len() == 0);
            assert(y == top);
        }
        assert(all.take((y - top) as int) =~= all);
    }
    Some(Divider { x: worktree.x, dim: !focused, strokes })
}

} // verus!

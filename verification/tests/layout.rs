use gix_tix::app::{ChangePane, ChangesLayout};
use gix_tix::layout::{Area, PaneArea, Stroke, changes_divider, changes_pane_areas};

#[test]
fn lays_out_tree_and_worktree_changes_by_available_width() {
    let (layout, panes, height) = changes_pane_areas(Area::new(0, 0, 120, 20), 10, Some((5, 30)), Some((3, 25)));
    assert_eq!(layout, ChangesLayout::SideBySide);
    assert_eq!(height, 5);
    assert_eq!(panes[0].outer, Area::new(0, 15, 60, 5));
    assert_eq!(panes[1].outer, Area::new(60, 17, 60, 3));

    let (layout, panes, height) = changes_pane_areas(Area::new(0, 0, 60, 20), 10, Some((8, 31)), Some((3, 31)));
    assert_eq!(layout, ChangesLayout::Stacked);
    assert_eq!(height, 10);
    assert_eq!(panes[0], PaneArea { pane: ChangePane::Worktree, outer: Area::new(0, 10, 60, 3) });
    assert_eq!(panes[1], PaneArea { pane: ChangePane::Tree, outer: Area::new(0, 13, 60, 7) });

    let (_, panes, height) = changes_pane_areas(Area::new(0, 0, 120, 20), 10, None, Some((3, 25)));
    assert_eq!(height, 3);
    assert_eq!(panes[0].outer, Area::new(0, 17, 120, 3));
}

#[test]
fn stacked_panes_share_a_short_height() {
    let (layout, panes, height) = changes_pane_areas(Area::new(0, 0, 20, 30), 9, Some((8, 31)), Some((8, 31)));
    assert_eq!(layout, ChangesLayout::Stacked);
    assert_eq!(height, 9, "the panes never exceed the height they may take");
    assert_eq!(panes[0].outer, Area::new(0, 21, 20, 5), "the worktree pane takes the larger half");
    assert_eq!(panes[1].outer, Area::new(0, 26, 20, 4));

    let (_, panes, height) = changes_pane_areas(Area::new(0, 0, 20, 30), 9, Some((2, 31)), Some((8, 31)));
    assert_eq!(height, 9);
    assert_eq!(panes[0].outer.height, 7, "a short tree pane leaves the rest to the worktree");
    assert_eq!(panes[1].outer.height, 2);

    let (layout, panes, height) = changes_pane_areas(Area::new(0, 0, 20, 30), 9, None, None);
    assert_eq!((layout, panes.len(), height), (ChangesLayout::SideBySide, 0, 0));
}

#[test]
fn areas_are_clamped_to_the_last_cell() {
    let area = Area::new(65_530, 65_530, 10, 3);
    assert_eq!((area.width, area.height), (5, 3));
    assert_eq!(area.bottom(), 65_533);
    assert_eq!(Area { x: 0, y: 65_535, width: 1, height: 5 }.bottom(), 65_535);
}

#[test]
fn the_divider_joins_side_by_side_panes() {
    let (_, panes, _) = changes_pane_areas(Area::new(0, 0, 120, 9), 5, Some((4, 20)), Some((3, 20)));
    let divider = changes_divider(&panes, true).expect("both panes are laid out");
    assert_eq!(divider.x, 60);
    assert!(!divider.dim);
    assert_eq!(
        divider.strokes,
        vec![(5, Stroke::CornerDown), (6, Stroke::TeeRight), (7, Stroke::Vertical), (8, Stroke::Vertical)]
    );
    let (_, level, _) = changes_pane_areas(Area::new(0, 0, 120, 9), 5, Some((3, 20)), Some((3, 20)));
    let divider = changes_divider(&level, false).expect("both panes are laid out");
    assert!(divider.dim, "the divider is dimmed without focus");
    assert_eq!(divider.strokes[0], (6, Stroke::TeeDown));
    let (_, tall_worktree, _) = changes_pane_areas(Area::new(0, 0, 120, 9), 5, Some((2, 20)), Some((4, 20)));
    let strokes = changes_divider(&tall_worktree, true).unwrap().strokes;
    assert_eq!(&strokes[..3], &[(5, Stroke::CornerRight), (6, Stroke::Vertical), (7, Stroke::TeeLeft)]);
    let (_, single, _) = changes_pane_areas(Area::new(0, 0, 120, 9), 5, Some((2, 20)), None);
    assert!(changes_divider(&single, true).is_none(), "a single pane has no divider");
}

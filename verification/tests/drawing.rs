use gix_tix::app::{ChangesMode, SelectionRelation, State};
use gix_tix::drawing::{DrawState, RelationCache, draw_requests, visible_window};
use gix_tix::ids::ObjectId;

fn id(n: u32) -> ObjectId {
    ObjectId::from_low(n)
}

fn state() -> DrawState {
    DrawState {
        history: State::Complete,
        selected: Some(id(1)),
        show_commit: false,
        changes_mode: None,
        changes_visible: false,
        changes_parent: 0,
        metadata_loaded: vec![true, false, true, false],
        notes_loaded: vec![false, true, true, false],
        message: None,
        tree_changes: None,
        worktree_changes: None,
        relation: None,
    }
}

#[test]
fn the_window_is_clamped_to_the_history() {
    assert_eq!(visible_window(2, 10, 5), (2, 5));
    assert_eq!(visible_window(7, 3, 5), (5, 5));
    assert_eq!(visible_window(1, 2, 5), (1, 3));
    assert_eq!(visible_window(1, usize::MAX, 5), (1, 5));
}

#[test]
fn visible_rows_without_notes_or_metadata_are_loaded_in_order() {
    let r = draw_requests(&state(), (0, 4));
    assert_eq!(r.notes, vec![0, 3]);
    assert_eq!(r.metadata, vec![1, 3]);
    assert!(r.open_repository);
    let r = draw_requests(&state(), (1, 3));
    assert_eq!(r.notes, Vec::<usize>::new());
    assert_eq!(r.metadata, vec![1]);
}

#[test]
fn the_relation_is_computed_once_the_history_is_finished() {
    let mut s = state();
    s.metadata_loaded = vec![true; 4];
    let r = draw_requests(&s, (0, 4));
    assert_eq!(r.relation_to_load, Some(id(1)));
    assert_eq!(r.relation, None);
    assert!(r.open_repository);

    s.relation = Some(RelationCache { id: id(1), relation: Some(SelectionRelation::Visible(3)) });
    let r = draw_requests(&s, (0, 4));
    assert_eq!(r.relation_to_load, None);
    assert_eq!(r.relation, Some(SelectionRelation::Visible(3)));
    assert!(!r.open_repository, "nothing is left to load");

    s.relation = Some(RelationCache { id: id(2), relation: Some(SelectionRelation::Visible(3)) });
    s.history = State::Loading;
    let r = draw_requests(&s, (0, 4));
    assert_eq!(r.relation, None, "a relation held for another commit is not shown");
    assert_eq!(r.relation_to_load, None, "no relation is computed while the history loads");
}

#[test]
fn the_message_is_loaded_once_for_the_selected_commit() {
    let mut s = state();
    s.show_commit = true;
    let r = draw_requests(&s, (0, 0));
    assert_eq!(r.message_to_load, Some(id(1)));
    assert!(r.reset_commit_view);
    assert!(!r.drop_message);
    s.message = Some(id(1));
    let r = draw_requests(&s, (0, 0));
    assert_eq!(r.message_to_load, None);
    assert!(!r.reset_commit_view);
    s.show_commit = false;
    let r = draw_requests(&s, (0, 0));
    assert!(r.drop_message);
    assert!(r.drop_changes);
}

#[test]
fn another_selected_commit_resets_the_parent_and_reloads_its_changes() {
    let mut s = state();
    s.changes_mode = Some(ChangesMode::Tree);
    s.changes_visible = true;
    s.changes_parent = 1;
    s.tree_changes = Some((id(2), 1));
    s.worktree_changes = Some(0);
    let r = draw_requests(&s, (0, 0));
    assert_eq!(r.changes_parent, 0);
    assert_eq!(r.tree_changes_to_load, Some(id(1)));
    assert!(r.reset_changes_view);
    assert!(!r.worktree_changes_to_load, "worktree changes are shown with both panes only");
    assert!(!r.drop_changes);

    s.tree_changes = Some((id(1), 1));
    let r = draw_requests(&s, (0, 0));
    assert_eq!(r.changes_parent, 1);
    assert_eq!(r.tree_changes_to_load, None);
    assert!(!r.reset_changes_view);
}

#[test]
fn worktree_changes_are_reloaded_when_marked() {
    let mut s = state();
    s.changes_mode = Some(ChangesMode::Both);
    s.changes_visible = true;
    s.tree_changes = Some((id(1), 0));
    s.worktree_changes = Some(0);
    assert!(!draw_requests(&s, (0, 0)).worktree_changes_to_load);
    s.worktree_changes = Some(usize::MAX);
    let r = draw_requests(&s, (0, 0));
    assert!(r.worktree_changes_to_load);
    assert!(r.reset_changes_view);
    s.changes_visible = false;
    assert!(!draw_requests(&s, (0, 0)).worktree_changes_to_load);
}

use std::collections::HashSet;

use gix_tix::app::{
    Action, App, ChangePane, ChangesLayout, ChangesMode, Effect, LoadedCommits, Metadata, NameMode, RefMode, State,
};
use gix_tix::author::{Attribution, AttributionKind, Author};
use gix_tix::commit::{CommitRow, LoadedCommit, SignatureState, Span, Time};
use gix_tix::ids::ObjectId;
use gix_tix::lanes::{RenderedLanes, compute_lanes};

fn id(n: u32) -> ObjectId {
    ObjectId::from_low(n)
}

fn author() -> Author {
    Author::new(b"author".to_vec(), b"author@example.com".to_vec())
}

fn row(n: u32) -> LoadedCommit {
    LoadedCommit {
        id: id(n),
        parent_ids: Vec::new(),
        committer_time: Time::zero(),
        author: author(),
        attributions: Span::new(0, 0),
        title: format!("commit {n}").into_bytes(),
        metadata_loaded: true,
        has_agent_marker: false,
        signature: SignatureState::Unsigned,
    }
}

fn row_with_parents(n: u32, parents: &[u32]) -> LoadedCommit {
    let mut commit = row(n);
    commit.parent_ids = parents.iter().map(|n| id(*n)).collect();
    commit
}

fn numbered_row(n: u32, parent: Option<u32>) -> LoadedCommit {
    let mut commit = row(0);
    commit.id = id(n);
    commit.parent_ids = parent.map(id).into_iter().collect();
    commit.title = format!("commit {n}").into_bytes();
    commit
}

fn batch(rows: Vec<LoadedCommit>) -> LoadedCommits {
    LoadedCommits::from(rows)
}

fn complete(app: &mut App) {
    let rows = app.start_lane_computation().expect("a loading app starts lane computation");
    let (rows, graph) = compute_lanes(rows);
    app.finish_lane_computation(rows, graph, 0);
}

fn show_tree_changes(app: &mut App) {
    app.set_changes_layout(ChangesLayout::SideBySide, true, false);
}

fn ids(rows: &[CommitRow]) -> Vec<ObjectId> {
    rows.iter().map(|row| row.id).collect()
}

fn lanes(rendered: &RenderedLanes) -> Vec<String> {
    rendered.lanes().iter().map(|lane| lane.iter().collect()).collect()
}

fn selected_id(app: &App) -> Option<ObjectId> {
    app.selected.map(|index| app.rows[index].id)
}

fn reachable(app: &App) -> Vec<ObjectId> {
    app.rows
        .iter()
        .enumerate()
        .filter(|(index, _)| app.is_row_reachable(*index))
        .map(|(_, row)| row.id)
        .collect()
}

fn same_row(a: &CommitRow, b: &CommitRow) -> bool {
    a.id == b.id
        && a.parent_ids == b.parent_ids
        && a.title == b.title
        && a.attributions == b.attributions
        && a.metadata_loaded == b.metadata_loaded
        && a.has_agent_marker == b.has_agent_marker
        && a.signature == b.signature
        && a.author == b.author
}

#[test]
fn recognizes_all_assistants_as_agents() {
    let assistant = Author::new(b"Anything".to_vec(), Vec::new());

    assert!(Attribution { kind: AttributionKind::Assisted, author: assistant.duplicate() }.is_agent());
    assert!(!Attribution { kind: AttributionKind::Reviewed, author: assistant }.is_agent());
}

#[test]
fn completion_orders_and_draws_merge_lanes() {
    let mut app = App::new(10);
    app.extend_commits(batch(vec![
        row_with_parents(4, &[3, 2]),
        row_with_parents(3, &[1]),
        row(1),
        row_with_parents(2, &[1]),
    ]));

    assert_eq!(
        app.estimated_lane_width, 4,
        "the provisional and rendered graph widths use the same trailing separator"
    );

    complete(&mut app);

    assert_eq!(ids(&app.rows), [id(4), id(3), id(2), id(1)]);
    assert_eq!(lanes(&app.render_lanes(0, app.rows.len())), ["●─┐ ", "● │ ", "├─● ", "● "]);
}

#[test]
fn refresh_projects_from_an_append_only_commit_cache() {
    let mut app = App::new(10);
    app.extend_commits(batch(vec![row_with_parents(3, &[2]), row_with_parents(2, &[1]), row(1)]));
    complete(&mut app);

    let rows = app
        .start_refresh(batch(vec![row_with_parents(4, &[3])]), &vec![id(4)], &vec![], false)
        .expect("a refresh computes lanes");
    assert_eq!(app.rows.len(), 3, "the current frame stays intact while lanes are computed");
    let (rows, graph) = compute_lanes(rows);
    app.finish_lane_computation(rows, graph, 0);
    assert_eq!(ids(&app.rows), [id(4), id(3), id(2), id(1)]);
    assert_eq!(selected_id(&app), Some(id(3)), "ordinary refreshes preserve the selected commit");

    let rows = app
        .start_refresh(batch(Vec::new()), &vec![id(2)], &vec![], false)
        .expect("a rewind reprojects cached topology");
    let (rows, graph) = compute_lanes(rows);
    app.finish_lane_computation(rows, graph, 0);
    assert_eq!(ids(&app.rows), [id(2), id(1)]);

    let rows = app
        .start_refresh(batch(Vec::new()), &vec![id(4)], &vec![], false)
        .expect("a fast-forward to retained commits needs no new objects");
    let (rows, graph) = compute_lanes(rows);
    app.finish_lane_computation(rows, graph, 0);
    assert_eq!(ids(&app.rows), [id(4), id(3), id(2), id(1)]);
    assert!(
        app.rows.iter().all(|row| app
            .all_rows
            .iter()
            .find(|cached| cached.id == row.id)
            .is_some_and(|cached| same_row(cached, row))),
        "the active projection holds the rows of the append-only cache"
    );
}

#[test]
fn lane_computation_keeps_cached_parents_outside_the_current_view() {
    let mut app = App::new(3);
    app.extend_commits(batch(vec![row_with_parents(2, &[1])]));
    app.extend_hidden_commits(batch(vec![row_with_parents(1, &[0])]));
    let rows = app.start_lane_computation().expect("loading rows starts lane computation");
    let (rows, graph) = compute_lanes(rows);
    app.finish_lane_computation(rows, graph, 0);

    let rows = app
        .start_refresh(batch(vec![row(0)]), &vec![id(2)], &vec![], false)
        .expect("refresh projects the extended ancestry");
    assert_eq!(
        ids(&rows),
        [id(2), id(1), id(0)],
        "lane pruning does not disconnect cached ancestry needed by a later expansion"
    );
}

#[test]
fn filesystem_refresh_selects_the_first_selectable_row() {
    let mut app = App::new(10);
    app.extend_commits(batch(vec![row_with_parents(3, &[2]), row_with_parents(2, &[1]), row(1)]));
    complete(&mut app);
    app.update(Action::MoveDown);
    app.update(Action::MoveDown);
    assert_eq!(selected_id(&app), Some(id(1)));

    let rows = app
        .start_refresh(batch(vec![row_with_parents(4, &[3])]), &vec![id(4)], &vec![], true)
        .expect("a filesystem refresh computes lanes");
    let (rows, graph) = compute_lanes(rows);
    app.finish_lane_computation(rows, graph, 0);

    assert_eq!(app.selected, app.first_selectable());
    assert_eq!(selected_id(&app), Some(id(4)));
}

#[test]
fn lane_computation_keeps_provisional_rows_interactive() {
    let mut app = App::new(2);
    app.extend_commits(batch(vec![row(1), row(2)]));

    let rows = app.start_lane_computation().expect("history completion starts lane computation");
    assert_eq!(app.state, State::Computing);
    assert_eq!(app.rows.len(), 2, "provisional rows remain available to render");

    app.update(Action::MoveDown);
    let selected = app.rows[app.selected.expect("selection remains active")].id;
    let (rows, graph) = compute_lanes(rows);
    app.finish_lane_computation(rows, graph, 0);

    assert_eq!(app.state, State::Complete);
    assert_eq!(app.rows[app.selected.expect("selection survives final ordering")].id, selected);
}

#[test]
fn lane_computation_preserves_metadata_loaded_while_it_runs() {
    let mut deferred = row(1);
    deferred.metadata_loaded = false;
    deferred.title.clear();
    let mut app = App::new(1);
    app.extend_commits(batch(vec![deferred]));
    let rows = app.start_lane_computation().expect("history completion starts lane computation");

    app.set_metadata(
        0,
        Metadata {
            committer_time: Time::zero(),
            author: row(1).author,
            attributions: Span::new(0, 0),
            title: b"loaded".to_vec(),
            has_agent_marker: false,
            signature: SignatureState::Unsigned,
        },
        Vec::new(),
    );
    let (rows, graph) = compute_lanes(rows);
    app.finish_lane_computation(rows, graph, 0);

    assert!(app.rows[0].metadata_loaded);
    assert_eq!(app.title(&app.rows[0]), b"loaded");
}

#[test]
fn verifies_only_visible_unchecked_signatures() {
    let mut app = App::new(2);
    app.extend_commits(batch(vec![row(1), row(2), row(3)]));
    for row in &mut app.rows {
        row.signature = SignatureState::Unverified;
    }
    app.offset = 1;

    assert_eq!(app.update(Action::VerifySignatures), vec![Effect::VerifySignatures(vec![id(2), id(3)])]);
    assert_eq!(app.rows[0].signature, SignatureState::Unverified);
    assert_eq!(app.rows[1].signature, SignatureState::Verifying);
    app.finish_signature_verification(vec![(id(2), true), (id(3), false)]);
    assert_eq!(app.rows[1].signature, SignatureState::Verified);
    assert_eq!(app.rows[2].signature, SignatureState::Failed);
    assert_eq!(app.signature_failures, 1);

    app.update(Action::MoveDown);
    assert_eq!(app.rows[2].signature, SignatureState::Unverified);
    assert_eq!(app.signature_failures, 0);
}

#[test]
fn lane_reuses_a_parent_that_is_already_to_the_right() {
    let mut app = App::new(10);
    for row in [row_with_parents(4, &[2, 3]), row_with_parents(2, &[3]), row(3)] {
        app.extend_commits(batch(vec![row]));
    }

    complete(&mut app);

    assert_eq!(lanes(&app.render_lanes(0, app.rows.len())), ["●─┐ ", "●─┘ ", "● "]);
}

#[test]
fn lanes_render_identically_after_a_checkpoint() {
    let mut app = App::new(10);
    app.extend_commits(batch((0..=300).rev().map(|n| numbered_row(n, n.checked_sub(1))).collect::<Vec<_>>()));
    complete(&mut app);

    let all = lanes(&app.render_lanes(0, app.rows.len()));
    let window = lanes(&app.render_lanes(257, 300));
    assert_eq!(
        window,
        all.iter().skip(257).take(43).cloned().collect::<Vec<_>>(),
        "restoring a checkpoint produces the same graph as replaying from the beginning"
    );
}

#[test]
fn completion_keeps_independent_lines_of_history_together() {
    let mut app = App::new(10);
    app.extend_commits(batch(vec![
        row_with_parents(5, &[3]),
        row_with_parents(4, &[2]),
        row_with_parents(3, &[1]),
        row_with_parents(2, &[1]),
        row(1),
    ]));

    complete(&mut app);

    assert_eq!(
        ids(&app.rows),
        [id(5), id(3), id(4), id(2), id(1)],
        "topological order finishes one line before showing another"
    );
}

#[test]
fn shift_limits_jk_to_the_selected_commits_ancestors() {
    let mut app = App::new(5);
    app.extend_commits(batch(vec![
        row_with_parents(5, &[3]),
        row_with_parents(4, &[2]),
        row_with_parents(3, &[1]),
        row_with_parents(2, &[1]),
        row(1),
    ]));
    complete(&mut app);
    app.selected = app.rows.iter().position(|row| row.id == id(5));

    app.update(Action::PreviewAuthorCopy(true));
    assert_eq!(reachable(&app), [id(5), id(3), id(1)]);

    app.update(Action::MoveDown);
    assert_eq!(app.rows[app.selected.expect("an ancestor is selected")].id, id(3));
    app.update(Action::MoveDown);
    assert_eq!(app.rows[app.selected.expect("an ancestor is selected")].id, id(1));

    app.update(Action::PreviewAuthorCopy(false));
    app.update(Action::MoveUp);
    assert_eq!(app.rows[app.selected.expect("normal navigation is restored")].id, id(2));
}

#[test]
fn changes_focus_clears_and_ignores_shift() {
    let mut app = App::new(2);
    app.extend_commits(batch(vec![row_with_parents(2, &[1]), row(1)]));
    complete(&mut app);

    app.update(Action::PreviewAuthorCopy(true));
    assert!(app.preview_author_copy && app.reachable_rows.is_some());

    show_tree_changes(&mut app);
    app.update(Action::ToggleChangesFocus);
    assert!(
        app.changes_focus == Some(ChangePane::Tree) && !app.preview_author_copy && app.reachable_rows.is_none(),
        "entering the changes pane clears transient history navigation"
    );

    app.update(Action::PreviewAuthorCopy(true));
    assert!(!app.preview_author_copy && app.reachable_rows.is_none(), "the inactive history pane ignores Shift");
}

#[test]
fn shift_defers_reachability_until_the_graph_is_complete() {
    let mut app = App::new(4);
    app.extend_commits(batch(vec![row_with_parents(4, &[3, 2]), row_with_parents(3, &[1])]));

    app.update(Action::PreviewAuthorCopy(true));
    assert!(app.reachable_rows.is_none(), "pressing Shift while traversing does not compute reachability");
    app.extend_commits(batch(vec![row_with_parents(2, &[1]), row(1)]));
    assert!(app.reachable_rows.is_none(), "later traversal batches do not recompute reachability");

    complete(&mut app);
    assert!(app.reachable_rows.is_some(), "graph completion computes reachability once");
    assert_eq!(app.junction_parent(0), Some(2));
}

#[test]
fn selection_follows_the_oldest_commit_until_the_user_moves() {
    let mut app = App::new(2);
    app.extend_commits(batch(vec![row(1), row(2), row(3)]));

    app.update(Action::Last);
    assert_eq!(app.selected, Some(2), "Last selects the oldest loaded commit");
    assert_eq!(app.offset, 1, "the selection remains visible");

    app.extend_commits(batch(vec![row(4)]));
    assert_eq!(app.selected, Some(3), "new commits extend the followed tail");
    assert_eq!(app.offset, 2, "the viewport follows the tail");

    app.update(Action::MoveUp);
    app.extend_commits(batch(vec![row(5)]));
    assert_eq!(app.selected, Some(2), "manual navigation stops following the tail");
}

#[test]
fn navigation_is_clamped_and_uses_the_viewport_for_pages() {
    let mut app = App::new(2);
    app.extend_commits(batch((1..=5).map(row).collect::<Vec<_>>()));

    app.update(Action::PageDown);
    assert_eq!(app.selected, Some(2), "page-down advances by the viewport height");
    app.update(Action::PageDown);
    assert_eq!(app.selected, Some(4), "page-down clamps at the last row");
    app.update(Action::MoveDown);
    assert_eq!(app.selected, Some(4), "moving past the last row is a no-op");
    app.update(Action::First);
    assert_eq!(app.selected, Some(0), "First selects the newest commit");
    assert_eq!(app.offset, 0, "the newest commit is visible");
    app.update(Action::MoveDownBy(3));
    assert_eq!(app.selected, Some(3), "batched mouse navigation moves once by its full distance");
    app.update(Action::MoveUpBy(2));
    assert_eq!(app.selected, Some(1));
}

#[test]
fn hidden_boundary_rows_are_not_selectable_or_verifiable() {
    let mut app = App::new(4);
    app.extend_commits(batch(vec![row(1), row(2), row(3)]));
    app.update(Action::Last);
    app.extend_hidden_commits(batch(vec![row(4)]));
    app.rows[3].signature = SignatureState::Unverified;

    assert_eq!(app.selected, Some(2), "following the tail stops at the oldest visible commit");
    app.update(Action::MoveDown);
    assert_eq!(app.selected, Some(2), "j cannot enter the hidden boundary");
    app.update(Action::First);
    app.update(Action::PageDown);
    assert_eq!(app.selected, Some(2), "paging skips the hidden boundary");
    assert!(app.update(Action::VerifySignatures).is_empty(), "hidden signatures are not actionable");
}

#[test]
fn full_pages_target_changes_then_commit_messages_then_history() {
    let mut app = App::new(2);
    app.extend_commits(batch((1..=5).map(row).collect::<Vec<_>>()));
    app.show_commit = true;
    app.set_commit_bounds(3, 7);

    app.update(Action::PageDown);
    assert_eq!(app.commit_offset, 3);
    assert_eq!(app.selected, Some(0), "commit paging leaves history selection alone");
    app.update(Action::PageDown);
    assert_eq!(app.commit_offset, 6);

    app.changes_focus = Some(ChangePane::Tree);
    app.set_changes_bounds(ChangePane::Tree, 2, 5, 1, 0);
    app.update(Action::PageDown);
    assert_eq!(app.tree_changes.selected, 2, "focused changes retain paging priority");
    assert_eq!(app.commit_offset, 6);

    app.changes_focus = None;
    app.set_commit_bounds(3, 0);
    app.update(Action::PageDown);
    assert_eq!(app.selected, Some(2), "history paging resumes when the commit fits");
}

#[test]
fn half_pages_use_half_the_viewport() {
    let mut app = App::new(4);
    app.extend_commits(batch((1..=5).map(row).collect::<Vec<_>>()));

    app.update(Action::HalfPageDown);
    assert_eq!(app.selected, Some(2));
    app.update(Action::HalfPageUp);
    assert_eq!(app.selected, Some(0));
}

#[test]
fn horizontal_pages_are_clamped_to_available_content() {
    let mut app = App::new(1);
    app.set_horizontal_bounds(10, 25);

    app.update(Action::ScrollRight);
    app.update(Action::ScrollRight);
    app.update(Action::ScrollRight);
    assert_eq!(app.horizontal_offset, 25);
    app.update(Action::ScrollLeft);
    assert_eq!(app.horizontal_offset, 15);

    app.set_horizontal_bounds(10, 0);
    app.update(Action::ScrollRight);
    assert_eq!(app.horizontal_offset, 0, "scrolling is disabled when content fits");
}

#[test]
fn focused_changes_redirect_navigation_to_the_path_viewport() {
    let mut app = App::new(2);
    app.extend_commits(batch((1..=3).map(row).collect::<Vec<_>>()));
    app.set_changes_bounds(ChangePane::Tree, 4, 10, 20, 45);
    show_tree_changes(&mut app);
    app.update(Action::ToggleChangesFocus);
    assert_eq!(app.changes_focus, Some(ChangePane::Tree));
    assert_eq!(app.focus_feedback.take(), Some("tree changes"));
    app.update(Action::ToggleChangesFocus);
    assert_eq!(app.changes_focus, None);
    assert_eq!(app.focus_feedback.take(), Some("history"));
    app.update(Action::ToggleChangesFocus);

    app.update(Action::MoveDown);
    assert_eq!((app.tree_changes.selected, app.tree_changes.offset), (1, 0));
    assert_eq!(app.update(Action::OpenDiff), vec![Effect::OpenDiff(ChangePane::Tree, 1)]);
    assert_eq!(app.selected, Some(0), "path selection leaves commit selection untouched");
    app.update(Action::PageDown);
    assert_eq!((app.tree_changes.selected, app.tree_changes.offset), (5, 2));
    app.update(Action::HalfPageDown);
    assert_eq!((app.tree_changes.selected, app.tree_changes.offset), (7, 4));
    app.update(Action::Last);
    assert_eq!((app.tree_changes.selected, app.tree_changes.offset), (9, 6));
    app.update(Action::First);
    assert_eq!((app.tree_changes.selected, app.tree_changes.offset), (0, 0));

    app.update(Action::ScrollRight);
    app.update(Action::ScrollRight);
    app.update(Action::ScrollRight);
    assert_eq!(app.tree_changes.horizontal_offset, 45);
    assert_eq!(app.horizontal_offset, 0, "path panning leaves the graph untouched");
    app.update(Action::ScrollLeft);
    assert_eq!(app.tree_changes.horizontal_offset, 25);

    app.update(Action::ToggleChanges);
    app.update(Action::ToggleChanges);
    assert_eq!(app.changes_focus, None, "closing the panel returns focus to history");
    assert!(app.update(Action::OpenDiff).is_empty());
    assert_eq!(app.tree_changes.selected, 0);
    assert_eq!(app.tree_changes.offset, 0);
    assert_eq!(app.tree_changes.horizontal_offset, 0);
}

#[test]
fn toggles_metadata_columns() {
    let mut app = App::new(1);
    assert!(app.show_trailers, "trailer attribution is visible by default");
    assert_eq!(app.changes_mode, Some(ChangesMode::Both), "tree and worktree changes are visible by default");

    app.update(Action::ToggleDate);
    app.update(Action::ToggleEmail);
    app.update(Action::ToggleName);
    app.update(Action::ToggleTrailers);
    app.update(Action::ToggleMailmap);
    app.update(Action::ToggleRefs);
    app.update(Action::ToggleAlign);
    app.update(Action::ToggleCommit);
    app.update(Action::CycleChangesParent);
    app.update(Action::ToggleChanges);

    assert!(!app.show_committer_date);
    assert!(app.show_emails);
    assert_eq!(app.name_mode, NameMode::Off);
    assert!(!app.show_trailers);
    assert!(!app.use_mailmap);
    assert_eq!(app.ref_mode, RefMode::Off);
    app.update(Action::ToggleRefs);
    assert_eq!(app.ref_mode, RefMode::All);
    app.update(Action::ToggleRefs);
    assert_eq!(app.ref_mode, RefMode::Default);
    assert!(!app.align_metadata);
    assert!(app.show_commit);
    assert_eq!(app.changes_mode, Some(ChangesMode::Tree));
    assert_eq!(app.changes_parent, 0);
    app.update(Action::ToggleAlign);
    assert!(app.align_metadata);
}

#[test]
fn history_display_group_stays_open_only_for_grouped_actions() {
    let mut app = App::new(1);

    app.update(Action::ToggleHistoryDisplay);
    assert!(app.history_display_expanded);
    app.update(Action::ToggleDate);
    app.update(Action::ToggleEmail);
    assert!(app.history_display_expanded, "grouped display changes keep the group open");

    app.update(Action::MoveDown);
    assert!(!app.history_display_expanded, "navigation collapses the group");

    app.update(Action::ToggleHistoryDisplay);
    app.update(Action::ToggleAlign);
    assert!(!app.history_display_expanded, "direct display commands also collapse the group");

    app.update(Action::ToggleHistoryDisplay);
    app.update(Action::ToggleHistoryDisplay);
    assert!(!app.history_display_expanded, "the prefix key toggles the group");
}

#[test]
fn cycles_both_tree_and_hidden_changes() {
    let mut app = App::new(1);
    assert_eq!(app.changes_mode, Some(ChangesMode::Both));

    app.update(Action::ToggleChanges);
    assert_eq!(app.changes_mode, Some(ChangesMode::Tree));

    app.changes_focus = Some(ChangePane::Tree);
    app.update(Action::ToggleChanges);
    assert_eq!(app.changes_mode, None);
    assert_eq!(app.changes_focus, None, "hiding changes returns focus to history");

    app.update(Action::ToggleChanges);
    assert_eq!(app.changes_mode, Some(ChangesMode::Both));
}

#[test]
fn bare_repositories_cycle_only_tree_and_hidden_changes() {
    let mut app = App::new(1);
    app.changes_focus = Some(ChangePane::Worktree);

    app.set_worktree_changes_available(false);
    assert_eq!(app.changes_mode, Some(ChangesMode::Tree));
    assert_eq!(app.changes_focus, None, "a hidden worktree pane cannot retain focus");

    app.update(Action::ToggleChanges);
    assert_eq!(app.changes_mode, None);
    app.update(Action::ToggleChanges);
    assert_eq!(app.changes_mode, Some(ChangesMode::Tree));
}

#[test]
fn cycles_changes_focus_in_visual_order_and_keeps_navigation_independent() {
    let mut app = App::new(1);
    app.changes_mode = Some(ChangesMode::Both);
    app.set_changes_bounds(ChangePane::Tree, 2, 4, 10, 20);
    app.set_changes_bounds(ChangePane::Worktree, 2, 4, 10, 20);
    app.set_changes_layout(ChangesLayout::SideBySide, true, true);

    app.update(Action::ToggleChangesFocus);
    assert_eq!(app.changes_focus, Some(ChangePane::Tree));
    app.update(Action::MoveDown);
    app.update(Action::ToggleChangesFocus);
    assert_eq!(app.changes_focus, Some(ChangePane::Worktree));
    app.update(Action::MoveDown);
    assert_eq!(app.tree_changes.selected, 1);
    assert_eq!(app.worktree_changes.selected, 1);
    assert_eq!(app.update(Action::OpenDiff), vec![Effect::OpenDiff(ChangePane::Worktree, 1)]);
    app.update(Action::ToggleChangesFocus);
    assert_eq!(app.changes_focus, None);

    app.set_changes_layout(ChangesLayout::Stacked, true, true);
    app.update(Action::ToggleChangesFocus);
    assert_eq!(app.changes_focus, Some(ChangePane::Worktree));
    app.update(Action::ToggleChangesFocus);
    assert_eq!(app.changes_focus, Some(ChangePane::Tree));

    app.set_changes_layout(ChangesLayout::Stacked, false, true);
    assert_eq!(app.changes_focus, Some(ChangePane::Worktree));
    app.set_changes_layout(ChangesLayout::Stacked, false, false);
    assert_eq!(app.changes_focus, None);
}

#[test]
fn cycles_author_names_without_inert_states() {
    let mut app = App::new(1);
    let attribution = Attribution { kind: AttributionKind::CoAuthor, author: row(2).author };
    let mut attributed = row(2);
    attributed.attributions = Span::new(0, 1);
    app.extend_commits(LoadedCommits { rows: vec![row(1), attributed], attributions: vec![attribution] });

    app.update(Action::ToggleName);
    assert_eq!(
        app.name_mode,
        NameMode::Off,
        "the visible author is hidden immediately when no attributions are visible"
    );
    app.name_mode = NameMode::All;
    app.offset = 1;
    app.update(Action::ToggleName);
    assert_eq!(app.name_mode, NameMode::Author);
    app.update(Action::ToggleName);
    assert_eq!(app.name_mode, NameMode::Off);
    app.update(Action::ToggleName);
    assert_eq!(app.name_mode, NameMode::All);
}

#[test]
fn hidden_history_is_reloaded_only_when_configured() {
    let mut app = App::new(1);
    assert!(app.update(Action::ToggleHidden).is_empty(), "the key is inert without hidden revisions");

    app.configure_hidden_filter(true);
    assert_eq!(app.ref_mode, RefMode::Off, "hidden ancestry hides references by default");
    app.extend_commits(batch(vec![row(1)]));
    assert!(
        app.update(Action::ToggleHidden).is_empty(),
        "a running walk cannot be replaced by another detached worker"
    );
    complete(&mut app);
    assert_eq!(app.update(Action::ToggleHidden), vec![Effect::Reload(true)]);
    drop(app.update(Action::PreviewAuthorCopy(true)));
    app.reload(true);
    assert!(app.rows.is_empty(), "reloading drops rows from the previous view");
    assert!(app.show_hidden);
    assert!(!app.preview_author_copy, "reloading clears transient Shift state");
    assert_eq!(app.state, State::Loading);
    assert!(
        app.update(Action::ToggleHidden).is_empty(),
        "the replacement walk must finish before it can be toggled again"
    );
    complete(&mut app);
    assert_eq!(app.update(Action::ToggleHidden), vec![Effect::Reload(false)]);
}

#[test]
fn refresh_reloads_only_finished_history() {
    let mut app = App::new(1);
    assert!(app.update(Action::Refresh).is_empty(), "a running walk cannot be replaced");

    app.extend_commits(batch(vec![row(1)]));
    complete(&mut app);
    assert_eq!(app.update(Action::Refresh), vec![Effect::Reload(false)]);

    app.show_hidden = true;
    app.state = State::Cancelled;
    assert_eq!(app.update(Action::Refresh), vec![Effect::Reload(true)], "refresh preserves the hidden-history setting");
}

#[test]
fn reload_retains_selection_or_falls_back_to_the_top() {
    let mut app = App::new(3);
    app.extend_commits(batch(vec![row(1), row(2), row(3)]));
    complete(&mut app);
    app.update(Action::MoveDown);
    let selected = app.rows[app.selected.expect("a row is selected")].id;
    app.set_changes_bounds(ChangePane::Tree, 1, 3, 1, 2);
    show_tree_changes(&mut app);
    app.update(Action::ToggleChangesFocus);
    app.update(Action::MoveDown);
    app.update(Action::ScrollRight);

    app.reload(true);
    assert_eq!(app.changes_focus, None, "reload returns focus to history");
    assert_eq!(app.tree_changes.selected, 0);
    assert_eq!((app.tree_changes.offset, app.tree_changes.horizontal_offset), (0, 0));
    app.extend_commits(batch(vec![row(1), row(2), row(3)]));
    complete(&mut app);
    assert_eq!(app.rows[app.selected.expect("the old row remains selected")].id, selected);

    app.reload(false);
    app.extend_commits(batch(vec![row(3)]));
    app.extend_hidden_commits(batch(vec![row(2)]));
    complete(&mut app);
    assert_eq!(app.selected, Some(0), "a selection which becomes a hidden boundary falls back to the top row");
}

#[test]
fn cancellation_preserves_rows_and_ignores_late_worker_events() {
    let mut app = App::new(10);
    app.extend_commits(batch(vec![row(1)]));

    assert_eq!(app.update(Action::Cancel), vec![Effect::Cancel]);
    assert_eq!(app.state, State::Cancelling);
    app.extend_commits(batch(vec![row(2)]));
    assert_eq!(app.rows.len(), 1, "commits arriving after cancellation are ignored");

    assert!(app.start_lane_computation().is_none());
    assert_eq!(app.state, State::Cancelled);
    assert_eq!(app.rows.len(), 1, "completion racing cancellation keeps already displayed commits");
}

#[test]
fn pane_exit_keys_return_to_history_but_control_c_quits() {
    let mut app = App::new(1);
    show_tree_changes(&mut app);
    app.update(Action::ToggleChangesFocus);

    assert!(app.update(Action::Quit).is_empty());
    assert_eq!(app.changes_focus, None, "q returns focus to history");

    app.update(Action::ToggleChangesFocus);
    assert_eq!(app.update(Action::ForceQuit), vec![Effect::Quit], "Ctrl-C quits even while changes have focus");
    assert!(app.update(Action::Cancel).is_empty());
    assert_eq!(app.changes_focus, None, "Escape returns focus to history");
    assert_eq!(app.state, State::Loading, "Escape does not cancel while changes had focus");

    assert_eq!(app.update(Action::Cancel), vec![Effect::Cancel]);
}

#[test]
fn shift_starts_with_a_merges_second_parent_rail() {
    let mut app = App::new(7);
    app.extend_commits(batch(vec![
        row_with_parents(6, &[5, 4]),
        row_with_parents(5, &[3]),
        row_with_parents(4, &[2]),
        row_with_parents(3, &[1]),
        row_with_parents(2, &[1]),
        row(1),
    ]));
    complete(&mut app);
    app.selected = app.rows.iter().position(|row| row.id == id(6));

    app.update(Action::PreviewAuthorCopy(true));
    assert_eq!(
        reachable(&app),
        [id(6), id(4), id(2), id(1)],
        "the second parent and its complete ancestry are reachable"
    );
}

#[test]
fn shift_cycles_junction_parents_without_panning() {
    let mut app = App::new(8);
    app.extend_commits(batch(vec![
        row_with_parents(10, &[8, 9, 11]),
        row_with_parents(8, &[6]),
        row_with_parents(9, &[7, 6]),
        row_with_parents(11, &[5]),
        row_with_parents(7, &[1]),
        row_with_parents(6, &[1]),
        row_with_parents(5, &[1]),
        row(1),
    ]));
    complete(&mut app);
    app.selected = app.rows.iter().position(|row| row.id == id(10));
    app.set_horizontal_bounds(10, 25);

    app.update(Action::PreviewAuthorCopy(true));
    let reachable_set = |app: &App| reachable(app).into_iter().collect::<HashSet<_>>();
    assert_eq!(app.junction_parent(0), Some(2));
    assert_eq!(
        reachable_set(&app),
        HashSet::from([id(10), id(9), id(7), id(6), id(1)]),
        "the selected rail traverses every parent of its next junction"
    );

    app.update(Action::ScrollRight);
    assert_eq!(app.junction_parent(0), Some(3));
    assert_eq!(reachable_set(&app), HashSet::from([id(10), id(11), id(5), id(1)]));
    app.update(Action::ScrollRight);
    assert_eq!(app.junction_parent(0), Some(1));
    assert_eq!(reachable_set(&app), HashSet::from([id(10), id(8), id(6), id(1)]));
    app.update(Action::ScrollLeft);
    assert_eq!(app.junction_parent(0), Some(3));
    assert_eq!(app.horizontal_offset, 0, "junction selection suppresses horizontal panning");

    app.update(Action::PreviewAuthorCopy(false));
    app.update(Action::ScrollRight);
    assert_eq!(app.horizontal_offset, 10, "releasing Shift restores horizontal panning");
}

#[test]
fn completion_and_copy_effects_use_the_current_selection() {
    let mut app = App::new(10);
    assert!(app.update(Action::Copy).is_empty(), "there is nothing to copy without a selection");
    assert!(app.update(Action::CopyAuthor).is_empty(), "there is no author to copy without a selection");
    app.extend_commits(batch(vec![row(7)]));

    assert_eq!(app.update(Action::Copy), vec![Effect::CopyId(row(7).id)]);
    assert_eq!(
        app.update(Action::CopyPath(b"dir/file".to_vec())),
        vec![Effect::CopyPath(b"dir/file".to_vec())]
    );
    assert_eq!(app.update(Action::CopyAuthor), vec![Effect::CopyAuthor(row(7).author)]);
    complete(&mut app);
    assert_eq!(app.state, State::Complete);
    assert_eq!(app.rows.len(), 1, "the loaded row count is the completed total");
    assert_eq!(app.update(Action::Quit), vec![Effect::Quit]);
}

#[test]
fn packs_titles_as_raw_bytes() {
    let mut first = row(1);
    first.title = vec![b'a', 0xff];
    let mut second = row(2);
    second.title = b"second".to_vec();
    let mut app = App::new(2);

    app.extend_commits(batch(vec![first]));
    app.extend_commits(batch(vec![second]));

    assert_eq!(app.titles, b"a\xffsecond", "title bytes share one allocation");
    assert_eq!(app.title(&app.rows[0]), b"a\xff", "the first span preserves arbitrary bytes");
    assert_eq!(app.title(&app.rows[1]), b"second", "the second span starts at the right offset");
}

#[test]
fn packs_attributions_across_history_batches() {
    let first_attribution = Attribution { kind: AttributionKind::CoAuthor, author: row(1).author };
    let second_attribution = Attribution { kind: AttributionKind::Reviewed, author: row(2).author };
    let mut first = row(1);
    first.attributions = Span::new(0, 1);
    let mut second = row(2);
    second.attributions = Span::new(0, 1);
    let mut app = App::new(2);

    app.extend_commits(LoadedCommits { rows: vec![first], attributions: vec![first_attribution.duplicate()] });
    app.extend_commits(LoadedCommits { rows: vec![second], attributions: vec![second_attribution.duplicate()] });

    assert_eq!(
        app.attributions,
        [first_attribution.duplicate(), second_attribution.duplicate()],
        "all attribution entries share one application-owned buffer"
    );
    assert_eq!(
        app.attributions(&app.rows[0]),
        [first_attribution],
        "the first batch retains its attribution range"
    );
    assert_eq!(
        app.attributions(&app.rows[1]),
        [second_attribution],
        "later batch ranges are offset into the shared buffer"
    );
}

#[test]
fn switching_a_column_twice_restores_it() {
    let mut app = App::new(1);
    let before = (app.show_committer_date, app.show_emails, app.show_trailers, app.use_mailmap, app.align_metadata);
    for action in [Action::ToggleDate, Action::ToggleEmail, Action::ToggleTrailers, Action::ToggleMailmap, Action::ToggleAlign] {
        let toggled = |app: &mut App, action: &Action| {
            let copy = match action {
                Action::ToggleDate => Action::ToggleDate,
                Action::ToggleEmail => Action::ToggleEmail,
                Action::ToggleTrailers => Action::ToggleTrailers,
                Action::ToggleMailmap => Action::ToggleMailmap,
                _ => Action::ToggleAlign,
            };
            assert!(app.update(copy).is_empty());
        };
        toggled(&mut app, &action);
        toggled(&mut app, &action);
    }
    assert_eq!(
        (app.show_committer_date, app.show_emails, app.show_trailers, app.use_mailmap, app.align_metadata),
        before
    );
}

#[test]
fn references_and_names_cycle_through_their_states() {
    let mut app = App::new(1);
    let refs = app.ref_mode;
    for _ in 0..3 {
        app.update(Action::ToggleRefs);
    }
    assert_eq!(app.ref_mode, refs);

    let attribution = Attribution { kind: AttributionKind::CoAuthor, author: row(2).author };
    let mut attributed = row(2);
    attributed.attributions = Span::new(0, 1);
    app.extend_commits(LoadedCommits { rows: vec![attributed], attributions: vec![attribution] });
    assert_eq!(app.name_mode, NameMode::All);
    app.update(Action::ToggleName);
    assert_eq!(app.name_mode, NameMode::Author);
    app.update(Action::ToggleName);
    assert_eq!(app.name_mode, NameMode::Off);
    app.update(Action::ToggleName);
    assert_eq!(app.name_mode, NameMode::All);
}

#[test]
fn a_selected_commit_that_becomes_a_hidden_boundary_is_not_restored() {
    let mut app = App::new(10);
    app.extend_commits(batch(vec![row_with_parents(3, &[2]), row_with_parents(2, &[1]), row(1)]));
    complete(&mut app);
    app.update(Action::MoveDown);
    assert_eq!(selected_id(&app), Some(id(2)));

    let rows = app
        .start_refresh(batch(Vec::new()), &vec![id(3)], &vec![id(2)], false)
        .expect("a refresh computes lanes");
    let (rows, graph) = compute_lanes(rows);
    app.finish_lane_computation(rows, graph, 0);

    let boundary = app.rows.iter().position(|row| row.id == id(2)).expect("the boundary row is shown");
    assert!(app.is_row_hidden(boundary), "the previously selected commit is now a hidden boundary row");
    assert_eq!(app.selected, Some(0), "the newest selectable row is selected instead");
    assert_eq!(selected_id(&app), Some(id(3)));
}

#[test]
fn a_running_signature_check_is_not_requested_again() {
    let mut app = App::new(3);
    app.extend_commits(batch(vec![row(1), row(2), row(3)]));
    app.rows[1].signature = SignatureState::Unverified;
    assert_eq!(app.update(Action::VerifySignatures), vec![Effect::VerifySignatures(vec![id(2)])]);
    app.rows[2].signature = SignatureState::Unverified;
    assert!(app.update(Action::VerifySignatures).is_empty(), "the running check is awaited");
    assert_eq!(app.rows[2].signature, SignatureState::Unverified, "nothing is marked meanwhile");
    app.finish_signature_verification(vec![(id(2), true)]);
    assert_eq!(app.update(Action::VerifySignatures), vec![Effect::VerifySignatures(vec![id(3)])]);
}

#[test]
fn moving_never_lands_on_a_hidden_boundary_row() {
    let mut app = App::new(2);
    app.extend_commits(batch(vec![row(1), row(2), row(3)]));
    app.extend_hidden_commits(batch(vec![row(4)]));
    app.update(Action::First);
    assert_eq!(app.selected, Some(0));
    for action in [
        Action::MoveDown,
        Action::MoveDownBy(5),
        Action::PageDown,
        Action::HalfPageDown,
        Action::Last,
        Action::PageUp,
        Action::MoveDown,
        Action::HalfPageUp,
    ] {
        let before = app.selected;
        app.update(action);
        let selected = app.selected.expect("a row stays selected");
        assert!(!app.is_row_hidden(selected));
        if app.selected != before {
            assert!(app.offset <= selected && selected < app.offset + app.viewport_rows.max(1));
        }
    }
    assert_eq!(app.rows.len(), 4);
}

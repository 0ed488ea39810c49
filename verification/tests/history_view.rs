use gix_tix::app::{App, CopyKind, LoadedCommits, NameMode};
use gix_tix::author::Author;
use gix_tix::commit::{LoadedCommit, SignatureState, Span, Time};
use gix_tix::history_view::{
    Columns, Columns16, Marker, has_verifiable_signatures, history_columns, junction_label, lane_width, pane_height, row_options,
    selection_marker, uses_mailmap, viewport_rows,
};
use gix_tix::app::{ChangePane};
use gix_tix::layout::{Area, PaneArea};
use gix_tix::ids::ObjectId;

fn chars(s: &str) -> Vec<char> {
    s.chars().collect()
}

fn commit(n: u32) -> LoadedCommit {
    LoadedCommit {
        id: ObjectId::from_low(n),
        parent_ids: Vec::new(),
        committer_time: Time::zero(),
        author: Author::new(b"author".to_vec(), b"author@example.com".to_vec()),
        attributions: Span::new(0, 0),
        title: b"subject".to_vec(),
        metadata_loaded: true,
        has_agent_marker: false,
        signature: SignatureState::Unsigned,
    }
}

#[test]
fn the_graph_is_as_wide_as_its_widest_visible_line() {
    assert_eq!(lane_width(&vec![chars("● "), chars("│ ● "), Vec::new()], 9), 4);
    assert_eq!(lane_width(&vec![Vec::new()], 9), 9, "the estimate stands in while nothing is drawn");
    assert_eq!(lane_width(&vec![chars("   ")], 9), 1, "a blank line still takes its column");
}

#[test]
fn panning_is_bounded_by_the_graph_or_the_widest_row() {
    assert_eq!(
        history_columns(90, 88, 40, true, &vec![], 20),
        Columns { align_width: 28, max_offset: 12, horizontal_offset: 12, graph_offset: 12 }
    );
    assert_eq!(
        history_columns(90, 88, 40, false, &vec![100, 50], 5),
        Columns { align_width: 28, max_offset: 12, horizontal_offset: 5, graph_offset: 5 }
    );
    assert_eq!(history_columns(4, 2, 10, true, &vec![], 0).align_width, 1, "aligned metadata keeps a column of graph");
    assert_eq!(history_columns(90, 88, 10, false, &vec![200_000], 70_000).max_offset, 65_535);
}

#[test]
fn row_options_follow_the_names_mode_and_the_selection() {
    let mut app = App::new(3);
    app.extend_commits(LoadedCommits::from(vec![commit(1), commit(2)]));
    app.selected = Some(0);
    app.show_selection_tail = true;
    app.name_mode = NameMode::Off;
    let first = row_options(&app, 0, Some(CopyKind::Id), None, true);
    assert!(first.selected && first.has_notes && !first.show_author_name && !first.show_trailers);
    assert_eq!(first.copy_feedback, Some(CopyKind::Id));
    let second = row_options(&app, 1, Some(CopyKind::Author), Some(ObjectId::from_low(2)), false);
    assert!(second.selected, "the compared parent is marked");
    assert!(second.show_author_name, "a copied author is shown whatever the names mode");
    assert_eq!(second.copy_feedback, None, "copy feedback marks the selection only");
    app.name_mode = NameMode::All;
    app.show_trailers = true;
    assert!(row_options(&app, 1, None, None, false).show_trailers);
    app.use_mailmap = true;
    assert!(uses_mailmap(&app, None));
    assert!(!uses_mailmap(&app, Some(CopyKind::Author)), "copied authors are shown as recorded");
}

#[test]
fn the_selection_marker_follows_the_line_within_the_body() {
    assert_eq!(selection_marker(2, 40, 10, 5), Marker { x: 19, info: Some(Columns16 { x: 13, width: 5 }) });
    assert_eq!(selection_marker(2, 40, 100, 5), Marker { x: 39, info: Some(Columns16 { x: 33, width: 5 }) });
    assert_eq!(selection_marker(2, 40, 10, 0), Marker { x: 14, info: None });
    assert_eq!(selection_marker(2, 6, 10, 5), Marker { x: 5, info: Some(Columns16 { x: 3, width: 1 }) });
}

#[test]
fn the_parent_number_replaces_the_connector_beside_the_disk() {
    let lane = chars("●─╮ ");
    assert_eq!(junction_label(&lane, 2, 0, 80), Some((1, b"2".to_vec())));
    assert_eq!(junction_label(&lane, 12, 0, 80), Some((1, b"12".to_vec())), "as many digits as the line has room for");
    assert_eq!(junction_label(&lane, 123, 0, 2), Some((1, b"1".to_vec())), "and as the row has");
    assert_eq!(junction_label(&lane, 2, 1, 80), None, "a disk panned away has no number");
    assert_eq!(junction_label(&chars("│ ●"), 2, 0, 80), None, "nothing follows a disk at the end of the line");
    assert_eq!(junction_label(&chars("│ │"), 2, 0, 80), None);
}

#[test]
fn only_visible_unhidden_rows_ask_for_verification() {
    let mut pending = commit(2);
    pending.signature = SignatureState::Unverified;
    let mut app = App::new(3);
    app.extend_commits(LoadedCommits::from(vec![commit(1), pending, commit(3)]));
    assert!(has_verifiable_signatures(&app, 0, 3));
    assert!(!has_verifiable_signatures(&app, 0, 1));
    assert!(!has_verifiable_signatures(&app, 2, 10));
    app.hidden_rows = vec![ObjectId::from_low(2)];
    assert!(!has_verifiable_signatures(&app, 0, 3), "hidden rows are not verified");
}

#[test]
fn change_panes_shrink_the_history_viewport() {
    let body = Area { x: 0, y: 1, width: 80, height: 20 };
    assert_eq!(viewport_rows(&vec![], body), 20);
    let panes = vec![
        PaneArea { pane: ChangePane::Tree, outer: Area { x: 0, y: 15, width: 40, height: 6 } },
        PaneArea { pane: ChangePane::Worktree, outer: Area { x: 40, y: 12, width: 40, height: 9 } },
    ];
    assert_eq!(viewport_rows(&panes, body), 11);
    let covering = vec![PaneArea { pane: ChangePane::Tree, outer: Area { x: 0, y: 0, width: 80, height: 21 } }];
    assert_eq!(viewport_rows(&covering, body), 1, "at least one row stays in view");
    assert_eq!(pane_height(3), 5);
    assert_eq!(pane_height(1_000_000), 65_535);
}

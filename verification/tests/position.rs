use gix_tix::app::{Action, App, LoadedCommits, State};
use gix_tix::author::Author;
use gix_tix::commit::{LoadedCommit, SignatureState, Span, Time};
use gix_tix::ids::ObjectId;
use gix_tix::lanes::compute_lanes;
use gix_tix::position::history_position;

fn commit(n: u32) -> LoadedCommit {
    LoadedCommit {
        id: ObjectId::from_low(n),
        parent_ids: Vec::new(),
        committer_time: Time::zero(),
        author: Author::new(b"author".to_vec(), b"author@example.com".to_vec()),
        attributions: Span::new(0, 0),
        title: b"subject".to_vec(),
        metadata_loaded: true,
        has_agent_marker: false,
        signature: SignatureState::Unsigned,
    }
}

#[test]
fn counts_commits_until_the_graph_is_complete_then_tracks_the_selected_row() {
    let mut app = App::new(3);
    app.extend_commits(LoadedCommits::from((1..=3).map(commit).collect::<Vec<_>>()));
    assert_eq!(history_position(&app), b"3 commits");

    let rows = app.start_lane_computation().expect("a loading app starts lane computation");
    assert_eq!(history_position(&app), b"3 commits");
    let (rows, graph) = compute_lanes(rows);
    app.finish_lane_computation(rows, graph, 0);

    assert_eq!(history_position(&app), b"#3");
    app.update(Action::MoveDown);
    assert_eq!(history_position(&app), b"#2");
    app.update(Action::MoveDown);
    assert_eq!(history_position(&app), b"#1");
}

#[test]
fn a_deferred_phase_is_reported_in_place_of_the_current_one() {
    let mut app = App::new(3);
    app.extend_commits(LoadedCommits::from((1..=12).map(commit).collect::<Vec<_>>()));
    let rows = app.start_lane_computation().expect("lanes start");
    let (rows, graph) = compute_lanes(rows);
    app.finish_lane_computation(rows, graph, 0);
    assert_eq!(history_position(&app), b"#12");
    app.deferred_history_state = Some(State::Loading);
    assert_eq!(history_position(&app), b"12 commits");
    let empty = App::new(1);
    assert_eq!(history_position(&empty), b"0 commits");
}

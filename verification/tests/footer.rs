use gix_tix::app::{Action, App, ChangePane, ChangesMode, ComparedParent, Changes, LoadedCommits, NameMode, RefMode, State};
use gix_tix::author::Author;
use gix_tix::commit::{LoadedCommit, SignatureState, Span, Time};
use gix_tix::footer::{footer_line, pane_status};
use gix_tix::ids::ObjectId;
use gix_tix::lanes::compute_lanes;
use gix_tix::look::{Piece, Tint};

fn text(pieces: &[Piece]) -> String {
    pieces.iter().map(|piece| String::from_utf8(piece.text.clone()).unwrap()).collect()
}

fn commit(signature: SignatureState) -> LoadedCommit {
    LoadedCommit {
        id: ObjectId::from_low(1),
        parent_ids: Vec::new(),
        committer_time: Time::zero(),
        author: Author::new(b"author".to_vec(), b"author@example.com".to_vec()),
        attributions: Span::new(0, 0),
        title: b"subject".to_vec(),
        metadata_loaded: true,
        has_agent_marker: false,
        signature,
    }
}

fn complete(app: &mut App) {
    let rows = app.start_lane_computation().expect("a loading app starts lane computation");
    let (rows, graph) = compute_lanes(rows);
    app.finish_lane_computation(rows, graph, 0);
}

fn loaded(signature: SignatureState) -> App {
    let mut app = App::new(1);
    app.extend_commits(LoadedCommits::from(vec![commit(signature)]));
    complete(&mut app);
    app
}

#[test]
fn keeps_the_completed_footer_while_background_progress_is_deferred() {
    let mut app = loaded(SignatureState::Unsigned);
    let completed = text(&footer_line(&app, false));

    app.deferred_history_state = Some(State::Complete);
    app.state = State::Computing;
    assert_eq!(text(&footer_line(&app, false)), completed, "short lane computation preserves the completed footer");

    app.deferred_history_state = None;
    let computing = text(&footer_line(&app, false));
    assert!(computing.contains("1 commits · computing"), "expired deferral reveals computation progress");
    assert_ne!(computing, completed, "visible progress changes the footer");

    app.deferred_history_state = Some(State::Complete);
    app.state = State::Loading;
    assert_eq!(text(&footer_line(&app, false)), completed, "short traversal setup also preserves the completed footer");
}

#[test]
fn shows_signature_action_only_while_actionable() {
    let mut app = loaded(SignatureState::Unverified);
    let footer = footer_line(&app, true);
    assert!(text(&footer).contains("s ● -> ●"));
    assert_eq!(footer.iter().filter(|p| p.text == "●".as_bytes()).map(|p| p.look.fg).collect::<Vec<_>>(), vec![
        Some(Tint::Orange),
        Some(Tint::Green)
    ]);
    app.finish_signature_verification(vec![(ObjectId::from_low(1), false)]);
    assert!(text(&footer_line(&app, true)).contains("s 1 ●"));
}

#[test]
fn advertises_cancel_only_while_loading() {
    let mut app = App::new(1);
    let footer = text(&footer_line(&app, false));
    assert!(!footer.contains("loading"), "loading is already apparent from the streaming history");
    assert!(footer.contains("Esc cancel"));
    let _ = app.update(Action::Cancel);
    assert!(!text(&footer_line(&app, false)).contains("Esc cancel"));
}

#[test]
fn footer_lists_toggles_and_dims_those_switched_off() {
    let mut app = loaded(SignatureState::Unsigned);
    app.history_display_expanded = true;
    app.name_mode = NameMode::Off;
    app.ref_mode = RefMode::All;
    app.show_emails = false;
    app.has_hidden_filter = true;
    app.show_hidden = false;
    let footer = footer_line(&app, false);
    let drawn = text(&footer);
    assert!(drawn.starts_with("#1 · ↑↓/jk move · h/l pan · Enter diff"), "{drawn}");
    for label in ["[ align", "o commit", "c changes", "d date", "e emails", "n name", "m mailmap", "t trailers", "r all refs", "h show hidden"] {
        assert!(footer.iter().any(|p| p.text == label.as_bytes()), "{label} is a toggle");
    }
    let dim = |label: &str| footer.iter().find(|p| p.text == label.as_bytes()).unwrap().look.dim;
    assert!(dim("e emails") && dim("n name") && dim("h show hidden"));
    assert!(!dim("r all refs"));
    assert!(drawn.ends_with(" · y copy · q quit"));
    app.history_display_expanded = false;
    assert!(text(&footer_line(&app, false)).contains(" · v view"));
    app.notice = Some("could not refresh".to_string());
    assert_eq!(text(&footer_line(&app, false)), "could not refresh", "a notice replaces the footer");
}

#[test]
fn focus_feedback_is_shown_once_beside_the_change_panes() {
    let mut app = loaded(SignatureState::Unsigned);
    app.tree_changes_visible = true;
    app.focus_feedback = Some("tree");
    assert!(text(&footer_line(&app, false)).contains(" · Tab → tree"));
    app.settle_focus_feedback();
    assert!(app.focus_feedback.is_none());
    assert!(text(&footer_line(&app, false)).contains(" · Tab switch"));
    app.tree_changes_visible = false;
    app.focus_feedback = Some("history");
    app.settle_focus_feedback();
    assert_eq!(app.focus_feedback, Some("history"), "without change panes the feedback waits");
}

#[test]
fn focused_panes_show_their_parent_error_and_keys() {
    let mut app = loaded(SignatureState::Unsigned);
    app.changes_mode = Some(ChangesMode::Both);
    let id = ObjectId { high: 0x1234_5678_9abc_def0, middle: 0, low: 0 };
    let merge = Changes { parent: Some(ComparedParent { index: 0, total: 2, id }), paths: Vec::new(), lines_added: 0, lines_removed: 0 };
    let status = pane_status(&app, ChangePane::Tree, &merge);
    assert_eq!(text(&status), "vs parent 1/2 1234567 · p next parent · ↑↓/jk move · h/l pan · Enter diff · y copy · c tree");
    assert_eq!(status[0].look.fg, Some(Tint::Cyan));
    app.worktree_changes.error = Some("boom".to_string());
    app.changes_mode = Some(ChangesMode::Tree);
    let status = pane_status(&app, ChangePane::Worktree, &merge);
    assert_eq!(text(&status), "diff: boom · y copy · c to hide", "the worktree pane has no parent");
    assert_eq!(status[0].look.fg, Some(Tint::LightRed));
}

use gix_tix::app::{App, Effect, LoadedCommits, State};
use gix_tix::commit::{LoadedCommit, SignatureState, Span, Time};
use gix_tix::author::Author;
use gix_tix::event_loop::{LoopAction, LoopEvent, LoopState, copied_text, loop_step};
use gix_tix::ids::ObjectId;
use gix_tix::keys::MouseScroll;

fn id(n: u32) -> ObjectId {
    ObjectId::from_low(n)
}

fn row(n: u32, parents: &[u32]) -> LoadedCommit {
    LoadedCommit {
        id: id(n),
        parent_ids: parents.iter().map(|p| id(*p)).collect(),
        committer_time: Time::zero(),
        author: Author::new(b"author".to_vec(), b"author@example.com".to_vec()),
        attributions: Span::new(0, 0),
        title: format!("commit {n}").into_bytes(),
        metadata_loaded: true,
        has_agent_marker: false,
        signature: SignatureState::Unsigned,
    }
}

fn state(quit_on_finish: bool) -> LoopState {
    LoopState {
        quit_on_finish,
        history_finished: false,
        focused: true,
        refresh_pending: false,
        expand_hidden: false,
        refresh_select_top: false,
        refresh_running: false,
        layout_running: false,
        view_tips: vec![id(2)],
        hidden_tips: Vec::new(),
    }
}

fn laid_out(quit_on_finish: bool) -> (App, LoopState, Vec<LoopAction>) {
    let mut app = App::new(5);
    let mut s = state(quit_on_finish);
    let batch = LoadedCommits::from(vec![row(2, &[1]), row(1, &[])]);
    loop_step(&mut app, &mut s, LoopEvent::Commits(batch));
    let actions = loop_step(&mut app, &mut s, LoopEvent::HistoryComplete);
    let rows = match &actions[0] {
        LoopAction::StartLanes(rows) => rows.iter().map(|r| r.duplicate()).collect(),
        _ => panic!("the layout is started"),
    };
    assert!(s.layout_running);
    let actions = loop_step(&mut app, &mut s, LoopEvent::LanesComputed(rows, 7));
    (app, s, actions)
}

#[test]
fn quits_with_the_layout_time_once_the_layout_is_adopted() {
    let (app, s, actions) = laid_out(true);
    assert_eq!(app.state, State::Complete);
    assert!(!s.layout_running);
    assert!(matches!(actions.last(), Some(LoopAction::Quit(Some(7)))));
}

#[test]
fn a_snapshot_is_taken_only_once_history_and_layout_are_finished() {
    let mut app = App::new(5);
    let mut s = state(false);
    let actions = loop_step(&mut app, &mut s, LoopEvent::RefsChanged);
    assert!(actions.is_empty(), "no snapshot while the history loads");
    assert!(s.refresh_pending);
    let (mut app, mut s, _) = laid_out(false);
    s.refresh_pending = true;
    let actions = loop_step(&mut app, &mut s, LoopEvent::Tick);
    assert!(matches!(actions.as_slice(), [LoopAction::TakeSnapshot]));
    assert!(!s.refresh_pending);
}

#[test]
fn a_refresh_starts_only_when_the_tips_changed() {
    let (mut app, mut s, _) = laid_out(false);
    let actions = loop_step(&mut app, &mut s, LoopEvent::Snapshot(vec![id(2)], Vec::new()));
    assert!(matches!(actions.as_slice(), [LoopAction::CompareDecorations]));
    assert!(!s.refresh_running);
    let actions = loop_step(&mut app, &mut s, LoopEvent::Snapshot(vec![id(3)], Vec::new()));
    match actions.as_slice() {
        [LoopAction::StartRefresh { show_hidden: false, expand, known }] => {
            assert!(expand.is_empty());
            assert_eq!(known.len(), 2);
        }
        _ => panic!("a refresh starts"),
    }
    assert!(s.refresh_running);
    assert_eq!(s.view_tips, vec![id(3)]);
}

#[test]
fn quitting_ends_the_step_and_unfocused_input_is_ignored() {
    let (mut app, mut s, _) = laid_out(false);
    s.focused = false;
    assert!(loop_step(&mut app, &mut s, LoopEvent::Mouse(MouseScroll::Down)).is_empty());
    s.focused = true;
    let actions = loop_step(&mut app, &mut s, LoopEvent::Mouse(MouseScroll::Down));
    assert!(matches!(actions.as_slice(), [LoopAction::Draw(false)]));
    assert_eq!(app.selected, Some(1));
}

#[test]
fn copied_identities_are_forty_hex_digits() {
    let text = copied_text(&Effect::CopyId(ObjectId { high: 0x0123456789abcdef, middle: 1, low: 0xff })).unwrap();
    assert_eq!(text, b"0123456789abcdef0000000000000001000000ff".to_vec());
    assert_eq!(copied_text(&Effect::Cancel), None);
}

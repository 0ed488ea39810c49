use gix_tix::app::{Action, App, ChangePane, ChangesMode, State};
use gix_tix::author::Author;
use gix_tix::screen::{
    EVENT_BATCH_SIZE, FRAME_INTERVAL_NANOS, REPEAT_IDLE_NANOS, Screen, actor_bytes, configure_initial_screen,
    half_height, history_is_ready_to_draw, history_needs_alternate_screen, inline_height, needs_alternate_screen,
    poll_timeout, prepare_inline_exit, repeats_viewport, should_draw, should_switch_screen,
};

#[test]
fn chooses_screen_from_terminal_and_history_height() {
    assert_eq!(
        inline_height(Screen::Auto, 20, 7),
        Some(10),
        "short histories occupy only their rows, spacers, and footer"
    );
    assert_eq!(
        inline_height(Screen::Auto, 20, 8),
        Some(11),
        "spacers do not force an otherwise short history into the alternate screen"
    );
    assert_eq!(inline_height(Screen::Auto, 20, 10), None, "the auto cutoff remains half the terminal height");
    assert_eq!(
        inline_height(Screen::Half, 21, 3),
        Some(6),
        "half mode shrinks to the rows, spacers, and footer needed by short histories"
    );
    assert_eq!(inline_height(Screen::Half, 21, 10), Some(10), "half mode is capped at half the terminal, rounded down");
    assert_eq!(inline_height(Screen::Half, 21, 0), Some(3), "an empty history only needs its spacers and footer");
    assert_eq!(inline_height(Screen::Always, 20, 0), None, "always mode uses the alternate screen");
}

#[test]
fn switches_screens_for_inline_commit_panes_and_large_histories() {
    let mut inline = App::new(1);
    configure_initial_screen(&mut inline, true);
    assert!(inline.inline);
    assert_eq!(inline.changes_mode, None, "inline startup hides the default changes view");
    let mut alternate = App::new(1);
    configure_initial_screen(&mut alternate, false);
    assert!(!alternate.inline);
    assert!(
        alternate.changes_mode == Some(ChangesMode::Both),
        "alternate-screen startup keeps the default tree and worktree changes view"
    );

    assert!(should_switch_screen(true, true, false), "opening the commit pane from inline mode enters the alternate screen");
    assert!(should_switch_screen(true, false, true), "closing the commit pane returns to inline mode");
    assert!(!should_switch_screen(false, true, true), "a session that started in the alternate screen stays there");
    assert!(!should_switch_screen(true, true, true), "an already-active alternate screen is not re-entered");
    assert!(!history_needs_alternate_screen(Screen::Auto, 20, 7));
    assert!(!history_needs_alternate_screen(Screen::Auto, 20, 8));
    assert!(history_needs_alternate_screen(Screen::Auto, 20, 10));
    assert!(needs_alternate_screen(false, false, None), "current terminal geometry overrides a stale history-fit flag");
    assert!(!needs_alternate_screen(false, false, Some(11)), "a fitting current layout may return to inline mode");
    assert!(
        !history_needs_alternate_screen(Screen::Half, 20, usize::MAX),
        "half-screen mode never switches because history grows"
    );
}

#[test]
fn prepares_a_reduced_selection_after_leaving_the_alternate_screen() {
    let mut app = App::new(1);
    app.show_commit = true;
    app.changes_mode = Some(ChangesMode::Tree);
    app.changes_focus = Some(ChangePane::Tree);

    prepare_inline_exit(&mut app);

    assert!(app.inline, "the final frame is drawn into the restored inline screen");
    assert!(!app.show_commit && app.changes_mode.is_none(), "alternate-screen panels are omitted from the final frame");
    assert_eq!(app.changes_focus, None, "the hidden panel no longer owns focus");
    assert!(!app.show_selection_tail, "only the left selection marker remains");
}

#[test]
fn copies_parsed_author_bytes_without_validation() {
    let author = Author::new(b"Author > Name".to_vec(), b"author<@example.com".to_vec());

    assert_eq!(
        actor_bytes(&author),
        b"Author > Name <author<@example.com>",
        "parsed author bytes are copied even if they aren't valid serialization tokens"
    );
}

#[test]
fn rendering_is_reactive_and_capped_while_streaming() {
    assert!(!history_is_ready_to_draw(State::Loading, 0), "the initial empty frame remains outside terminal scrollback");
    assert!(history_is_ready_to_draw(State::Loading, 1), "the first commit makes loading history renderable");
    assert!(history_is_ready_to_draw(State::Computing, 0), "an empty completed traversal remains renderable");
    assert!(!should_draw(false, false, u64::MAX), "clean frames are never redrawn");
    assert!(should_draw(true, false, 0), "idle changes redraw immediately");
    assert!(!should_draw(true, true, FRAME_INTERVAL_NANOS.saturating_sub(1)), "streaming frames wait for the 60 fps deadline");
    assert!(should_draw(true, true, FRAME_INTERVAL_NANOS), "streaming frames draw at the deadline");
    assert_eq!(poll_timeout(false, 0, false, 0, None), None, "idle waits reactively for terminal input");
    assert_eq!(poll_timeout(true, EVENT_BATCH_SIZE, true, 0, None), Some(0), "saturated history batches keep processing");
    assert_eq!(
        poll_timeout(true, 1, true, 10_000_000, None),
        Some(FRAME_INTERVAL_NANOS.saturating_sub(10_000_000)),
        "dirty streaming frames wait only until their deadline"
    );
    assert_eq!(
        poll_timeout(false, 0, false, 0, Some(REPEAT_IDLE_NANOS)),
        Some(REPEAT_IDLE_NANOS),
        "repeat-idle restoration wakes an otherwise idle event loop"
    );
    assert_eq!(
        poll_timeout(true, 1, true, 10_000_000, Some(REPEAT_IDLE_NANOS)),
        Some(FRAME_INTERVAL_NANOS.saturating_sub(10_000_000)),
        "the earlier frame deadline takes precedence over repeat-idle restoration"
    );
}

#[test]
fn half_height_is_at_least_one_row() {
    assert_eq!(half_height(0), 1);
    assert_eq!(half_height(1), 1);
    assert_eq!(half_height(21), 10);
    assert_eq!(half_height(u16::MAX), 32767);
}

#[test]
fn compact_heights_saturate() {
    assert_eq!(inline_height(Screen::Half, u16::MAX, usize::MAX), Some(32767));
    assert_eq!(inline_height(Screen::Auto, 4, 1), Some(4));
    assert_eq!(inline_height(Screen::Auto, 4, 2), None);
}

#[test]
fn idle_clean_frames_wait_for_a_whole_interval_while_streaming() {
    assert_eq!(poll_timeout(true, 1, false, 5, None), Some(FRAME_INTERVAL_NANOS));
    assert_eq!(poll_timeout(true, 1, true, u64::MAX, None), Some(0));
    assert_eq!(poll_timeout(true, 1, false, 0, Some(1)), Some(1));
}

#[test]
fn only_viewport_moves_repeat() {
    assert!(repeats_viewport(&Action::MoveUp));
    assert!(repeats_viewport(&Action::PageDown));
    assert!(repeats_viewport(&Action::Last));
    assert!(!repeats_viewport(&Action::ScrollLeft));
    assert!(!repeats_viewport(&Action::MoveDownBy(3)));
    assert!(!repeats_viewport(&Action::ToggleDate));
}

#[test]
fn the_default_screen_is_automatic() {
    assert_eq!(Screen::default(), Screen::Auto);
}

#[test]
fn pager_acknowledgement_threshold_is_inclusive() {
    assert!(gix_tix::screen::pager_needs_acknowledgement(0), "an immediately closing pager leaves its output visible");
    assert!(gix_tix::screen::pager_needs_acknowledgement(250_000_000), "the threshold is inclusive");
    assert!(!gix_tix::screen::pager_needs_acknowledgement(251_000_000), "longer-running pagers restore tix immediately");
}

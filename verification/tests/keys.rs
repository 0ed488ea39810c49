use gix_tix::app::Action;
use gix_tix::keys::{Key, KeyCode, KeyKind, MouseScroll, action, grouped_action, mouse_scroll_action, retains_fill_repository};
use gix_tix::screen::repeats_viewport;

fn press(code: KeyCode) -> Key {
    Key { code, kind: KeyKind::Press, control: false, shift: false }
}

fn control(c: char) -> Key {
    Key { code: KeyCode::Char(c), kind: KeyKind::Press, control: true, shift: false }
}

fn shifted(c: char) -> Key {
    Key { code: KeyCode::Char(c), kind: KeyKind::Press, control: false, shift: true }
}

fn plain(c: char) -> Key {
    press(KeyCode::Char(c))
}

#[test]
fn maps_navigation_and_control_c() {
    assert_eq!(action(press(KeyCode::Tab)), Some(Action::ToggleChangesFocus));
    assert_eq!(action(press(KeyCode::Enter)), Some(Action::OpenDiff));
    assert_eq!(action(press(KeyCode::PageUp)), Some(Action::PageUp));
    assert_eq!(action(control('b')), Some(Action::PageUp));
    assert_eq!(action(control('f')), Some(Action::PageDown));
    assert_eq!(action(control('u')), Some(Action::HalfPageUp));
    assert_eq!(action(control('d')), Some(Action::HalfPageDown));
    assert_eq!(action(plain('h')), Some(Action::ScrollLeft));
    assert_eq!(action(plain('l')), Some(Action::ScrollRight));
    assert_eq!(
        action(shifted('g')),
        Some(Action::Last),
        "terminals that report shifted letters in lowercase still map Shift-G to the first commit"
    );
    assert_eq!(action(plain('d')), Some(Action::ToggleDate));
    assert_eq!(action(plain('e')), Some(Action::ToggleEmail));
    assert_eq!(action(plain('n')), Some(Action::ToggleName));
    assert_eq!(action(plain('t')), Some(Action::ToggleTrailers));
    assert_eq!(action(plain('m')), Some(Action::ToggleMailmap));
    assert_eq!(action(plain('r')), Some(Action::ToggleRefs));
    assert_eq!(
        action(shifted('r')),
        Some(Action::Refresh),
        "terminals which preserve lowercase shifted letters map Shift-R to refresh"
    );
    assert_eq!(
        action(plain('R')),
        Some(Action::Refresh),
        "terminals which encode Shift-R as an uppercase letter map it to refresh"
    );
    assert_eq!(action(plain('v')), Some(Action::ToggleHistoryDisplay), "v opens the history-display key group");
    assert_eq!(action(plain('s')), Some(Action::VerifySignatures));
    assert_eq!(action(plain('[')), Some(Action::ToggleAlign));
    assert_eq!(action(plain(']')), Some(Action::ToggleCommit));
    assert_eq!(action(plain('o')), Some(Action::ToggleCommit));
    assert_eq!(action(plain('p')), Some(Action::CycleChangesParent));
    assert_eq!(action(plain('c')), Some(Action::ToggleChanges));
    assert_eq!(action(shifted('Y')), Some(Action::CopyAuthor));
    assert_eq!(
        action(Key { code: KeyCode::Shift, kind: KeyKind::Press, control: false, shift: true }),
        Some(Action::PreviewAuthorCopy(true))
    );
    assert_eq!(
        action(Key { code: KeyCode::Shift, kind: KeyKind::Release, control: false, shift: false }),
        Some(Action::PreviewAuthorCopy(false))
    );
    assert_eq!(action(control('c')), Some(Action::ForceQuit));
    assert_eq!(action(plain('x')), None);
}

#[test]
fn retains_the_fill_repository_only_for_repeated_viewport_navigation() {
    assert!(retains_fill_repository(KeyKind::Repeat, Some(&Action::MoveDown), false));
    assert!(!retains_fill_repository(KeyKind::Repeat, Some(&Action::MoveDown), true));
    assert!(!retains_fill_repository(KeyKind::Press, Some(&Action::MoveDown), false));
    assert!(!retains_fill_repository(KeyKind::Release, Some(&Action::MoveDown), false));
    assert!(!retains_fill_repository(KeyKind::Repeat, Some(&Action::ScrollRight), false));
    assert!(!retains_fill_repository(KeyKind::Repeat, Some(&Action::ToggleDate), false));
}

#[test]
fn maps_continuous_mouse_scrolling_to_navigation() {
    assert_eq!(mouse_scroll_action(MouseScroll::Up), Some(Action::MoveUp));
    assert_eq!(mouse_scroll_action(MouseScroll::Down), Some(Action::MoveDown));
    assert_eq!(mouse_scroll_action(MouseScroll::Left), Some(Action::ScrollLeft));
    assert_eq!(mouse_scroll_action(MouseScroll::Right), Some(Action::ScrollRight));
    assert_eq!(mouse_scroll_action(MouseScroll::Other), None);
    assert!(repeats_viewport(&mouse_scroll_action(MouseScroll::Down).expect("vertical scrolling has an action")));
    assert!(!repeats_viewport(&mouse_scroll_action(MouseScroll::Right).expect("horizontal scrolling has an action")));
}

#[test]
fn released_keys_ask_for_nothing_but_held_keys_repeat() {
    let mut key = plain('j');
    key.kind = KeyKind::Release;
    assert_eq!(action(key), None);
    key.kind = KeyKind::Repeat;
    assert_eq!(action(key), Some(Action::MoveDown));
    assert_eq!(action(press(KeyCode::Other)), None);
    assert_eq!(action(plain('y')), Some(Action::Copy));
    assert_eq!(action(plain('g')), Some(Action::First));
    assert_eq!(action(press(KeyCode::End)), Some(Action::Last));
}

#[test]
fn the_history_display_group_turns_h_into_the_hidden_history_toggle() {
    assert_eq!(grouped_action(plain('v'), false), Some(Action::ToggleHistoryDisplay), "v opens the group");
    assert_eq!(grouped_action(plain('h'), true), Some(Action::ToggleHidden), "v h shows or hides hidden ancestry");
    assert_eq!(grouped_action(plain('v'), true), Some(Action::ToggleHistoryDisplay), "v again closes the group");
    assert_eq!(grouped_action(plain('h'), false), Some(Action::ScrollLeft), "outside the group h pans");
    assert_eq!(grouped_action(plain('d'), true), Some(Action::ToggleDate));
    let released = Key { code: KeyCode::Char('h'), kind: KeyKind::Release, control: false, shift: false };
    assert_eq!(grouped_action(released, true), None);
}

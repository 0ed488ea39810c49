//! The key and mouse bindings of the view: which action a key press or a scroll asks for.
use vstd::prelude::*;

use crate::app::Action;
use crate::screen::moves_viewport;

verus! {

/// A key as the terminal reports it, by what the bindings look at.
#[derive(Clone, Copy, Debug, PartialEq, Eq, Structural)]
pub enum KeyCode {
    Char(char),
    Tab,
    Enter,
    Esc,
    Up,
    Down,
    PageUp,
    PageDown,
    Home,
    End,
    /// The left or right Shift key on its own.
    Shift,
    /// Any other key.
    Other,
}

/// Whether a key went down, repeats while held, or went up.
#[derive(Clone, Copy, Debug, PartialEq, Eq, Structural)]
pub enum KeyKind {
    Press,
    Repeat,
    Release,
}

/// A key event: the key, its kind and the modifiers held with it.
#[derive(Clone, Copy, Debug, PartialEq, Eq, Structural)]
pub struct Key {
    pub code: KeyCode,
    pub kind: KeyKind,
    pub control: bool,
    pub shift: bool,
}

/// The action bound to a key pressed with the given modifiers. Shift-G and Shift-R are bound for
/// terminals that report shifted letters in lower case, like their upper-case forms; `v` opens and
/// closes the history-display key group.
pub open spec fn bound_action(code: KeyCode, control: bool, shift: bool) -> Option<Action> {
    match code {
        KeyCode::Tab => Some(Action::ToggleChangesFocus),
        KeyCode::Enter => Some(Action::OpenDiff),
        KeyCode::Esc => Some(Action::Cancel),
        KeyCode::Up => Some(Action::MoveUp),
        KeyCode::Down => Some(Action::MoveDown),
        KeyCode::PageUp => Some(Action::PageUp),
        KeyCode::PageDown => Some(Action::PageDown),
        KeyCode::Home => Some(Action::First),
        KeyCode::End => Some(Action::Last),
        KeyCode::Char(c) => {
            if c == 'c' && control {
                Some(Action::ForceQuit)
            } else if c == 'c' {
                Some(Action::ToggleChanges)
            } else if c == 'p' {
                Some(Action::CycleChangesParent)
            } else if c == 'q' {
                Some(Action::Quit)
            } else if c == 'k' {
                Some(Action::MoveUp)
            } else if c == 'j' {
                Some(Action::MoveDown)
            } else if c == 'h' {
                Some(Action::ScrollLeft)
            } else if c == 'l' {
                Some(Action::ScrollRight)
            } else if c == 'b' && control {
                Some(Action::PageUp)
            } else if c == 'f' && control {
                Some(Action::PageDown)
            } else if c == 'u' && control {
                Some(Action::HalfPageUp)
            } else if c == 'd' && control {
                Some(Action::HalfPageDown)
            } else if c == 'g' && shift {
                Some(Action::Last)
            } else if c == 'g' {
                Some(Action::First)
            } else if c == 'G' {
                Some(Action::Last)
            } else if c == 'd' {
                Some(Action::ToggleDate)
            } else if c == 'e' {
                Some(Action::ToggleEmail)
            } else if c == 'n' {
                Some(Action::ToggleName)
            } else if c == 't' {
                Some(Action::ToggleTrailers)
            } else if c == 'm' {
                Some(Action::ToggleMailmap)
            } else if c == 'R' || (c == 'r' && shift) {
                Some(Action::Refresh)
            } else if c == 'r' {
                Some(Action::ToggleRefs)
            } else if c == 's' {
                Some(Action::VerifySignatures)
            } else if c == 'v' {
                Some(Action::ToggleHistoryDisplay)
            } else if c == '[' {
                Some(Action::ToggleAlign)
            } else if c == ']' || c == 'o' {
                Some(Action::ToggleCommit)
            } else if c == 'Y' || (c == 'y' && shift) {
                Some(Action::CopyAuthor)
            } else if c == 'y' {
                Some(Action::Copy)
            } else {
                None
            }
        },
        KeyCode::Shift => None,
        KeyCode::Other => None,
    }
}

/// The action a key event asks for: Shift on its own previews the author copy while it is held; any
/// other released key asks for nothing; a pressed or repeating key asks for its binding.
pub open spec fn key_action(key: Key) -> Option<Action> {
    match key.code {
        KeyCode::Shift => Some(Action::PreviewAuthorCopy(key.kind != KeyKind::Release)),
        _ => if key.kind == KeyKind::Release {
            None
        } else {
            bound_action(key.code, key.control, key.shift)
        },
    }
}

/// The action bound to a character key.
fn char_action(c: char, control: bool, shift: bool) -> (r: Option<Action>)
    ensures
        r == bound_action(KeyCode::Char(c), control, shift),
{
    if c == 'c' && control {
        Some(Action::ForceQuit)
    } else if c == 'c' {
        Some(Action::ToggleChanges)
    } else if c == 'p' {
        Some(Action::CycleChangesParent)
    } else if c == 'q' {
        Some(Action::Quit)
    } else if c == 'k' {
        Some(Action::MoveUp)
    } else if c == 'j' {
        Some(Action::MoveDown)
    } else if c == 'h' {
        Some(Action::ScrollLeft)
    } else if c == 'l' {
        Some(Action::ScrollRight)
    } else if c == 'b' && control {
        Some(Action::PageUp)
    } else if c == 'f' && control {
        Some(Action::PageDown)
    } else if c == 'u' && control {
        Some(Action::HalfPageUp)
    } else if c == 'd' && control {
        Some(Action::HalfPageDown)
    } else if c == 'g' && shift {
        Some(Action::Last)
    } else if c == 'g' {
        Some(Action::First)
    } else if c == 'G' {
        Some(Action::Last)
    } else if c == 'd' {
        Some(Action::ToggleDate)
    } else if c == 'e' {
        Some(Action::ToggleEmail)
    } else if c == 'n' {
        Some(Action::ToggleName)
    } else if c == 't' {
        Some(Action::ToggleTrailers)
    } else if c == 'm' {
        Some(Action::ToggleMailmap)
    } else if c == 'R' || (c == 'r' && shift) {
        Some(Action::Refresh)
    } else if c == 'r' {
        Some(Action::ToggleRefs)
    } else if c == 's' {
        Some(Action::VerifySignatures)
    } else if c == 'v' {
        Some(Action::ToggleHistoryDisplay)
    } else if c == '[' {
        Some(Action::ToggleAlign)
    } else if c == ']' || c == 'o' {
        Some(Action::ToggleCommit)
    } else if c == 'Y' || (c == 'y' && shift) {
        Some(Action::CopyAuthor)
    } else if c == 'y' {
        Some(Action::Copy)
    } else {
        None
    }
}

/// The action a key event asks for.
pub fn action(key: Key) -> (r: Option<Action>)
    ensures
        r == key_action(key),
{
    let released = match key.kind {
        KeyKind::Release => true,
        _ => false,
    };
    match key.code {
        KeyCode::Shift => Some(Action::PreviewAuthorCopy(!released)),
        KeyCode::Tab => if released { None } else { Some(Action::ToggleChangesFocus) },
        KeyCode::Enter => if released { None } else { Some(Action::OpenDiff) },
        KeyCode::Esc => if released { None } else { Some(Action::Cancel) },
        KeyCode::Up => if released { None } else { Some(Action::MoveUp) },
        KeyCode::Down => if released { None } else { Some(Action::MoveDown) },
        KeyCode::PageUp => if released { None } else { Some(Action::PageUp) },
        KeyCode::PageDown => if released { None } else { Some(Action::PageDown) },
        KeyCode::Home => if released { None } else { Some(Action::First) },
        KeyCode::End => if released { None } else { Some(Action::Last) },
        KeyCode::Char(c) => if released { None } else { char_action(c, key.control, key.shift) },
        KeyCode::Other => None,
    }
}

/// The action a key event asks for while the history-display key group is open (`group_open`) or
/// closed: in the open group `h` shows or hides the configured hidden ancestry; every other key,
/// and `h` outside the group, asks for its usual binding.
pub open spec fn grouped_key_action(key: Key, group_open: bool) -> Option<Action> {
    if group_open && key.kind != KeyKind::Release && key.code == KeyCode::Char('h') && !key.control {
        Some(Action::ToggleHidden)
    } else {
        key_action(key)
    }
}

/// The action a key event asks for, given whether the history-display key group is open.
pub fn grouped_action(key: Key, group_open: bool) -> (r: Option<Action>)
    ensures
        r == grouped_key_action(key, group_open),
{
    let released = match key.kind {
        KeyKind::Release => true,
        _ => false,
    };
    let h = match key.code {
        KeyCode::Char(c) => c == 'h',
        _ => false,
    };
    if group_open && !released && h && !key.control {
        Some(Action::ToggleHidden)
    } else {
        action(key)
    }
}

/// The vi keys agree with the arrow keys: a pressed or repeating `k` moves up as Up does and `j`
/// moves down as Down does, `h` and `l` scroll left and right as the mouse wheel does, whatever
/// modifiers are held; `g` without Shift goes to the first row as
/// Home does, `G` to the last as End does, and Ctrl-B and Ctrl-F page as PageUp and PageDown do. A
/// released key of these asks for nothing.
pub proof fn lemma_vi_keys_agree_with_the_arrows(kind: KeyKind, control: bool, shift: bool)
    ensures
        kind != KeyKind::Release ==> {
            &&& key_action(Key { code: KeyCode::Char('k'), kind, control, shift }) == Some(Action::MoveUp)
            &&& key_action(Key { code: KeyCode::Up, kind, control, shift }) == Some(Action::MoveUp)
            &&& key_action(Key { code: KeyCode::Char('j'), kind, control, shift }) == Some(Action::MoveDown)
            &&& key_action(Key { code: KeyCode::Down, kind, control, shift }) == Some(Action::MoveDown)
            &&& key_action(Key { code: KeyCode::End, kind, control, shift }) == Some(Action::Last)
            &&& key_action(Key { code: KeyCode::Char('G'), kind, control, shift }) == Some(Action::Last)
            &&& key_action(Key { code: KeyCode::Home, kind, control, shift }) == Some(Action::First)
            &&& !shift ==> key_action(Key { code: KeyCode::Char('g'), kind, control, shift }) == Some(Action::First)
            &&& key_action(Key { code: KeyCode::PageUp, kind, control, shift }) == Some(Action::PageUp)
            &&& key_action(Key { code: KeyCode::Char('b'), kind, control: true, shift }) == Some(Action::PageUp)
            &&& key_action(Key { code: KeyCode::PageDown, kind, control, shift }) == Some(Action::PageDown)
            &&& key_action(Key { code: KeyCode::Char('f'), kind, control: true, shift }) == Some(Action::PageDown)
            &&& key_action(Key { code: KeyCode::Char('h'), kind, control, shift }) == Some(Action::ScrollLeft)
            &&& key_action(Key { code: KeyCode::Char('l'), kind, control, shift }) == Some(Action::ScrollRight)
        },
        kind == KeyKind::Release ==> {
            &&& key_action(Key { code: KeyCode::Char('k'), kind, control, shift }) is None
            &&& key_action(Key { code: KeyCode::Up, kind, control, shift }) is None
            &&& key_action(Key { code: KeyCode::Char('j'), kind, control, shift }) is None
            &&& key_action(Key { code: KeyCode::Down, kind, control, shift }) is None
        },
{
}

/// A mouse event, by what the bindings look at.
#[derive(Clone, Copy, Debug, PartialEq, Eq, Structural)]
pub enum MouseScroll {
    Up,
    Down,
    Left,
    Right,
    /// Any other mouse event.
    Other,
}

/// The navigation a scroll of the mouse wheel asks for.
pub fn mouse_scroll_action(kind: MouseScroll) -> (r: Option<Action>)
    ensures
        r == match kind {
            MouseScroll::Up => Some(Action::MoveUp),
            MouseScroll::Down => Some(Action::MoveDown),
            MouseScroll::Left => Some(Action::ScrollLeft),
            MouseScroll::Right => Some(Action::ScrollRight),
            MouseScroll::Other => None,
        },
{
    match kind {
        MouseScroll::Up => Some(Action::MoveUp),
        MouseScroll::Down => Some(Action::MoveDown),
        MouseScroll::Left => Some(Action::ScrollLeft),
        MouseScroll::Right => Some(Action::ScrollRight),
        MouseScroll::Other => None,
    }
}

/// The repository that fills in deferred rows is kept between events only while a held key keeps
/// moving the history viewport.
pub fn retains_fill_repository(kind: KeyKind, action: Option<&Action>, changes_focused: bool) -> (r: bool)
    ensures
        r == (!changes_focused && kind == KeyKind::Repeat && match action {
            Some(a) => moves_viewport(*a),
            None => false,
        }),
{
    let repeat = match kind {
        KeyKind::Repeat => true,
        _ => false,
    };
    let moves = match action {
        Some(a) => crate::screen::repeats_viewport(a),
        None => false,
    };
    !changes_focused && repeat && moves
}

} // verus!

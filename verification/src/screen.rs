//! How the view occupies the terminal, and when a frame is drawn.
use vstd::prelude::*;

use crate::app::{Action, App, ChangesView, State, fresh_changes_view};
use crate::author::Author;
use crate::bytes::push_all;

verus! {

/// How the view occupies the terminal.
#[derive(Clone, Copy, Debug, PartialEq, Eq, Structural)]
pub enum Screen {
    /// The main screen for short histories, otherwise the alternate screen.
    Auto,
    /// Always the alternate screen.
    Always,
    /// Half of the main screen.
    Half,
}

impl Default for Screen {
    fn default() -> (s: Screen)
        ensures
            s == Screen::Auto,
    {
        Screen::Auto
    }
}

/// The number of events handled before the event loop draws again while history streams in.
pub const EVENT_BATCH_SIZE: usize = 256;

/// The time between frames while history streams in, in nanoseconds (60 frames a second).
pub const FRAME_INTERVAL_NANOS: u64 = 16_666_667;

/// How long a repeated key may pause before the view counts it as released, in nanoseconds.
pub const REPEAT_IDLE_NANOS: u64 = 75_000_000;

/// Half the terminal height, rounded down, and at least one row.
pub open spec fn half_of(terminal_height: u16) -> u16 {
    if terminal_height / 2 >= 1 {
        (terminal_height / 2) as u16
    } else {
        1
    }
}

/// The rows a short history needs inline: one per commit, two spacers and the footer, saturating at
/// the largest height.
pub open spec fn compact_height(visible_commits: usize) -> u16 {
    let rows: int = if visible_commits > u16::MAX { u16::MAX as int } else { visible_commits as int };
    if rows + 3 > u16::MAX {
        u16::MAX
    } else {
        (rows + 3) as u16
    }
}

/// The inline height for a screen mode, or `None` where the alternate screen is used.
pub open spec fn inline_rows(screen: Screen, terminal_height: u16, visible_commits: usize) -> Option<u16> {
    let half = half_of(terminal_height);
    let compact = compact_height(visible_commits);
    match screen {
        Screen::Always => None,
        Screen::Half => Some(
            if compact <= half {
                compact
            } else {
                half
            },
        ),
        Screen::Auto => if visible_commits < half {
            Some(compact)
        } else {
            None
        },
    }
}

/// Half the terminal height, rounded down, and at least one row.
pub fn half_height(terminal_height: u16) -> (r: u16)
    ensures
        r == half_of(terminal_height),
{
    let half = terminal_height / 2;
    if half >= 1 {
        half
    } else {
        1
    }
}

/// The height of the inline view, or `None` where the history needs the alternate screen.
pub fn inline_height(screen: Screen, terminal_height: u16, visible_commits: usize) -> (r: Option<u16>)
    ensures
        r == inline_rows(screen, terminal_height, visible_commits),
{
    let half = half_height(terminal_height);
    let rows: u16 = if visible_commits > 65535 {
        65535
    } else {
        visible_commits as u16
    };
    let compact: u16 = if rows > 65532 {
        65535
    } else {
        rows + 3
    };
    match screen {
        Screen::Always => None,
        Screen::Half => Some(
            if compact <= half {
                compact
            } else {
                half
            },
        ),
        Screen::Auto => {
            if visible_commits < half as usize {
                Some(compact)
            } else {
                None
            }
        },
    }
}

/// A session that started inline switches screens when the alternate screen becomes needed, or stops
/// being needed.
pub fn should_switch_screen(started_inline: bool, needs_alternate_screen: bool, in_alternate_screen: bool) -> (r: bool)
    ensures
        r == (started_inline && needs_alternate_screen != in_alternate_screen),
{
    started_inline && needs_alternate_screen != in_alternate_screen
}

/// An inline start hides the changes, which only the alternate screen has room for.
pub fn configure_initial_screen(app: &mut App, inline: bool)
    ensures
        *final(app) == (App {
            inline: inline,
            changes_mode: if inline {
                None
            } else {
                old(app).changes_mode
            },
            ..*old(app)
        }),
{
    let cur = app.take();
    let mode = if inline {
        None
    } else {
        cur.changes_mode
    };
    *app = App { inline, changes_mode: mode, ..cur };
}

/// Only the automatic mode moves a history that no longer fits inline to the alternate screen.
pub fn history_needs_alternate_screen(screen: Screen, terminal_height: u16, commits: usize) -> (r: bool)
    ensures
        r == (screen == Screen::Auto && inline_rows(screen, terminal_height, commits).is_none()),
{
    let auto = match screen {
        Screen::Auto => true,
        _ => false,
    };
    auto && inline_height(screen, terminal_height, commits).is_none()
}

/// The alternate screen is needed for an open panel, for a history that outgrew the inline view, or
/// where the current terminal leaves no inline height.
pub fn needs_alternate_screen(
    show_panel: bool,
    history_requires_alternate_screen: bool,
    current_inline_height: Option<u16>,
) -> (r: bool)
    ensures
        r == (show_panel || history_requires_alternate_screen || current_inline_height.is_none()),
{
    show_panel || history_requires_alternate_screen || current_inline_height.is_none()
}

/// Prepares the final inline frame after leaving the alternate screen: the panels that need the
/// alternate screen are closed and only the left selection marker remains.
pub fn prepare_inline_exit(app: &mut App)
    ensures
        *final(app) == (App {
            inline: true,
            show_commit: false,
            changes_mode: None,
            changes_suppressed: false,
            changes_focus: None,
            tree_changes: fresh_changes_view(),
            worktree_changes: fresh_changes_view(),
            show_selection_tail: false,
            ..*old(app)
        }),
{
    let tree = ChangesView::new();
    let worktree = ChangesView::new();
    let cur = app.take();
    *app = App {
        inline: true,
        show_commit: false,
        changes_mode: None,
        changes_suppressed: false,
        changes_focus: None,
        tree_changes: tree,
        worktree_changes: worktree,
        show_selection_tail: false,
        ..cur
    };
}

/// The identity as Git writes it: the name, a space, and the email in angle brackets, copied byte for
/// byte.
pub open spec fn actor(name: Seq<u8>, email: Seq<u8>) -> Seq<u8> {
    name + seq![32u8, 60u8] + email + seq![62u8]
}

/// The bytes of an author identity, copied without validation.
pub fn actor_bytes(author: &Author) -> (r: Vec<u8>)
    ensures
        r@ == actor(author.name@, author.email@),
{
    let mut out: Vec<u8> = Vec::new();
    push_all(&mut out, author.name.as_slice());
    out.push(32u8);
    out.push(60u8);
    push_all(&mut out, author.email.as_slice());
    out.push(62u8);
    assert(out@ =~= actor(author.name@, author.email@));
    out
}

/// A dirty frame is drawn at once while idle, and at the frame deadline while history streams in.
pub fn should_draw(dirty: bool, streaming: bool, since_draw_nanos: u64) -> (r: bool)
    ensures
        r == (dirty && (!streaming || since_draw_nanos >= FRAME_INTERVAL_NANOS)),
{
    dirty && (!streaming || since_draw_nanos >= FRAME_INTERVAL_NANOS)
}

/// The history is drawn once a commit arrived or loading ended.
pub fn history_is_ready_to_draw(state: State, commits: usize) -> (r: bool)
    ensures
        r == (commits != 0 || state != State::Loading),
{
    let loading = match state {
        State::Loading => true,
        _ => false,
    };
    commits != 0 || !loading
}

/// The frame deadline while history streams in: none after a full batch of events, the rest of the
/// frame interval for a dirty frame, a whole interval otherwise.
pub open spec fn frame_timeout(streaming: bool, events: usize, dirty: bool, since_draw_nanos: u64) -> Option<u64> {
    if !streaming {
        None
    } else if events == EVENT_BATCH_SIZE {
        Some(0)
    } else if dirty {
        Some(
            if since_draw_nanos >= FRAME_INTERVAL_NANOS {
                0
            } else {
                (FRAME_INTERVAL_NANOS - since_draw_nanos) as u64
            },
        )
    } else {
        Some(FRAME_INTERVAL_NANOS)
    }
}

/// How long the event loop waits for input, in nanoseconds: the earlier of the frame deadline and the
/// requested wake-up, or indefinitely where there is neither.
pub fn poll_timeout(
    streaming: bool,
    events: usize,
    dirty: bool,
    since_draw_nanos: u64,
    wake_after_nanos: Option<u64>,
) -> (r: Option<u64>)
    ensures
        r == match (frame_timeout(streaming, events, dirty, since_draw_nanos), wake_after_nanos) {
            (Some(frame), Some(wake)) => Some(
                if frame <= wake {
                    frame
                } else {
                    wake
                },
            ),
            (Some(frame), None) => Some(frame),
            (None, wake) => wake,
        },
{
    let frame: Option<u64> = if !streaming {
        None
    } else if events == EVENT_BATCH_SIZE {
        Some(0)
    } else if dirty {
        Some(FRAME_INTERVAL_NANOS.saturating_sub(since_draw_nanos))
    } else {
        Some(FRAME_INTERVAL_NANOS)
    };
    match (frame, wake_after_nanos) {
        (Some(frame), Some(wake)) => Some(
            if frame <= wake {
                frame
            } else {
                wake
            },
        ),
        (Some(frame), None) => Some(frame),
        (None, wake) => wake,
    }
}

/// Actions that move through the history by rows or pages.
pub open spec fn moves_viewport(action: Action) -> bool {
    ||| action is MoveUp
    ||| action is MoveDown
    ||| action is HalfPageUp
    ||| action is HalfPageDown
    ||| action is PageUp
    ||| action is PageDown
    ||| action is First
    ||| action is Last
}

/// Whether a held key repeating `action` keeps scrolling the viewport.
pub fn repeats_viewport(action: &Action) -> (r: bool)
    ensures
        r == moves_viewport(*action),
{
    match action {
        Action::MoveUp | Action::MoveDown | Action::HalfPageUp | Action::HalfPageDown | Action::PageUp
        | Action::PageDown | Action::First | Action::Last => true,
        _ => false,
    }
}

/// How soon a pager may exit before its output is taken to need acknowledgement, in nanoseconds.
pub const IMMEDIATE_PAGER_EXIT_NANOS: u64 = 250_000_000;

/// A pager that exits at once probably printed into a screen the view is about to redraw, so the user
/// is asked to acknowledge its output first.
pub fn pager_needs_acknowledgement(elapsed_nanos: u64) -> (r: bool)
    ensures
        r == (elapsed_nanos <= IMMEDIATE_PAGER_EXIT_NANOS),
{
    elapsed_nanos <= IMMEDIATE_PAGER_EXIT_NANOS
}

} // verus!

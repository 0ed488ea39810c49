//! The footer of the history view and the status line of a focused change pane: what the view
//! shows and which keys do what.
use vstd::prelude::*;
use vstd::string::StringSliceAdditionalSpecFns;

use crate::app::{App, ChangePane, Changes, ChangesMode, NameMode, RefMode, State};
use crate::bytes::{copy_bytes, push_all};
use crate::look::{Look, Piece, PieceView, Tint, color, piece_views, plain, plain_look, raw, tinted, toggle};
use crate::position::{decimal, history_position, position_text, push_decimal, reported_state};
use crate::summary::{push_piece, short_hex, short_hex_of};

verus! {

/// A label drawn dimmed while what it names is switched off.
pub open spec fn toggled(label: Seq<u8>, enabled: bool) -> PieceView {
    PieceView { text: label, look: Look { dim: !enabled, ..plain() } }
}

/// A separating dot, then a toggle.
pub open spec fn dotted(label: Seq<u8>, enabled: bool) -> Seq<PieceView> {
    seq![raw(" · ".spec_bytes()), toggled(label, enabled)]
}

/// What the footer adds to the position for a history phase.
pub open spec fn status_text(s: State) -> Seq<u8> {
    match s {
        State::Cancelling => " · cancelling".spec_bytes(),
        State::Computing => " · computing".spec_bytes(),
        State::Cancelled => " · cancelled".spec_bytes(),
        _ => Seq::empty(),
    }
}

/// The footer's navigation part: the position and phase, the movement keys, and the keys for the
/// diff, the panes and leaving them.
#[verifier::opaque]
pub open spec fn navigation_pieces(a: App) -> Seq<PieceView> {
    seq![raw(position_text(a) + status_text(reported_state(a)) + " · ↑↓/jk move · h/l pan".spec_bytes())] + (
    if a.changes_focus is None {
        seq![raw(" · Enter diff".spec_bytes())]
    } else {
        Seq::empty()
    }) + (if a.tree_changes_visible || a.worktree_changes_visible {
        seq![
            raw(match a.focus_feedback {
                Some(destination) => " · Tab → ".spec_bytes() + destination.spec_bytes(),
                None => " · Tab switch".spec_bytes(),
            }),
        ]
    } else {
        Seq::empty()
    }) + (if a.changes_focus is Some {
        seq![raw(" · q/Esc history".spec_bytes())]
    } else {
        Seq::empty()
    })
}

/// The label of the names toggle and whether names are shown.
pub open spec fn name_toggle(mode: NameMode) -> (Seq<u8>, bool) {
    match mode {
        NameMode::All => ("n names".spec_bytes(), true),
        NameMode::Author => ("n name".spec_bytes(), true),
        NameMode::Off => ("n name".spec_bytes(), false),
    }
}

/// The label of the references toggle.
pub open spec fn ref_label(mode: RefMode) -> Seq<u8> {
    match mode {
        RefMode::All => "r all refs".spec_bytes(),
        RefMode::Default => "r refs".spec_bytes(),
        RefMode::Off => "r no refs".spec_bytes(),
    }
}

/// The footer's toggles: alignment, commit pane and change panes, then, while the display group
/// is expanded, date, emails, names, mailmap, trailers, references and the hidden history where
/// some is hidden; otherwise the key that expands the group.
#[verifier::opaque]
pub open spec fn toggle_pieces(a: App) -> Seq<PieceView> {
    dotted("[ align".spec_bytes(), a.align_metadata) + dotted("o commit".spec_bytes(), a.show_commit) + dotted(
        "c changes".spec_bytes(),
        a.changes_mode is Some,
    ) + if a.history_display_expanded {
        display_pieces(a)
    } else {
        seq![raw(" · v view".spec_bytes())]
    }
}

/// A disk in a colour.
pub open spec fn disk(t: Tint) -> PieceView {
    PieceView { text: "●".spec_bytes(), look: tinted(t) }
}

/// The footer's actions: refresh while the author copy is previewed and refreshing is manual,
/// copying, the signatures to verify or that failed, and cancelling and quitting from the history.
#[verifier::opaque]
pub open spec fn action_pieces(a: App, has_verifiable_signatures: bool) -> Seq<PieceView> {
    let state = reported_state(a);
    (if a.preview_author_copy && a.manual_refresh {
        dotted("R refresh".spec_bytes(), state == State::Complete || state == State::Cancelled)
    } else {
        Seq::empty()
    }) + seq![
        raw(if a.preview_author_copy {
            " · Y copy author".spec_bytes()
        } else {
            " · y copy".spec_bytes()
        }),
    ] + (if a.signature_failures > 0 {
        seq![raw(" · s ".spec_bytes() + decimal(a.signature_failures as nat) + " ".spec_bytes()), disk(Tint::LightRed)]
    } else if has_verifiable_signatures {
        seq![raw(" · s ".spec_bytes()), disk(Tint::Orange), raw(" -> ".spec_bytes()), disk(Tint::Green)]
    } else {
        Seq::empty()
    }) + if a.changes_focus is None {
        (if state == State::Loading {
            seq![raw(" · Esc cancel".spec_bytes())]
        } else {
            Seq::empty()
        }) + seq![raw(" · q quit".spec_bytes())]
    } else {
        Seq::empty()
    }
}

/// The footer: a notice where there is one, else the navigation, the toggles and the actions.
pub open spec fn footer_pieces(a: App, has_verifiable_signatures: bool) -> Seq<PieceView> {
    match a.notice {
        Some(notice) => seq![raw(vstd::utf8::encode_utf8(notice@))],
        None => navigation_pieces(a) + toggle_pieces(a) + action_pieces(a, has_verifiable_signatures),
    }
}

/// Appends an unstyled piece of text.
fn push_raw(spans: &mut Vec<Piece>, text: &[u8])
    ensures
        piece_views(final(spans)@) == piece_views(old(spans)@).push(raw(text@)),
{
    push_piece(spans, Piece { text: copy_bytes(text), look: plain_look() });
}

/// Appends a separating dot and a toggle.
fn push_dotted(spans: &mut Vec<Piece>, label: &[u8], enabled: bool)
    ensures
        piece_views(final(spans)@) == piece_views(old(spans)@) + dotted(label@, enabled),
{
    push_raw(spans, " · ".as_bytes());
    push_piece(spans, toggle(label, enabled));
    assert(piece_views(spans@) =~= piece_views(old(spans)@) + dotted(label@, enabled));
}

/// The phase of the history that the footer reports.
fn reported(app: &App) -> (s: State)
    ensures
        s == reported_state(*app),
{
    match app.deferred_history_state {
        Some(s) => s,
        None => app.state,
    }
}

/// Appends the navigation part of the footer.
#[verifier::rlimit(60)]
fn push_navigation(spans: &mut Vec<Piece>, app: &App)
    ensures
        piece_views(final(spans)@) == piece_views(old(spans)@) + navigation_pieces(*app),
{
    reveal(navigation_pieces);
    let mut text = history_position(app);
    match reported(app) {
        State::Cancelling => push_all(&mut text, " · cancelling".as_bytes()),
        State::Computing => push_all(&mut text, " · computing".as_bytes()),
        State::Cancelled => push_all(&mut text, " · cancelled".as_bytes()),
        _ => {},
    }
    assert(text@ =~= position_text(*app) + status_text(reported_state(*app)));
    push_all(&mut text, " · ↑↓/jk move · h/l pan".as_bytes());
    push_piece(spans, Piece { text, look: plain_look() });
    let ghost first = piece_views(spans@);
    if app.changes_focus.is_none() {
        push_raw(spans, " · Enter diff".as_bytes());
    }
    let ghost second = piece_views(spans@);
    if app.tree_changes_visible || app.worktree_changes_visible {
        match app.focus_feedback {
            Some(destination) => {
                let mut t = copy_bytes(" · Tab → ".as_bytes());
                push_all(&mut t, destination.as_bytes());
                push_piece(spans, Piece { text: t, look: plain_look() });
            },
            None => push_raw(spans, " · Tab switch".as_bytes()),
        }
    }
    let ghost third = piece_views(spans@);
    if app.changes_focus.is_some() {
        push_raw(spans, " · q/Esc history".as_bytes());
    }
    assert(piece_views(spans@) =~= piece_views(old(spans)@) + navigation_pieces(*app));
}

/// The toggles of the expanded display group.
#[verifier::opaque]
pub open spec fn display_pieces(a: App) -> Seq<PieceView> {
    display_toggles(
        a.show_committer_date,
        a.show_emails,
        a.name_mode,
        a.use_mailmap,
        a.show_trailers,
        a.ref_mode,
        a.has_hidden_filter,
        a.show_hidden,
    )
}

/// The toggles of the expanded display group: date, emails, names, mailmap, trailers,
/// references, and the hidden history where some is hidden.
pub open spec fn display_toggles(
    date: bool,
    emails: bool,
    name_mode: NameMode,
    mailmap: bool,
    trailers: bool,
    ref_mode: RefMode,
    hidden_filter: bool,
    show_hidden: bool,
) -> Seq<PieceView> {
    identity_toggles(date, emails, name_mode, mailmap) + detail_toggles(trailers, ref_mode, hidden_filter, show_hidden)
}

/// The toggles of date, emails, names and mailmap.
pub open spec fn identity_toggles(date: bool, emails: bool, name_mode: NameMode, mailmap: bool) -> Seq<PieceView> {
    dotted("d date".spec_bytes(), date) + dotted("e emails".spec_bytes(), emails) + dotted(
        name_toggle(name_mode).0,
        name_toggle(name_mode).1,
    ) + dotted("m mailmap".spec_bytes(), mailmap)
}

/// The toggles of trailers and references, and of the hidden history where some is hidden.
pub open spec fn detail_toggles(trailers: bool, ref_mode: RefMode, hidden_filter: bool, show_hidden: bool) -> Seq<PieceView> {
    dotted("t trailers".spec_bytes(), trailers) + dotted(ref_label(ref_mode), ref_mode != RefMode::Off) + if hidden_filter {
        dotted(
            if show_hidden {
                "h hide hidden".spec_bytes()
            } else {
                "h show hidden".spec_bytes()
            },
            show_hidden,
        )
    } else {
        Seq::empty()
    }
}

/// Appends the toggles of date, emails, names and mailmap.
fn push_identity_toggles(spans: &mut Vec<Piece>, date: bool, emails: bool, name_mode: NameMode, mailmap: bool)
    ensures
        piece_views(final(spans)@) == piece_views(old(spans)@) + identity_toggles(date, emails, name_mode, mailmap),
{
    let ghost s0 = piece_views(spans@);
    push_dotted(spans, "d date".as_bytes(), date);
    let ghost s1 = piece_views(spans@);
    push_dotted(spans, "e emails".as_bytes(), emails);
    let ghost s2 = piece_views(spans@);
    match name_mode {
        NameMode::All => push_dotted(spans, "n names".as_bytes(), true),
        NameMode::Author => push_dotted(spans, "n name".as_bytes(), true),
        NameMode::Off => push_dotted(spans, "n name".as_bytes(), false),
    }
    let ghost s3 = piece_views(spans@);
    push_dotted(spans, "m mailmap".as_bytes(), mailmap);
    assert(piece_views(spans@) =~= s0 + identity_toggles(date, emails, name_mode, mailmap));
}

/// Appends the toggles of trailers and references, and of the hidden history where some is
/// hidden.
fn push_detail_toggles(spans: &mut Vec<Piece>, trailers: bool, ref_mode: RefMode, hidden_filter: bool, show_hidden: bool)
    ensures
        piece_views(final(spans)@) == piece_views(old(spans)@) + detail_toggles(trailers, ref_mode, hidden_filter, show_hidden),
{
    let ghost s0 = piece_views(spans@);
    push_dotted(spans, "t trailers".as_bytes(), trailers);
    let ghost s1 = piece_views(spans@);
    let refs_shown = match ref_mode {
        RefMode::Off => false,
        _ => true,
    };
    match ref_mode {
        RefMode::All => push_dotted(spans, "r all refs".as_bytes(), refs_shown),
        RefMode::Default => push_dotted(spans, "r refs".as_bytes(), refs_shown),
        RefMode::Off => push_dotted(spans, "r no refs".as_bytes(), refs_shown),
    }
    let ghost s2 = piece_views(spans@);
    if hidden_filter {
        if show_hidden {
            push_dotted(spans, "h hide hidden".as_bytes(), show_hidden);
        } else {
            push_dotted(spans, "h show hidden".as_bytes(), show_hidden);
        }
    }
    assert(piece_views(spans@) =~= s0 + detail_toggles(trailers, ref_mode, hidden_filter, show_hidden));
}

/// Appends the toggles of the footer.
#[verifier::rlimit(60)]
fn push_toggles(spans: &mut Vec<Piece>, app: &App)
    ensures
        piece_views(final(spans)@) == piece_views(old(spans)@) + toggle_pieces(*app),
{
    reveal(toggle_pieces);
    reveal(display_pieces);
    let ghost s0 = piece_views(spans@);
    push_dotted(spans, "[ align".as_bytes(), app.align_metadata);
    push_dotted(spans, "o commit".as_bytes(), app.show_commit);
    push_dotted(spans, "c changes".as_bytes(), app.changes_mode.is_some());
    let ghost fixed = piece_views(spans@);
    assert(fixed =~= s0 + dotted("[ align".spec_bytes(), app.align_metadata) + dotted("o commit".spec_bytes(), app.show_commit)
        + dotted("c changes".spec_bytes(), app.changes_mode is Some));
    if app.history_display_expanded {
        push_identity_toggles(spans, app.show_committer_date, app.show_emails, app.name_mode, app.use_mailmap);
        push_detail_toggles(spans, app.show_trailers, app.ref_mode, app.has_hidden_filter, app.show_hidden);
    } else {
        push_raw(spans, " · v view".as_bytes());
    }
    assert(piece_views(spans@) =~= fixed + if app.history_display_expanded {
        display_pieces(*app)
    } else {
        seq![raw(" · v view".spec_bytes())]
    });
    assert(piece_views(spans@) =~= s0 + toggle_pieces(*app));
}

/// Appends a disk in a colour.
fn push_disk(spans: &mut Vec<Piece>, t: Tint)
    ensures
        piece_views(final(spans)@) == piece_views(old(spans)@).push(disk(t)),
{
    push_piece(spans, Piece { text: copy_bytes("●".as_bytes()), look: color(t) });
}

/// Appends the actions of the footer.
#[verifier::rlimit(60)]
fn push_actions(spans: &mut Vec<Piece>, app: &App, has_verifiable_signatures: bool)
    ensures
        piece_views(final(spans)@) == piece_views(old(spans)@) + action_pieces(*app, has_verifiable_signatures),
{
    reveal(action_pieces);
    let state = reported(app);
    let settled = match state {
        State::Complete | State::Cancelled => true,
        _ => false,
    };
    if app.preview_author_copy && app.manual_refresh {
        push_dotted(spans, "R refresh".as_bytes(), settled);
    }
    let ghost refreshed = piece_views(spans@);
    if app.preview_author_copy {
        push_raw(spans, " · Y copy author".as_bytes());
    } else {
        push_raw(spans, " · y copy".as_bytes());
    }
    let ghost copied = piece_views(spans@);
    if app.signature_failures > 0 {
        let mut t = copy_bytes(" · s ".as_bytes());
        push_decimal(&mut t, app.signature_failures);
        push_all(&mut t, " ".as_bytes());
        push_piece(spans, Piece { text: t, look: plain_look() });
        push_disk(spans, Tint::LightRed);
    } else if has_verifiable_signatures {
        push_raw(spans, " · s ".as_bytes());
        push_disk(spans, Tint::Orange);
        push_raw(spans, " -> ".as_bytes());
        push_disk(spans, Tint::Green);
    }
    let ghost signed = piece_views(spans@);
    if app.changes_focus.is_none() {
        let loading = match state {
            State::Loading => true,
            _ => false,
        };
        if loading {
            push_raw(spans, " · Esc cancel".as_bytes());
        }
        push_raw(spans, " · q quit".as_bytes());
    }
    assert(piece_views(spans@) =~= piece_views(old(spans)@) + action_pieces(*app, has_verifiable_signatures));
}

/// The footer of the history view, `has_verifiable_signatures` telling whether a visible row
/// has a signature to verify.
pub fn footer_line(app: &App, has_verifiable_signatures: bool) -> (r: Vec<Piece>)
    ensures
        piece_views(r@) == footer_pieces(*app, has_verifiable_signatures),
{
    let mut spans: Vec<Piece> = Vec::new();
    match &app.notice {
        Some(notice) => {
            push_raw(&mut spans, notice.as_str().as_bytes());
        },
        None => {
            push_navigation(&mut spans, app);
            push_toggles(&mut spans, app);
            push_actions(&mut spans, app, has_verifiable_signatures);
            assert(piece_views(spans@) =~= footer_pieces(*app, has_verifiable_signatures));
        },
    }
    spans
}

impl App {
    /// Forgets the destination of the last focus switch once the footer has shown it beside the
    /// change panes, so that it is shown once.
    pub fn settle_focus_feedback(&mut self)
        ensures
            final(self).focus_feedback == (if old(self).tree_changes_visible || old(self).worktree_changes_visible {
                None
            } else {
                old(self).focus_feedback
            }),
            *final(self) == (App { focus_feedback: final(self).focus_feedback, ..*old(self) }),
    {
        if self.tree_changes_visible || self.worktree_changes_visible {
            self.focus_feedback = None;
        }
    }
}

/// The status line of the focused change pane `pane` showing `changes`: the compared parent of
/// a commit with the key for the next, the error of its diff or its movement keys, copying, and
/// the key that cycles the change panes.
pub open spec fn pane_status_pieces(a: App, pane: ChangePane, changes: Changes) -> Seq<PieceView> {
    let error = match pane {
        ChangePane::Tree => a.tree_changes.error,
        ChangePane::Worktree => a.worktree_changes.error,
    };
    (match (pane, changes.parent) {
        (ChangePane::Tree, Some(p)) => seq![
            PieceView {
                text: "vs parent ".spec_bytes() + decimal((p.index + 1) as nat) + "/".spec_bytes() + decimal(p.total as nat)
                    + " ".spec_bytes() + short_hex(p.id),
                look: tinted(Tint::Cyan),
            },
            raw(" · p next parent · ".spec_bytes()),
        ],
        _ => Seq::empty(),
    }) + seq![
        match error {
            Some(e) => PieceView { text: "diff: ".spec_bytes() + vstd::utf8::encode_utf8(e@), look: tinted(Tint::LightRed) },
            None => raw("↑↓/jk move · h/l pan · Enter diff".spec_bytes()),
        },
        raw(" · y copy".spec_bytes()),
        raw(match a.changes_mode {
            Some(ChangesMode::Both) => " · c tree".spec_bytes(),
            Some(ChangesMode::Tree) => " · c to hide".spec_bytes(),
            None => Seq::empty(),
        }),
    ]
}

/// The status line of the focused change pane `pane` showing `changes`.
pub fn pane_status(app: &App, pane: ChangePane, changes: &Changes) -> (r: Vec<Piece>)
    requires
        match changes.parent {
            Some(p) => p.index < usize::MAX,
            None => true,
        },
    ensures
        piece_views(r@) == pane_status_pieces(*app, pane, *changes),
{
    let mut spans: Vec<Piece> = Vec::new();
    match (pane, changes.parent) {
        (ChangePane::Tree, Some(p)) => {
            let mut text = copy_bytes("vs parent ".as_bytes());
            push_decimal(&mut text, p.index + 1);
            push_all(&mut text, "/".as_bytes());
            push_decimal(&mut text, p.total);
            push_all(&mut text, " ".as_bytes());
            let hex = short_hex_of(p.id);
            push_all(&mut text, hex.as_slice());
            push_piece(&mut spans, Piece { text, look: color(Tint::Cyan) });
            push_raw(&mut spans, " · p next parent · ".as_bytes());
        },
        _ => {},
    }
    let ghost head = piece_views(spans@);
    let error = match pane {
        ChangePane::Tree => &app.tree_changes.error,
        ChangePane::Worktree => &app.worktree_changes.error,
    };
    match error {
        Some(e) => {
            let mut text = copy_bytes("diff: ".as_bytes());
            push_all(&mut text, e.as_str().as_bytes());
            push_piece(&mut spans, Piece { text, look: color(Tint::LightRed) });
        },
        None => push_raw(&mut spans, "↑↓/jk move · h/l pan · Enter diff".as_bytes()),
    }
    push_raw(&mut spans, " · y copy".as_bytes());
    match app.changes_mode {
        Some(ChangesMode::Both) => push_raw(&mut spans, " · c tree".as_bytes()),
        Some(ChangesMode::Tree) => push_raw(&mut spans, " · c to hide".as_bytes()),
        None => {
            push_piece(&mut spans, Piece { text: Vec::new(), look: plain_look() });
        },
    }
    assert(piece_views(spans@) =~= pane_status_pieces(*app, pane, *changes));
    spans
}

} // verus!

//! What a change pane shows: a line per changed path, the window of them that fits, and a note on
//! the paths below it; laying a pane out also records its bounds for navigation.
use vstd::prelude::*;
use vstd::string::StringSliceAdditionalSpecFns;

use crate::app::{App, ChangePane, Changes, ChangesView, PathChange, sat_add, sat_sub};
use crate::bytes::{copy_bytes, push_all};
use crate::diffstat::{display_width, text_width};
use crate::look::{Look, Piece, PieceView, Tint, color, path_change_color, path_tint, piece_views, plain, plain_look, raw, tinted};
use crate::panes::pane_bounded;
use crate::position::{decimal, push_decimal, push_decimal_u64};
use crate::summary::{kind_letter, letter_of, push_piece};

verus! {

/// The look of a path: reversed where it is selected.
pub open spec fn path_look(selected: bool) -> Look {
    if selected {
        Look { reversed: true, ..plain() }
    } else {
        plain()
    }
}

/// The added and removed lines of a path, each after a space where it is not zero.
pub open spec fn line_marks(lines: Option<(u32, u32)>) -> Seq<PieceView> {
    match lines {
        Some((added, removed)) => (if added > 0 {
            seq![raw(" ".spec_bytes()), PieceView { text: seq![43u8] + decimal(added as nat), look: tinted(Tint::Green) }]
        } else {
            Seq::empty()
        }) + (if removed > 0 {
            seq![raw(" ".spec_bytes()), PieceView { text: seq![45u8] + decimal(removed as nat), look: tinted(Tint::LightRed) }]
        } else {
            Seq::empty()
        }),
        None => Seq::empty(),
    }
}

/// The line of a changed path: the letter of its kind in its colour, a space, its source and path
/// joined by an arrow (reversed where it is selected), and, where it is selected, its added and
/// removed lines.
pub open spec fn change_pieces(c: PathChange, selected: bool) -> Seq<PieceView> {
    let l = path_look(selected);
    seq![PieceView { text: seq![kind_letter(c.kind)], look: tinted(path_tint(c)) }, raw(" ".spec_bytes())] + match c.source {
        Some(source) => seq![
            PieceView { text: source@, look: l },
            PieceView { text: " -> ".spec_bytes(), look: l },
            PieceView { text: c.path@, look: l },
        ],
        None => seq![PieceView { text: c.path@, look: l }],
    } + if selected {
        line_marks(c.lines)
    } else {
        Seq::empty()
    }
}

/// The columns a line takes on the terminal.
pub open spec fn line_width(pieces: Seq<PieceView>) -> nat
    decreases pieces.len(),
{
    if pieces.len() == 0 {
        0
    } else {
        line_width(pieces.drop_last()) + text_width(pieces.last().text)
    }
}

/// `n`, or the largest `usize` where it does not fit.
pub open spec fn capped(n: nat) -> usize {
    if n <= usize::MAX {
        n as usize
    } else {
        usize::MAX
    }
}

/// The lines of all changed paths, `selected` marking the selected one.
pub open spec fn change_lines(paths: Seq<PathChange>, focused: bool, selected: int) -> Seq<Seq<PieceView>> {
    Seq::new(paths.len(), |i: int| change_pieces(paths[i], focused && i == selected))
}

/// The widest of `lines`, each capped to a `usize`.
pub open spec fn widest(lines: Seq<Seq<PieceView>>) -> usize
    decreases lines.len(),
{
    if lines.len() == 0 {
        0
    } else {
        let rest = widest(lines.drop_last());
        let w = capped(line_width(lines.last()));
        if w >= rest {
            w
        } else {
            rest
        }
    }
}

/// The paths that a pane of `capacity` rows shows at once: all that fit, or one fewer to leave a
/// row for the note where more than one path does not fit.
pub open spec fn visible_paths(len: usize, capacity: usize) -> usize {
    if len > 1 && len > capacity {
        sat_sub(capacity, 1)
    } else if capacity <= len {
        capacity
    } else {
        len
    }
}

/// The navigation state of `pane`.
pub open spec fn pane_state(a: App, pane: ChangePane) -> ChangesView {
    match pane {
        ChangePane::Tree => a.tree_changes,
        ChangePane::Worktree => a.worktree_changes,
    }
}

/// The lines `offset..offset + count` of `lines`, as far as there are any.
pub open spec fn window<T>(lines: Seq<T>, offset: usize, count: usize) -> Seq<T> {
    let start = if offset <= lines.len() {
        offset as int
    } else {
        lines.len() as int
    };
    let end = if offset + count <= lines.len() {
        offset + count
    } else {
        lines.len() as int
    };
    lines.subrange(start, end)
}

/// The note on the paths below the window: an ellipsis, how many, and `line` or `lines`.
pub open spec fn hidden_note(hidden: usize) -> PieceView {
    PieceView {
        text: seq![0xE2u8, 0x80u8, 0xA6u8, 32u8] + decimal(hidden as nat) + if hidden == 1 {
            " line not shown".spec_bytes()
        } else {
            " lines not shown".spec_bytes()
        },
        look: Look { dim: true, ..plain() },
    }
}

/// What a change pane draws: the window of path lines, the note on the paths below it, and how
/// many paths it shows at once.
pub struct ChangesFrame {
    pub lines: Vec<Vec<Piece>>,
    pub hidden: Option<Piece>,
    pub visible_paths: usize,
}

/// The values of lines of pieces.
pub open spec fn lines_view(lines: Seq<Vec<Piece>>) -> Seq<Seq<PieceView>> {
    lines.map_values(|l: Vec<Piece>| piece_views(l@))
}

/// Appends `p`, after a space.
fn push_mark(line: &mut Vec<Piece>, sign: u8, n: u32, t: Tint)
    ensures
        piece_views(final(line)@) == piece_views(old(line)@) + seq![
            raw(" ".spec_bytes()),
            PieceView { text: seq![sign] + decimal(n as nat), look: tinted(t) },
        ],
{
    push_piece(line, Piece { text: copy_bytes(" ".as_bytes()), look: plain_look() });
    let mut text: Vec<u8> = Vec::new();
    text.push(sign);
    push_decimal_u64(&mut text, n as u64);
    assert(text@ =~= seq![sign] + decimal(n as nat));
    push_piece(line, Piece { text, look: color(t) });
    assert(piece_views(line@) =~= piece_views(old(line)@) + seq![
        raw(" ".spec_bytes()),
        PieceView { text: seq![sign] + decimal(n as nat), look: tinted(t) },
    ]);
}

/// The line of a changed path.
pub fn change_line(c: &PathChange, selected: bool) -> (r: Vec<Piece>)
    ensures
        piece_views(r@) == change_pieces(*c, selected),
{
    let l = Look { fg: None, bold: false, dim: false, italic: false, reversed: selected, undimmed: false };
    let mut line: Vec<Piece> = Vec::new();
    let mut letter: Vec<u8> = Vec::new();
    letter.push(letter_of(c.kind));
    assert(letter@ =~= seq![kind_letter(c.kind)]);
    push_piece(&mut line, Piece { text: letter, look: color(path_change_color(c)) });
    push_piece(&mut line, Piece { text: copy_bytes(" ".as_bytes()), look: plain_look() });
    match &c.source {
        Some(source) => {
            push_piece(&mut line, Piece { text: copy_bytes(source.as_slice()), look: l });
            push_piece(&mut line, Piece { text: copy_bytes(" -> ".as_bytes()), look: l });
            push_piece(&mut line, Piece { text: copy_bytes(c.path.as_slice()), look: l });
        },
        None => {
            push_piece(&mut line, Piece { text: copy_bytes(c.path.as_slice()), look: l });
        },
    }
    let ghost named = piece_views(line@);
    if selected {
        match c.lines {
            Some((added, removed)) => {
                if added > 0 {
                    push_mark(&mut line, 43u8, added, Tint::Green);
                }
                let ghost after_added = piece_views(line@);
                if removed > 0 {
                    push_mark(&mut line, 45u8, removed, Tint::LightRed);
                }
                assert(piece_views(line@) =~= named + line_marks(c.lines));
            },
            None => {
                assert(piece_views(line@) =~= named + line_marks(c.lines));
            },
        }
    }
    assert(piece_views(line@) =~= change_pieces(*c, selected));
    line
}

/// The columns a line takes on the terminal, or the largest `usize` where that does not fit.
fn measure(line: &Vec<Piece>) -> (r: usize)
    ensures
        r == capped(line_width(piece_views(line@))),
{
    let ghost ps = piece_views(line@);
    let mut total: usize = 0;
    let mut full = false;
    let mut i: usize = 0;
    while i < line.len()
        invariant
            i <= line@.len(),
            ps == piece_views(line@),
            full ==> line_width(ps.take(i as int)) > usize::MAX && total == usize::MAX,
            !full ==> total == line_width(ps.take(i as int)),
        decreases line@.len() - i,
    {
        assert(ps.take(i + 1).drop_last() =~= ps.take(i as int));
        let w = display_width(line[i].text.as_slice());
        if !full {
            if w <= usize::MAX - total {
                total = total + w;
            } else {
                total = usize::MAX;
                full = true;
            }
        }
        i += 1;
    }
    assert(ps.take(i as int) =~= ps);
    total
}

/// The note on the paths below the window.
fn note(hidden: usize) -> (p: Piece)
    ensures
        p@ == hidden_note(hidden),
{
    let mut text: Vec<u8> = Vec::new();
    text.push(0xE2u8);
    text.push(0x80u8);
    text.push(0xA6u8);
    text.push(32u8);
    push_decimal(&mut text, hidden);
    if hidden == 1 {
        push_all(&mut text, " line not shown".as_bytes());
    } else {
        push_all(&mut text, " lines not shown".as_bytes());
    }
    assert(text@ =~= hidden_note(hidden).text);
    Piece { text, look: Look { fg: None, bold: false, dim: true, italic: false, reversed: false, undimmed: false } }
}

/// The selected path of `pane` in `a`, within the `len` paths.
pub open spec fn selected_path(a: App, pane: ChangePane, len: usize) -> usize {
    let selected = pane_state(a, pane).selected;
    let last = sat_sub(len, 1);
    if selected <= last {
        selected
    } else {
        last
    }
}

/// A pane of `width` by `height` cells laid out `changes`, taking `a` to `b` and drawing `r`: an
/// empty pane records no paths and draws nothing; any other records the paths it shows at once,
/// the number of paths and how far the widest line reaches past its width, and draws the window
/// of path lines at the recorded offset, with a note where more than one path does not fit and
/// some lie below the window.
pub open spec fn laid_out(a: App, b: App, pane: ChangePane, changes: Changes, width: u16, height: u16, r: ChangesFrame) -> bool {
    if height == 0 {
        &&& pane_bounded(a, b, pane, 0, 0, width as usize, 0)
        &&& r.lines@.len() == 0
        &&& r.hidden is None
        &&& r.visible_paths == 0
    } else {
        let len = changes.paths@.len() as usize;
        let all = change_lines(changes.paths@, a.changes_focus == Some(pane), selected_path(a, pane, len) as int);
        let visible = visible_paths(len, height as usize);
        let offset = pane_state(b, pane).offset;
        let hidden = sat_sub(len, sat_add(offset, visible));
        let noted = len > 1 && len > height && hidden > 0;
        &&& pane_bounded(a, b, pane, visible, len, width as usize, sat_sub(widest(all), width as usize))
        &&& lines_view(r.lines@) == window(all, offset, visible)
        &&& r.visible_paths == visible
        &&& match r.hidden {
            Some(p) => noted && p@ == hidden_note(hidden),
            None => !noted,
        }
    }
}

/// The lines of all changed paths and the width of the widest.
fn all_change_lines(paths: &Vec<PathChange>, focused: bool, selected: usize) -> (r: (Vec<Vec<Piece>>, usize))
    ensures
        lines_view(r.0@) == change_lines(paths@, focused, selected as int),
        r.1 == widest(change_lines(paths@, focused, selected as int)),
{
    let ghost all = change_lines(paths@, focused, selected as int);
    let mut lines: Vec<Vec<Piece>> = Vec::new();
    let mut widest_width: usize = 0;
    let mut i: usize = 0;
    while i < paths.len()
        invariant
            i <= paths@.len(),
            all == change_lines(paths@, focused, selected as int),
            lines_view(lines@) == all.take(i as int),
            widest_width == widest(all.take(i as int)),
        decreases paths@.len() - i,
    {
        let line = change_line(&paths[i], focused && i == selected);
        let w = measure(&line);
        assert(all.take(i + 1).drop_last() =~= all.take(i as int));
        if w >= widest_width {
            widest_width = w;
        }
        let ghost before_push = lines@;
        lines.push(line);
        assert(lines_view(lines@) =~= lines_view(before_push).push(all[i as int]));
        assert(all.take(i + 1) =~= all.take(i as int).push(all[i as int]));
        i += 1;
    }
    assert(all.take(i as int) =~= all);
    (lines, widest_width)
}

/// The lines `offset..offset + count` of `lines`, as far as there are any.
fn take_window(lines: Vec<Vec<Piece>>, offset: usize, count: usize) -> (r: Vec<Vec<Piece>>)
    ensures
        lines_view(r@) == window(lines_view(lines@), offset, count),
{
    let len = lines.len();
    let mut lines = lines;
    let start = if offset <= len { offset } else { len };
    let end = if offset <= len && count <= len - offset { offset + count } else { len };
    let ghost all = lines@;
    let mut shown = lines.split_off(start);
    shown.truncate(end - start);
    assert(shown@ =~= all.subrange(start as int, end as int));
    assert(lines_view(shown@) =~= window(lines_view(all), offset, count));
    shown
}

/// The note on the paths below the window, where more than one path does not fit and some lie
/// below it.
fn below_window(len: usize, height: u16, offset: usize, visible: usize) -> (r: Option<Piece>)
    ensures
        match r {
            Some(p) => len > 1 && len > height && sat_sub(len, sat_add(offset, visible)) > 0 && p@ == hidden_note(
                sat_sub(len, sat_add(offset, visible)),
            ),
            None => !(len > 1 && len > height && sat_sub(len, sat_add(offset, visible)) > 0),
        },
{
    let covered = if offset <= usize::MAX - visible { offset + visible } else { usize::MAX };
    let hidden_count = if len >= covered { len - covered } else { 0 };
    if len > 1 && len > height as usize && hidden_count > 0 {
        Some(note(hidden_count))
    } else {
        None
    }
}

/// Lays out a change pane of `width` by `height` cells showing `changes`: records its bounds in
/// `app` and returns what it draws.
pub fn render_changes(app: &mut App, pane: ChangePane, changes: &Changes, width: u16, height: u16) -> (r: ChangesFrame)
    ensures
        laid_out(*old(app), *final(app), pane, *changes, width, height, r),
{
    if height == 0 {
        app.set_changes_bounds(pane, 0, 0, width as usize, 0);
        return ChangesFrame { lines: Vec::new(), hidden: None, visible_paths: 0 };
    }
    let focused = match app.changes_focus {
        Some(p) => p == pane,
        None => false,
    };
    let len = changes.paths.len();
    let selected = app.changes(pane).selected;
    let last = if len >= 1 { len - 1 } else { 0 };
    let selected_index = if selected <= last { selected } else { last };
    let capacity = height as usize;
    let visible = if len > 1 && len > capacity { capacity - 1 } else if capacity <= len { capacity } else { len };
    let (lines, widest_width) = all_change_lines(&changes.paths, focused, selected_index);
    let horizontal_max = if widest_width >= width as usize { widest_width - width as usize } else { 0 };
    app.set_changes_bounds(pane, visible, len, width as usize, horizontal_max);
    let offset = app.changes(pane).offset;
    let shown = take_window(lines, offset, visible);
    let hidden = below_window(len, height, offset, visible);
    ChangesFrame { lines: shown, hidden, visible_paths: visible }
}

} // verus!

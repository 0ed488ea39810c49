//! Colours and emphasis of the text the interface draws, held as plain values.
use vstd::prelude::*;
use vstd::string::StringSliceAdditionalSpecFns;

use crate::app::{ChangeGroup, ChangeKind, PathChange};
use crate::commit::SignatureState;
use crate::history::DecorationKind;

verus! {

/// A foreground colour of the terminal palette.
#[derive(Clone, Copy, Debug, PartialEq, Eq, Structural)]
pub enum Tint {
    Reset,
    Blue,
    Cyan,
    Green,
    LightMagenta,
    LightRed,
    Magenta,
    Orange,
    White,
    Yellow,
}

/// How a piece of text is drawn: an optional foreground colour and the emphasis added to it.
/// `undimmed` removes a dimming that the surrounding area would otherwise apply.
#[derive(Clone, Copy, Debug, PartialEq, Eq, Structural)]
pub struct Look {
    pub fg: Option<Tint>,
    pub bold: bool,
    pub dim: bool,
    pub italic: bool,
    pub reversed: bool,
    pub undimmed: bool,
}

/// The look of text drawn without any styling.
pub open spec fn plain() -> Look {
    Look { fg: None, bold: false, dim: false, italic: false, reversed: false, undimmed: false }
}

/// The look of text drawn in colour `t` and nothing more.
pub open spec fn tinted(t: Tint) -> Look {
    Look { fg: Some(t), ..plain() }
}

/// Text without styling.
pub fn plain_look() -> (l: Look)
    ensures
        l == plain(),
{
    Look { fg: None, bold: false, dim: false, italic: false, reversed: false, undimmed: false }
}

/// Text in colour `t`.
pub fn color(t: Tint) -> (l: Look)
    ensures
        l == tinted(t),
{
    Look { fg: Some(t), bold: false, dim: false, italic: false, reversed: false, undimmed: false }
}

/// Dimmed text without colour.
pub fn dimmed() -> (l: Look)
    ensures
        l == (Look { dim: true, ..plain() }),
{
    Look { fg: None, bold: false, dim: true, italic: false, reversed: false, undimmed: false }
}

/// The colour in which a kind of change is listed.
pub open spec fn change_tint(kind: ChangeKind) -> Tint {
    match kind {
        ChangeKind::Added => Tint::Green,
        ChangeKind::Modified => Tint::Yellow,
        ChangeKind::Deleted => Tint::LightRed,
        ChangeKind::Renamed | ChangeKind::Copied => Tint::Cyan,
        ChangeKind::TypeChanged => Tint::Magenta,
        ChangeKind::Unmerged => Tint::LightRed,
    }
}

/// The colour in which a kind of change is listed.
pub fn change_color(kind: ChangeKind) -> (t: Tint)
    ensures
        t == change_tint(kind),
{
    match kind {
        ChangeKind::Added => Tint::Green,
        ChangeKind::Modified => Tint::Yellow,
        ChangeKind::Deleted => Tint::LightRed,
        ChangeKind::Renamed | ChangeKind::Copied => Tint::Cyan,
        ChangeKind::TypeChanged => Tint::Magenta,
        ChangeKind::Unmerged => Tint::LightRed,
    }
}

/// The colour of a changed path: committed changes by their kind, worktree changes by whether
/// they are staged.
pub open spec fn path_tint(change: PathChange) -> Tint {
    match change.group {
        ChangeGroup::Tree => change_tint(change.kind),
        ChangeGroup::Staged => Tint::Green,
        ChangeGroup::Unstaged => Tint::LightRed,
    }
}

/// The colour of a changed path.
pub fn path_change_color(change: &PathChange) -> (t: Tint)
    ensures
        t == path_tint(*change),
{
    match change.group {
        ChangeGroup::Tree => change_color(change.kind),
        ChangeGroup::Staged => Tint::Green,
        ChangeGroup::Unstaged => Tint::LightRed,
    }
}

/// The colour of a commit's disk in the graph, by the state of its signature.
pub fn signature_color(signature: SignatureState) -> (t: Tint)
    ensures
        t == signature_tint(signature),
{
    match signature {
        SignatureState::Unsigned => Tint::Blue,
        SignatureState::Unverified | SignatureState::Verifying => Tint::Orange,
        SignatureState::Verified => Tint::Green,
        SignatureState::Failed => Tint::LightRed,
    }
}

/// The look of a reference name beside a commit.
pub open spec fn decoration_look(kind: DecorationKind) -> Look {
    match kind {
        DecorationKind::Head => Look { bold: true, ..tinted(Tint::Cyan) },
        DecorationKind::Local => tinted(Tint::Cyan),
        DecorationKind::Remote => tinted(Tint::Yellow),
        DecorationKind::Tag => tinted(Tint::Magenta),
        DecorationKind::AnnotatedTag => Look { bold: true, ..tinted(Tint::Magenta) },
        DecorationKind::Special => tinted(Tint::Blue),
    }
}

/// The look of a reference name beside a commit.
pub fn decoration_style(kind: DecorationKind) -> (l: Look)
    ensures
        l == decoration_look(kind),
{
    let bold = match kind {
        DecorationKind::Head | DecorationKind::AnnotatedTag => true,
        _ => false,
    };
    let t = match kind {
        DecorationKind::Head | DecorationKind::Local => Tint::Cyan,
        DecorationKind::Remote => Tint::Yellow,
        DecorationKind::Tag | DecorationKind::AnnotatedTag => Tint::Magenta,
        DecorationKind::Special => Tint::Blue,
    };
    Look { fg: Some(t), bold, dim: false, italic: false, reversed: false, undimmed: false }
}

/// The colours that graph columns cycle through.
pub open spec fn lane_tint(i: int) -> Tint {
    if i == 0 {
        Tint::Magenta
    } else if i == 1 {
        Tint::Yellow
    } else if i == 2 {
        Tint::Cyan
    } else if i == 3 {
        Tint::Green
    } else if i == 4 {
        Tint::Reset
    } else if i == 5 {
        Tint::White
    } else {
        Tint::LightRed
    }
}

/// The look of graph column `column`: the seven lane colours, then the same seven in bold, over
/// and over.
pub open spec fn lane_look(column: int) -> Look {
    Look { fg: Some(lane_tint((column % 14) % 7)), bold: column % 14 >= 7, ..plain() }
}

/// The look of graph column `column`.
pub fn graph_style(column: usize) -> (l: Look)
    ensures
        l == lane_look(column as int),
{
    let index = column % 14;
    let k = index % 7;
    let t = if k == 0 {
        Tint::Magenta
    } else if k == 1 {
        Tint::Yellow
    } else if k == 2 {
        Tint::Cyan
    } else if k == 3 {
        Tint::Green
    } else if k == 4 {
        Tint::Reset
    } else if k == 5 {
        Tint::White
    } else {
        Tint::LightRed
    };
    Look { fg: Some(t), bold: index >= 7, dim: false, italic: false, reversed: false, undimmed: false }
}

/// A piece of text with its look.
#[derive(Debug, PartialEq, Eq)]
pub struct Piece {
    pub text: Vec<u8>,
    pub look: Look,
}

/// The value of a [`Piece`].
pub struct PieceView {
    pub text: Seq<u8>,
    pub look: Look,
}

impl View for Piece {
    type V = PieceView;

    open spec fn view(&self) -> PieceView {
        PieceView { text: self.text@, look: self.look }
    }
}

/// The values of a sequence of pieces.
pub open spec fn piece_views(s: Seq<Piece>) -> Seq<PieceView> {
    s.map_values(|p: Piece| p@)
}

/// A piece of text without styling.
pub open spec fn raw(text: Seq<u8>) -> PieceView {
    PieceView { text, look: plain() }
}

/// A label that is drawn dimmed while what it names is switched off.
pub fn toggle(label: &[u8], enabled: bool) -> (p: Piece)
    ensures
        p@.text == label@,
        p@.look == (Look { dim: !enabled, ..plain() }),
{
    Piece {
        text: crate::bytes::copy_bytes(label),
        look: Look { fg: None, bold: false, dim: !enabled, italic: false, reversed: false, undimmed: false },
    }
}

/// The look of a line of a diff: hunk headers cyan, added lines green, removed lines light red,
/// notes on binary files yellow.
pub open spec fn diff_line_look(line: Seq<u8>) -> Look {
    if crate::bytes::has_prefix(line, "@@".spec_bytes()) {
        tinted(Tint::Cyan)
    } else if crate::bytes::has_prefix(line, "+".spec_bytes()) {
        tinted(Tint::Green)
    } else if crate::bytes::has_prefix(line, "-".spec_bytes()) {
        tinted(Tint::LightRed)
    } else if crate::bytes::has_prefix(line, "Binary ".spec_bytes()) {
        tinted(Tint::Yellow)
    } else {
        plain()
    }
}

/// The look of a line of a diff.
pub fn diff_line_style(line: &[u8]) -> (l: Look)
    ensures
        l == diff_line_look(line@),
{
    if crate::bytes::starts_with(line, "@@".as_bytes()) {
        color(Tint::Cyan)
    } else if crate::bytes::starts_with(line, "+".as_bytes()) {
        color(Tint::Green)
    } else if crate::bytes::starts_with(line, "-".as_bytes()) {
        color(Tint::LightRed)
    } else if crate::bytes::starts_with(line, "Binary ".as_bytes()) {
        color(Tint::Yellow)
    } else {
        plain_look()
    }
}

/// A character with the Unicode `White_Space` property.
pub open spec fn is_white_space(c: char) -> bool {
    ||| '\u{9}' <= c <= '\u{d}'
    ||| c == ' '
    ||| c == '\u{85}'
    ||| c == '\u{a0}'
    ||| c == '\u{1680}'
    ||| '\u{2000}' <= c <= '\u{200a}'
    ||| c == '\u{2028}'
    ||| c == '\u{2029}'
    ||| c == '\u{202f}'
    ||| c == '\u{205f}'
    ||| c == '\u{3000}'
}

/// Whether a character has the Unicode `White_Space` property.
pub fn white_space(c: char) -> (r: bool)
    ensures
        r == is_white_space(c),
{
    ('\u{9}' <= c && c <= '\u{d}') || c == ' ' || c == '\u{85}' || c == '\u{a0}' || c == '\u{1680}' || ('\u{2000}'
        <= c && c <= '\u{200a}') || c == '\u{2028}' || c == '\u{2029}' || c == '\u{202f}' || c == '\u{205f}' || c
        == '\u{3000}'
}

/// The look of a cell of the graph in column `column`: the highlight reversed where the row is
/// highlighted, the signature's colour on the commit's disk, else the colour of its lane.
pub open spec fn graph_cell_look(symbol: char, column: int, highlight: Option<Tint>, signature: SignatureState) -> Look {
    match highlight {
        Some(h) => Look { reversed: true, ..tinted(h) },
        None => if symbol == '\u{25cf}' {
            tinted(signature_tint(signature))
        } else {
            lane_look(column / 2)
        },
    }
}

/// The colour of a commit's disk, by the state of its signature.
pub open spec fn signature_tint(signature: SignatureState) -> Tint {
    match signature {
        SignatureState::Unsigned => Tint::Blue,
        SignatureState::Unverified | SignatureState::Verifying => Tint::Orange,
        SignatureState::Verified => Tint::Green,
        SignatureState::Failed => Tint::LightRed,
    }
}

/// The styled cells of a graph line drawn from character `offset` on in `width` columns: each
/// column that holds a character other than white space, with its look.
pub open spec fn graph_cells(
    graph: Seq<char>,
    offset: usize,
    width: u16,
    highlight: Option<Tint>,
    signature: SignatureState,
    n: int,
) -> Seq<(u16, Look)>
    decreases n,
{
    if n <= 0 {
        Seq::empty()
    } else {
        let rest = graph_cells(graph, offset, width, highlight, signature, n - 1);
        let x = n - 1;
        let symbol = graph[offset + x];
        if is_white_space(symbol) {
            rest
        } else {
            let column = if offset + x <= usize::MAX {
                offset + x
            } else {
                usize::MAX as int
            };
            rest.push((x as u16, graph_cell_look(symbol, column, highlight, signature)))
        }
    }
}

/// How many columns of the graph are drawn: the characters from `offset` on, at most `width`.
pub open spec fn drawn_columns(len: int, offset: usize, width: u16) -> int {
    let available = if offset <= len {
        len - offset
    } else {
        0
    };
    if available <= width {
        available
    } else {
        width as int
    }
}

/// The styled cells of the graph line `graph` drawn from character `offset` on in `width` columns.
pub fn color_graph(graph: &Vec<char>, offset: usize, width: u16, highlight: Option<Tint>, signature: SignatureState) -> (r: Vec<
    (u16, Look),
>)
    ensures
        r@ == graph_cells(graph@, offset, width, highlight, signature, drawn_columns(graph@.len() as int, offset, width)),
{
    let len = graph.len();
    let available = if offset <= len { len - offset } else { 0 };
    let count = if available <= width as usize { available } else { width as usize };
    let mut out: Vec<(u16, Look)> = Vec::new();
    let mut x: usize = 0;
    while x < count
        invariant
            x <= count,
            count == drawn_columns(graph@.len() as int, offset, width),
            count <= width,
            len == graph@.len(),
            count == 0 || offset + count <= len,
            out@ == graph_cells(graph@, offset, width, highlight, signature, x as int),
        decreases count - x,
    {
        let symbol = graph[offset + x];
        if !white_space(symbol) {
            let look = match highlight {
                Some(h) => Look { fg: Some(h), bold: false, dim: false, italic: false, reversed: true, undimmed: false },
                None => if symbol == '\u{25cf}' {
                    color(signature_color(signature))
                } else {
                    let column = if offset <= usize::MAX - x { offset + x } else { usize::MAX };
                    graph_style(column / 2)
                },
            };
            out.push((x as u16, look));
        }
        x += 1;
    }
    out
}

} // verus!

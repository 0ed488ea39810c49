//! The compact summary of a commit's changes: one line per changed path with its changed lines as
//! a scaled bar, then the compared parent and the counts of the changes.
use vstd::prelude::*;
use vstd::string::StringSliceAdditionalSpecFns;

use crate::app::{Changes, ComparedParent, PathChange};
use crate::bytes::{copy_bytes, push_all};
use crate::look::{Look, Piece, PieceView, Tint, color, piece_views, plain, plain_look, raw, tinted};
use crate::position::{decimal, push_decimal, push_decimal_u64};
use crate::summary::{aggregate, append_change_aggregate, kind_counts, listed_kinds, push_piece, short_hex, short_hex_of, tree_change_counts};

verus! {

/// The number of terminal columns that `bytes` takes once read as UTF-8, each invalid sequence
/// replaced by the replacement character, with line breaks left out.
pub uninterp spec fn text_width(bytes: Seq<u8>) -> nat;

/// The columns `bytes` takes on the terminal: ratatui's `Line::width` of the line that `Line::from`
/// makes of the text `String::from_utf8_lossy` reads from it. `Line::from` splits the text at its
/// line breaks and drops them, and `width` sums the Unicode display widths of the characters of the
/// pieces. That sum is named by `text_width` and not stated here.
#[verifier::external_body]
pub(crate) fn display_width(bytes: &[u8]) -> (r: usize)
    ensures
        r == text_width(bytes@),
{
    ratatui::text::Line::from(String::from_utf8_lossy(bytes).as_ref()).width()
}

/// The text of a changed path: the source and the path joined by an arrow for a rename or copy.
pub open spec fn path_text(c: PathChange) -> Seq<u8> {
    match c.source {
        Some(source) => source@ + " -> ".spec_bytes() + c.path@,
        None => c.path@,
    }
}

/// The widest text among `paths`, or zero without paths.
pub open spec fn widest_path(paths: Seq<PathChange>) -> nat
    decreases paths.len(),
{
    if paths.len() == 0 {
        0
    } else {
        let rest = widest_path(paths.drop_last());
        let w = text_width(path_text(paths.last()));
        if w >= rest {
            w
        } else {
            rest
        }
    }
}

/// The columns of a count: the digits of the changed lines, or three for a binary file.
pub open spec fn count_width(c: Option<(u32, u32)>) -> nat {
    match c {
        Some((a, r)) => decimal((a + r) as nat).len(),
        None => 3,
    }
}

/// The widest count among `counts`, or zero without counts.
pub open spec fn widest_count(counts: Seq<Option<(u32, u32)>>) -> nat
    decreases counts.len(),
{
    if counts.len() == 0 {
        0
    } else {
        let rest = widest_count(counts.drop_last());
        let w = count_width(counts.last());
        if w >= rest {
            w
        } else {
            rest
        }
    }
}

/// The most lines that any of `counts` changed, or zero.
pub open spec fn most_changes(counts: Seq<Option<(u32, u32)>>) -> nat
    decreases counts.len(),
{
    if counts.len() == 0 {
        0
    } else {
        let rest = most_changes(counts.drop_last());
        match counts.last() {
            Some((a, r)) => if a + r >= rest {
                (a + r) as nat
            } else {
                rest
            },
            None => rest,
        }
    }
}

/// `n` copies of byte `b`.
pub open spec fn repeated(b: u8, n: nat) -> Seq<u8> {
    Seq::new(n, |i: int| b)
}

/// The length of a bar of `count` changed lines, when the file with the most changes gets a bar of
/// `graph` columns; at least one for any change.
pub open spec fn scaled(count: nat, graph: nat, most: nat) -> nat {
    let s = count * graph / (if most >= 1 {
        most
    } else {
        1
    });
    if s == 0 && count > 0 {
        1
    } else {
        s
    }
}

/// `text` right-aligned in `width` columns.
pub open spec fn right_aligned(text: Seq<u8>, width: nat) -> Seq<u8> {
    repeated(32u8, if width >= text.len() {
        (width - text.len()) as nat
    } else {
        0
    }) + text
}

/// The line of one changed path: its text padded to `path_width`, a bar, then the count right
/// aligned in `count_width` and the added and removed lines as plus and minus signs scaled to
/// `graph` columns for `most` changes; a binary file has `Bin` in place of a count.
pub open spec fn stat_line(
    c: PathChange,
    counts: Option<(u32, u32)>,
    path_width: nat,
    count_width: nat,
    graph: nat,
    most: nat,
) -> Seq<PieceView> {
    let p = path_text(c);
    let pad = if path_width >= text_width(p) {
        (path_width - text_width(p)) as nat
    } else {
        0
    };
    seq![raw(" ".spec_bytes() + p + repeated(32u8, pad) + " | ".spec_bytes())] + match counts {
        Some((a, r)) => seq![
            raw(right_aligned(decimal((a + r) as nat), count_width) + " ".spec_bytes()),
            PieceView { text: repeated(43u8, scaled(a as nat, graph, most)), look: tinted(Tint::Green) },
            PieceView { text: repeated(45u8, scaled(r as nat, graph, most)), look: tinted(Tint::LightRed) },
        ],
        None => seq![raw(right_aligned("Bin".spec_bytes(), count_width))],
    }
}

/// The compared parent, in cyan: its position among several parents and its short identity, or
/// `root` without a parent.
pub open spec fn parent_piece(parent: Option<ComparedParent>) -> PieceView {
    PieceView {
        text: match parent {
            Some(p) => if p.total > 1 {
                "vs parent ".spec_bytes() + decimal((p.index + 1) as nat) + "/".spec_bytes() + decimal(p.total as nat)
                    + " ".spec_bytes() + short_hex(p.id) + " ".spec_bytes() + middle_dot_text()
            } else {
                "vs parent ".spec_bytes() + short_hex(p.id) + " ".spec_bytes() + middle_dot_text()
            },
            None => "root ".spec_bytes() + middle_dot_text(),
        },
        look: tinted(Tint::Cyan),
    }
}

/// A middle dot and a space.
pub open spec fn middle_dot_text() -> Seq<u8> {
    seq![0xC2u8, 0xB7u8, 32u8]
}

/// The bar columns of the file with the most changes: its changed lines, at most forty.
pub open spec fn graph_width(most: nat) -> nat {
    if most <= 40 {
        most
    } else {
        40
    }
}

/// The summary of a commit's changes: a line for each path that has a count, then the compared
/// parent followed by the counts of the changes, or a dimmed `No changes`.
pub open spec fn diff_summary(changes: Changes, counts: Seq<Option<(u32, u32)>>, added: u64, removed: u64) -> Seq<
    Seq<PieceView>,
> {
    let paths = changes.paths@;
    let n = if paths.len() <= counts.len() {
        paths.len()
    } else {
        counts.len()
    };
    let most = most_changes(counts);
    Seq::new(
        n,
        |i: int| stat_line(paths[i], counts[i], widest_path(paths), widest_count(counts), graph_width(most), most),
    ).push(
        seq![parent_piece(changes.parent)] + if paths.len() == 0 {
            seq![PieceView { text: "No changes".spec_bytes(), look: Look { dim: true, ..plain() } }]
        } else {
            aggregate(kind_counts(paths, listed_kinds()), paths.len() as usize, added, removed)
        },
    )
}

/// The values of lines of pieces.
pub open spec fn line_views(lines: Seq<Vec<Piece>>) -> Seq<Seq<PieceView>> {
    lines.map_values(|l: Vec<Piece>| piece_views(l@))
}

/// The text of a changed path.
fn path_bytes(c: &PathChange) -> (r: Vec<u8>)
    ensures
        r@ == path_text(*c),
{
    match &c.source {
        Some(source) => {
            let mut out = copy_bytes(source.as_slice());
            push_all(&mut out, " -> ".as_bytes());
            push_all(&mut out, c.path.as_slice());
            out
        },
        None => copy_bytes(c.path.as_slice()),
    }
}

/// `n` copies of byte `b`.
fn repeat_byte(b: u8, n: u64) -> (r: Vec<u8>)
    ensures
        r@ == repeated(b, n as nat),
{
    let mut out: Vec<u8> = Vec::new();
    let mut k: u64 = 0;
    while k < n
        invariant
            k <= n,
            out@ == repeated(b, k as nat),
        decreases n - k,
    {
        out.push(b);
        k += 1;
        assert(out@ =~= repeated(b, k as nat));
    }
    out
}

/// Appends `n` spaces.
fn push_spaces(out: &mut Vec<u8>, n: usize)
    ensures
        final(out)@ == old(out)@ + repeated(32u8, n as nat),
{
    let spaces = repeat_byte(32u8, n as u64);
    push_all(out, spaces.as_slice());
}

/// `text` right-aligned in `width` columns.
fn align_right(text: &Vec<u8>, width: usize) -> (r: Vec<u8>)
    ensures
        r@ == right_aligned(text@, width as nat),
{
    let mut out: Vec<u8> = Vec::new();
    push_spaces(&mut out, if width >= text.len() { width - text.len() } else { 0 });
    push_all(&mut out, text.as_slice());
    out
}

/// The digits of a changed-lines count.
fn count_digits(a: u32, r: u32) -> (d: Vec<u8>)
    ensures
        d@ == decimal((a + r) as nat),
{
    let mut d: Vec<u8> = Vec::new();
    push_decimal_u64(&mut d, a as u64 + r as u64);
    assert(d@ =~= decimal((a + r) as nat));
    d
}

/// The length of the bar of `count` changed lines.
fn scale(count: u32, graph: u64, most: u64) -> (r: u64)
    requires
        graph <= 40,
    ensures
        r == scaled(count as nat, graph as nat, most as nat),
{
    let divisor = if most >= 1 { most } else { 1 };
    assert(count * graph <= 0xffff_ffff * 40) by (nonlinear_arith)
        requires
            count <= 0xffff_ffff,
            graph <= 40,
    ;
    let s = count as u64 * graph / divisor;
    if s == 0 && count > 0 {
        1
    } else {
        s
    }
}

/// The compared parent, in cyan.
fn parent_header(parent: Option<ComparedParent>) -> (p: Piece)
    requires
        match parent {
            Some(p) => p.index < usize::MAX,
            None => true,
        },
    ensures
        p@ == parent_piece(parent),
{
    let mut text: Vec<u8> = Vec::new();
    match parent {
        Some(p) => {
            push_all(&mut text, "vs parent ".as_bytes());
            if p.total > 1 {
                push_decimal(&mut text, p.index + 1);
                push_all(&mut text, "/".as_bytes());
                push_decimal(&mut text, p.total);
                push_all(&mut text, " ".as_bytes());
            }
            let hex = short_hex_of(p.id);
            push_all(&mut text, hex.as_slice());
            push_all(&mut text, " ".as_bytes());
        },
        None => {
            push_all(&mut text, "root ".as_bytes());
        },
    }
    text.push(0xC2u8);
    text.push(0xB7u8);
    text.push(32u8);
    assert(text@ =~= parent_piece(parent).text);
    Piece { text, look: color(Tint::Cyan) }
}

/// The line of one changed path.
fn stat_pieces(
    text: &Vec<u8>,
    width: usize,
    counts: Option<(u32, u32)>,
    path_width: usize,
    count_width: usize,
    graph: u64,
    most: u64,
) -> (r: Vec<Piece>)
    requires
        graph <= 40,
    ensures
        forall|c: PathChange|
            path_text(c) == text@ && text_width(text@) == width ==> piece_views(r@) == #[trigger] stat_line(
                c,
                counts,
                path_width as nat,
                count_width as nat,
                graph as nat,
                most as nat,
            ),
{
    let mut head: Vec<u8> = Vec::new();
    push_all(&mut head, " ".as_bytes());
    push_all(&mut head, text.as_slice());
    push_spaces(&mut head, if path_width >= width { path_width - width } else { 0 });
    push_all(&mut head, " | ".as_bytes());
    let mut line: Vec<Piece> = Vec::new();
    push_piece(&mut line, Piece { text: head, look: plain_look() });
    match counts {
        Some((a, r)) => {
            let digits = count_digits(a, r);
            let mut count = align_right(&digits, count_width);
            push_all(&mut count, " ".as_bytes());
            push_piece(&mut line, Piece { text: count, look: plain_look() });
            push_piece(&mut line, Piece { text: repeat_byte(43u8, scale(a, graph, most)), look: color(Tint::Green) });
            push_piece(&mut line, Piece { text: repeat_byte(45u8, scale(r, graph, most)), look: color(Tint::LightRed) });
        },
        None => {
            let bin = copy_bytes("Bin".as_bytes());
            push_piece(&mut line, Piece { text: align_right(&bin, count_width), look: plain_look() });
        },
    }
    assert forall|c: PathChange|
        path_text(c) == text@ && text_width(text@) == width implies piece_views(line@) == #[trigger] stat_line(
            c,
            counts,
            path_width as nat,
            count_width as nat,
            graph as nat,
            most as nat,
        ) by {
        assert(piece_views(line@) =~= stat_line(c, counts, path_width as nat, count_width as nat, graph as nat, most as nat));
    }
    line
}

/// The summary of a commit's changes: a line for each changed path that has an entry in
/// `line_counts`, then the compared parent and the counts of the changes.
pub fn commit_diff_summary(
    changes: &Changes,
    line_counts: &Vec<Option<(u32, u32)>>,
    lines_added: u64,
    lines_removed: u64,
) -> (r: Vec<Vec<Piece>>)
    requires
        match changes.parent {
            Some(p) => p.index < usize::MAX,
            None => true,
        },
    ensures
        line_views(r@) == diff_summary(*changes, line_counts@, lines_added, lines_removed),
{
    let paths = &changes.paths;
    let ghost ps = paths@;
    let mut texts: Vec<Vec<u8>> = Vec::new();
    let mut widths: Vec<usize> = Vec::new();
    let mut path_width: usize = 0;
    let mut i: usize = 0;
    while i < paths.len()
        invariant
            i <= ps.len(),
            ps == paths@,
            texts@.len() == i,
            widths@.len() == i,
            forall|j: int| 0 <= j < i ==> (#[trigger] texts@[j])@ == path_text(ps[j]) && widths@[j] == text_width(path_text(ps[j])),
            path_width == widest_path(ps.take(i as int)),
        decreases ps.len() - i,
    {
        assert(ps.take(i + 1).drop_last() =~= ps.take(i as int));
        let text = path_bytes(&paths[i]);
        let w = display_width(text.as_slice());
        texts.push(text);
        widths.push(w);
        if w >= path_width {
            path_width = w;
        }
        i += 1;
    }
    assert(ps.take(i as int) =~= ps);
    let ghost cs = line_counts@;
    let mut count_width: usize = 0;
    let mut most: u64 = 0;
    let mut k: usize = 0;
    while k < line_counts.len()
        invariant
            k <= cs.len(),
            cs == line_counts@,
            count_width == widest_count(cs.take(k as int)),
            most == most_changes(cs.take(k as int)),
        decreases cs.len() - k,
    {
        assert(cs.take(k + 1).drop_last() =~= cs.take(k as int));
        let w = match line_counts[k] {
            Some((a, r)) => count_digits(a, r).len(),
            None => 3,
        };
        if w >= count_width {
            count_width = w;
        }
        match line_counts[k] {
            Some((a, r)) => {
                if a as u64 + r as u64 >= most {
                    most = a as u64 + r as u64;
                }
            },
            None => {},
        }
        k += 1;
    }
    assert(cs.take(k as int) =~= cs);
    let graph: u64 = if most <= 40 { most } else { 40 };
    let n = if paths.len() <= line_counts.len() { paths.len() } else { line_counts.len() };
    let mut lines: Vec<Vec<Piece>> = Vec::new();
    let mut i: usize = 0;
    while i < n
        invariant
            i <= n,
            n <= ps.len(),
            n <= cs.len(),
            ps == paths@,
            cs == line_counts@,
            texts@.len() == ps.len(),
            widths@.len() == ps.len(),
            forall|j: int| 0 <= j < ps.len() ==> (#[trigger] texts@[j])@ == path_text(ps[j]) && widths@[j] == text_width(path_text(ps[j])),
            path_width == widest_path(ps),
            count_width == widest_count(cs),
            most == most_changes(cs),
            graph == graph_width(most as nat),
            lines@.len() == i,
            forall|j: int|
                0 <= j < i ==> piece_views((#[trigger] lines@[j])@) == stat_line(
                    ps[j],
                    cs[j],
                    path_width as nat,
                    count_width as nat,
                    graph as nat,
                    most as nat,
                ),
        decreases n - i,
    {
        let line = stat_pieces(&texts[i], widths[i], line_counts[i], path_width, count_width, graph, most);
        assert(piece_views(line@) == stat_line(ps[i as int], cs[i as int], path_width as nat, count_width as nat, graph as nat, most as nat));
        lines.push(line);
        i += 1;
    }
    let mut last: Vec<Piece> = Vec::new();
    push_piece(&mut last, parent_header(changes.parent));
    if paths.len() == 0 {
        push_piece(
            &mut last,
            Piece {
                text: copy_bytes("No changes".as_bytes()),
                look: Look { fg: None, bold: false, dim: true, italic: false, reversed: false, undimmed: false },
            },
        );
    } else {
        append_change_aggregate(&mut last, tree_change_counts(changes), paths.len(), lines_added, lines_removed);
    }
    let ghost tail = piece_views(last@);
    assert(tail =~= seq![parent_piece(changes.parent)] + if ps.len() == 0 {
        seq![PieceView { text: "No changes".spec_bytes(), look: Look { dim: true, ..plain() } }]
    } else {
        aggregate(kind_counts(ps, listed_kinds()), ps.len() as usize, lines_added, lines_removed)
    });
    let ghost before = lines@;
    assert(line_views(before) =~= Seq::new(
        n as nat,
        |j: int| stat_line(ps[j], cs[j], widest_path(ps), widest_count(cs), graph_width(most as nat), most as nat),
    ));
    lines.push(last);
    assert(line_views(lines@) =~= line_views(before).push(tail));
    assert(line_views(lines@) =~= diff_summary(*changes, line_counts@, lines_added, lines_removed));
    lines
}

/// The widest of `lines` on the terminal, or zero without lines.
pub open spec fn widest_line(lines: Seq<Seq<u8>>) -> nat
    decreases lines.len(),
{
    if lines.len() == 0 {
        0
    } else {
        let rest = widest_line(lines.drop_last());
        let w = text_width(lines.last());
        if w >= rest {
            w
        } else {
            rest
        }
    }
}

/// A diff drawn by the built-in viewer: its title, its lines and the width of the widest line.
pub struct BuiltInDiff {
    pub title: Vec<u8>,
    pub lines: Vec<Vec<u8>>,
    pub max_width: usize,
}

impl BuiltInDiff {
    /// The diff with the given title and lines.
    pub fn new(title: Vec<u8>, lines: Vec<Vec<u8>>) -> (d: BuiltInDiff)
        ensures
            d.title@ == title@,
            d.lines@ == lines@,
            d.max_width == widest_line(lines@.map_values(|l: Vec<u8>| l@)),
    {
        let ghost all = lines@.map_values(|l: Vec<u8>| l@);
        let mut max_width: usize = 0;
        let mut i: usize = 0;
        while i < lines.len()
            invariant
                i <= lines@.len(),
                all == lines@.map_values(|l: Vec<u8>| l@),
                max_width == widest_line(all.take(i as int)),
            decreases lines@.len() - i,
        {
            assert(all.take(i + 1).drop_last() =~= all.take(i as int));
            let w = display_width(lines[i].as_slice());
            if w >= max_width {
                max_width = w;
            }
            i += 1;
        }
        assert(all.take(i as int) =~= all);
        BuiltInDiff { title, lines, max_width }
    }
}

/// The bars of a file's changed lines are at most forty columns each, however many lines
/// changed, and a file with some added or removed lines shows at least one sign for them.
pub proof fn lemma_bars_fit(added: nat, removed: nat, most: nat)
    requires
        added + removed <= most,
    ensures
        scaled(added, graph_width(most), most) <= 40,
        scaled(removed, graph_width(most), most) <= 40,
        added > 0 ==> scaled(added, graph_width(most), most) >= 1,
        removed > 0 ==> scaled(removed, graph_width(most), most) >= 1,
{
    let g = graph_width(most);
    assert(g <= 40);
    if most >= 1 {
        assert(added * g / most <= g) by (nonlinear_arith)
            requires
                added <= most,
                most >= 1,
        ;
        assert(removed * g / most <= g) by (nonlinear_arith)
            requires
                removed <= most,
                most >= 1,
        ;
    } else {
        assert(added == 0 && removed == 0);
    }
}

} // verus!

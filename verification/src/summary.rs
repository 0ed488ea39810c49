//! The one-line summaries drawn beside the selection and above the change panes.
use vstd::prelude::*;
use vstd::string::StringSliceAdditionalSpecFns;

use crate::app::{App, ChangeGroup, ChangeKind, ChangePane, Changes, PathChange, SelectionRelation};
use crate::bytes::push_all;
use crate::ids::ObjectId;
use crate::look::{Look, Piece, PieceView, Tint, change_color, change_tint, color, piece_views, plain_look, raw, tinted};
use crate::position::{decimal, push_decimal, push_decimal_u64};

verus! {

/// `parts` in order, with an unstyled piece of `sep` between each two.
pub open spec fn joined_by(parts: Seq<PieceView>, sep: Seq<u8>) -> Seq<PieceView>
    decreases parts.len(),
{
    if parts.len() == 0 {
        Seq::empty()
    } else {
        let init = parts.drop_last();
        joined_by(init, sep) + (if init.len() == 0 {
            Seq::empty()
        } else {
            seq![raw(sep)]
        }) + seq![parts.last()]
    }
}

/// Joining adds one piece after the first part of `parts` for each further part.
pub proof fn lemma_joined_len(parts: Seq<PieceView>, sep: Seq<u8>)
    ensures
        joined_by(parts, sep).len() == if parts.len() == 0 {
            0
        } else {
            2 * parts.len() - 1
        },
    decreases parts.len(),
{
    if parts.len() > 0 {
        lemma_joined_len(parts.drop_last(), sep);
    }
}

/// Joining `parts` with one more part at the end.
pub proof fn lemma_joined_push(parts: Seq<PieceView>, sep: Seq<u8>, p: PieceView)
    ensures
        joined_by(parts.push(p), sep) == joined_by(parts, sep) + (if parts.len() == 0 {
            Seq::empty()
        } else {
            seq![raw(sep)]
        }) + seq![p],
{
    assert(parts.push(p).drop_last() =~= parts);
}

/// Appends one piece.
pub fn push_piece(spans: &mut Vec<Piece>, p: Piece)
    ensures
        piece_views(final(spans)@) == piece_views(old(spans)@).push(p@),
{
    let ghost v = p@;
    spans.push(p);
    assert(piece_views(spans@) =~= piece_views(old(spans)@).push(v));
}

/// Appends `p`, after an unstyled `sep` unless `spans` is empty.
fn push_separated(spans: &mut Vec<Piece>, sep: &[u8], p: Piece)
    ensures
        piece_views(final(spans)@) == piece_views(old(spans)@) + (if old(spans)@.len() == 0 {
            Seq::empty()
        } else {
            seq![raw(sep@)]
        }) + seq![p@],
{
    let ghost v = p@;
    if spans.len() > 0 {
        push_piece(spans, Piece { text: crate::bytes::copy_bytes(sep), look: plain_look() });
    }
    push_piece(spans, p);
    assert(piece_views(spans@) =~= piece_views(old(spans)@) + (if old(spans)@.len() == 0 {
        Seq::empty()
    } else {
        seq![raw(sep@)]
    }) + seq![v]);
}

/// The look of a count beside the selection: coloured, and bright even inside a dimmed area.
pub open spec fn selection_look(t: Tint) -> Look {
    Look { undimmed: true, ..tinted(t) }
}

/// The arrow that marks commits ahead.
pub open spec fn up_arrow() -> Seq<u8> {
    seq![0xE2u8, 0x87u8, 0xA1u8]
}

/// The arrow that marks commits behind.
pub open spec fn down_arrow() -> Seq<u8> {
    seq![0xE2u8, 0x87u8, 0xA3u8]
}

/// A count of `n` after `prefix`, in the bright colour `t`.
pub open spec fn count_mark(prefix: Seq<u8>, n: nat, t: Tint) -> PieceView {
    PieceView { text: prefix + decimal(n), look: selection_look(t) }
}

/// The counts of added and removed lines, each where it is not zero.
pub open spec fn line_marks(added: u64, removed: u64) -> Seq<PieceView> {
    (if added > 0 {
        seq![count_mark(seq![43u8], added as nat, Tint::Green)]
    } else {
        Seq::empty()
    }) + (if removed > 0 {
        seq![count_mark(seq![45u8], removed as nat, Tint::LightRed)]
    } else {
        Seq::empty()
    })
}

/// The pieces beside the selection: its added and removed lines, then how far it is ahead of or
/// behind its upstream, or how many of its commits are visible, separated by spaces. Commits
/// behind follow commits ahead without a space.
pub open spec fn selection_pieces(lines: (u64, u64), relation: Option<SelectionRelation>) -> Seq<PieceView> {
    let marks = line_marks(lines.0, lines.1);
    let sp = " ".spec_bytes();
    match relation {
        Some(SelectionRelation::Tracking { ahead, behind }) => if ahead > 0 && behind > 0 {
            joined_by(marks.push(count_mark(up_arrow(), ahead as nat, Tint::Green)), sp).push(
                count_mark(down_arrow(), behind as nat, Tint::LightRed),
            )
        } else {
            joined_by(
                marks + (if ahead > 0 {
                    seq![count_mark(up_arrow(), ahead as nat, Tint::Green)]
                } else {
                    Seq::empty()
                }) + (if behind > 0 {
                    seq![count_mark(down_arrow(), behind as nat, Tint::LightRed)]
                } else {
                    Seq::empty()
                }),
                sp,
            )
        },
        Some(SelectionRelation::Visible(n)) => joined_by(marks.push(count_mark(up_arrow(), n as nat, Tint::Green)), sp),
        None => joined_by(marks, sp),
    }
}

/// The line counts of optional changes; none are counted without changes.
pub open spec fn line_totals_of(changes: Option<&Changes>) -> (u64, u64) {
    match changes {
        Some(c) => (c.lines_added, c.lines_removed),
        None => (0, 0),
    }
}

/// The bytes of an arrow.
fn arrow(up: bool) -> (r: Vec<u8>)
    ensures
        r@ == if up {
            up_arrow()
        } else {
            down_arrow()
        },
{
    let mut r = Vec::new();
    r.push(0xE2u8);
    r.push(0x87u8);
    r.push(if up { 0xA1u8 } else { 0xA3u8 });
    assert(r@ =~= if up {
        up_arrow()
    } else {
        down_arrow()
    });
    r
}

/// A bright count after `prefix`.
fn mark(prefix: Vec<u8>, n: u64, t: Tint) -> (p: Piece)
    ensures
        p@ == count_mark(prefix@, n as nat, t),
{
    let mut text = prefix;
    push_decimal_u64(&mut text, n);
    Piece { text, look: Look { fg: Some(t), bold: false, dim: false, italic: false, reversed: false, undimmed: true } }
}

/// A single byte.
fn byte(b: u8) -> (r: Vec<u8>)
    ensures
        r@ == seq![b],
{
    let mut r = Vec::new();
    r.push(b);
    assert(r@ =~= seq![b]);
    r
}

/// The pieces drawn beside the selected row.
pub fn selection_info_line(changes: Option<&Changes>, relation: Option<SelectionRelation>) -> (r: Vec<Piece>)
    ensures
        piece_views(r@) == selection_pieces(line_totals_of(changes), relation),
{
    let (added, removed) = match changes {
        Some(c) => (c.lines_added, c.lines_removed),
        None => (0, 0),
    };
    let ghost sp = " ".spec_bytes();
    let mut spans: Vec<Piece> = Vec::new();
    let ghost mut parts: Seq<PieceView> = Seq::empty();
    assert(piece_views(spans@) =~= joined_by(parts, sp));
    if added > 0 {
        let p = mark(byte(43u8), added, Tint::Green);
        proof {
            lemma_joined_push(parts, sp, p@);
            lemma_joined_len(parts, sp);
        }
        push_separated(&mut spans, " ".as_bytes(), p);
        proof {
            parts = parts.push(count_mark(seq![43u8], added as nat, Tint::Green));
        }
    }
    if removed > 0 {
        let p = mark(byte(45u8), removed, Tint::LightRed);
        proof {
            lemma_joined_push(parts, sp, p@);
            lemma_joined_len(parts, sp);
        }
        push_separated(&mut spans, " ".as_bytes(), p);
        proof {
            parts = parts.push(count_mark(seq![45u8], removed as nat, Tint::LightRed));
        }
    }
    assert(parts =~= line_marks(added, removed));
    match relation {
        Some(SelectionRelation::Tracking { ahead, behind }) => {
            if ahead > 0 {
                let p = mark(arrow(true), ahead as u64, Tint::Green);
                proof {
                    lemma_joined_push(parts, sp, p@);
                    lemma_joined_len(parts, sp);
                }
                push_separated(&mut spans, " ".as_bytes(), p);
                proof {
                    parts = parts.push(count_mark(up_arrow(), ahead as nat, Tint::Green));
                }
            }
            if behind > 0 {
                let p = mark(arrow(false), behind as u64, Tint::LightRed);
                if ahead == 0 {
                    proof {
                        lemma_joined_push(parts, sp, p@);
                        lemma_joined_len(parts, sp);
                    }
                    push_separated(&mut spans, " ".as_bytes(), p);
                    proof {
                        parts = parts.push(count_mark(down_arrow(), behind as nat, Tint::LightRed));
                    }
                } else {
                    push_piece(&mut spans, p);
                }
            }
            proof {
                let marks = line_marks(added, removed);
                if ahead > 0 && behind > 0 {
                } else {
                    assert(parts =~= marks + (if ahead > 0 {
                        seq![count_mark(up_arrow(), ahead as nat, Tint::Green)]
                    } else {
                        Seq::empty()
                    }) + (if behind > 0 {
                        seq![count_mark(down_arrow(), behind as nat, Tint::LightRed)]
                    } else {
                        Seq::empty()
                    }));
                }
            }
        },
        Some(SelectionRelation::Visible(n)) => {
            let p = mark(arrow(true), n as u64, Tint::Green);
            proof {
                lemma_joined_push(parts, sp, p@);
                lemma_joined_len(parts, sp);
            }
            push_separated(&mut spans, " ".as_bytes(), p);
        },
        None => {},
    }
    spans
}

/// The letter of a kind of change, as an ASCII byte.
pub open spec fn kind_letter(kind: ChangeKind) -> u8 {
    match kind {
        ChangeKind::Added => 65u8,
        ChangeKind::Modified => 77u8,
        ChangeKind::Deleted => 68u8,
        ChangeKind::Renamed => 82u8,
        ChangeKind::Copied => 67u8,
        ChangeKind::TypeChanged => 84u8,
        ChangeKind::Unmerged => 85u8,
    }
}

/// The kinds of committed change that the tree summary counts, in order.
pub open spec fn listed_kinds() -> Seq<ChangeKind> {
    seq![
        ChangeKind::Added,
        ChangeKind::Modified,
        ChangeKind::Deleted,
        ChangeKind::Renamed,
        ChangeKind::Copied,
        ChangeKind::TypeChanged,
    ]
}

/// How many of `paths` changed in the way `kind` says.
pub open spec fn count_kind(paths: Seq<PathChange>, kind: ChangeKind) -> nat
    decreases paths.len(),
{
    if paths.len() == 0 {
        0
    } else {
        count_kind(paths.drop_last(), kind) + if paths.last().kind == kind {
            1nat
        } else {
            0nat
        }
    }
}

/// How many of `paths` belong to `group`.
pub open spec fn count_group(paths: Seq<PathChange>, group: ChangeGroup) -> nat
    decreases paths.len(),
{
    if paths.len() == 0 {
        0
    } else {
        count_group(paths.drop_last(), group) + if paths.last().group == group {
            1nat
        } else {
            0nat
        }
    }
}

/// A count is at most the number of paths.
pub proof fn lemma_counts_bounded(paths: Seq<PathChange>, kind: ChangeKind, group: ChangeGroup)
    ensures
        count_kind(paths, kind) <= paths.len(),
        count_group(paths, group) <= paths.len(),
    decreases paths.len(),
{
    if paths.len() > 0 {
        lemma_counts_bounded(paths.drop_last(), kind, group);
    }
}

/// One labelled count of the summary: a label byte, the count and its colour.
pub type Count = (u8, usize, Tint);

/// For each of `kinds` that some path has, its letter, how many paths have it, and its colour.
pub open spec fn kind_counts(paths: Seq<PathChange>, kinds: Seq<ChangeKind>) -> Seq<Count>
    decreases kinds.len(),
{
    if kinds.len() == 0 {
        Seq::empty()
    } else {
        let rest = kind_counts(paths, kinds.drop_last());
        let k = kinds.last();
        if count_kind(paths, k) > 0 {
            rest.push((kind_letter(k), count_kind(paths, k) as usize, change_tint(k)))
        } else {
            rest
        }
    }
}

/// The staged and the unstaged worktree changes, each where there are any.
pub open spec fn worktree_counts(paths: Seq<PathChange>) -> Seq<Count> {
    let staged = count_group(paths, ChangeGroup::Staged);
    let unstaged = paths.len() - staged;
    (if staged > 0 {
        seq![(83u8, staged as usize, Tint::Green)]
    } else {
        Seq::empty()
    }) + (if unstaged > 0 {
        seq![(85u8, unstaged as usize, Tint::LightRed)]
    } else {
        Seq::empty()
    })
}

/// How many of `paths` changed in the way `kind` says.
fn count_of_kind(paths: &Vec<PathChange>, kind: ChangeKind) -> (r: usize)
    ensures
        r == count_kind(paths@, kind),
{
    let mut n: usize = 0;
    let mut i: usize = 0;
    while i < paths.len()
        invariant
            i <= paths@.len(),
            n == count_kind(paths@.take(i as int), kind),
            n <= i,
        decreases paths@.len() - i,
    {
        assert(paths@.take(i + 1).drop_last() =~= paths@.take(i as int));
        if paths[i].kind == kind {
            n += 1;
        }
        i += 1;
    }
    assert(paths@.take(i as int) =~= paths@);
    n
}

/// How many of `paths` belong to `group`.
fn count_of_group(paths: &Vec<PathChange>, group: ChangeGroup) -> (r: usize)
    ensures
        r == count_group(paths@, group),
{
    let mut n: usize = 0;
    let mut i: usize = 0;
    while i < paths.len()
        invariant
            i <= paths@.len(),
            n == count_group(paths@.take(i as int), group),
            n <= i,
        decreases paths@.len() - i,
    {
        assert(paths@.take(i + 1).drop_last() =~= paths@.take(i as int));
        if paths[i].group == group {
            n += 1;
        }
        i += 1;
    }
    assert(paths@.take(i as int) =~= paths@);
    n
}

/// The letter of a kind of change.
pub(crate) fn letter_of(kind: ChangeKind) -> (b: u8)
    ensures
        b == kind_letter(kind),
{
    match kind {
        ChangeKind::Added => 65u8,
        ChangeKind::Modified => 77u8,
        ChangeKind::Deleted => 68u8,
        ChangeKind::Renamed => 82u8,
        ChangeKind::Copied => 67u8,
        ChangeKind::TypeChanged => 84u8,
        ChangeKind::Unmerged => 85u8,
    }
}

/// The counts of the kinds of committed change among `changes`, in the order added, modified,
/// deleted, renamed, copied, type changed; kinds that no path has are left out.
pub fn tree_change_counts(changes: &Changes) -> (r: Vec<Count>)
    ensures
        r@ == kind_counts(changes.paths@, listed_kinds()),
{
    let mut kinds: Vec<ChangeKind> = Vec::new();
    kinds.push(ChangeKind::Added);
    kinds.push(ChangeKind::Modified);
    kinds.push(ChangeKind::Deleted);
    kinds.push(ChangeKind::Renamed);
    kinds.push(ChangeKind::Copied);
    kinds.push(ChangeKind::TypeChanged);
    assert(kinds@ =~= listed_kinds());
    let mut out: Vec<Count> = Vec::new();
    let mut i: usize = 0;
    while i < kinds.len()
        invariant
            i <= kinds@.len(),
            kinds@ == listed_kinds(),
            out@ == kind_counts(changes.paths@, kinds@.take(i as int)),
        decreases kinds@.len() - i,
    {
        assert(kinds@.take(i + 1).drop_last() =~= kinds@.take(i as int));
        let kind = kinds[i];
        let n = count_of_kind(&changes.paths, kind);
        if n > 0 {
            out.push((letter_of(kind), n, change_color(kind)));
        }
        i += 1;
    }
    assert(kinds@.take(i as int) =~= kinds@);
    out
}

/// The counts of staged and of unstaged worktree changes, each where there are any.
pub fn worktree_change_counts(changes: &Changes) -> (r: Vec<Count>)
    ensures
        r@ == worktree_counts(changes.paths@),
{
    let staged = count_of_group(&changes.paths, ChangeGroup::Staged);
    proof {
        lemma_counts_bounded(changes.paths@, ChangeKind::Added, ChangeGroup::Staged);
    }
    let unstaged = changes.paths.len() - staged;
    let mut out: Vec<Count> = Vec::new();
    if staged > 0 {
        out.push((83u8, staged, Tint::Green));
    }
    if unstaged > 0 {
        out.push((85u8, unstaged, Tint::LightRed));
    }
    assert(out@ =~= worktree_counts(changes.paths@));
    out
}

/// The piece of one labelled count: the label, a space and the count, in the count's colour.
pub open spec fn count_piece(c: Count) -> PieceView {
    PieceView { text: seq![c.0, 32u8] + decimal(c.1 as nat), look: tinted(c.2) }
}

/// The separating dot between the path counts and the line counts.
pub open spec fn middle_dot() -> Seq<u8> {
    seq![32u8, 0xC2u8, 0xB7u8, 32u8]
}

/// The added and removed lines after a dot, where there are any.
pub open spec fn line_count_pieces(added: u64, removed: u64) -> Seq<PieceView> {
    if added == 0 && removed == 0 {
        Seq::empty()
    } else {
        seq![raw(middle_dot())] + (if added > 0 {
            seq![PieceView { text: seq![43u8] + decimal(added as nat), look: tinted(Tint::Green) }]
        } else {
            Seq::empty()
        }) + (if removed > 0 {
            (if added > 0 {
                seq![raw(" ".spec_bytes())]
            } else {
                Seq::empty()
            }) + seq![PieceView { text: seq![45u8] + decimal(removed as nat), look: tinted(Tint::LightRed) }]
        } else {
            Seq::empty()
        }) + seq![raw(" ".spec_bytes())]
    }
}

/// The total of `counts` is shown where it adds something: when there is more than one count,
/// or a single count that is not all of the changed paths.
pub open spec fn shows_total(counts: Seq<Count>, total: usize) -> bool {
    counts.len() > 0 && (counts.len() != 1 || counts[0].1 != total)
}

/// The aggregate of a summary: the labelled counts joined by plus signs, the total where it
/// adds something, then the added and removed lines.
pub open spec fn aggregate(counts: Seq<Count>, total: usize, added: u64, removed: u64) -> Seq<PieceView> {
    joined_by(counts.map_values(|c: Count| count_piece(c)), " + ".spec_bytes()) + (if shows_total(counts, total) {
        seq![raw(" = ".spec_bytes() + decimal(total as nat))]
    } else {
        Seq::empty()
    }) + line_count_pieces(added, removed)
}

/// Appends the aggregate of a summary.
pub fn append_change_aggregate(
    spans: &mut Vec<Piece>,
    counts: Vec<Count>,
    total: usize,
    lines_added: u64,
    lines_removed: u64,
)
    ensures
        piece_views(final(spans)@) == piece_views(old(spans)@) + aggregate(
            counts@,
            total,
            lines_added,
            lines_removed,
        ),
{
    let ghost sep = " + ".spec_bytes();
    let ghost start = piece_views(spans@);
    let ghost all = counts@.map_values(|c: Count| count_piece(c));
    let show_total = counts.len() > 0 && (counts.len() != 1 || counts[0].1 != total);
    let mut index: usize = 0;
    while index < counts.len()
        invariant
            index <= counts@.len(),
            all == counts@.map_values(|c: Count| count_piece(c)),
            sep == " + ".spec_bytes(),
            piece_views(spans@) == start + joined_by(all.take(index as int), sep),
        decreases counts@.len() - index,
    {
        let (label, count, tint) = counts[index];
        let mut text: Vec<u8> = Vec::new();
        text.push(label);
        text.push(32u8);
        push_decimal(&mut text, count);
        assert(text@ =~= seq![label, 32u8] + decimal(count as nat));
        let p = Piece { text, look: color(tint) };
        assert(p@ == all[index as int]);
        assert(all.take(index + 1) =~= all.take(index as int).push(all[index as int]));
        proof {
            lemma_joined_push(all.take(index as int), sep, p@);
        }
        let ghost before = piece_views(spans@);
        let ghost pv = p@;
        if index > 0 {
            push_piece(spans, Piece { text: crate::bytes::copy_bytes(" + ".as_bytes()), look: plain_look() });
        }
        assert(piece_views(spans@) =~= before + (if all.take(index as int).len() == 0 {
            Seq::empty()
        } else {
            seq![raw(sep)]
        }));
        push_piece(spans, p);
        assert(joined_by(all.take(index + 1), sep) == joined_by(all.take(index as int), sep) + (if all.take(
            index as int,
        ).len() == 0 {
            Seq::empty()
        } else {
            seq![raw(sep)]
        }) + seq![pv]);
        assert(piece_views(spans@) =~= start + joined_by(all.take(index + 1), sep));
        index += 1;
    }
    assert(all.take(index as int) =~= all);
    let ghost counted = piece_views(spans@);
    if show_total {
        let mut text: Vec<u8> = Vec::new();
        push_all(&mut text, " = ".as_bytes());
        push_decimal(&mut text, total);
        push_piece(spans, Piece { text, look: plain_look() });
    }
    let ghost totalled = piece_views(spans@);
    assert(totalled == counted + (if shows_total(counts@, total) {
        seq![raw(" = ".spec_bytes() + decimal(total as nat))]
    } else {
        Seq::empty()
    }));
    if lines_added > 0 || lines_removed > 0 {
        let mut dot: Vec<u8> = Vec::new();
        dot.push(32u8);
        dot.push(0xC2u8);
        dot.push(0xB7u8);
        dot.push(32u8);
        assert(dot@ =~= middle_dot());
        push_piece(spans, Piece { text: dot, look: plain_look() });
        let ghost after_dot = piece_views(spans@);
        if lines_added > 0 {
            let mut text = byte(43u8);
            push_decimal_u64(&mut text, lines_added);
            push_piece(spans, Piece { text, look: color(Tint::Green) });
        }
        let ghost after_added = piece_views(spans@);
        if lines_removed > 0 {
            if lines_added > 0 {
                push_piece(spans, Piece { text: crate::bytes::copy_bytes(" ".as_bytes()), look: plain_look() });
            }
            let mut text = byte(45u8);
            push_decimal_u64(&mut text, lines_removed);
            push_piece(spans, Piece { text, look: color(Tint::LightRed) });
        }
        push_piece(spans, Piece { text: crate::bytes::copy_bytes(" ".as_bytes()), look: plain_look() });
        assert(piece_views(spans@) =~= totalled + line_count_pieces(lines_added, lines_removed));
    } else {
        assert(piece_views(spans@) =~= totalled + line_count_pieces(lines_added, lines_removed));
    }
}

/// A box-drawing rule.
pub open spec fn rule() -> Seq<u8> {
    seq![0xE2u8, 0x94u8, 0x80u8]
}

/// Sixteen to the power `n`.
pub open spec fn pow16(n: nat) -> int
    decreases n,
{
    if n == 0 {
        1
    } else {
        16 * pow16((n - 1) as nat)
    }
}

/// The lower-case hexadecimal digit of `d`.
pub open spec fn hex_digit(d: int) -> u8 {
    if d < 10 {
        (48 + d) as u8
    } else {
        (87 + d) as u8
    }
}

/// The first seven hexadecimal digits of an identity.
pub open spec fn short_hex(id: ObjectId) -> Seq<u8> {
    Seq::new(7, |i: int| hex_digit((id.high as int / pow16((15 - i) as nat)) % 16))
}

proof fn lemma_pow16_positive(n: nat)
    ensures
        pow16(n) > 0,
    decreases n,
{
    if n > 0 {
        lemma_pow16_positive((n - 1) as nat);
    }
}

/// The first seven hexadecimal digits of an identity.
pub fn short_hex_of(id: ObjectId) -> (r: Vec<u8>)
    ensures
        r@ == short_hex(id),
{
    let mut out: Vec<u8> = Vec::new();
    let mut divisor: u64 = 0x1000_0000_0000_0000;
    assert(pow16(15) == 0x1000_0000_0000_0000) by {
        reveal_with_fuel(pow16, 16);
    }
    let mut i: usize = 0;
    while i < 7
        invariant
            i <= 7,
            divisor == pow16((15 - i) as nat),
            out@.len() == i,
            forall|j: int| 0 <= j < i ==> out@[j] == #[trigger] short_hex(id)[j],
        decreases 7 - i,
    {
        proof {
            lemma_pow16_positive((15 - i) as nat);
            lemma_pow16_positive((14 - i) as nat);
        }
        let d = (id.high / divisor) % 16;
        let digit = if d < 10 { 48 + d as u8 } else { 87 + d as u8 };
        out.push(digit);
        assert(pow16((15 - i) as nat) == 16 * pow16((14 - i) as nat));
        divisor = divisor / 16;
        i += 1;
    }
    assert(out@ =~= short_hex(id));
    out
}

/// The `n` lower-case hexadecimal digits of `x`, most significant first.
pub open spec fn hex_digits(x: int, n: nat) -> Seq<u8> {
    Seq::new(n, |i: int| hex_digit((x / pow16((n - 1 - i) as nat)) % 16))
}

/// The forty hexadecimal digits of an identity.
pub open spec fn full_hex(id: ObjectId) -> Seq<u8> {
    hex_digits(id.high as int, 16) + hex_digits(id.middle as int, 16) + hex_digits(id.low as int, 8)
}

/// Appends the `n` hexadecimal digits of `x`, most significant first.
fn push_hex_digits(out: &mut Vec<u8>, x: u64, n: usize)
    requires
        1 <= n <= 16,
    ensures
        final(out)@ == old(out)@ + hex_digits(x as int, n as nat),
{
    let ghost base = out@;
    let mut divisor: u64 = 1;
    let mut k: usize = 1;
    while k < n
        invariant
            1 <= k <= n <= 16,
            divisor == pow16((k - 1) as nat),
        decreases n - k,
    {
        proof {
            reveal_with_fuel(pow16, 2);
            lemma_pow16_bound((k - 1) as nat);
            assert(pow16(15) == 0x1000_0000_0000_0000) by {
                reveal_with_fuel(pow16, 16);
            }
        }
        divisor = divisor * 16;
        k += 1;
    }
    let mut i: usize = 0;
    while i < n
        invariant
            i <= n <= 16,
            divisor == pow16((n - 1 - i) as nat) || i == n,
            out@.len() == base.len() + i,
            forall|j: int| 0 <= j < base.len() ==> out@[j] == base[j],
            forall|j: int| 0 <= j < i ==> out@[base.len() + j] == #[trigger] hex_digits(x as int, n as nat)[j],
        decreases n - i,
    {
        proof {
            lemma_pow16_positive((n - 1 - i) as nat);
        }
        let d = (x / divisor) % 16;
        let digit = if d < 10 { 48 + d as u8 } else { 87 + d as u8 };
        out.push(digit);
        if i + 1 < n {
            proof {
                lemma_pow16_positive((n - 2 - i) as nat);
                assert(pow16((n - 1 - i) as nat) == 16 * pow16((n - 2 - i) as nat));
            }
            divisor = divisor / 16;
        }
        i += 1;
    }
    assert(out@ =~= base + hex_digits(x as int, n as nat));
}

proof fn lemma_pow16_bound(n: nat)
    requires
        n < 15,
    ensures
        16 * pow16(n) <= pow16(15),
        pow16(n + 1) == 16 * pow16(n),
    decreases 15 - n,
{
    reveal_with_fuel(pow16, 2);
    if n < 14 {
        lemma_pow16_bound(n + 1);
        lemma_pow16_positive(n);
    }
}

/// The forty hexadecimal digits of an identity.
pub fn full_hex_of(id: ObjectId) -> (r: Vec<u8>)
    ensures
        r@ == full_hex(id),
{
    let mut out: Vec<u8> = Vec::new();
    push_hex_digits(&mut out, id.high, 16);
    push_hex_digits(&mut out, id.middle, 16);
    push_hex_digits(&mut out, id.low as u64, 8);
    out
}

/// The label of the tree pane: the selected commit's short identity, or dashes without one.
pub open spec fn tree_label(app: App) -> Seq<u8> {
    match app.selected {
        Some(i) => if i < app.rows@.len() {
            short_hex(app.rows@[i as int].id)
        } else {
            "-------".spec_bytes()
        },
        None => "-------".spec_bytes(),
    }
}

/// The heading of a change pane's summary.
pub open spec fn summary_heading(pane: ChangePane, app: App, changes: Changes) -> Seq<PieceView> {
    let closing = " ".spec_bytes() + rule() + rule() + " ".spec_bytes();
    match pane {
        ChangePane::Tree => seq![raw(rule() + " Tree ".spec_bytes() + tree_label(app) + closing)],
        ChangePane::Worktree => if changes.paths@.len() == 0 {
            seq![
                raw(rule() + " Worktree ".spec_bytes()),
                PieceView { text: "clean".spec_bytes(), look: tinted(Tint::Green) },
                raw(closing),
            ]
        } else {
            seq![raw(rule() + " Worktree".spec_bytes() + closing)]
        },
    }
}

/// The summary above a change pane: its heading, then the counts of its changes.
pub open spec fn summary_pieces(pane: ChangePane, app: App, changes: Changes) -> Seq<PieceView> {
    let counts = match pane {
        ChangePane::Tree => kind_counts(changes.paths@, listed_kinds()),
        ChangePane::Worktree => worktree_counts(changes.paths@),
    };
    summary_heading(pane, app, changes) + aggregate(counts, changes.paths@.len() as usize, changes.lines_added, changes.lines_removed)
}

/// The summary drawn in the top border of a change pane.
pub fn changes_summary(pane: ChangePane, app: &App, changes: &Changes) -> (r: Vec<Piece>)
    ensures
        piece_views(r@) == summary_pieces(pane, *app, *changes),
{
    let mut closing: Vec<u8> = Vec::new();
    push_all(&mut closing, " ".as_bytes());
    push_rule(&mut closing);
    push_rule(&mut closing);
    push_all(&mut closing, " ".as_bytes());
    assert(closing@ =~= " ".spec_bytes() + rule() + rule() + " ".spec_bytes());
    let mut spans: Vec<Piece> = Vec::new();
    match pane {
        ChangePane::Tree => {
            let label = match app.selected {
                Some(i) => if i < app.rows.len() {
                    short_hex_of(app.rows[i].id)
                } else {
                    crate::bytes::copy_bytes("-------".as_bytes())
                },
                None => crate::bytes::copy_bytes("-------".as_bytes()),
            };
            let mut text: Vec<u8> = Vec::new();
            push_rule(&mut text);
            push_all(&mut text, " Tree ".as_bytes());
            push_all(&mut text, label.as_slice());
            push_all(&mut text, closing.as_slice());
            push_piece(&mut spans, Piece { text, look: plain_look() });
        },
        ChangePane::Worktree => {
            let mut text: Vec<u8> = Vec::new();
            push_rule(&mut text);
            if changes.paths.len() == 0 {
                push_all(&mut text, " Worktree ".as_bytes());
                push_piece(&mut spans, Piece { text, look: plain_look() });
                push_piece(
                    &mut spans,
                    Piece { text: crate::bytes::copy_bytes("clean".as_bytes()), look: color(Tint::Green) },
                );
                push_piece(&mut spans, Piece { text: closing, look: plain_look() });
            } else {
                push_all(&mut text, " Worktree".as_bytes());
                push_all(&mut text, closing.as_slice());
                push_piece(&mut spans, Piece { text, look: plain_look() });
            }
        },
    }
    assert(piece_views(spans@) =~= summary_heading(pane, *app, *changes));
    let counts = match pane {
        ChangePane::Tree => tree_change_counts(changes),
        ChangePane::Worktree => worktree_change_counts(changes),
    };
    append_change_aggregate(&mut spans, counts, changes.paths.len(), changes.lines_added, changes.lines_removed);
    spans
}

/// Appends a box-drawing rule.
fn push_rule(out: &mut Vec<u8>)
    ensures
        final(out)@ == old(out)@ + rule(),
{
    out.push(0xE2u8);
    out.push(0x94u8);
    out.push(0x80u8);
    assert(out@ =~= old(out)@ + rule());
}

} // verus!

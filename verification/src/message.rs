//! The commit message pane: the lines of a message with its notes, and where the trailers of a
//! message go beside their keys.
use vstd::prelude::*;
use vstd::string::StringSliceAdditionalSpecFns;

use crate::bytes::copy_bytes;
use crate::app::{sat_add, sat_sub};
use crate::layout::{Area, sat_add16, sat_sub16};
use crate::look::{Look, Piece, PieceView, Tint, piece_views, plain, tinted};
use crate::reword::{find_line_end, line_end, trim_cr, without_trailing_cr};
use crate::summary::push_piece;

verus! {

/// The lines of `s` from position `start` on, as `str::lines` splits them: at each newline, one
/// trailing carriage return dropped, and no empty line after a final newline.
pub open spec fn lines_from(s: Seq<u8>, start: int) -> Seq<Seq<u8>>
    decreases s.len() - start,
{
    if start < 0 || start >= s.len() {
        Seq::empty()
    } else {
        let e = line_end(s, start);
        proof {
            crate::reword::lemma_line_end_bounds(s, start);
        }
        if e >= s.len() {
            seq![without_trailing_cr(s.subrange(start, e))]
        } else {
            seq![without_trailing_cr(s.subrange(start, e))] + lines_from(s, e + 1)
        }
    }
}

/// The lines of a text: a single empty line for empty text.
pub open spec fn text_lines(s: Seq<u8>) -> Seq<Seq<u8>> {
    if s.len() == 0 {
        seq![Seq::empty()]
    } else {
        lines_from(s, 0)
    }
}

/// The lines of a text.
pub fn split_lines(s: &[u8]) -> (r: Vec<Vec<u8>>)
    ensures
        r@.map_values(|l: Vec<u8>| l@) == text_lines(s@),
{
    let mut out: Vec<Vec<u8>> = Vec::new();
    if s.len() == 0 {
        out.push(Vec::new());
        assert(out@.map_values(|l: Vec<u8>| l@) =~= text_lines(s@));
        return out;
    }
    let mut start: usize = 0;
    while start < s.len()
        invariant
            start <= s@.len(),
            s@.len() > 0,
            lines_from(s@, 0) == out@.map_values(|l: Vec<u8>| l@) + lines_from(s@, start as int),
        decreases s@.len() - start,
    {
        let end = find_line_end(s, start);
        let kept = trim_cr(s, start, end);
        let mut line: Vec<u8> = Vec::new();
        let mut k = start;
        while k < kept
            invariant
                start <= k <= kept,
                kept <= s@.len(),
                line@ == s@.subrange(start as int, k as int),
            decreases kept - k,
        {
            line.push(s[k]);
            assert(line@ =~= s@.subrange(start as int, k + 1));
            k += 1;
        }
        let ghost before = out@.map_values(|l: Vec<u8>| l@);
        let ghost piece = without_trailing_cr(s@.subrange(start as int, end as int));
        assert(lines_from(s@, start as int) =~= seq![piece] + lines_from(s@, end + 1));
        out.push(line);
        assert(out@.map_values(|l: Vec<u8>| l@) =~= before.push(piece));
        let next = if end < s.len() { end + 1 } else { s.len() };
        assert(lines_from(s@, end + 1) == lines_from(s@, next as int));
        assert(before + lines_from(s@, start as int) =~= before.push(piece) + lines_from(s@, next as int));
        start = next;
    }
    assert(out@.map_values(|l: Vec<u8>| l@) + lines_from(s@, start as int) =~= out@.map_values(|l: Vec<u8>| l@));
    out
}

/// A line holding one piece of text in the given look.
pub open spec fn styled_line(text: Seq<u8>, look: Look) -> Seq<PieceView> {
    seq![PieceView { text, look }]
}

/// Each of `lines` as a line of one piece in the given look.
pub open spec fn styled_lines(lines: Seq<Seq<u8>>, look: Look) -> Seq<Seq<PieceView>> {
    lines.map_values(|l: Seq<u8>| styled_line(l, look))
}

/// The colour of notes.
pub open spec fn note_look() -> Look {
    tinted(Tint::LightMagenta)
}

/// The lines of one note: a blank line, its heading and its text in the note colour.
pub open spec fn note_lines(note: Seq<u8>) -> Seq<Seq<PieceView>> {
    seq![
        Seq::empty(),
        seq![
            PieceView { text: "Notes".spec_bytes(), look: Look { bold: true, ..note_look() } },
            PieceView { text: ":".spec_bytes(), look: note_look() },
        ],
    ] + styled_lines(text_lines(note), note_look())
}

/// The lines of all notes, in order.
pub open spec fn all_note_lines(notes: Seq<Seq<u8>>) -> Seq<Seq<PieceView>>
    decreases notes.len(),
{
    if notes.len() == 0 {
        Seq::empty()
    } else {
        all_note_lines(notes.drop_last()) + note_lines(notes.last())
    }
}

/// The text of a commit message: its title in bold, then, after a blank line, its body where it
/// has one, then each note.
pub open spec fn message_lines(title: Seq<u8>, body: Option<Seq<u8>>, notes: Seq<Seq<u8>>) -> Seq<Seq<PieceView>> {
    styled_lines(text_lines(title), Look { bold: true, ..plain() }) + match body {
        Some(b) => if b.len() > 0 {
            seq![Seq::empty()] + styled_lines(text_lines(b), plain())
        } else {
            Seq::empty()
        },
        None => Seq::empty(),
    } + all_note_lines(notes)
}

/// The values of lines of pieces.
pub open spec fn line_views(lines: Seq<Vec<Piece>>) -> Seq<Seq<PieceView>> {
    lines.map_values(|l: Vec<Piece>| piece_views(l@))
}

/// Appends each line of `text` as a line of one piece in the given look.
fn push_text(out: &mut Vec<Vec<Piece>>, text: &[u8], look: Look)
    ensures
        line_views(final(out)@) == line_views(old(out)@) + styled_lines(text_lines(text@), look),
{
    let lines = split_lines(text);
    let ghost all = lines@.map_values(|l: Vec<u8>| l@);
    let mut i: usize = 0;
    while i < lines.len()
        invariant
            i <= lines@.len(),
            all == lines@.map_values(|l: Vec<u8>| l@),
            all == text_lines(text@),
            line_views(out@) == line_views(old(out)@) + styled_lines(all.take(i as int), look),
        decreases lines@.len() - i,
    {
        let mut line: Vec<Piece> = Vec::new();
        assert(piece_views(line@) =~= Seq::<PieceView>::empty());
        push_piece(&mut line, Piece { text: copy_bytes(lines[i].as_slice()), look });
        assert(piece_views(line@) =~= styled_line(all[i as int], look));
        let ghost before = line_views(out@);
        out.push(line);
        assert(styled_lines(all.take(i + 1), look) =~= styled_lines(all.take(i as int), look).push(styled_line(all[i as int], look)));
        assert(line_views(out@) =~= before.push(styled_line(all[i as int], look)));
        i += 1;
    }
    assert(all.take(i as int) =~= all);
}

/// The text of a commit message: its title in bold, its body after a blank line where it has one,
/// then each note after a blank line and a heading, in the note colour.
pub fn commit_text(title: &[u8], body: Option<&[u8]>, notes: &Vec<Vec<u8>>) -> (r: Vec<Vec<Piece>>)
    ensures
        line_views(r@) == message_lines(
            title@,
            match body {
                Some(b) => Some(b@),
                None => None,
            },
            notes@.map_values(|n: Vec<u8>| n@),
        ),
{
    let mut out: Vec<Vec<Piece>> = Vec::new();
    let bold = Look { fg: None, bold: true, dim: false, italic: false, reversed: false, undimmed: false };
    let regular = Look { fg: None, bold: false, dim: false, italic: false, reversed: false, undimmed: false };
    let tint = Look { fg: Some(Tint::LightMagenta), bold: false, dim: false, italic: false, reversed: false, undimmed: false };
    push_text(&mut out, title, bold);
    let ghost titled = line_views(out@);
    match body {
        Some(b) => {
            if b.len() > 0 {
                let blank: Vec<Piece> = Vec::new();
                assert(piece_views(blank@) =~= Seq::<PieceView>::empty());
                out.push(blank);
                assert(line_views(out@) =~= titled.push(Seq::empty()));
                push_text(&mut out, b, regular);
            }
        },
        None => {},
    }
    let ghost bodied = line_views(out@);
    let ghost all = notes@.map_values(|n: Vec<u8>| n@);
    let mut i: usize = 0;
    while i < notes.len()
        invariant
            i <= notes@.len(),
            all == notes@.map_values(|n: Vec<u8>| n@),
            tint == note_look(),
            line_views(out@) == bodied + all_note_lines(all.take(i as int)),
        decreases notes@.len() - i,
    {
        assert(all.take(i + 1).drop_last() =~= all.take(i as int));
        let ghost before = line_views(out@);
        let blank: Vec<Piece> = Vec::new();
        assert(piece_views(blank@) =~= Seq::<PieceView>::empty());
        out.push(blank);
        let mut heading: Vec<Piece> = Vec::new();
        assert(piece_views(heading@) =~= Seq::<PieceView>::empty());
        push_piece(
            &mut heading,
            Piece {
                text: copy_bytes("Notes".as_bytes()),
                look: Look { fg: Some(Tint::LightMagenta), bold: true, dim: false, italic: false, reversed: false, undimmed: false },
            },
        );
        push_piece(&mut heading, Piece { text: copy_bytes(":".as_bytes()), look: tint });
        assert(piece_views(heading@) =~= seq![
            PieceView { text: "Notes".spec_bytes(), look: Look { bold: true, ..note_look() } },
            PieceView { text: ":".spec_bytes(), look: note_look() },
        ]);
        out.push(heading);
        assert(line_views(out@) =~= before + seq![
            Seq::empty(),
            seq![
                PieceView { text: "Notes".spec_bytes(), look: Look { bold: true, ..note_look() } },
                PieceView { text: ":".spec_bytes(), look: note_look() },
            ],
        ]);
        push_text(&mut out, notes[i].as_slice(), tint);
        assert(line_views(out@) =~= bodied + all_note_lines(all.take(i + 1)));
        i += 1;
    }
    assert(all.take(i as int) =~= all);
    out
}

/// Where a trailer of the message pane is drawn: its position among the trailers, the row of its
/// first drawn line, how many of its lines are scrolled away above, how many are drawn, and
/// whether its key is drawn, which is where its first line is.
#[derive(Clone, Copy, Debug, PartialEq, Eq, Structural)]
pub struct TrailerPlacement {
    pub index: usize,
    pub y: u16,
    pub skipped: usize,
    pub height: usize,
    pub shows_key: bool,
}

/// The total of `heights`.
pub open spec fn total(heights: Seq<usize>) -> nat
    decreases heights.len(),
{
    if heights.len() == 0 {
        0
    } else {
        total(heights.drop_last()) + heights.last() as nat
    }
}

/// A prefix totals no more than the whole.
proof fn lemma_total_prefix(heights: Seq<usize>, i: int)
    requires
        0 <= i <= heights.len(),
    ensures
        total(heights.take(i)) <= total(heights),
    decreases heights.len() - i,
{
    if i < heights.len() {
        lemma_total_prefix(heights, i + 1);
        assert(heights.take(i + 1).drop_last() =~= heights.take(i));
    } else {
        assert(heights.take(i) =~= heights);
    }
}

/// How far the message pane of `area` scrolls: the rows of the body, a blank row and the rows of
/// the trailers beyond the pane's height, at most the largest `u16`.
pub open spec fn trailer_max_offset(area: Area, body_height: usize, heights: Seq<usize>) -> usize {
    let rows = sat_add(sat_add(body_height, 1), total(heights) as usize);
    let beyond = sat_sub(rows, area.height as usize);
    if beyond <= u16::MAX {
        beyond
    } else {
        u16::MAX as usize
    }
}

/// The placements of the trailers from the `k`-th on, the `k`-th starting on content row `start`,
/// when the pane shows content rows `offset..viewport_end` on the rows of `area`: none once a
/// trailer starts below the pane, and none for a trailer scrolled away entirely.
pub open spec fn placements(
    area: Area,
    heights: Seq<usize>,
    offset: usize,
    viewport_end: usize,
    start: usize,
    k: int,
) -> Seq<TrailerPlacement>
    decreases heights.len() - k,
{
    if k < 0 || k >= heights.len() || start >= viewport_end {
        Seq::empty()
    } else {
        let h = heights[k];
        let end = sat_add(start, h);
        let rest = placements(area, heights, offset, viewport_end, end, k + 1);
        if end > offset {
            let skipped = sat_sub(offset, start);
            let down = sat_sub(start, offset);
            let y = sat_add16(area.y, if down <= u16::MAX {
                down as u16
            } else {
                0
            });
            let room = sat_sub16(sat_add16(area.y, area.height), y) as usize;
            let drawn = sat_sub(h, skipped);
            seq![
                TrailerPlacement {
                    index: k as usize,
                    y,
                    skipped,
                    height: if drawn <= room {
                        drawn
                    } else {
                        room
                    },
                    shows_key: skipped == 0,
                },
            ] + rest
        } else {
            rest
        }
    }
}

fn add_sat(a: usize, b: usize) -> (r: usize)
    ensures
        r == sat_add(a, b),
{
    if b <= usize::MAX - a {
        a + b
    } else {
        usize::MAX
    }
}

fn sub_sat(a: usize, b: usize) -> (r: usize)
    ensures
        r == sat_sub(a, b),
{
    if a >= b {
        a - b
    } else {
        0
    }
}

/// How far the message pane of `area` scrolls, and where each trailer visible at `offset` is
/// drawn beside its key, below `body_height` rows of body and a blank row; `heights` holds the
/// rows each trailer's value takes.
pub fn trailer_layout(area: Area, body_height: usize, heights: &Vec<usize>, offset: usize) -> (r: (usize, Vec<TrailerPlacement>))
    requires
        total(heights@) <= usize::MAX,
    ensures
        r.0 == trailer_max_offset(area, body_height, heights@),
        r.1@ == placements(
            area,
            heights@,
            if offset <= r.0 {
                offset
            } else {
                r.0
            },
            sat_add(
                if offset <= r.0 {
                    offset
                } else {
                    r.0
                },
                area.height as usize,
            ),
            sat_add(body_height, 1),
            0,
        ),
{
    let mut sum: usize = 0;
    let mut i: usize = 0;
    while i < heights.len()
        invariant
            i <= heights@.len(),
            total(heights@) <= usize::MAX,
            sum == total(heights@.take(i as int)),
        decreases heights@.len() - i,
    {
        assert(heights@.take(i + 1).drop_last() =~= heights@.take(i as int));
        proof {
            lemma_total_prefix(heights@, i + 1);
        }
        sum = sum + heights[i];
        i += 1;
    }
    assert(heights@.take(i as int) =~= heights@);
    let rows = add_sat(add_sat(body_height, 1), sum);
    let beyond = sub_sat(rows, area.height as usize);
    let max_offset = if beyond <= 0xffff { beyond } else { 0xffff };
    let offset = if offset <= max_offset { offset } else { max_offset };
    let viewport_end = add_sat(offset, area.height as usize);
    let bottom = area.bottom();
    let ghost first = sat_add(body_height, 1);
    let mut start = add_sat(body_height, 1);
    let mut out: Vec<TrailerPlacement> = Vec::new();
    let mut k: usize = 0;
    while k < heights.len()
        invariant
            k <= heights@.len(),
            bottom == sat_add16(area.y, area.height),
            placements(area, heights@, offset, viewport_end, first, 0) == out@ + placements(
                area,
                heights@,
                offset,
                viewport_end,
                start,
                k as int,
            ),
        ensures
            k >= heights@.len() || start >= viewport_end,
            placements(area, heights@, offset, viewport_end, first, 0) == out@ + placements(
                area,
                heights@,
                offset,
                viewport_end,
                start,
                k as int,
            ),
        decreases heights@.len() - k,
    {
        if start >= viewport_end {
            break;
        }
        let h = heights[k];
        let end = add_sat(start, h);
        let ghost before = out@;
        if end > offset {
            let skipped = sub_sat(offset, start);
            let down = sub_sat(start, offset);
            let y = if down <= 0xffff {
                if down as u16 <= u16::MAX - area.y { area.y + down as u16 } else { u16::MAX }
            } else {
                area.y
            };
            let room = if bottom >= y { (bottom - y) as usize } else { 0 };
            let drawn = sub_sat(h, skipped);
            out.push(TrailerPlacement { index: k, y, skipped, height: if drawn <= room { drawn } else { room }, shows_key: skipped == 0 });
        }
        assert(out@ + placements(area, heights@, offset, viewport_end, end, k + 1) =~= before + placements(
            area,
            heights@,
            offset,
            viewport_end,
            start,
            k as int,
        ));
        start = end;
        k += 1;
    }
    assert(out@ + placements(area, heights@, offset, viewport_end, start, k as int) =~= out@);
    (max_offset, out)
}

} // verus!

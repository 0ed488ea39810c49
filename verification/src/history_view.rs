//! How the rows of the history are laid out across the screen: the width of the graph, how far
//! the view pans, where the selection marker goes, and how each row's metadata is drawn.
use vstd::prelude::*;

use crate::app::{App, CopyKind, NameMode, sat_sub};
use crate::commit::SignatureState;
use crate::layout::{Area, PaneArea};
use crate::position::{decimal, push_decimal};
use crate::ids::ObjectId;
use crate::layout::{sat_add16, sat_sub16};
use crate::look::{is_white_space, white_space};
use crate::metadata::MetadataOptions;

verus! {

/// The length of `line` without its trailing white space.
pub open spec fn trimmed_len(line: Seq<char>) -> nat
    decreases line.len(),
{
    if line.len() == 0 {
        0
    } else if is_white_space(line.last()) {
        trimmed_len(line.drop_last())
    } else {
        line.len()
    }
}

/// The widest of the drawn graph lines, each counted to its last visible character and one
/// column after it (at most the largest `usize`); empty lines count nothing.
pub open spec fn drawn_lane_width(lanes: Seq<Seq<char>>) -> nat
    decreases lanes.len(),
{
    if lanes.len() == 0 {
        0
    } else {
        let rest = drawn_lane_width(lanes.drop_last());
        let w = if lanes.last().len() == 0 {
            0
        } else if trimmed_len(lanes.last()) + 1 > usize::MAX {
            usize::MAX as nat
        } else {
            trimmed_len(lanes.last()) + 1
        };
        if w >= rest {
            w
        } else {
            rest
        }
    }
}

/// The width of the graph: that of the drawn lines, or the estimate while nothing is drawn.
pub open spec fn lane_width_of(lanes: Seq<Seq<char>>, estimated: usize) -> nat {
    if drawn_lane_width(lanes) == 0 {
        estimated as nat
    } else {
        drawn_lane_width(lanes)
    }
}

/// The length of `line` without its trailing white space.
fn trimmed(line: &Vec<char>) -> (r: usize)
    ensures
        r == trimmed_len(line@),
        r <= line@.len(),
{
    let mut n = line.len();
    assert(line@.take(n as int) =~= line@);
    while n > 0 && white_space(line[n - 1])
        invariant
            n <= line@.len(),
            trimmed_len(line@) == trimmed_len(line@.take(n as int)),
        decreases n,
    {
        assert(line@.take(n as int).drop_last() =~= line@.take(n - 1));
        n -= 1;
    }
    proof {
        if n > 0 {
            assert(line@.take(n as int).last() == line@[n - 1]);
        }
    }
    n
}

/// The width of the graph: that of the drawn lines, or the estimate while nothing is drawn.
pub fn lane_width(lanes: &Vec<Vec<char>>, estimated: usize) -> (r: usize)
    ensures
        r == lane_width_of(lanes@.map_values(|l: Vec<char>| l@), estimated),
{
    let ghost all = lanes@.map_values(|l: Vec<char>| l@);
    let mut widest: usize = 0;
    let mut i: usize = 0;
    while i < lanes.len()
        invariant
            i <= lanes@.len(),
            all == lanes@.map_values(|l: Vec<char>| l@),
            widest == drawn_lane_width(all.take(i as int)),
            widest <= usize::MAX,
        decreases lanes@.len() - i,
    {
        assert(all.take(i + 1).drop_last() =~= all.take(i as int));
        let w = if lanes[i].len() == 0 {
            0
        } else {
            let t = trimmed(&lanes[i]);
            if t < usize::MAX { t + 1 } else { usize::MAX }
        };
        if w >= widest {
            widest = w;
        }
        i += 1;
    }
    assert(all.take(i as int) =~= all);
    if widest == 0 {
        estimated
    } else {
        widest
    }
}

/// How the history is panned: the columns that the graph keeps beside aligned metadata, how far
/// the view can pan, how far it pans, and how far the graph pans.
#[derive(Clone, Copy, Debug, PartialEq, Eq, Structural)]
pub struct Columns {
    pub align_width: usize,
    pub max_offset: usize,
    pub horizontal_offset: usize,
    pub graph_offset: usize,
}

/// The widest of `widths`, or zero.
pub open spec fn widest_of(widths: Seq<usize>) -> usize
    decreases widths.len(),
{
    if widths.len() == 0 {
        0
    } else {
        let rest = widest_of(widths.drop_last());
        if widths.last() >= rest {
            widths.last()
        } else {
            rest
        }
    }
}

/// The panning of a history of `body_width` columns whose rows are drawn in `content_width`
/// columns beside the marker: aligned metadata starts after the graph, at most a third of the
/// body less two columns (and at least one) wide; the view pans up to the graph's overflow past
/// that width when aligned, else up to how far the widest row (`row_widths`) reaches past the
/// content, at most the largest `u16`; the requested `horizontal_offset` is kept within that,
/// and the graph pans no further than it can.
pub open spec fn columns_of(
    body_width: u16,
    content_width: u16,
    lane_width: usize,
    align_metadata: bool,
    row_widths: Seq<usize>,
    horizontal_offset: usize,
) -> Columns {
    let third = sat_sub((body_width / 3) as usize, 2);
    let limit_low = if third >= 1 {
        third
    } else {
        1
    };
    let align_limit = if limit_low <= content_width {
        limit_low
    } else {
        content_width as usize
    };
    let align_width = if lane_width <= align_limit {
        lane_width
    } else {
        align_limit
    };
    let graph_max_offset = sat_sub(lane_width, align_width);
    let reach = if align_metadata {
        graph_max_offset
    } else {
        sat_sub(widest_of(row_widths), content_width as usize)
    };
    let max_offset = if reach <= u16::MAX {
        reach
    } else {
        u16::MAX as usize
    };
    let offset = if horizontal_offset <= max_offset {
        horizontal_offset
    } else {
        max_offset
    };
    Columns {
        align_width,
        max_offset,
        horizontal_offset: offset,
        graph_offset: if offset <= graph_max_offset {
            offset
        } else {
            graph_max_offset
        },
    }
}

/// The panning of the history; `row_widths` holds, for each drawn row, the columns of its graph
/// line and its metadata.
pub fn history_columns(
    body_width: u16,
    content_width: u16,
    lane_width: usize,
    align_metadata: bool,
    row_widths: &Vec<usize>,
    horizontal_offset: usize,
) -> (r: Columns)
    ensures
        r == columns_of(body_width, content_width, lane_width, align_metadata, row_widths@, horizontal_offset),
        r.horizontal_offset <= r.max_offset,
        r.graph_offset <= r.horizontal_offset,
        r.max_offset <= u16::MAX,
{
    let third = if body_width / 3 >= 2 { (body_width / 3 - 2) as usize } else { 0 };
    let limit_low = if third >= 1 { third } else { 1 };
    let align_limit = if limit_low <= content_width as usize { limit_low } else { content_width as usize };
    let align_width = if lane_width <= align_limit { lane_width } else { align_limit };
    let graph_max_offset = if lane_width >= align_width { lane_width - align_width } else { 0 };
    let reach = if align_metadata {
        graph_max_offset
    } else {
        let mut widest: usize = 0;
        let mut i: usize = 0;
        while i < row_widths.len()
            invariant
                i <= row_widths@.len(),
                widest == widest_of(row_widths@.take(i as int)),
            decreases row_widths@.len() - i,
        {
            assert(row_widths@.take(i + 1).drop_last() =~= row_widths@.take(i as int));
            if row_widths[i] >= widest {
                widest = row_widths[i];
            }
            i += 1;
        }
        assert(row_widths@.take(i as int) =~= row_widths@);
        if widest >= content_width as usize { widest - content_width as usize } else { 0 }
    };
    let max_offset = if reach <= 0xffff { reach } else { 0xffff };
    let offset = if horizontal_offset <= max_offset { horizontal_offset } else { max_offset };
    Columns {
        align_width,
        max_offset,
        horizontal_offset: offset,
        graph_offset: if offset <= graph_max_offset { offset } else { graph_max_offset },
    }
}

/// How the metadata of row `row` is drawn: names while they are shown or the author is being
/// copied, trailers while all names and trailers are shown, the row marked where it is the
/// selection with its tail shown or the compared parent, and the copy feedback on the selection
/// only.
pub open spec fn options_of(
    a: App,
    row: int,
    copy_feedback: Option<CopyKind>,
    compared_parent: Option<ObjectId>,
    has_notes: bool,
) -> MetadataOptions {
    let selected = a.selected == Some(row as usize);
    MetadataOptions {
        show_committer_date: a.show_committer_date,
        show_author_name: a.preview_author_copy || copy_feedback == Some(CopyKind::Author) || a.name_mode != NameMode::Off,
        show_emails: a.show_emails,
        show_trailers: a.name_mode == NameMode::All && a.show_trailers,
        has_notes,
        ref_mode: a.ref_mode,
        selected: (selected && a.show_selection_tail) || compared_parent == Some(a.rows@[row].id),
        preview_author_copy: a.preview_author_copy,
        copy_feedback: if selected {
            copy_feedback
        } else {
            None
        },
    }
}

/// How the metadata of row `row` is drawn, `copy_feedback` being what was just copied and
/// `compared_parent` the parent whose changes are shown.
pub fn row_options(
    app: &App,
    row: usize,
    copy_feedback: Option<CopyKind>,
    compared_parent: Option<ObjectId>,
    has_notes: bool,
) -> (r: MetadataOptions)
    requires
        row < app.rows@.len(),
    ensures
        r == options_of(*app, row as int, copy_feedback, compared_parent, has_notes),
{
    let selected = match app.selected {
        Some(s) => s == row,
        None => false,
    };
    let author_copied = match copy_feedback {
        Some(CopyKind::Author) => true,
        _ => false,
    };
    let names = match app.name_mode {
        NameMode::Off => false,
        _ => true,
    };
    let all_names = match app.name_mode {
        NameMode::All => true,
        _ => false,
    };
    let parent = match compared_parent {
        Some(id) => id == app.rows[row].id,
        None => false,
    };
    MetadataOptions {
        show_committer_date: app.show_committer_date,
        show_author_name: app.preview_author_copy || author_copied || names,
        show_emails: app.show_emails,
        show_trailers: all_names && app.show_trailers,
        has_notes,
        ref_mode: app.ref_mode,
        selected: (selected && app.show_selection_tail) || parent,
        preview_author_copy: app.preview_author_copy,
        copy_feedback: if selected { copy_feedback } else { None },
    }
}

/// Identities are resolved through the mailmap while it is enabled and no author is being
/// copied, so that what is copied is what is shown.
pub fn uses_mailmap(app: &App, copy_feedback: Option<CopyKind>) -> (r: bool)
    ensures
        r == (app.use_mailmap && !app.preview_author_copy && copy_feedback != Some(CopyKind::Author)),
{
    let author_copied = match copy_feedback {
        Some(CopyKind::Author) => true,
        _ => false,
    };
    app.use_mailmap && !app.preview_author_copy && !author_copied
}

/// Where the selection marker of a row goes, and the area of the selection information before
/// it.
#[derive(Clone, Copy, Debug, PartialEq, Eq, Structural)]
pub struct Marker {
    pub x: u16,
    pub info: Option<Columns16>,
}

/// A run of columns on one row: its first column and its width.
#[derive(Clone, Copy, Debug, PartialEq, Eq, Structural)]
pub struct Columns16 {
    pub x: u16,
    pub width: u16,
}

fn add16(a: u16, b: u16) -> (r: u16)
    ensures
        r == sat_add16(a, b),
{
    if b <= u16::MAX - a {
        a + b
    } else {
        u16::MAX
    }
}

fn sub16(a: u16, b: u16) -> (r: u16)
    ensures
        r == sat_sub16(a, b),
{
    if a >= b {
        a - b
    } else {
        0
    }
}

fn narrow(n: usize) -> (r: u16)
    ensures
        r == (if n <= u16::MAX {
            n as u16
        } else {
            u16::MAX
        }),
{
    if n <= 0xffff {
        n as u16
    } else {
        0xffff
    }
}

/// The column `n`, or the last where it does not fit.
pub open spec fn narrowed(n: usize) -> u16 {
    if n <= u16::MAX {
        n as u16
    } else {
        u16::MAX
    }
}

/// Where the selection marker goes on a row whose line takes `line_width` columns from
/// `content_x`: one column after the line and the selection information (of `info_width`
/// columns, with a column between), but never past the last column of the body, which ends at
/// `body_right`; the information ends a column before the marker and starts no further left
/// than two columns after the content's start.
pub open spec fn marker_of(content_x: u16, body_right: u16, line_width: usize, info_width: usize) -> Marker {
    let wanted = sat_add16(sat_add16(sat_add16(sat_add16(content_x, narrowed(line_width)), 1), narrowed(info_width)), 1);
    let last = sat_sub16(body_right, 1);
    let x = if wanted <= last {
        wanted
    } else {
        last
    };
    let room = sat_sub16(sat_sub16(x, content_x), 2);
    let width = if narrowed(info_width) <= room {
        narrowed(info_width)
    } else {
        room
    };
    Marker {
        x,
        info: if info_width > 0 && width > 0 {
            Some(Columns16 { x: sat_sub16(sat_sub16(x, width), 1), width })
        } else {
            None
        },
    }
}

/// Where the selection marker goes, and the area (its first column and width) of the selection
/// information before it.
pub fn selection_marker(content_x: u16, body_right: u16, line_width: usize, info_width: usize) -> (r: Marker)
    ensures
        r == marker_of(content_x, body_right, line_width, info_width),
{
    let wanted = add16(add16(add16(add16(content_x, narrow(line_width)), 1), narrow(info_width)), 1);
    let last = sub16(body_right, 1);
    let x = if wanted <= last { wanted } else { last };
    let room = sub16(sub16(x, content_x), 2);
    let width = if narrow(info_width) <= room { narrow(info_width) } else { room };
    Marker { x, info: if info_width > 0 && width > 0 { Some(Columns16 { x: sub16(sub16(x, width), 1), width }) } else { None } }
}

/// The position of the first commit disk of a graph line.
pub open spec fn disk_position(lane: Seq<char>) -> Option<int>
    decreases lane.len(),
{
    if lane.len() == 0 {
        None
    } else {
        match disk_position(lane.drop_last()) {
            Some(p) => Some(p),
            None => if lane.last() == '\u{25cf}' {
                Some(lane.len() - 1)
            } else {
                None
            },
        }
    }
}

/// The first commit disk of a graph line.
fn find_disk(lane: &Vec<char>) -> (r: Option<usize>)
    ensures
        match r {
            Some(p) => p < lane@.len() && disk_position(lane@) == Some(p as int),
            None => disk_position(lane@) is None,
        },
{
    let mut i: usize = 0;
    while i < lane.len()
        invariant
            i <= lane@.len(),
            disk_position(lane@.take(i as int)) is None,
        decreases lane@.len() - i,
    {
        assert(lane@.take(i + 1).drop_last() =~= lane@.take(i as int));
        if lane[i] == '\u{25cf}' {
            proof {
                lemma_disk_prefix(lane@, i as int + 1);
            }
            return Some(i);
        }
        i += 1;
    }
    assert(lane@.take(i as int) =~= lane@);
    None
}

/// A disk found in a prefix is the first disk of the whole line.
proof fn lemma_disk_prefix(lane: Seq<char>, n: int)
    requires
        0 <= n <= lane.len(),
        disk_position(lane.take(n)) is Some,
    ensures
        disk_position(lane) == disk_position(lane.take(n)),
    decreases lane.len() - n,
{
    if n < lane.len() {
        assert(lane.take(n + 1).drop_last() =~= lane.take(n));
        lemma_disk_prefix(lane, n + 1);
    } else {
        assert(lane.take(n) =~= lane);
    }
}

/// Where the number of the selected parent is drawn beside the junction's disk: in the column
/// after the disk, panned by `lane_offset`, as many digits as fit both in the rest of the graph
/// line and in the row of `row_width` columns; nothing where the disk is panned away or no digit
/// fits.
pub open spec fn junction_label_of(lane: Seq<char>, parent: usize, lane_offset: usize, row_width: u16) -> Option<
    (usize, Seq<u8>),
> {
    match disk_position(lane) {
        Some(disk) => if disk >= lane_offset && disk + 1 - lane_offset < row_width {
            let x = disk + 1 - lane_offset;
            let digits = decimal(parent as nat);
            let after = lane.len() - (disk + 1);
            let fit = if digits.len() <= after {
                digits.len() as int
            } else {
                after
            };
            let width = if fit <= row_width - x {
                fit
            } else {
                row_width - x
            };
            if width > 0 {
                Some((x as usize, digits.take(width)))
            } else {
                None
            }
        } else {
            None
        },
        None => None,
    }
}

/// Where the number of the selected parent is drawn beside the junction's disk, and its digits.
pub fn junction_label(lane: &Vec<char>, parent: usize, lane_offset: usize, row_width: u16) -> (r: Option<(usize, Vec<u8>)>)
    ensures
        match junction_label_of(lane@, parent, lane_offset, row_width) {
            Some((x, text)) => r matches Some(found) && found.0 == x && found.1@ == text,
            None => r is None,
        },
{
    let disk = match find_disk(lane) {
        Some(d) => d,
        None => return None,
    };
    let len = lane.len();
    assert(disk < len);
    if disk < lane_offset || disk + 1 - lane_offset >= row_width as usize {
        return None;
    }
    let x = disk + 1 - lane_offset;
    let mut digits: Vec<u8> = Vec::new();
    push_decimal(&mut digits, parent);
    assert(digits@ =~= decimal(parent as nat));
    let after = lane.len() - (disk + 1);
    let fit = if digits.len() <= after { digits.len() } else { after };
    let width = if fit <= row_width as usize - x { fit } else { row_width as usize - x };
    if width == 0 {
        return None;
    }
    digits.truncate(width);
    Some((x, digits))
}

/// Whether a drawn row in `start..end` that is not hidden has a signature to verify.
pub open spec fn verifiable_in(a: App, start: int, end: int) -> bool {
    exists|i: int|
        start <= i < end && i < a.rows@.len() && !a.hidden_at(i) && (a.rows@[i].signature == SignatureState::Unverified
            || a.rows@[i].signature == SignatureState::Verifying)
}

/// Whether a drawn row in `start..end` that is not hidden has a signature to verify.
pub fn has_verifiable_signatures(app: &App, start: usize, end: usize) -> (r: bool)
    ensures
        r == verifiable_in(*app, start as int, end as int),
{
    let mut i = start;
    while i < end && i < app.rows.len()
        invariant
            start <= i,
            forall|j: int|
                start <= j < i && j < app.rows@.len() ==> !(!app.hidden_at(j) && (app.rows@[j].signature
                    == SignatureState::Unverified || app.rows@[j].signature == SignatureState::Verifying)),
        decreases end - i,
    {
        let pending = match app.rows[i].signature {
            SignatureState::Unverified | SignatureState::Verifying => true,
            _ => false,
        };
        if pending && !app.is_row_hidden(i) {
            return true;
        }
        i += 1;
    }
    false
}

/// The rows of the history that stay in view: those above the highest change pane, or the whole
/// body without panes, and at least one.
pub open spec fn viewport_of(panes: Seq<PaneArea>, body: Area) -> usize {
    let above = highest_pane(panes, body);
    if above >= 1 {
        above as usize
    } else {
        1
    }
}

/// The rows between the top of `body` and the highest of `panes`, or the body's height.
pub open spec fn highest_pane(panes: Seq<PaneArea>, body: Area) -> u16
    decreases panes.len(),
{
    if panes.len() == 0 {
        body.height
    } else {
        let rest = highest_pane(panes.drop_last(), body);
        let here = sat_sub16(panes.last().outer.y, body.y);
        if panes.len() == 1 || here <= rest {
            here
        } else {
            rest
        }
    }
}

/// The rows of the history that stay in view beside the change panes.
pub fn viewport_rows(panes: &Vec<PaneArea>, body: Area) -> (r: usize)
    ensures
        r == viewport_of(panes@, body),
        r >= 1,
{
    let mut above: u16 = body.height;
    let mut i: usize = 0;
    while i < panes.len()
        invariant
            i <= panes@.len(),
            above == highest_pane(panes@.take(i as int), body),
        decreases panes@.len() - i,
    {
        assert(panes@.take(i + 1).drop_last() =~= panes@.take(i as int));
        let here = sub16(panes[i].outer.y, body.y);
        if i == 0 || here <= above {
            above = here;
        }
        i += 1;
    }
    assert(panes@.take(i as int) =~= panes@);
    if above >= 1 { above as usize } else { 1 }
}

/// The height a change pane asks for: its paths, at most the largest `u16`, and two rows of
/// border.
pub open spec fn pane_height_of(paths: usize) -> u16 {
    sat_add16(if paths <= u16::MAX {
        paths as u16
    } else {
        u16::MAX
    }, 2)
}

/// The height a change pane asks for.
pub fn pane_height(paths: usize) -> (r: u16)
    ensures
        r == pane_height_of(paths),
{
    add16(narrow(paths), 2)
}

} // verus!

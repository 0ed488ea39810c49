//! Graph lanes: the columns that connect commits to their parents, and their drawing.
use vstd::prelude::*;

use crate::commit::{CommitRow, RowView};
use crate::ids::ObjectId;
use crate::ordering::{degrees_fit, drawable, parents_come_later};

verus! {

// ---------------------------------------------------------------------------------------------
// Drawing one row transition.
// ---------------------------------------------------------------------------------------------

/// Some edge among the first `n` leaves its column at cell `k`.
pub open spec fn up_at(edges: Seq<(usize, usize)>, n: int, k: int) -> bool {
    exists|j: int| 0 <= j < n && 2 * (#[trigger] edges[j]).0 == k
}

/// Some edge among the first `n` arrives in its column at cell `k`.
pub open spec fn down_at(edges: Seq<(usize, usize)>, n: int, k: int) -> bool {
    exists|j: int| 0 <= j < n && 2 * (#[trigger] edges[j]).1 == k
}

/// Edge `e` passes cell `k` going to the right, or starts there towards the right.
pub open spec fn edge_right(e: (usize, usize), k: int) -> bool {
    ||| e.0 < e.1 && 2 * e.0 <= k < 2 * e.1
    ||| e.1 < e.0 && 2 * e.1 <= k < 2 * e.0
}

/// Edge `e` passes cell `k` with a connection to the left.
pub open spec fn edge_left(e: (usize, usize), k: int) -> bool {
    ||| e.0 < e.1 && 2 * e.0 < k <= 2 * e.1
    ||| e.1 < e.0 && 2 * e.1 < k <= 2 * e.0
}

pub open spec fn right_at(edges: Seq<(usize, usize)>, n: int, k: int) -> bool {
    exists|j: int| 0 <= j < n && edge_right(#[trigger] edges[j], k)
}

pub open spec fn left_at(edges: Seq<(usize, usize)>, n: int, k: int) -> bool {
    exists|j: int| 0 <= j < n && edge_left(#[trigger] edges[j], k)
}

/// The box-drawing glyph for a cell with the given connections.
pub open spec fn glyph(u: bool, d: bool, l: bool, r: bool) -> char {
    if !u && !d && !l && !r {
        ' '
    } else if u && d && l && r {
        '┼'
    } else if u && d && !l && r {
        '├'
    } else if u && d && l && !r {
        '┤'
    } else if !u && d && l && r {
        '┬'
    } else if u && !d && l && r {
        '┴'
    } else if !u && d && !l && r {
        '┌'
    } else if !u && d && l && !r {
        '┐'
    } else if u && !d && !l && r {
        '└'
    } else if u && !d && l && !r {
        '┘'
    } else if !u && !d && l && r {
        '─'
    } else {
        '│'
    }
}

/// Cell `k` of a transition: the commit disk in the current column, otherwise the connections there.
pub open spec fn lane_cell(edges: Seq<(usize, usize)>, current: int, k: int) -> char {
    if k == 2 * current {
        '●'
    } else {
        glyph(
            up_at(edges, edges.len() as int, k),
            down_at(edges, edges.len() as int, k),
            left_at(edges, edges.len() as int, k),
            right_at(edges, edges.len() as int, k),
        )
    }
}

/// The arms of a box-drawing glyph, as (up, down, left, right); none for any other character.
pub open spec fn arms(c: char) -> (bool, bool, bool, bool) {
    if c == '┼' {
        (true, true, true, true)
    } else if c == '├' {
        (true, true, false, true)
    } else if c == '┤' {
        (true, true, true, false)
    } else if c == '┬' {
        (false, true, true, true)
    } else if c == '┴' {
        (true, false, true, true)
    } else if c == '┌' {
        (false, true, false, true)
    } else if c == '┐' {
        (false, true, true, false)
    } else if c == '└' {
        (true, false, false, true)
    } else if c == '┘' {
        (true, false, true, false)
    } else if c == '─' {
        (false, false, true, true)
    } else if c == '│' {
        (true, true, false, false)
    } else {
        (false, false, false, false)
    }
}

/// How many of the four connections are present.
pub open spec fn connections(u: bool, d: bool, l: bool, r: bool) -> int {
    (if u { 1int } else { 0 }) + (if d { 1int } else { 0 }) + (if l { 1int } else { 0 }) + (if r { 1int } else { 0 })
}

/// A cell with two or more connections is drawn with the glyph whose arms are exactly those
/// connections: a lane crossed by an edge is `┼`, a tee has its three arms, a corner its two. A cell
/// with no connection is blank and one with a single connection is drawn as a vertical line.
pub proof fn lemma_glyph_arms_are_the_connections(u: bool, d: bool, l: bool, r: bool)
    ensures
        connections(u, d, l, r) >= 2 ==> arms(glyph(u, d, l, r)) == (u, d, l, r),
        connections(u, d, l, r) == 1 ==> glyph(u, d, l, r) == '│',
        connections(u, d, l, r) == 0 ==> glyph(u, d, l, r) == ' ',
{
}

/// Every cell of a transition but the current commit's is drawn with the glyph whose arms are the
/// lanes and edges that meet there: up where an edge leaves that column, down where one arrives,
/// left and right where one passes or turns.
pub proof fn lemma_transition_cells_show_their_connections(edges: Seq<(usize, usize)>, current: int, k: int)
    requires
        k != 2 * current,
        connections(
            up_at(edges, edges.len() as int, k),
            down_at(edges, edges.len() as int, k),
            left_at(edges, edges.len() as int, k),
            right_at(edges, edges.len() as int, k),
        ) >= 2,
    ensures
        arms(lane_cell(edges, current, k)) == (
            up_at(edges, edges.len() as int, k),
            down_at(edges, edges.len() as int, k),
            left_at(edges, edges.len() as int, k),
            right_at(edges, edges.len() as int, k),
        ),
{
    lemma_glyph_arms_are_the_connections(
        up_at(edges, edges.len() as int, k),
        down_at(edges, edges.len() as int, k),
        left_at(edges, edges.len() as int, k),
        right_at(edges, edges.len() as int, k),
    );
}

/// The number of columns a transition spans: those before, those after, and the current one.
pub open spec fn transition_columns(before: int, after: int, current: int) -> int {
    let m = if before >= after { before } else { after };
    if m >= current + 1 { m } else { current + 1 }
}

/// The number of cells of a transition between `before` and `after` columns.
pub open spec fn transition_width(before: int, after: int, current: int) -> int {
    2 * transition_columns(before, after, current) - 1
}

/// The text of a transition: one cell per column and gap, then a separating space.
pub open spec fn transition_text(
    before: int,
    after: int,
    current: int,
    edges: Seq<(usize, usize)>,
) -> Seq<char> {
    Seq::new(transition_width(before, after, current) as nat, |k: int| lane_cell(edges, current, k)).push(' ')
}

/// The text of a transition has a cell for each column and each gap between two, then a space. The
/// selected commit's column holds its disk. A gap between columns holds a horizontal line where an
/// edge passes it and is blank otherwise. Every other column shows a lane going up where an edge
/// leaves it and going down where one arrives.
pub proof fn lemma_transition_layout(before: int, after: int, current: int, edges: Seq<(usize, usize)>, k: int)
    requires
        0 <= current,
        0 <= k < transition_width(before, after, current),
    ensures
        transition_text(before, after, current, edges).len() == transition_width(before, after, current) + 1,
        transition_text(before, after, current, edges).last() == ' ',
        k == 2 * current ==> transition_text(before, after, current, edges)[k] == '●',
        k % 2 == 1 ==> transition_text(before, after, current, edges)[k] == (if exists|j: int|
            0 <= j < edges.len() && #[trigger] edge_right(edges[j], k) {
            '─'
        } else {
            ' '
        }),
        k % 2 == 0 && k != 2 * current && up_at(edges, edges.len() as int, k) ==> arms(
            transition_text(before, after, current, edges)[k],
        ).0,
        k % 2 == 0 && k != 2 * current && down_at(edges, edges.len() as int, k) ==> arms(
            transition_text(before, after, current, edges)[k],
        ).1,
{
    let n = edges.len() as int;
    let t = transition_text(before, after, current, edges);
    assert(t[k] == lane_cell(edges, current, k));
    if k % 2 == 1 {
        assert(!up_at(edges, n, k)) by {
            if up_at(edges, n, k) {
                let j = choose|j: int| 0 <= j < n && 2 * (#[trigger] edges[j]).0 == k;
            }
        }
        assert(!down_at(edges, n, k)) by {
            if down_at(edges, n, k) {
                let j = choose|j: int| 0 <= j < n && 2 * (#[trigger] edges[j]).1 == k;
            }
        }
        assert(left_at(edges, n, k) == right_at(edges, n, k)) by {
            if left_at(edges, n, k) {
                let j = choose|j: int| 0 <= j < n && edge_left(#[trigger] edges[j], k);
                assert(edge_right(edges[j], k));
            }
            if right_at(edges, n, k) {
                let j = choose|j: int| 0 <= j < n && edge_right(#[trigger] edges[j], k);
                assert(edge_left(edges[j], k));
            }
        }
    }
    lemma_glyph_arms_are_the_connections(up_at(edges, n, k), down_at(edges, n, k), left_at(edges, n, k), right_at(edges, n, k));
}

/// Every edge connects columns that exist before and after the transition.
pub open spec fn edges_fit(edges: Seq<(usize, usize)>, before: int, after: int) -> bool {
    forall|j: int| 0 <= j < edges.len() ==> (#[trigger] edges[j]).0 < before && edges[j].1 < after
}

/// Every edge connects columns below `columns`.
pub open spec fn edges_within(edges: Seq<(usize, usize)>, columns: int) -> bool {
    forall|j: int| 0 <= j < edges.len() ==> (#[trigger] edges[j]).0 < columns && edges[j].1 < columns
}

pub open spec fn bit_set(c: u8, m: u8) -> bool {
    c & m != 0
}

proof fn lemma_or_bits(c: u8, m: u8)
    requires
        c < 16,
        m == 1 || m == 2 || m == 4 || m == 8 || m == 12,
    ensures
        (c | m) < 16,
        bit_set(c | m, 1) == (bit_set(c, 1) || bit_set(m, 1)),
        bit_set(c | m, 2) == (bit_set(c, 2) || bit_set(m, 2)),
        bit_set(c | m, 4) == (bit_set(c, 4) || bit_set(m, 4)),
        bit_set(c | m, 8) == (bit_set(c, 8) || bit_set(m, 8)),
        bit_set(m, 1) == (m == 1),
        bit_set(m, 2) == (m == 2),
        bit_set(m, 4) == (m == 4 || m == 12),
        bit_set(m, 8) == (m == 8 || m == 12),
{
    assert((c | m) < 16 && ((c | m) & 1 != 0) == ((c & 1 != 0) || (m & 1 != 0)) && ((c | m) & 2 != 0)
        == ((c & 2 != 0) || (m & 2 != 0)) && ((c | m) & 4 != 0) == ((c & 4 != 0) || (m & 4 != 0)) && ((c
        | m) & 8 != 0) == ((c & 8 != 0) || (m & 8 != 0)) && ((m & 1 != 0) == (m == 1)) && ((m & 2 != 0)
        == (m == 2)) && ((m & 4 != 0) == (m == 4 || m == 12)) && ((m & 8 != 0) == (m == 8 || m == 12)))
        by (bit_vector)
        requires
            c < 16,
            m == 1 || m == 2 || m == 4 || m == 8 || m == 12,
    ;
}

proof fn lemma_code(c: u8)
    requires
        c < 16,
    ensures
        c == (if bit_set(c, 1) { 1u8 } else { 0u8 }) + (if bit_set(c, 2) { 2u8 } else { 0u8 }) + (if bit_set(c, 4) {
            4u8
        } else {
            0u8
        }) + (if bit_set(c, 8) { 8u8 } else { 0u8 }),
{
    assert(c == (if c & 1 != 0 { 1u8 } else { 0u8 }) + (if c & 2 != 0 { 2u8 } else { 0u8 }) + (if c & 4
        != 0 { 4u8 } else { 0u8 }) + (if c & 8 != 0 { 8u8 } else { 0u8 })) by (bit_vector)
        requires
            c < 16,
    ;
}

proof fn lemma_zero_bits()
    ensures
        !bit_set(0, 1) && !bit_set(0, 2) && !bit_set(0, 4) && !bit_set(0, 8),
{
    assert(0u8 & 1 == 0 && 0u8 & 2 == 0 && 0u8 & 4 == 0 && 0u8 & 8 == 0) by (bit_vector);
}

/// The cell state after the first `n` edges: each cell's bits record its connections.
pub open spec fn cells_match(cells: Seq<u8>, edges: Seq<(usize, usize)>, n: int) -> bool {
    forall|k: int|
        0 <= k < cells.len() ==> {
            &&& #[trigger] cells[k] < 16
            &&& bit_set(cells[k], 1) == up_at(edges, n, k)
            &&& bit_set(cells[k], 2) == down_at(edges, n, k)
            &&& bit_set(cells[k], 4) == left_at(edges, n, k)
            &&& bit_set(cells[k], 8) == right_at(edges, n, k)
        }
}

fn or_cell(cells: &mut Vec<u8>, k: usize, m: u8)
    requires
        k < old(cells)@.len(),
        old(cells)@[k as int] < 16,
        m == 1 || m == 2 || m == 4 || m == 8 || m == 12,
    ensures
        final(cells)@ == old(cells)@.update(k as int, old(cells)@[k as int] | m),
{
    let c = cells[k];
    cells.set(k, c | m);
}

/// Connects cells `f` and `t` of a row: the source column goes up, the destination down,
/// and every cell in between carries a horizontal line.
fn apply_edge(cells: &mut Vec<u8>, edges: Ghost<Seq<(usize, usize)>>, n: Ghost<int>, from: usize, to: usize)
    requires
        0 <= n@ < edges@.len(),
        edges@[n@] == (from, to),
        2 * from < old(cells)@.len(),
        2 * to < old(cells)@.len(),
        cells_match(old(cells)@, edges@, n@),
    ensures
        final(cells)@.len() == old(cells)@.len(),
        cells_match(final(cells)@, edges@, n@ + 1),
{
    let width = cells.len();
    assert(2 * from < width && 2 * to < width);
    let f = 2 * from;
    let t = 2 * to;
    let ghost start = cells@;
    proof {
        lemma_or_bits(cells@[f as int], 1);
    }
    or_cell(cells, f, 1);
    proof {
        lemma_or_bits(cells@[t as int], 2);
    }
    or_cell(cells, t, 2);
    if f < t {
        proof {
            lemma_or_bits(cells@[f as int], 8);
        }
        or_cell(cells, f, 8);
        proof {
            lemma_or_bits(cells@[t as int], 4);
        }
        or_cell(cells, t, 4);
        let mut c = f + 1;
        while c < t
            invariant
                f + 1 <= c <= t,
                t < cells@.len(),
                cells@.len() == start.len(),
                forall|k: int| 0 <= k < cells@.len() ==> #[trigger] cells@[k] < 16,
                forall|k: int|
                    0 <= k < cells@.len() ==> {
                        &&& bit_set(#[trigger] cells@[k], 1) == (bit_set(start[k], 1) || k == f)
                        &&& bit_set(cells@[k], 2) == (bit_set(start[k], 2) || k == t)
                        &&& bit_set(cells@[k], 4) == (bit_set(start[k], 4) || (f < k <= t && (k < c || k == t)))
                        &&& bit_set(cells@[k], 8) == (bit_set(start[k], 8) || (f <= k < t && (k < c || k == f)))
                    },
            decreases t - c,
        {
            proof {
                lemma_or_bits(cells@[c as int], 12);
            }
            or_cell(cells, c, 12);
            c += 1;
        }
    } else if t < f {
        proof {
            lemma_or_bits(cells@[f as int], 4);
        }
        or_cell(cells, f, 4);
        proof {
            lemma_or_bits(cells@[t as int], 8);
        }
        or_cell(cells, t, 8);
        let mut c = t + 1;
        while c < f
            invariant
                t + 1 <= c <= f,
                f < cells@.len(),
                cells@.len() == start.len(),
                forall|k: int| 0 <= k < cells@.len() ==> #[trigger] cells@[k] < 16,
                forall|k: int|
                    0 <= k < cells@.len() ==> {
                        &&& bit_set(#[trigger] cells@[k], 1) == (bit_set(start[k], 1) || k == f)
                        &&& bit_set(cells@[k], 2) == (bit_set(start[k], 2) || k == t)
                        &&& bit_set(cells@[k], 4) == (bit_set(start[k], 4) || (t < k <= f && (k < c || k == f)))
                        &&& bit_set(cells@[k], 8) == (bit_set(start[k], 8) || (t <= k < f && (k < c || k == t)))
                    },
            decreases f - c,
        {
            proof {
                lemma_or_bits(cells@[c as int], 12);
            }
            or_cell(cells, c, 12);
            c += 1;
        }
    }
    assert forall|k: int| 0 <= k < cells@.len() implies {
        &&& #[trigger] cells@[k] < 16
        &&& bit_set(cells@[k], 1) == up_at(edges@, n@ + 1, k)
        &&& bit_set(cells@[k], 2) == down_at(edges@, n@ + 1, k)
        &&& bit_set(cells@[k], 4) == left_at(edges@, n@ + 1, k)
        &&& bit_set(cells@[k], 8) == right_at(edges@, n@ + 1, k)
    } by {
        let e = edges@[n@];
        if up_at(edges@, n@ + 1, k) && !up_at(edges@, n@, k) {
            let j = choose|j: int| 0 <= j < n@ + 1 && 2 * (#[trigger] edges@[j]).0 == k;
            assert(j == n@);
        }
        if up_at(edges@, n@, k) {
            let j = choose|j: int| 0 <= j < n@ && 2 * (#[trigger] edges@[j]).0 == k;
            assert(0 <= j < n@ + 1);
        }
        if down_at(edges@, n@ + 1, k) && !down_at(edges@, n@, k) {
            let j = choose|j: int| 0 <= j < n@ + 1 && 2 * (#[trigger] edges@[j]).1 == k;
            assert(j == n@);
        }
        if down_at(edges@, n@, k) {
            let j = choose|j: int| 0 <= j < n@ && 2 * (#[trigger] edges@[j]).1 == k;
            assert(0 <= j < n@ + 1);
        }
        if left_at(edges@, n@ + 1, k) && !left_at(edges@, n@, k) {
            let j = choose|j: int| 0 <= j < n@ + 1 && edge_left(#[trigger] edges@[j], k);
            assert(j == n@);
        }
        if left_at(edges@, n@, k) {
            let j = choose|j: int| 0 <= j < n@ && edge_left(#[trigger] edges@[j], k);
            assert(0 <= j < n@ + 1);
        }
        if right_at(edges@, n@ + 1, k) && !right_at(edges@, n@, k) {
            let j = choose|j: int| 0 <= j < n@ + 1 && edge_right(#[trigger] edges@[j], k);
            assert(j == n@);
        }
        if right_at(edges@, n@, k) {
            let j = choose|j: int| 0 <= j < n@ && edge_right(#[trigger] edges@[j], k);
            assert(0 <= j < n@ + 1);
        }
        if edge_left(e, k) {
            assert(left_at(edges@, n@ + 1, k));
        }
        if edge_right(e, k) {
            assert(right_at(edges@, n@ + 1, k));
        }
        if 2 * e.0 == k {
            assert(up_at(edges@, n@ + 1, k));
        }
        if 2 * e.1 == k {
            assert(down_at(edges@, n@ + 1, k));
        }
    }
}

fn cell_glyph(c: u8) -> (g: char)
    requires
        c < 16,
    ensures
        g == glyph(bit_set(c, 1), bit_set(c, 2), bit_set(c, 4), bit_set(c, 8)),
{
    proof {
        lemma_code(c);
    }
    match c {
        0 => ' ',
        15 => '┼',
        11 => '├',
        7 => '┤',
        14 => '┬',
        13 => '┴',
        10 => '┌',
        6 => '┐',
        9 => '└',
        5 => '┘',
        12 => '─',
        _ => '│',
    }
}

/// Draws the transition of one row into `out` and returns the range of the appended characters.
pub fn transition(
    before: usize,
    after: usize,
    current: usize,
    edges: &Vec<(usize, usize)>,
    cells: &mut Vec<u8>,
    out: &mut Vec<char>,
) -> (range: (usize, usize))
    requires
        edges_within(edges@, transition_columns(before as int, after as int, current as int)),
        old(out)@.len() + 2 * transition_columns(before as int, after as int, current as int) < usize::MAX,
    ensures
        final(out)@ == old(out)@ + transition_text(before as int, after as int, current as int, edges@),
        range.0 == old(out)@.len(),
        range.1 == final(out)@.len(),
{
    let m = if before >= after { before } else { after };
    let m = if m >= current + 1 { m } else { current + 1 };
    let width = m * 2 - 1;
    cells.clear();
    let mut i: usize = 0;
    while i < width
        invariant
            i <= width,
            cells@.len() == i,
            forall|k: int| 0 <= k < i ==> #[trigger] cells@[k] == 0u8,
        decreases width - i,
    {
        cells.push(0);
        i += 1;
    }
    proof {
        lemma_zero_bits();
    }
    let mut e: usize = 0;
    while e < edges.len()
        invariant
            e <= edges@.len(),
            cells@.len() == width,
            width == transition_width(before as int, after as int, current as int),
            m == transition_columns(before as int, after as int, current as int),
            edges_within(edges@, m as int),
            cells_match(cells@, edges@, e as int),
            width == 2 * m - 1,
        decreases edges@.len() - e,
    {
        let (from, to) = edges[e];
        assert(edges@[e as int].0 < m && edges@[e as int].1 < m);
        apply_edge(cells, Ghost(edges@), Ghost(e as int), from, to);
        e += 1;
    }
    let start = out.len();
    let ghost base = out@;
    let mut k: usize = 0;
    while k < width
        invariant
            k <= width,
            cells@.len() == width,
            cells_match(cells@, edges@, edges@.len() as int),
            width == transition_width(before as int, after as int, current as int),
            width == 2 * m - 1,
            current < m,
            out@.len() == base.len() + k,
            base.len() + width + 1 < usize::MAX,
            start == base.len(),
            forall|j: int| 0 <= j < base.len() ==> out@[j] == base[j],
            forall|j: int| 0 <= j < k ==> #[trigger] out@[base.len() + j] == lane_cell(edges@, current as int, j),
        decreases width - k,
    {
        let g = if k == current * 2 {
            '●'
        } else {
            cell_glyph(cells[k])
        };
        out.push(g);
        k += 1;
    }
    out.push(' ');
    let ghost text = transition_text(before as int, after as int, current as int, edges@);
    assert(text.len() == width + 1);
    assert forall|j: int| 0 <= j < text.len() implies out@[base.len() + j] == text[j] by {
        if j < width {
            assert(out@[base.len() + j] == lane_cell(edges@, current as int, j));
        }
    }
    assert(out@ =~= base + transition_text(before as int, after as int, current as int, edges@));
    (start, out.len())
}

} // verus!

verus! {

// ---------------------------------------------------------------------------------------------
// The column layout from one row to the next.
// ---------------------------------------------------------------------------------------------

/// The index of the first occurrence of `id` in `s`.
pub open spec fn first_index(s: Seq<ObjectId>, id: ObjectId) -> Option<int>
    decreases s.len(),
{
    if s.len() == 0 {
        None
    } else {
        match first_index(s.drop_last(), id) {
            Some(i) => Some(i),
            None => if s.last() == id {
                Some(s.len() - 1)
            } else {
                None
            },
        }
    }
}

pub proof fn lemma_first_index(s: Seq<ObjectId>, id: ObjectId)
    ensures
        match first_index(s, id) {
            Some(i) => 0 <= i < s.len() && s[i] == id && forall|j: int| 0 <= j < i ==> s[j] != id,
            None => forall|j: int| 0 <= j < s.len() ==> s[j] != id,
        },
    decreases s.len(),
{
    if s.len() > 0 {
        lemma_first_index(s.drop_last(), id);
        assert forall|j: int| 0 <= j < s.len() - 1 implies s.drop_last()[j] == s[j] by {}
    }
}

pub proof fn lemma_first_index_of(s: Seq<ObjectId>, id: ObjectId, i: int)
    requires
        0 <= i < s.len(),
        s[i] == id,
        forall|j: int| 0 <= j < i ==> s[j] != id,
    ensures
        first_index(s, id) == Some(i),
{
    lemma_first_index(s, id);
}

pub proof fn lemma_first_index_none(s: Seq<ObjectId>, id: ObjectId)
    requires
        forall|j: int| 0 <= j < s.len() ==> s[j] != id,
    ensures
        first_index(s, id) == None::<int>,
{
    lemma_first_index(s, id);
}

/// The parents in order of first occurrence, without repetitions.
pub open spec fn dedup(s: Seq<ObjectId>) -> Seq<ObjectId>
    decreases s.len(),
{
    if s.len() == 0 {
        seq![]
    } else {
        let d = dedup(s.drop_last());
        if d.contains(s.last()) {
            d
        } else {
            d.push(s.last())
        }
    }
}

/// The columns with the row's own identity appended if no column reserved it yet.
pub open spec fn with_row(cols: Seq<ObjectId>, id: ObjectId) -> Seq<ObjectId> {
    match first_index(cols, id) {
        Some(_) => cols,
        None => cols.push(id),
    }
}

/// The column of the row.
pub open spec fn current_column(cols: Seq<ObjectId>, id: ObjectId) -> int {
    match first_index(cols, id) {
        Some(i) => i,
        None => cols.len() as int,
    }
}

/// A parent keeps its column when that column lies left of the row's column.
pub open spec fn stays(cols1: Seq<ObjectId>, cur: int, p: ObjectId) -> bool {
    match first_index(cols1, p) {
        Some(q) => q < cur,
        None => false,
    }
}

/// The parents that take new columns right after the row's column, in order.
pub open spec fn moved(dps: Seq<ObjectId>, cols1: Seq<ObjectId>, cur: int) -> Seq<ObjectId>
    decreases dps.len(),
{
    if dps.len() == 0 {
        seq![]
    } else {
        let m = moved(dps.drop_last(), cols1, cur);
        if stays(cols1, cur, dps.last()) {
            m
        } else {
            m.push(dps.last())
        }
    }
}

/// Column `k` holds one of the parents.
pub open spec fn is_parent_column(dps: Seq<ObjectId>, cols1: Seq<ObjectId>, k: int) -> bool {
    exists|j: int| 0 <= j < dps.len() && first_index(cols1, #[trigger] dps[j]) == Some(k)
}

/// The columns right of the row's column, up to `n`, that continue unchanged.
pub open spec fn kept(cols1: Seq<ObjectId>, dps: Seq<ObjectId>, cur: int, n: int) -> Seq<ObjectId>
    decreases n - cur,
{
    if n <= cur + 1 {
        seq![]
    } else {
        let r = kept(cols1, dps, cur, n - 1);
        if is_parent_column(dps, cols1, n - 1) {
            r
        } else {
            r.push(cols1[n - 1])
        }
    }
}

/// The columns after a row: those left of it, then its moved parents, then the continuing columns right of it.
pub open spec fn next_columns(cols: Seq<ObjectId>, id: ObjectId, parents: Seq<ObjectId>) -> Seq<ObjectId> {
    let cols1 = with_row(cols, id);
    let cur = current_column(cols, id);
    let dps = dedup(parents);
    cols1.subrange(0, cur) + moved(dps, cols1, cur) + kept(cols1, dps, cur, cols1.len() as int)
}

/// The column that parent `dps[j]` occupies after the row.
pub open spec fn destination(dps: Seq<ObjectId>, cols1: Seq<ObjectId>, cur: int, j: int) -> int {
    match first_index(cols1, dps[j]) {
        Some(q) if q < cur => q,
        _ => cur + moved(dps.subrange(0, j), cols1, cur).len(),
    }
}

/// The edges of moved parents that already had a column, for the first `n` parents.
pub open spec fn moved_edges(dps: Seq<ObjectId>, cols1: Seq<ObjectId>, cur: int, n: int) -> Seq<(usize, usize)>
    decreases n,
{
    if n <= 0 {
        seq![]
    } else {
        let e = moved_edges(dps, cols1, cur, n - 1);
        match first_index(cols1, dps[n - 1]) {
            Some(q) => if q < cur || q == cur {
                e
            } else {
                e.push((q as usize, destination(dps, cols1, cur, n - 1) as usize))
            },
            None => e,
        }
    }
}

/// The edges of the continuing columns right of the row, up to column `n`.
pub open spec fn kept_edges(cols1: Seq<ObjectId>, dps: Seq<ObjectId>, cur: int, n: int) -> Seq<(usize, usize)>
    decreases n - cur,
{
    if n <= cur + 1 {
        seq![]
    } else {
        let e = kept_edges(cols1, dps, cur, n - 1);
        if is_parent_column(dps, cols1, n - 1) {
            e
        } else {
            e.push(
                (
                    (n - 1) as usize,
                    (cur + moved(dps, cols1, cur).len() + kept(cols1, dps, cur, n - 1).len()) as usize,
                ),
            )
        }
    }
}

/// The edges from the row to each of its parents.
pub open spec fn parent_edges(dps: Seq<ObjectId>, cols1: Seq<ObjectId>, cur: int) -> Seq<(usize, usize)> {
    Seq::new(dps.len(), |j: int| (cur as usize, destination(dps, cols1, cur, j) as usize))
}

/// All edges drawn for a row: unchanged columns left of it, moved parents, continuing columns, then the row's own.
pub open spec fn row_edges(cols: Seq<ObjectId>, id: ObjectId, parents: Seq<ObjectId>) -> Seq<(usize, usize)> {
    let cols1 = with_row(cols, id);
    let cur = current_column(cols, id);
    let dps = dedup(parents);
    Seq::new(cur as nat, |i: int| (i as usize, i as usize)) + moved_edges(dps, cols1, cur, dps.len() as int)
        + kept_edges(cols1, dps, cur, cols1.len() as int) + parent_edges(dps, cols1, cur)
}

/// The drawing of a row whose parents are `parents`, entered with columns `cols`.
pub open spec fn row_text(cols: Seq<ObjectId>, id: ObjectId, parents: Seq<ObjectId>) -> Seq<char> {
    transition_text(
        with_row(cols, id).len() as int,
        next_columns(cols, id, parents).len() as int,
        current_column(cols, id),
        row_edges(cols, id, parents),
    )
}

} // verus!

verus! {

pub proof fn lemma_dedup_len(s: Seq<ObjectId>)
    ensures
        dedup(s).len() <= s.len(),
    decreases s.len(),
{
    if s.len() > 0 {
        lemma_dedup_len(s.drop_last());
    }
}

pub proof fn lemma_moved_len(dps: Seq<ObjectId>, cols1: Seq<ObjectId>, cur: int)
    ensures
        moved(dps, cols1, cur).len() <= dps.len(),
    decreases dps.len(),
{
    if dps.len() > 0 {
        lemma_moved_len(dps.drop_last(), cols1, cur);
    }
}

pub proof fn lemma_kept_len(cols1: Seq<ObjectId>, dps: Seq<ObjectId>, cur: int, n: int)
    ensures
        n > cur ==> kept(cols1, dps, cur, n).len() <= n - cur - 1,
        n <= cur ==> kept(cols1, dps, cur, n).len() == 0,
    decreases n - cur,
{
    if n > cur + 1 {
        lemma_kept_len(cols1, dps, cur, n - 1);
    }
}

/// The number of columns after a row is bounded by the columns before it and its parents.
pub proof fn lemma_next_len(cols: Seq<ObjectId>, id: ObjectId, parents: Seq<ObjectId>)
    ensures
        next_columns(cols, id, parents).len() <= cols.len() + parents.len(),
        with_row(cols, id).len() <= cols.len() + 1,
        current_column(cols, id) < with_row(cols, id).len(),
{
    lemma_first_index(cols, id);
    let cols1 = with_row(cols, id);
    let cur = current_column(cols, id);
    let dps = dedup(parents);
    lemma_dedup_len(parents);
    lemma_moved_len(dps, cols1, cur);
    lemma_kept_len(cols1, dps, cur, cols1.len() as int);
}

proof fn lemma_dedup_members(s: Seq<ObjectId>)
    ensures
        forall|x: ObjectId| #[trigger] dedup(s).contains(x) <==> s.contains(x),
        dedup(s).no_duplicates(),
    decreases s.len(),
{
    if s.len() > 0 {
        let t = s.drop_last();
        let y = s.last();
        let d = dedup(t);
        let here = dedup(s);
        lemma_dedup_members(t);
        assert forall|x: ObjectId| s.contains(x) <==> (t.contains(x) || y == x) by {
            if s.contains(x) {
                let k = choose|k: int| 0 <= k < s.len() && s[k] == x;
                if k < s.len() - 1 {
                    assert(t[k] == x);
                }
            }
            if t.contains(x) {
                let k = choose|k: int| 0 <= k < t.len() && t[k] == x;
                assert(s[k] == x);
            }
            if y == x {
                assert(s[s.len() - 1] == x);
            }
        }
        if d.contains(y) {
            assert(here == d);
            assert forall|x: ObjectId| #[trigger] here.contains(x) <==> s.contains(x) by {
                if s.contains(x) && !t.contains(x) {
                    assert(x == y);
                }
            }
        } else {
            assert(here == d.push(y));
            assert forall|x: ObjectId| #[trigger] here.contains(x) <==> s.contains(x) by {
                if here.contains(x) {
                    let k = choose|k: int| 0 <= k < here.len() && here[k] == x;
                    if k < d.len() {
                        assert(d[k] == x);
                        assert(d.contains(x));
                    }
                }
                if s.contains(x) {
                    if x == y {
                        assert(here[d.len() as int] == x);
                    } else {
                        assert(d.contains(x));
                        let k = choose|k: int| 0 <= k < d.len() && d[k] == x;
                        assert(here[k] == x);
                    }
                }
            }
            assert forall|i: int, j: int| 0 <= i < here.len() && 0 <= j < here.len() && i != j implies here[i]
                != here[j] by {
                if i == d.len() {
                    assert(d.contains(here[j]) || here[j] != y);
                } else if j == d.len() {
                    assert(d.contains(here[i]) || here[i] != y);
                } else {
                    assert(here[i] == d[i] && here[j] == d[j]);
                }
            }
        }
    } else {
        assert(dedup(s) =~= seq![]);
    }
}

proof fn lemma_moved_members(dps: Seq<ObjectId>, cols1: Seq<ObjectId>, cur: int)
    ensures
        forall|x: ObjectId| #[trigger] moved(dps, cols1, cur).contains(x) <==> (dps.contains(x) && !stays(cols1, cur, x)),
        dps.no_duplicates() ==> moved(dps, cols1, cur).no_duplicates(),
    decreases dps.len(),
{
    if dps.len() > 0 {
        let t = dps.drop_last();
        let y = dps.last();
        let m = moved(t, cols1, cur);
        let here = moved(dps, cols1, cur);
        lemma_moved_members(t, cols1, cur);
        assert forall|x: ObjectId| dps.contains(x) <==> (t.contains(x) || y == x) by {
            if dps.contains(x) {
                let k = choose|k: int| 0 <= k < dps.len() && dps[k] == x;
                if k < dps.len() - 1 {
                    assert(t[k] == x);
                }
            }
            if t.contains(x) {
                let k = choose|k: int| 0 <= k < t.len() && t[k] == x;
                assert(dps[k] == x);
            }
            if y == x {
                assert(dps[dps.len() - 1] == x);
            }
        }
        if dps.no_duplicates() {
            assert(t.no_duplicates()) by {
                assert forall|i: int, j: int| 0 <= i < t.len() && 0 <= j < t.len() && i != j implies t[i] != t[j] by {
                    assert(t[i] == dps[i] && t[j] == dps[j]);
                }
            }
            assert(!t.contains(y)) by {
                if t.contains(y) {
                    let k = choose|k: int| 0 <= k < t.len() && t[k] == y;
                    assert(dps[k] == dps[dps.len() - 1]);
                }
            }
        }
        if !stays(cols1, cur, y) {
            assert(here == m.push(y));
            assert forall|x: ObjectId| #[trigger] here.contains(x) <==> (dps.contains(x) && !stays(cols1, cur, x)) by {
                if here.contains(x) {
                    let k = choose|k: int| 0 <= k < here.len() && here[k] == x;
                    if k < m.len() {
                        assert(m[k] == x);
                        assert(m.contains(x));
                    }
                }
                if dps.contains(x) && !stays(cols1, cur, x) {
                    if x == y {
                        assert(here[m.len() as int] == x);
                    } else {
                        assert(m.contains(x));
                        let k = choose|k: int| 0 <= k < m.len() && m[k] == x;
                        assert(here[k] == x);
                    }
                }
            }
            if dps.no_duplicates() {
                assert(!m.contains(y));
                assert forall|i: int, j: int| 0 <= i < here.len() && 0 <= j < here.len() && i != j implies here[i]
                    != here[j] by {
                    if i == m.len() {
                        assert(m.contains(here[j]) || here[j] != y);
                    } else if j == m.len() {
                        assert(m.contains(here[i]) || here[i] != y);
                    } else {
                        assert(here[i] == m[i] && here[j] == m[j]);
                    }
                }
            }
        } else {
            assert(here == m);
            assert forall|x: ObjectId| #[trigger] here.contains(x) <==> (dps.contains(x) && !stays(cols1, cur, x)) by {
                if here.contains(x) {
                    assert(m.contains(x));
                }
            }
        }
    }
}

proof fn lemma_kept_members(cols1: Seq<ObjectId>, dps: Seq<ObjectId>, cur: int, n: int)
    requires
        0 <= cur,
        n <= cols1.len(),
        cols1.no_duplicates(),
    ensures
        forall|x: ObjectId|
            #[trigger] kept(cols1, dps, cur, n).contains(x) <==> exists|k: int|
                cur < k < n && #[trigger] cols1[k] == x && !is_parent_column(dps, cols1, k),
        kept(cols1, dps, cur, n).no_duplicates(),
    decreases n - cur,
{
    let here = kept(cols1, dps, cur, n);
    if n > cur + 1 {
        let r = kept(cols1, dps, cur, n - 1);
        lemma_kept_members(cols1, dps, cur, n - 1);
        let y = cols1[n - 1];
        if !is_parent_column(dps, cols1, n - 1) {
            assert(here == r.push(y));
            assert(!r.contains(y)) by {
                if r.contains(y) {
                    let k = choose|k: int| cur < k < n - 1 && #[trigger] cols1[k] == y && !is_parent_column(dps, cols1, k);
                    assert(cols1[k] == cols1[n - 1]);
                }
            }
            assert forall|x: ObjectId|
                here.contains(x) <==> exists|k: int|
                    cur < k < n && #[trigger] cols1[k] == x && !is_parent_column(dps, cols1, k) by {
                if here.contains(x) {
                    let i = choose|i: int| 0 <= i < here.len() && here[i] == x;
                    if i < r.len() {
                        assert(r[i] == x);
                        assert(r.contains(x));
                        let k = choose|k: int| cur < k < n - 1 && #[trigger] cols1[k] == x && !is_parent_column(dps, cols1, k);
                        assert(cur < k < n && cols1[k] == x && !is_parent_column(dps, cols1, k));
                    } else {
                        assert(cur < n - 1 < n && cols1[n - 1] == x && !is_parent_column(dps, cols1, n - 1));
                    }
                }
                if exists|k: int| cur < k < n && #[trigger] cols1[k] == x && !is_parent_column(dps, cols1, k) {
                    let k = choose|k: int| cur < k < n && #[trigger] cols1[k] == x && !is_parent_column(dps, cols1, k);
                    if k < n - 1 {
                        assert(cur < k < n - 1 && cols1[k] == x && !is_parent_column(dps, cols1, k));
                        assert(r.contains(x));
                        let i = choose|i: int| 0 <= i < r.len() && r[i] == x;
                        assert(here[i] == x);
                    } else {
                        assert(here[r.len() as int] == x);
                    }
                }
            }
        } else {
            assert(here == r);
            assert forall|x: ObjectId|
                here.contains(x) <==> exists|k: int|
                    cur < k < n && #[trigger] cols1[k] == x && !is_parent_column(dps, cols1, k) by {
                if here.contains(x) {
                    let k = choose|k: int| cur < k < n - 1 && #[trigger] cols1[k] == x && !is_parent_column(dps, cols1, k);
                    assert(cur < k < n && cols1[k] == x && !is_parent_column(dps, cols1, k));
                }
                if exists|k: int| cur < k < n && #[trigger] cols1[k] == x && !is_parent_column(dps, cols1, k) {
                    let k = choose|k: int| cur < k < n && #[trigger] cols1[k] == x && !is_parent_column(dps, cols1, k);
                    assert(k != n - 1);
                    assert(cur < k < n - 1 && cols1[k] == x && !is_parent_column(dps, cols1, k));
                }
            }
        }
    } else {
        assert(here =~= seq![]);
    }
}

proof fn lemma_concat_distinct(a: Seq<ObjectId>, b: Seq<ObjectId>)
    requires
        a.no_duplicates(),
        b.no_duplicates(),
        forall|x: ObjectId| a.contains(x) ==> !b.contains(x),
    ensures
        (a + b).no_duplicates(),
        forall|x: ObjectId| (a + b).contains(x) <==> (a.contains(x) || b.contains(x)),
{
    let c = a + b;
    assert forall|i: int, j: int| 0 <= i < c.len() && 0 <= j < c.len() && i != j implies c[i] != c[j] by {
        if i < a.len() && j >= a.len() {
            assert(a.contains(c[i]));
            assert(b[j - a.len()] == c[j]);
        } else if j < a.len() && i >= a.len() {
            assert(a.contains(c[j]));
            assert(b[i - a.len()] == c[i]);
        } else if i >= a.len() {
            assert(b[i - a.len()] == c[i] && b[j - a.len()] == c[j]);
        }
    }
    assert forall|x: ObjectId| c.contains(x) <==> (a.contains(x) || b.contains(x)) by {
        if c.contains(x) {
            let k = choose|k: int| 0 <= k < c.len() && c[k] == x;
            if k < a.len() {
                assert(a[k] == x);
            } else {
                assert(b[k - a.len()] == x);
            }
        }
        if a.contains(x) {
            let k = choose|k: int| 0 <= k < a.len() && a[k] == x;
            assert(c[k] == x);
        }
        if b.contains(x) {
            let k = choose|k: int| 0 <= k < b.len() && b[k] == x;
            assert(c[a.len() + k] == x);
        }
    }
}

/// Advancing past a row keeps every column waiting for a different commit: the row's own column is
/// released, each parent waits in exactly one column, the other columns keep waiting, and the columns
/// left of the row's column stay where they were.
pub proof fn lemma_advance_columns(cols: Seq<ObjectId>, id: ObjectId, parents: Seq<ObjectId>)
    requires
        cols.no_duplicates(),
        !parents.contains(id),
    ensures
        next_columns(cols, id, parents).no_duplicates(),
        forall|x: ObjectId|
            #[trigger] next_columns(cols, id, parents).contains(x) <==> ((cols.contains(x) && x != id) || parents.contains(
                x,
            )),
        next_columns(cols, id, parents).subrange(0, current_column(cols, id)) == cols.subrange(
            0,
            current_column(cols, id),
        ),
{
    lemma_first_index(cols, id);
    let cols1 = with_row(cols, id);
    let cur = current_column(cols, id);
    let dps = dedup(parents);
    let a = cols1.subrange(0, cur);
    let b = moved(dps, cols1, cur);
    let c = kept(cols1, dps, cur, cols1.len() as int);
    assert(cols1.no_duplicates()) by {
        if !cols.contains(id) {
            assert forall|i: int, j: int| 0 <= i < cols1.len() && 0 <= j < cols1.len() && i != j implies cols1[i]
                != cols1[j] by {
                if i == cols.len() {
                    assert(cols.contains(cols1[j]) || cols1[j] != id);
                } else if j == cols.len() {
                    assert(cols.contains(cols1[i]) || cols1[i] != id);
                }
            }
        }
    }
    assert(cur < cols1.len() && cols1[cur] == id);
    assert(forall|k: int| 0 <= k < cols.len() ==> cols1[k] == cols[k]);
    lemma_dedup_members(parents);
    lemma_moved_members(dps, cols1, cur);
    lemma_kept_members(cols1, dps, cur, cols1.len() as int);
    assert(a.no_duplicates()) by {
        assert forall|i: int, j: int| 0 <= i < a.len() && 0 <= j < a.len() && i != j implies a[i] != a[j] by {
            assert(a[i] == cols1[i] && a[j] == cols1[j]);
        }
    }
    assert forall|x: ObjectId| a.contains(x) implies !b.contains(x) by {
        let k = choose|k: int| 0 <= k < a.len() && a[k] == x;
        assert(cols1[k] == x);
        lemma_first_index(cols1, x);
        match first_index(cols1, x) {
            Some(q) => {
                assert(q <= k);
            },
            None => {
                assert(cols1[k] != x);
            },
        }
        assert(stays(cols1, cur, x));
    }
    lemma_concat_distinct(a, b);
    assert forall|x: ObjectId| (a + b).contains(x) implies !c.contains(x) by {
        if c.contains(x) {
            let k = choose|k: int| cur < k < cols1.len() && #[trigger] cols1[k] == x && !is_parent_column(dps, cols1, k);
            if a.contains(x) {
                let i = choose|i: int| 0 <= i < a.len() && a[i] == x;
                assert(cols1[i] == cols1[k]);
            } else {
                assert(b.contains(x));
                assert(dps.contains(x));
                let j = choose|j: int| 0 <= j < dps.len() && dps[j] == x;
                lemma_first_index(cols1, x);
                assert(first_index(cols1, dps[j]) == Some(k));
            }
        }
    }
    lemma_concat_distinct(a + b, c);
    let next = next_columns(cols, id, parents);
    assert(next == a + b + c);
    assert forall|x: ObjectId| #[trigger] next.contains(x) <==> ((cols.contains(x) && x != id) || parents.contains(x)) by {
        lemma_first_index(cols1, x);
        if parents.contains(x) {
            assert(dps.contains(x));
            if stays(cols1, cur, x) {
                let q = first_index(cols1, x).unwrap();
                assert(a[q] == x);
                assert(a.contains(x));
            } else {
                assert(b.contains(x));
            }
        }
        if cols.contains(x) && x != id {
            let k = choose|k: int| 0 <= k < cols.len() && cols[k] == x;
            assert(cols1[k] == x);
            if k < cur {
                assert(a[k] == x);
                assert(a.contains(x));
            } else if k > cur {
                if is_parent_column(dps, cols1, k) {
                    let j = choose|j: int| 0 <= j < dps.len() && first_index(cols1, #[trigger] dps[j]) == Some(k);
                    lemma_first_index(cols1, dps[j]);
                    assert(dps.contains(x));
                    assert(parents.contains(x));
                    if stays(cols1, cur, x) {
                        let q = first_index(cols1, x).unwrap();
                        assert(a[q] == x);
                        assert(a.contains(x));
                    } else {
                        assert(b.contains(x));
                    }
                } else {
                    assert(c.contains(x));
                }
            }
        }
        if a.contains(x) {
            let k = choose|k: int| 0 <= k < a.len() && a[k] == x;
            assert(cols1[k] == x && k < cur && k < cols.len());
            assert(cols.contains(x));
            assert(x != id);
        }
        if c.contains(x) {
            let k = choose|k: int| cur < k < cols1.len() && #[trigger] cols1[k] == x && !is_parent_column(dps, cols1, k);
            assert(k < cols.len());
            assert(cols[k] == x);
            assert(cols1[k] != cols1[cur]);
        }
    }
    assert(next.subrange(0, cur) =~= cols.subrange(0, cur));
}

/// The position of `id` in `cols`, if any.
pub fn position(cols: &Vec<ObjectId>, id: ObjectId) -> (r: Option<usize>)
    ensures
        match r {
            Some(i) => first_index(cols@, id) == Some(i as int),
            None => first_index(cols@, id) == None::<int>,
        },
{
    let mut i: usize = 0;
    while i < cols.len()
        invariant
            i <= cols@.len(),
            forall|j: int| 0 <= j < i ==> cols@[j] != id,
        decreases cols@.len() - i,
    {
        if cols[i] == id {
            proof {
                lemma_first_index_of(cols@, id, i as int);
            }
            return Some(i);
        }
        i += 1;
    }
    proof {
        lemma_first_index_none(cols@, id);
    }
    None
}

pub open spec fn first_parts(ps: Seq<(ObjectId, Option<usize>)>) -> Seq<ObjectId> {
    ps.map_values(|t: (ObjectId, Option<usize>)| t.0)
}

/// The lane state between rows: the identities the columns are waiting for, and scratch space.
pub(crate) struct LaneState {
    pub(crate) columns: Vec<ObjectId>,
    pub(crate) next: Vec<ObjectId>,
    pub(crate) parents: Vec<(ObjectId, Option<usize>)>,
    pub(crate) destinations: Vec<usize>,
    pub(crate) edges: Vec<(usize, usize)>,
    pub(crate) cells: Vec<u8>,
}

impl LaneState {
    pub(crate) fn new() -> (s: LaneState)
        ensures
            s.columns@ == Seq::<ObjectId>::empty(),
            s.next@ == Seq::<ObjectId>::empty(),
            s.parents@ == Seq::<(ObjectId, Option<usize>)>::empty(),
            s.destinations@ == Seq::<usize>::empty(),
            s.edges@ == Seq::<(usize, usize)>::empty(),
            s.cells@ == Seq::<u8>::empty(),
    {
        LaneState {
            columns: Vec::new(),
            next: Vec::new(),
            parents: Vec::new(),
            destinations: Vec::new(),
            edges: Vec::new(),
            cells: Vec::new(),
        }
    }

    pub(crate) fn with_columns(columns: Vec<ObjectId>) -> (s: LaneState)
        ensures
            s.columns@ == columns@,
    {
        LaneState {
            columns,
            next: Vec::new(),
            parents: Vec::new(),
            destinations: Vec::new(),
            edges: Vec::new(),
            cells: Vec::new(),
        }
    }

    /// Advances past one row; when `render` is set its transition is drawn into `out`.
    pub(crate) fn advance(&mut self, row: &CommitRow, render: bool, out: &mut Vec<char>) -> (range: Option<(usize, usize)>)
        requires
            render ==> old(out)@.len() + 2 * (old(self).columns@.len() + row.parent_ids@.len() + 1) < usize::MAX,
        ensures
            final(self).columns@ == next_columns(old(self).columns@, row.id, row.parent_ids@),
            render ==> final(out)@ == old(out)@ + row_text(old(self).columns@, row.id, row.parent_ids@),
            render ==> range == Some((old(out)@.len() as usize, final(out)@.len() as usize)),
            !render ==> final(out)@ == old(out)@ && range == None::<(usize, usize)>,
    {
        let ghost cols = self.columns@;
        let ghost ps = row.parent_ids@;
        let id = row.id;
        proof {
            lemma_first_index(cols, id);
            lemma_next_len(cols, id, ps);
        }
        // The row's column.
        let current = match position(&self.columns, id) {
            Some(i) => i,
            None => {
                self.columns.push(id);
                self.columns.len() - 1
            },
        };
        let ghost cols1 = self.columns@;
        let ghost cur = current as int;
        assert(cols1 == with_row(cols, id));
        assert(cur == current_column(cols, id));
        // The distinct parents with their columns.
        self.parents.clear();
        let mut j: usize = 0;
        while j < row.parent_ids.len()
            invariant
                j <= ps.len(),
                ps == row.parent_ids@,
                cols1 == self.columns@,
                first_parts(self.parents@) == dedup(ps.subrange(0, j as int)),
                forall|k: int|
                    0 <= k < self.parents@.len() ==> match (#[trigger] self.parents@[k]).1 {
                        Some(q) => first_index(cols1, self.parents@[k].0) == Some(q as int),
                        None => first_index(cols1, self.parents@[k].0) == None::<int>,
                    },
            decreases ps.len() - j,
        {
            let p = row.parent_ids[j];
            let mut seen = false;
            let mut k: usize = 0;
            while k < self.parents.len()
                invariant
                    k <= self.parents@.len(),
                    seen == exists|i: int| 0 <= i < k && (#[trigger] self.parents@[i]).0 == p,
                decreases self.parents@.len() - k,
            {
                if self.parents[k].0 == p {
                    seen = true;
                }
                k += 1;
            }
            let ghost before = first_parts(self.parents@);
            assert(ps.subrange(0, j + 1).drop_last() =~= ps.subrange(0, j as int));
            assert(ps.subrange(0, j + 1).last() == p);
            assert(before.contains(p) == seen) by {
                if seen {
                    let i = choose|i: int| 0 <= i < k && (#[trigger] self.parents@[i]).0 == p;
                    assert(before[i] == p);
                }
                if before.contains(p) {
                    let i = choose|i: int| 0 <= i < before.len() && before[i] == p;
                    assert(self.parents@[i].0 == p);
                }
            }
            if !seen {
                let pos = position(&self.columns, p);
                self.parents.push((p, pos));
                assert(first_parts(self.parents@) =~= before.push(p));
            }
            j += 1;
        }
        assert(ps.subrange(0, ps.len() as int) =~= ps);
        let ghost dps = first_parts(self.parents@);
        assert(dps == dedup(ps));
        proof {
            lemma_dedup_len(ps);
        }
        // Columns left of the row continue in place.
        self.next.clear();
        self.edges.clear();
        let mut index: usize = 0;
        while index < current
            invariant
                index <= cur,
                current as int == cur,
                cur < cols1.len(),
                dps == first_parts(self.parents@),
                forall|k: int|
                    0 <= k < self.parents@.len() ==> match (#[trigger] self.parents@[k]).1 {
                        Some(q) => first_index(cols1, self.parents@[k].0) == Some(q as int),
                        None => first_index(cols1, self.parents@[k].0) == None::<int>,
                    },
                cols1 == self.columns@,
                self.next@ == cols1.subrange(0, index as int),
                self.edges@ == Seq::new(index as nat, |i: int| (i as usize, i as usize)),
            decreases cur - index,
        {
            self.next.push(self.columns[index]);
            self.edges.push((index, index));
            index += 1;
            assert(self.next@ =~= cols1.subrange(0, index as int));
            assert(self.edges@ =~= Seq::new(index as nat, |i: int| (i as usize, i as usize)));
        }
        let ghost e1 = self.edges@;
        // Parents keep their column if it lies left of the row, otherwise they take a new one.
        self.destinations.clear();
        let mut j: usize = 0;
        while j < self.parents.len()
            invariant
                j <= dps.len(),
                dps == first_parts(self.parents@),
                dps.len() <= ps.len(),
                current as int == cur,
                cur < cols1.len(),
                cols1 == self.columns@,
                forall|k: int|
                    0 <= k < self.parents@.len() ==> match (#[trigger] self.parents@[k]).1 {
                        Some(q) => first_index(cols1, self.parents@[k].0) == Some(q as int),
                        None => first_index(cols1, self.parents@[k].0) == None::<int>,
                    },
                self.next@ == cols1.subrange(0, cur) + moved(dps.subrange(0, j as int), cols1, cur),
                self.edges@ == e1 + moved_edges(dps, cols1, cur, j as int),
                self.destinations@.len() == j,
                forall|k: int| 0 <= k < j ==> #[trigger] self.destinations@[k] == destination(dps, cols1, cur, k),
                forall|k: int| 0 <= k < j ==> #[trigger] self.destinations@[k] < self.next@.len(),
                forall|k: int|
                    0 <= k < self.edges@.len() ==> (#[trigger] self.edges@[k]).0 < cols1.len() && self.edges@[k].1
                        < self.next@.len(),
            decreases dps.len() - j,
        {
            let (p, pos) = self.parents[j];
            assert(p == dps[j as int]);
            assert(dps.subrange(0, j + 1).drop_last() =~= dps.subrange(0, j as int));
            assert(dps.subrange(0, j + 1).last() == p);
            proof {
                lemma_first_index(cols1, p);
                lemma_moved_len(dps.subrange(0, j as int), cols1, cur);
            }
            let destination = match pos {
                Some(q) if q < current => q,
                _ => {
                    let d = self.next.len();
                    self.next.push(p);
                    if let Some(q) = pos {
                        if q != current {
                            self.edges.push((q, d));
                        }
                    }
                    d
                },
            };
            self.destinations.push(destination);
            j += 1;
            assert(self.edges@ =~= e1 + moved_edges(dps, cols1, cur, j as int));
            assert(self.next@ =~= cols1.subrange(0, cur) + moved(dps.subrange(0, j as int), cols1, cur));
        }
        assert(dps.subrange(0, dps.len() as int) =~= dps);
        let ghost e2 = self.edges@;
        proof {
            lemma_moved_len(dps, cols1, cur);
        }
        // Columns right of the row continue unless a parent moved out of them.
        let columns_len = self.columns.len();
        assert(current < columns_len);
        let mut index: usize = current + 1;
        while index < self.columns.len()
            invariant
                cur + 1 <= index <= cols1.len(),
                current as int == cur,
                cols1 == self.columns@,
                dps == first_parts(self.parents@),
                forall|k: int|
                    0 <= k < self.parents@.len() ==> match (#[trigger] self.parents@[k]).1 {
                        Some(q) => first_index(cols1, self.parents@[k].0) == Some(q as int),
                        None => first_index(cols1, self.parents@[k].0) == None::<int>,
                    },
                self.next@ == cols1.subrange(0, cur) + moved(dps, cols1, cur) + kept(cols1, dps, cur, index as int),
                self.edges@ == e2 + kept_edges(cols1, dps, cur, index as int),
                self.destinations@.len() == dps.len(),
                forall|k: int| 0 <= k < dps.len() ==> #[trigger] self.destinations@[k] == destination(dps, cols1, cur, k),
                forall|k: int| 0 <= k < dps.len() ==> #[trigger] self.destinations@[k] < self.next@.len(),
                forall|k: int|
                    0 <= k < self.edges@.len() ==> (#[trigger] self.edges@[k]).0 < cols1.len() && self.edges@[k].1
                        < self.next@.len(),
            decreases cols1.len() - index,
        {
            let mut taken = false;
            let mut k: usize = 0;
            while k < self.parents.len()
                invariant
                    k <= self.parents@.len(),
                    taken == exists|i: int| 0 <= i < k && (#[trigger] self.parents@[i]).1 == Some(index),
                decreases self.parents@.len() - k,
            {
                if self.parents[k].1 == Some(index) {
                    taken = true;
                }
                k += 1;
            }
            assert(taken == is_parent_column(dps, cols1, index as int)) by {
                if taken {
                    let i = choose|i: int| 0 <= i < k && (#[trigger] self.parents@[i]).1 == Some(index);
                    assert(first_index(cols1, dps[i]) == Some(index as int));
                }
                if is_parent_column(dps, cols1, index as int) {
                    let i = choose|i: int|
                        0 <= i < dps.len() && first_index(cols1, #[trigger] dps[i]) == Some(index as int);
                    assert(self.parents@[i].1 == Some(index));
                }
            }
            if !taken {
                let d = self.next.len();
                proof {
                    lemma_kept_len(cols1, dps, cur, index as int);
                }
                self.next.push(self.columns[index]);
                self.edges.push((index, d));
            }
            index += 1;
            assert(self.next@ =~= cols1.subrange(0, cur) + moved(dps, cols1, cur) + kept(
                cols1,
                dps,
                cur,
                index as int,
            ));
            assert(self.edges@ =~= e2 + kept_edges(cols1, dps, cur, index as int));
        }
        let ghost e3 = self.edges@;
        assert(self.next@ == next_columns(cols, id, ps));
        // The row connects to each of its parents.
        let mut j: usize = 0;
        while j < self.destinations.len()
            invariant
                j <= dps.len(),
                self.destinations@.len() == dps.len(),
                current as int == cur,
                cur < cols1.len(),
                cols1 == self.columns@,
                self.next@ == next_columns(cols, id, ps),
                forall|k: int| 0 <= k < dps.len() ==> #[trigger] self.destinations@[k] == destination(dps, cols1, cur, k),
                forall|k: int| 0 <= k < dps.len() ==> #[trigger] self.destinations@[k] < self.next@.len(),
                self.edges@ == e3 + parent_edges(dps, cols1, cur).subrange(0, j as int),
                forall|k: int|
                    0 <= k < self.edges@.len() ==> (#[trigger] self.edges@[k]).0 < cols1.len() && self.edges@[k].1
                        < self.next@.len(),
            decreases dps.len() - j,
        {
            self.edges.push((current, self.destinations[j]));
            j += 1;
            assert(self.edges@ =~= e3 + parent_edges(dps, cols1, cur).subrange(0, j as int));
        }
        assert(parent_edges(dps, cols1, cur).subrange(0, dps.len() as int) =~= parent_edges(dps, cols1, cur));
        assert(self.edges@ =~= row_edges(cols, id, ps));
        let range = if render {
            assert(edges_fit(self.edges@, cols1.len() as int, self.next@.len() as int));
            assert(edges_within(
                self.edges@,
                transition_columns(cols1.len() as int, self.next@.len() as int, cur),
            ));
            Some(
                transition(
                    self.columns.len(),
                    self.next.len(),
                    current,
                    &self.edges,
                    &mut self.cells,
                    out,
                ),
            )
        } else {
            None
        };
        std::mem::swap(&mut self.columns, &mut self.next);
        range
    }
}

} // verus!

verus! {

// ---------------------------------------------------------------------------------------------
// Whole-history layout with checkpoints.
// ---------------------------------------------------------------------------------------------

/// The identity and parents of each row: all the layout depends on.
pub open spec fn topology(rows: Seq<CommitRow>) -> Seq<(ObjectId, Seq<ObjectId>)> {
    rows.map_values(|r: CommitRow| (r.id, r.parent_ids@))
}

/// The columns after laying out the first `n` rows from an empty state.
pub open spec fn columns_after(t: Seq<(ObjectId, Seq<ObjectId>)>, n: int) -> Seq<ObjectId>
    decreases n,
{
    if n <= 0 {
        seq![]
    } else {
        next_columns(columns_after(t, n - 1), t[n - 1].0, t[n - 1].1)
    }
}

/// The drawing of row `i` when the whole history is laid out from its first row.
pub open spec fn lane_text(t: Seq<(ObjectId, Seq<ObjectId>)>, i: int) -> Seq<char> {
    row_text(columns_after(t, i), t[i].0, t[i].1)
}

/// The drawing of row `i` can be held in memory: its columns and parents number below a quarter of the
/// address range. Each column is drawn as two characters of four bytes, so a larger drawing could not
/// be allocated; the columns come from parent identities held in memory, so every real history is drawn.
pub open spec fn lane_in_range(t: Seq<(ObjectId, Seq<ObjectId>)>, i: int) -> bool {
    columns_after(t, i).len() + t[i].1.len() + 1 < usize::MAX / 4
}

/// The line drawn for row `i`: its drawing, where it can be held in memory.
pub open spec fn drawn_lane(t: Seq<(ObjectId, Seq<ObjectId>)>, i: int) -> Seq<char> {
    if lane_in_range(t, i) {
        lane_text(t, i)
    } else {
        Seq::<char>::empty()
    }
}

/// Rows between checkpoints of the saved layout.
pub const CHECKPOINT_INTERVAL: usize = 256;

/// The number of checkpoints saved for `n` rows: one before every 256th row.
pub open spec fn checkpoint_count(n: int) -> int {
    (n + 255) / 256
}

/// The lines drawn for a range of rows.
pub struct RenderedLanes {
    lanes: Vec<Vec<char>>,
}

impl View for RenderedLanes {
    type V = Seq<Seq<char>>;

    closed spec fn view(&self) -> Seq<Seq<char>> {
        self.lanes@.map_values(|l: Vec<char>| l@)
    }
}

impl RenderedLanes {
    /// `len` rows without any drawing.
    pub fn empty(len: usize) -> (r: RenderedLanes)
        ensures
            r@.len() == len,
            forall|i: int| 0 <= i < len ==> #[trigger] r@[i] == Seq::<char>::empty(),
    {
        let mut lanes: Vec<Vec<char>> = Vec::new();
        let mut i: usize = 0;
        while i < len
            invariant
                i <= len,
                lanes@.len() == i,
                forall|k: int| 0 <= k < i ==> #[trigger] lanes@[k]@ == Seq::<char>::empty(),
            decreases len - i,
        {
            lanes.push(Vec::new());
            i += 1;
        }
        RenderedLanes { lanes }
    }

    /// Lines given directly, one per row.
    pub fn from_lanes(lanes: Vec<Vec<char>>) -> (r: RenderedLanes)
        ensures
            r@ == lanes@.map_values(|l: Vec<char>| l@),
    {
        RenderedLanes { lanes }
    }

    pub fn len(&self) -> (n: usize)
        ensures
            n == self@.len(),
    {
        self.lanes.len()
    }

    /// The line of row `index` of the range.
    pub fn lane(&self, index: usize) -> (l: &Vec<char>)
        requires
            index < self@.len(),
        ensures
            l@ == self@[index as int],
    {
        &self.lanes[index]
    }

    /// All lines, in row order.
    pub fn lanes(&self) -> (l: &Vec<Vec<char>>)
        ensures
            l@.map_values(|v: Vec<char>| v@) == self@,
    {
        &self.lanes
    }
}

/// The saved layout of a whole history: the columns before every 256th row.
pub struct Graph {
    offsets: Vec<usize>,
    columns: Vec<ObjectId>,
}

impl Graph {
    /// The checkpoints hold the exact layout state of the history `t`.
    pub closed spec fn matches(&self, t: Seq<(ObjectId, Seq<ObjectId>)>) -> bool {
        self.matches_checkpoints(t)
    }

    proof fn lemma_checkpoint(&self, t: Seq<(ObjectId, Seq<ObjectId>)>, c: int)
        requires
            self.matches_checkpoints(t),
            0 <= c < checkpoint_count(t.len() as int),
        ensures
            self.offsets@[c] <= self.offsets@[c + 1] <= self.columns@.len(),
            self.columns@.subrange(self.offsets@[c] as int, self.offsets@[c + 1] as int) == columns_after(t, 256 * c),
    {
    }

    closed spec fn matches_checkpoints(&self, t: Seq<(ObjectId, Seq<ObjectId>)>) -> bool {
        &&& self.offsets@.len() == checkpoint_count(t.len() as int) + 1
        &&& forall|c: int|
            0 <= c < checkpoint_count(t.len() as int) ==> {
                &&& #[trigger] self.offsets@[c] <= self.offsets@[c + 1] <= self.columns@.len()
                &&& self.columns@.subrange(self.offsets@[c] as int, self.offsets@[c + 1] as int)
                    == columns_after(t, 256 * c)
            }
    }

    /// Lays out `rows` once, saving the state before every 256th row.
    #[verifier::rlimit(40)]
    pub fn new(rows: &Vec<CommitRow>) -> (g: Graph)
        ensures
            g.matches(topology(rows@)),
    {
        let ghost t = topology(rows@);
        let mut state = LaneState::new();
        let mut offsets: Vec<usize> = Vec::new();
        let mut columns: Vec<ObjectId> = Vec::new();
        let mut scratch: Vec<char> = Vec::new();
        let mut index: usize = 0;
        while index < rows.len()
            invariant
                index <= rows@.len(),
                t == topology(rows@),
                t.len() == rows@.len(),
                scratch@.len() == 0,
                state.columns@ == columns_after(t, index as int),
                offsets@.len() == checkpoint_count(index as int),
                forall|c: int| 0 <= c < offsets@.len() ==> #[trigger] offsets@[c] <= columns@.len(),
                forall|c: int|
                    0 <= c < offsets@.len() ==> {
                        let hi = if c + 1 < offsets@.len() {
                            offsets@[c + 1] as int
                        } else {
                            columns@.len() as int
                        };
                        &&& #[trigger] offsets@[c] <= hi
                        &&& columns@.subrange(offsets@[c] as int, hi) == columns_after(t, 256 * c)
                    },
            decreases rows@.len() - index,
        {
            if index % CHECKPOINT_INTERVAL == 0 {
                let ghost before = columns@;
                offsets.push(columns.len());
                let mut k: usize = 0;
                while k < state.columns.len()
                    invariant
                        k <= state.columns@.len(),
                        columns@ == before + state.columns@.subrange(0, k as int),
                    decreases state.columns@.len() - k,
                {
                    columns.push(state.columns[k]);
                    k += 1;
                    assert(columns@ =~= before + state.columns@.subrange(0, k as int));
                }
                assert(state.columns@.subrange(0, state.columns@.len() as int) =~= state.columns@);
                assert forall|c: int| 0 <= c < offsets@.len() implies {
                    let hi = if c + 1 < offsets@.len() {
                        offsets@[c + 1] as int
                    } else {
                        columns@.len() as int
                    };
                    &&& #[trigger] offsets@[c] <= hi
                    &&& columns@.subrange(offsets@[c] as int, hi) == columns_after(t, 256 * c)
                } by {
                    if c + 1 < offsets@.len() {
                        let hi_old = if c + 1 < offsets@.len() - 1 {
                            offsets@[c + 1] as int
                        } else {
                            before.len() as int
                        };
                        assert(columns@.subrange(offsets@[c] as int, hi_old) =~= before.subrange(
                            offsets@[c] as int,
                            hi_old,
                        ));
                    } else {
                        assert(columns@.subrange(offsets@[c] as int, columns@.len() as int)
                            =~= state.columns@);
                    }
                }
            }
            assert(t[index as int] == (rows@[index as int].id, rows@[index as int].parent_ids@));
            state.advance(&rows[index], false, &mut scratch);
            index += 1;
        }
        offsets.push(columns.len());
        let g = Graph { offsets, columns };
        assert forall|c: int| 0 <= c < checkpoint_count(t.len() as int) implies {
            &&& #[trigger] g.offsets@[c] <= g.offsets@[c + 1] <= g.columns@.len()
            &&& g.columns@.subrange(g.offsets@[c] as int, g.offsets@[c + 1] as int) == columns_after(t, 256 * c)
        } by {}
        g
    }

    /// Draws rows `start..end` (clamped to the history), replaying from the nearest earlier checkpoint.
    /// A row whose drawing could not be held in memory (see `lane_in_range`) is drawn as an empty line.
    pub fn render(&self, rows: &Vec<CommitRow>, start: usize, end: usize) -> (r: RenderedLanes)
        requires
            self.matches(topology(rows@)),
        ensures
            ({
                let s = if start <= rows@.len() { start as int } else { rows@.len() as int };
                let e = if end <= rows@.len() { end as int } else { rows@.len() as int };
                &&& r@.len() == if s < e { e - s } else { 0 }
                &&& forall|k: int| 0 <= k < r@.len() ==> #[trigger] r@[k] == drawn_lane(topology(rows@), s + k)
            }),
    {
        let ghost t = topology(rows@);
        let s = if start <= rows.len() { start } else { rows.len() };
        let e = if end <= rows.len() { end } else { rows.len() };
        if s >= e {
            let r = RenderedLanes { lanes: Vec::new() };
            assert(r@ =~= Seq::<Seq<char>>::empty());
            return r;
        }
        let checkpoint = s / CHECKPOINT_INTERVAL;
        let ghost c = checkpoint as int;
        assert(self.matches_checkpoints(t));
        assert(0 <= c < checkpoint_count(t.len() as int));
        proof {
            self.lemma_checkpoint(t, c);
        }
        let lo = self.offsets[checkpoint];
        let hi = self.offsets[checkpoint + 1];
        let mut saved: Vec<ObjectId> = Vec::new();
        let mut k: usize = lo;
        while k < hi
            invariant
                lo <= k <= hi,
                hi <= self.columns@.len(),
                saved@ == self.columns@.subrange(lo as int, k as int),
            decreases hi - k,
        {
            saved.push(self.columns[k]);
            k += 1;
            assert(saved@ =~= self.columns@.subrange(lo as int, k as int));
        }
        let mut state = LaneState::with_columns(saved);
        let mut lanes: Vec<Vec<char>> = Vec::new();
        let mut index: usize = checkpoint * CHECKPOINT_INTERVAL;
        while index < e
            invariant
                checkpoint * 256 <= index <= e,
                s < e <= rows@.len(),
                t == topology(rows@),
                t.len() == rows@.len(),
                state.columns@ == columns_after(t, index as int),
                lanes@.len() == if index <= s { 0 } else { index - s },
                forall|k: int| 0 <= k < lanes@.len() ==> #[trigger] lanes@[k]@ == drawn_lane(t, s + k),
            decreases e - index,
        {
            let mut out: Vec<char> = Vec::new();
            assert(t[index as int] == (rows@[index as int].id, rows@[index as int].parent_ids@));
            let columns = state.columns.len();
            let parents = rows[index].parent_ids.len();
            let in_range = columns < usize::MAX / 4 && parents < usize::MAX / 4 - columns - 1;
            assert(in_range == lane_in_range(t, index as int));
            state.advance(&rows[index], index >= s && in_range, &mut out);
            if index >= s {
                lanes.push(out);
            }
            index += 1;
        }
        let r = RenderedLanes { lanes };
        assert(r@.len() == e - s);
        r
    }
}

/// Drawing a row does not depend on the window it is drawn in: two renderings of the same laid-out history
/// agree on every row they both contain.
pub proof fn lemma_windows_agree(t: Seq<(ObjectId, Seq<ObjectId>)>, a: Seq<Seq<char>>, sa: int, b: Seq<Seq<char>>, sb: int, i: int)
    requires
        sa <= i < sa + a.len(),
        sb <= i < sb + b.len(),
        forall|k: int| 0 <= k < a.len() ==> #[trigger] a[k] == lane_text(t, sa + k),
        forall|k: int| 0 <= k < b.len() ==> #[trigger] b[k] == lane_text(t, sb + k),
    ensures
        a[i - sa] == b[i - sb],
{
    assert(a[i - sa] == lane_text(t, sa + (i - sa)));
    assert(b[i - sb] == lane_text(t, sb + (i - sb)));
}

} // verus!

verus! {

// ---------------------------------------------------------------------------------------------
// Ordering a finished history and estimating its width.
// ---------------------------------------------------------------------------------------------

/// Parents that are rows of the history.
pub open spec fn pruned_parents(ps: Seq<ObjectId>, ids: Seq<ObjectId>) -> Seq<ObjectId> {
    ps.filter(|p: ObjectId| ids.contains(p))
}

/// A row whose parents outside the history are dropped.
pub open spec fn pruned_row(r: RowView, ids: Seq<ObjectId>) -> RowView {
    RowView {
        id: r.id,
        parents: pruned_parents(r.parents, ids),
        committer_time: r.committer_time,
        author: r.author,
        attributions: r.attributions,
        title: r.title,
        metadata_loaded: r.metadata_loaded,
        has_agent_marker: r.has_agent_marker,
        signature: r.signature,
    }
}

/// `order` lists each index below `n` exactly once.
pub open spec fn is_ordering(order: Seq<int>, n: int) -> bool {
    &&& order.len() == n
    &&& forall|k: int| 0 <= k < n ==> 0 <= #[trigger] order[k] < n
    &&& forall|a: int, b: int| 0 <= a < b < n ==> #[trigger] order[a] != #[trigger] order[b]
}

/// Whether `ids` holds `id`.
pub fn contains_id(ids: &Vec<ObjectId>, id: ObjectId) -> (r: bool)
    ensures
        r == ids@.contains(id),
{
    let mut i: usize = 0;
    while i < ids.len()
        invariant
            i <= ids@.len(),
            forall|j: int| 0 <= j < i ==> ids@[j] != id,
        decreases ids@.len() - i,
    {
        if ids[i] == id {
            assert(ids@[i as int] == id);
            return true;
        }
        i += 1;
    }
    false
}

/// The index of the last occurrence of `id` in `ids`.
fn last_position(ids: &Vec<ObjectId>, id: ObjectId) -> (r: Option<usize>)
    ensures
        match r {
            Some(i) => i < ids@.len() && ids@[i as int] == id,
            None => !ids@.contains(id),
        },
{
    let mut i: usize = ids.len();
    while i > 0
        invariant
            i <= ids@.len(),
            forall|j: int| i <= j < ids@.len() ==> ids@[j] != id,
        decreases i,
    {
        if ids[i - 1] == id {
            return Some(i - 1);
        }
        i -= 1;
    }
    proof {
        false_contains(ids@, id);
    }
    None
}

proof fn false_contains(ids: Seq<ObjectId>, id: ObjectId)
    requires
        forall|j: int| 0 <= j < ids.len() ==> ids[j] != id,
    ensures
        !ids.contains(id),
{
}

/// The identities of the rows.
pub fn row_id_list(rows: &Vec<CommitRow>) -> (ids: Vec<ObjectId>)
    ensures
        ids@ == crate::commit::row_ids(rows@),
{
    let mut ids: Vec<ObjectId> = Vec::new();
    let mut i: usize = 0;
    while i < rows.len()
        invariant
            i <= rows@.len(),
            ids@ == crate::commit::row_ids(rows@.subrange(0, i as int)),
        decreases rows@.len() - i,
    {
        ids.push(rows[i].id);
        i += 1;
        assert(ids@ =~= crate::commit::row_ids(rows@.subrange(0, i as int)));
    }
    assert(rows@.subrange(0, rows@.len() as int) =~= rows@);
    ids
}

/// A copy of `row` keeping only the parents listed in `ids`.
pub fn prune_row(row: &CommitRow, ids: &Vec<ObjectId>) -> (r: CommitRow)
    ensures
        r@ == pruned_row(row@, ids@),
{
    let ghost ps = row.parent_ids@;
    let ghost pred = |p: ObjectId| ids@.contains(p);
    let mut parents: Vec<ObjectId> = Vec::new();
    let mut j: usize = 0;
    while j < row.parent_ids.len()
        invariant
            j <= ps.len(),
            ps == row.parent_ids@,
            pred == (|p: ObjectId| ids@.contains(p)),
            parents@ == ps.subrange(0, j as int).filter(pred),
        decreases ps.len() - j,
    {
        let p = row.parent_ids[j];
        assert(ps.subrange(0, j + 1).drop_last() =~= ps.subrange(0, j as int));
        reveal(Seq::filter);
        if contains_id(ids, p) {
            parents.push(p);
        }
        j += 1;
    }
    assert(ps.subrange(0, ps.len() as int) =~= ps);
    CommitRow {
        id: row.id,
        parent_ids: parents,
        committer_time: row.committer_time,
        author: row.author.duplicate(),
        attributions: row.attributions,
        title: row.title,
        metadata_loaded: row.metadata_loaded,
        has_agent_marker: row.has_agent_marker,
        signature: row.signature,
    }
}

/// Copies of the rows without parents outside the history.
pub fn prune_rows(rows: &Vec<CommitRow>) -> (r: Vec<CommitRow>)
    ensures
        r@.len() == rows@.len(),
        forall|k: int| 0 <= k < rows@.len() ==> #[trigger] r@[k]@ == pruned_row(
            rows@[k]@,
            crate::commit::row_ids(rows@),
        ),
{
    let ids = row_id_list(rows);
    let mut out: Vec<CommitRow> = Vec::new();
    let mut i: usize = 0;
    while i < rows.len()
        invariant
            i <= rows@.len(),
            ids@ == crate::commit::row_ids(rows@),
            out@.len() == i,
            forall|k: int| 0 <= k < i ==> #[trigger] out@[k]@ == pruned_row(rows@[k]@, ids@),
        decreases rows@.len() - i,
    {
        out.push(prune_row(&rows[i], &ids));
        i += 1;
    }
    out
}

/// The position in the history of the row drawn `k`-th: rows are drawn in the order that
/// `drawing_sequence` gives where every row is drawn once, else in their own order.
pub open spec fn drawn_from(rows: Seq<CommitRow>, k: int) -> int {
    let ps = pruned_parent_lists(rows);
    let ids = crate::commit::row_ids(rows);
    if crate::ordering::drawing_complete(ps, ids) {
        crate::ordering::drawing_sequence(ps, ids)[k] as int
    } else {
        k
    }
}

/// Orders a finished history for drawing and lays it out.
///
/// Parents outside the history are dropped. Rows are then ordered so that every commit comes before its
/// parents, finishing one line of history before the next; if the rows form no such order they keep their
/// order.
pub fn compute_lanes(rows: Vec<CommitRow>) -> (r: (Vec<CommitRow>, Graph))
    ensures
        r.0@.len() == rows@.len(),
        forall|k: int|
            0 <= k < rows@.len() ==> #[trigger] r.0@[k]@ == pruned_row(
                rows@[drawn_from(rows@, k)]@,
                crate::commit::row_ids(rows@),
            ),
        exists|order: Seq<int>|
            is_ordering(order, rows@.len() as int) && forall|k: int|
                0 <= k < rows@.len() ==> #[trigger] order[k] == drawn_from(rows@, k),
        r.1.matches(topology(r.0@)),
        degrees_fit(pruned_parent_lists(rows@), crate::commit::row_ids(rows@)) ==> (crate::ordering::drawing_complete(
            pruned_parent_lists(rows@),
            crate::commit::row_ids(rows@),
        ) <==> drawable(pruned_parent_lists(rows@), crate::commit::row_ids(rows@), rows@.len() as int)),
        degrees_fit(pruned_parent_lists(rows@), crate::commit::row_ids(rows@)) && drawable(
            pruned_parent_lists(rows@),
            crate::commit::row_ids(rows@),
            rows@.len() as int,
        ) ==> parents_come_later(crate::commit::row_views(r.0@)),
{
    let n = rows.len();
    let pruned = prune_rows(&rows);
    let ids = row_id_list(&rows);
    let ordered = crate::ordering::emission_order(&pruned, &ids);
    proof {
        let ids_spec = crate::commit::row_ids(rows@);
        let ps = crate::ordering::parent_lists(pruned@);
        assert(ps =~= pruned_parent_lists(rows@)) by {
            assert forall|i: int| 0 <= i < n implies #[trigger] ps[i] == pruned_parent_lists(rows@)[i] by {
                assert(pruned@[i]@ == pruned_row(rows@[i]@, ids_spec));
            }
        }
    }
    let complete = ordered.is_some();
    let order = match ordered {
        Some(order) => order,
        None => Vec::new(),
    };
    proof {
        if complete {
            let ord = order@.map_values(|v: usize| v as int);
            assert forall|j: int| 0 <= j < order@.len() implies #[trigger] order@[j] < n by {
                assert(ord[j] == order@[j] as int);
            }
        }
    }
    let mut result: Vec<CommitRow> = Vec::new();
    let ghost ordering: Seq<int> = if complete {
        order@.map_values(|v: usize| v as int)
    } else {
        Seq::new(n as nat, |k: int| k)
    };
    let mut k: usize = 0;
    while k < n
        invariant
            k <= n,
            n == pruned@.len(),
            n == rows@.len(),
            complete ==> order@.len() == n,
            forall|j: int| 0 <= j < order@.len() ==> #[trigger] order@[j] < n,
            ordering == if complete {
                order@.map_values(|v: usize| v as int)
            } else {
                Seq::new(n as nat, |k: int| k)
            },
            forall|j: int| 0 <= j < n ==> #[trigger] pruned@[j]@ == pruned_row(rows@[j]@, crate::commit::row_ids(rows@)),
            result@.len() == k,
            forall|j: int| 0 <= j < k ==> #[trigger] result@[j]@ == pruned@[ordering[j]]@,
        decreases n - k,
    {
        let source = if complete { order[k] } else { k };
        result.push(pruned[source].duplicate());
        k += 1;
    }
    assert(is_ordering(ordering, n as int));
    proof {
        let ids_spec = crate::commit::row_ids(rows@);
        let ps = crate::ordering::parent_lists(pruned@);
        assert(ps == pruned_parent_lists(rows@));
        assert forall|k: int| 0 <= k < n implies #[trigger] ordering[k] == drawn_from(rows@, k) by {}
        assert forall|k: int| 0 <= k < n implies #[trigger] result@[k]@ == pruned_row(
            rows@[drawn_from(rows@, k)]@,
            ids_spec,
        ) by {
            assert(ordering[k] == drawn_from(rows@, k));
        }
        if complete && degrees_fit(pruned_parent_lists(rows@), ids_spec) {
            assert forall|i: int, x: ObjectId| 0 <= i < ps.len() && #[trigger] ps[i].contains(x) implies ids_spec.contains(
                x,
            ) by {
                let j = choose|j: int| 0 <= j < ps[i].len() && ps[i][j] == x;
                rows@[i].parent_ids@.lemma_filter_pred(|p: ObjectId| ids_spec.contains(p), j);
            }
            let views = crate::commit::row_views(result@);
            assert forall|k: int| 0 <= k < views.len() implies (#[trigger] views[k]).id == ids_spec[order@[k] as int]
                && views[k].parents == ps[order@[k] as int] by {
                assert(views[k] == result@[k]@);
                assert(ordering[k] == order@[k] as int);
            }
            crate::ordering::lemma_parents_come_later(ps, ids@, order@, views);
        }
        if !complete {
            assert forall|k: int| 0 <= k < rows@.len() implies #[trigger] result@[k]@ == pruned_row(
                rows@[k]@,
                crate::commit::row_ids(rows@),
            ) by {
                assert(ordering[k] == k);
            }
        }
    }
    let graph = Graph::new(&result);
    (result, graph)
}

/// The parents of each row that lie within the history.
pub open spec fn pruned_parent_lists(rows: Seq<CommitRow>) -> Seq<Seq<ObjectId>> {
    Seq::new(rows.len(), |i: int| pruned_parents(rows[i].parent_ids@, crate::commit::row_ids(rows)))
}

/// The identities of a laid-out history.
pub open spec fn topology_ids(t: Seq<(ObjectId, Seq<ObjectId>)>) -> Seq<ObjectId> {
    t.map_values(|x: (ObjectId, Seq<ObjectId>)| x.0)
}

/// The history without parent edges that leave it.
pub open spec fn prune_topology(t: Seq<(ObjectId, Seq<ObjectId>)>) -> Seq<(ObjectId, Seq<ObjectId>)> {
    t.map_values(|x: (ObjectId, Seq<ObjectId>)| (x.0, pruned_parents(x.1, topology_ids(t))))
}

pub proof fn lemma_trimmed_len(s: Seq<char>)
    ensures
        0 <= trimmed_len(s) <= s.len(),
    decreases s.len(),
{
    if s.len() > 0 && s.last() == ' ' {
        lemma_trimmed_len(s.drop_last());
    }
}

pub proof fn lemma_drawn_lane_len(t: Seq<(ObjectId, Seq<ObjectId>)>, i: int)
    requires
        0 <= i < t.len(),
    ensures
        drawn_lane(t, i).len() < usize::MAX / 2,
{
    lemma_next_len(columns_after(t, i), t[i].0, t[i].1);
}

/// The length of `s` without its trailing spaces.
pub open spec fn trimmed_len(s: Seq<char>) -> int
    decreases s.len(),
{
    if s.len() == 0 {
        0
    } else if s.last() == ' ' {
        trimmed_len(s.drop_last())
    } else {
        s.len() as int
    }
}

/// The widest of the first `n` lines, counting one separating cell after the drawing.
pub open spec fn widest(lanes: Seq<Seq<char>>, n: int) -> int
    decreases n,
{
    if n <= 0 {
        0
    } else {
        let w = widest(lanes, n - 1);
        let here = trimmed_len(lanes[n - 1]) + 1;
        if here > w {
            here
        } else {
            w
        }
    }
}

fn trimmed_length(s: &Vec<char>) -> (r: usize)
    ensures
        r == trimmed_len(s@),
{
    let mut n = s.len();
    assert(s@.subrange(0, n as int) =~= s@);
    while n > 0 && s[n - 1] == ' '
        invariant
            n <= s@.len(),
            trimmed_len(s@) == trimmed_len(s@.subrange(0, n as int)),
        decreases n,
    {
        assert(s@.subrange(0, n as int).drop_last() =~= s@.subrange(0, n - 1));
        n -= 1;
    }
    proof {
        if n > 0 {
            assert(s@.subrange(0, n as int).last() == s@[n - 1]);
        }
    }
    n
}

/// The provisional width of the graph drawn for the first `count` rows of `rows`.
pub open spec fn lane_width_estimate(rows: Seq<CommitRow>, count: int) -> int {
    let prefix = rows.subrange(0, count);
    let t = prune_topology(topology(prefix));
    widest(Seq::new(count as nat, |i: int| drawn_lane(t, i)), count)
}

/// The provisional width of the graph drawn for the first `count` rows, before the history is complete:
/// the widest of their lines, without trailing blanks, plus one separating column. Parents outside the
/// prefix are left out of the drawing.
pub fn estimate_lane_width(rows: &Vec<CommitRow>, count: usize) -> (w: usize)
    requires
        count <= rows@.len(),
    ensures
        w == lane_width_estimate(rows@, count as int),
{
    let mut prefix: Vec<CommitRow> = Vec::new();
    let mut i: usize = 0;
    while i < count
        invariant
            i <= count <= rows@.len(),
            prefix@.len() == i,
            forall|k: int| 0 <= k < i ==> (#[trigger] prefix@[k])@ == rows@[k]@,
        decreases count - i,
    {
        prefix.push(rows[i].duplicate());
        i += 1;
    }
    let pruned = prune_rows(&prefix);
    let ghost t = topology(pruned@);
    assert(t =~= prune_topology(topology(rows@.subrange(0, count as int)))) by {
        assert(crate::commit::row_ids(prefix@) =~= topology_ids(topology(rows@.subrange(0, count as int))));
        assert forall|k: int| 0 <= k < count implies #[trigger] t[k] == prune_topology(
            topology(rows@.subrange(0, count as int)),
        )[k] by {
            assert(pruned@[k]@ == pruned_row(prefix@[k]@, crate::commit::row_ids(prefix@)));
        }
    }
    let graph = Graph::new(&pruned);
    let lanes = graph.render(&pruned, 0, count);
    let ghost all = Seq::new(count as nat, |i: int| drawn_lane(t, i));
    let mut width: usize = 0;
    let mut k: usize = 0;
    while k < lanes.len()
        invariant
            k <= lanes@.len(),
            lanes@.len() == count,
            t.len() == count,
            all == Seq::new(count as nat, |i: int| drawn_lane(t, i)),
            forall|j: int| 0 <= j < lanes@.len() ==> #[trigger] lanes@[j] == drawn_lane(t, j),
            width == widest(all, k as int),
            width < usize::MAX / 2 + 1,
        decreases lanes@.len() - k,
    {
        let here = trimmed_length(lanes.lane(k));
        proof {
            lemma_trimmed_len(lanes@[k as int]);
            lemma_drawn_lane_len(t, k as int);
            assert(all[k as int] == lanes@[k as int]);
        }
        let here = here + 1;
        if here > width {
            width = here;
        }
        k += 1;
    }
    width
}

} // verus!

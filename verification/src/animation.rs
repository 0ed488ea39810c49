//! How the rows of two frames of the history correspond, so that a redrawn frame can emphasize the
//! rows that changed: a heaviest common alignment of the two lists of rows.
use vstd::prelude::*;

use crate::ids::ObjectId;
use crate::layout::{Area, sat_add16};

verus! {

/// A row of a drawn frame: its commit, the commit's tree where known, and the screen line.
#[derive(Clone, Copy, Debug, PartialEq, Eq, Structural)]
pub struct Row {
    pub id: ObjectId,
    pub tree: Option<ObjectId>,
    pub y: u16,
}

/// How well two rows correspond: the same commit counts two, a commit with the same known tree, as a
/// reworded commit has, counts one, and anything else does not correspond.
pub open spec fn score(source: Row, target: Row) -> int {
    if source.id == target.id {
        2
    } else if source.tree.is_some() && source.tree == target.tree {
        1
    } else {
        0
    }
}

/// How well two rows correspond.
pub fn row_score(source: &Row, target: &Row) -> (r: u16)
    ensures
        r == score(*source, *target),
{
    if source.id == target.id {
        2
    } else if source.tree.is_some() && source.tree == target.tree {
        1
    } else {
        0
    }
}

/// The weight of a heaviest alignment of `source[i..]` with `target[j..]`.
pub open spec fn best(source: Seq<Row>, target: Seq<Row>, i: int, j: int) -> int
    decreases source.len() - i + target.len() - j,
{
    if i < 0 || j < 0 || i >= source.len() || j >= target.len() {
        0
    } else {
        let skip = max(best(source, target, i + 1, j), best(source, target, i, j + 1));
        let same = score(source[i], target[j]);
        if same > 0 {
            max(same + best(source, target, i + 1, j + 1), skip)
        } else {
            skip
        }
    }
}

/// The larger of two integers.
pub open spec fn max(a: int, b: int) -> int {
    if a >= b {
        a
    } else {
        b
    }
}

/// The alignment that the traceback from `(i, j)` picks: a pair of corresponding rows where taking it
/// keeps the weight heaviest, else a skip of the source row where that keeps it heaviest, else a skip
/// of the target row.
pub open spec fn traced(source: Seq<Row>, target: Seq<Row>, i: int, j: int) -> Seq<(int, int)>
    decreases source.len() - i + target.len() - j,
{
    if i < 0 || j < 0 || i >= source.len() || j >= target.len() {
        seq![]
    } else {
        let same = score(source[i], target[j]);
        if same > 0 && best(source, target, i, j) == same + best(source, target, i + 1, j + 1) {
            seq![(i, j)] + traced(source, target, i + 1, j + 1)
        } else if best(source, target, i + 1, j) >= best(source, target, i, j + 1) {
            traced(source, target, i + 1, j)
        } else {
            traced(source, target, i, j + 1)
        }
    }
}

/// Pairs of positions that align rows of `source[i..]` with rows of `target[j..]`: both positions
/// increase strictly and each pair corresponds.
pub open spec fn is_alignment(source: Seq<Row>, target: Seq<Row>, i: int, j: int, pairs: Seq<(int, int)>) -> bool {
    &&& forall|k: int|
        0 <= k < pairs.len() ==> i <= (#[trigger] pairs[k]).0 < source.len() && j <= pairs[k].1 < target.len()
            && score(source[pairs[k].0], target[pairs[k].1]) > 0
    &&& forall|k: int, l: int|
        0 <= k < l < pairs.len() ==> (#[trigger] pairs[k]).0 < (#[trigger] pairs[l]).0 && pairs[k].1 < pairs[l].1
}

/// The total correspondence of an alignment.
pub open spec fn weight(source: Seq<Row>, target: Seq<Row>, pairs: Seq<(int, int)>) -> int
    decreases pairs.len(),
{
    if pairs.len() == 0 {
        0
    } else {
        score(source[pairs[0].0], target[pairs[0].1]) + weight(source, target, pairs.drop_first())
    }
}

/// The positions of an alignment as integers.
pub open spec fn pair_views(pairs: Seq<(usize, usize)>) -> Seq<(int, int)> {
    pairs.map_values(|p: (usize, usize)| (p.0 as int, p.1 as int))
}

/// The heaviest weight is never negative and at most two per row of either side.
pub proof fn lemma_best_bounds(source: Seq<Row>, target: Seq<Row>, i: int, j: int)
    requires
        0 <= i <= source.len(),
        0 <= j <= target.len(),
    ensures
        0 <= best(source, target, i, j) <= 2 * (source.len() - i),
        best(source, target, i, j) <= 2 * (target.len() - j),
    decreases source.len() - i + target.len() - j,
{
    if i < source.len() && j < target.len() {
        lemma_best_bounds(source, target, i + 1, j);
        lemma_best_bounds(source, target, i, j + 1);
        lemma_best_bounds(source, target, i + 1, j + 1);
    }
}

/// The traceback picks an alignment of the remaining rows whose weight is the heaviest.
pub proof fn lemma_traced_is_heaviest_alignment(source: Seq<Row>, target: Seq<Row>, i: int, j: int)
    requires
        0 <= i <= source.len(),
        0 <= j <= target.len(),
    ensures
        is_alignment(source, target, i, j, traced(source, target, i, j)),
        weight(source, target, traced(source, target, i, j)) == best(source, target, i, j),
    decreases source.len() - i + target.len() - j,
{
    if i < source.len() && j < target.len() {
        let same = score(source[i], target[j]);
        if same > 0 && best(source, target, i, j) == same + best(source, target, i + 1, j + 1) {
            lemma_traced_is_heaviest_alignment(source, target, i + 1, j + 1);
            let rest = traced(source, target, i + 1, j + 1);
            let all = seq![(i, j)] + rest;
            assert(all.drop_first() =~= rest);
            assert forall|k: int| 0 <= k < all.len() implies i <= (#[trigger] all[k]).0 < source.len() && j
                <= all[k].1 < target.len() && score(source[all[k].0], target[all[k].1]) > 0 by {
                if k > 0 {
                    assert(all[k] == rest[k - 1]);
                }
            }
            assert forall|k: int, l: int| 0 <= k < l < all.len() implies (#[trigger] all[k]).0 < (
            #[trigger] all[l]).0 && all[k].1 < all[l].1 by {
                assert(all[l] == rest[l - 1]);
                if k > 0 {
                    assert(all[k] == rest[k - 1]);
                }
            }
        } else if best(source, target, i + 1, j) >= best(source, target, i, j + 1) {
            lemma_traced_is_heaviest_alignment(source, target, i + 1, j);
            lemma_best_bounds(source, target, i + 1, j + 1);
        } else {
            lemma_traced_is_heaviest_alignment(source, target, i, j + 1);
            lemma_best_bounds(source, target, i + 1, j + 1);
        }
    }
}

/// No alignment of the remaining rows weighs more than the heaviest weight.
pub proof fn lemma_no_heavier_alignment(source: Seq<Row>, target: Seq<Row>, i: int, j: int, pairs: Seq<(int, int)>)
    requires
        0 <= i <= source.len(),
        0 <= j <= target.len(),
        is_alignment(source, target, i, j, pairs),
    ensures
        weight(source, target, pairs) <= best(source, target, i, j),
    decreases source.len() - i + target.len() - j, pairs.len(),
{
    lemma_best_bounds(source, target, i, j);
    if pairs.len() > 0 {
        let (a, b) = pairs[0];
        let rest = pairs.drop_first();
        assert(i <= a < source.len() && j <= b < target.len());
        if a > i {
            assert(is_alignment(source, target, i + 1, j, pairs));
            lemma_no_heavier_alignment(source, target, i + 1, j, pairs);
        } else if b > j {
            assert(is_alignment(source, target, i, j + 1, pairs));
            lemma_no_heavier_alignment(source, target, i, j + 1, pairs);
        } else {
            assert(is_alignment(source, target, i + 1, j + 1, rest)) by {
                assert forall|k: int| 0 <= k < rest.len() implies i + 1 <= (#[trigger] rest[k]).0 && j + 1
                    <= rest[k].1 by {
                    assert(rest[k] == pairs[k + 1]);
                    assert(pairs[0].0 < pairs[k + 1].0);
                }
                assert forall|k: int, l: int| 0 <= k < l < rest.len() implies (#[trigger] rest[k]).0 < (
                #[trigger] rest[l]).0 && rest[k].1 < rest[l].1 by {
                    assert(rest[k] == pairs[k + 1] && rest[l] == pairs[l + 1]);
                }
            }
            lemma_no_heavier_alignment(source, target, i + 1, j + 1, rest);
        }
    }
}

/// A heaviest alignment of the rows of two frames, in order: the pairs of positions of rows that
/// correspond, chosen by the traceback of [`traced`].
pub fn row_matches(source: &Vec<Row>, target: &Vec<Row>) -> (r: Vec<(usize, usize)>)
    requires
        (source@.len() + 1) * (target@.len() + 1) <= usize::MAX,
    ensures
        pair_views(r@) == traced(source@, target@, 0, 0),
        is_alignment(source@, target@, 0, 0, pair_views(r@)),
        weight(source@, target@, pair_views(r@)) == best(source@, target@, 0, 0),
        forall|pairs: Seq<(int, int)>|
            is_alignment(source@, target@, 0, 0, pairs) ==> weight(source@, target@, pairs) <= weight(
                source@,
                target@,
                pair_views(r@),
            ),
{
    let n = source.len();
    let m = target.len();
    proof {
        let lo = if n <= m { n as int } else { m as int };
        assert((lo + 1) * (lo + 1) <= (n + 1) * (m + 1)) by (nonlinear_arith)
            requires
                0 <= lo,
                lo <= n,
                lo <= m,
        ;
        assert(m + 1 <= (n + 1) * (m + 1)) by (nonlinear_arith)
            requires
                0 <= n,
                0 <= m,
        ;
        if lo + 1 > 0x1_0000_0000 {
            assert((lo + 1) * (lo + 1) > 0x1_0000_0000 * 0x1_0000_0000) by (nonlinear_arith)
                requires
                    lo + 1 > 0x1_0000_0000,
            ;
        }
    }
    // `table[k]` holds the heaviest weights of the alignments from source row `n - k` on.
    let mut table: Vec<Vec<u64>> = Vec::new();
    table.push(vec![0u64; m + 1]);
    let mut i = n;
    while i > 0
        invariant
            n == source@.len(),
            m == target@.len(),
            n <= 0xffff_ffff || m <= 0xffff_ffff,
            i <= n,
            table@.len() == n - i + 1,
            m + 1 <= usize::MAX,
            forall|k: int| 0 <= k < table@.len() ==> (#[trigger] table@[k])@.len() == m + 1,
            forall|k: int, j: int|
                0 <= k < table@.len() && 0 <= j <= m ==> #[trigger] table@[k]@[j] == best(
                    source@,
                    target@,
                    n - k,
                    j,
                ),
        decreases i,
    {
        i -= 1;
        let mut row = vec![0u64; m + 1];
        let next = table.len() - 1;
        let mut j = m;
        while j > 0
            invariant
                n == source@.len(),
                m == target@.len(),
                n <= 0xffff_ffff || m <= 0xffff_ffff,
                i < n,
                m + 1 <= usize::MAX,
                next == table@.len() - 1,
                table@.len() == n - i,
                j <= m,
                row@.len() == m + 1,
                table@[next as int]@.len() == m + 1,
                forall|t: int| 0 <= t <= m ==> #[trigger] table@[next as int]@[t] == best(source@, target@, i + 1, t),
                forall|t: int| j <= t <= m ==> #[trigger] row@[t] == best(source@, target@, i as int, t),
            decreases j,
        {
            j -= 1;
            proof {
                lemma_best_bounds(source@, target@, i + 1, j + 1);
                lemma_best_bounds(source@, target@, i + 1, j as int);
                lemma_best_bounds(source@, target@, i as int, j + 1);
            }
            let same = row_score(&source[i], &target[j]) as u64;
            let down = table[next][j];
            let right = row[j + 1];
            let skip = if down >= right {
                down
            } else {
                right
            };
            let value = if same > 0 {
                let take = same + table[next][j + 1];
                if take >= skip {
                    take
                } else {
                    skip
                }
            } else {
                skip
            };
            row.set(j, value);
        }
        proof {
            assert forall|t: int| 0 <= t <= m implies #[trigger] row@[t] == best(source@, target@, i as int, t) by {
                if t == m {
                }
            }
        }
        table.push(row);
        proof {
            assert forall|k: int| 0 <= k < table@.len() implies (#[trigger] table@[k])@.len() == m + 1 by {}
            assert forall|k: int, t: int|
                0 <= k < table@.len() && 0 <= t <= m implies #[trigger] table@[k]@[t] == best(
                source@,
                target@,
                n - k,
                t,
            ) by {
                if k == table@.len() - 1 {
                    assert(n - k == i);
                }
            }
        }
    }
    let mut out: Vec<(usize, usize)> = Vec::new();
    let mut si: usize = 0;
    let mut ti: usize = 0;
    while si < n && ti < m
        invariant
            n == source@.len(),
            m == target@.len(),
            table@.len() == n + 1,
            m + 1 <= usize::MAX,
            forall|k: int| 0 <= k < table@.len() ==> (#[trigger] table@[k])@.len() == m + 1,
            forall|k: int, j: int|
                0 <= k < table@.len() && 0 <= j <= m ==> #[trigger] table@[k]@[j] == best(
                    source@,
                    target@,
                    n - k,
                    j,
                ),
            si <= n,
            ti <= m,
            pair_views(out@) + traced(source@, target@, si as int, ti as int) == traced(source@, target@, 0, 0),
        decreases n - si + m - ti,
    {
        let same = row_score(&source[si], &target[ti]) as u64;
        let here = table[n - si][ti];
        let diagonal = table[n - si - 1][ti + 1];
        let down = table[n - si - 1][ti];
        let right = table[n - si][ti + 1];
        proof {
            lemma_best_bounds(source@, target@, si + 1, ti + 1);
        }
        let ghost before = pair_views(out@);
        if same > 0 && here == same + diagonal {
            out.push((si, ti));
            proof {
                assert(pair_views(out@) =~= before + seq![(si as int, ti as int)]);
                assert(traced(source@, target@, si as int, ti as int) == seq![(si as int, ti as int)] + traced(
                    source@,
                    target@,
                    si + 1,
                    ti + 1,
                ));
                assert(before + seq![(si as int, ti as int)] + traced(source@, target@, si + 1, ti + 1) =~= before
                    + (seq![(si as int, ti as int)] + traced(source@, target@, si + 1, ti + 1)));
            }
            si += 1;
            ti += 1;
        } else if down >= right {
            si += 1;
        } else {
            ti += 1;
        }
    }
    proof {
        assert(traced(source@, target@, si as int, ti as int) =~= seq![]);
        assert(pair_views(out@) + seq![] =~= pair_views(out@));
        lemma_traced_is_heaviest_alignment(source@, target@, 0, 0);
        assert forall|pairs: Seq<(int, int)>| is_alignment(source@, target@, 0, 0, pairs) implies weight(
            source@,
            target@,
            pairs,
        ) <= weight(source@, target@, pair_views(out@)) by {
            lemma_no_heavier_alignment(source@, target@, 0, 0, pairs);
        }
    }
    out
}

/// Screen line `y` lies under one of the overlays.
pub open spec fn covered(y: u16, overlays: Seq<Area>) -> bool {
    exists|k: int| 0 <= k < overlays.len() && (#[trigger] overlays[k]).y <= y < sat_add16(overlays[k].y, overlays[k].height)
}

/// Whether screen line `y` lies under one of the overlays.
pub fn covered_by_overlay(y: u16, overlays: &Vec<Area>) -> (r: bool)
    ensures
        r == covered(y, overlays@),
{
    let mut k: usize = 0;
    while k < overlays.len()
        invariant
            k <= overlays@.len(),
            forall|j: int| 0 <= j < k ==> !((#[trigger] overlays@[j]).y <= y < sat_add16(overlays@[j].y, overlays@[j].height)),
        decreases overlays@.len() - k,
    {
        let area = overlays[k];
        if y >= area.y && y < area.bottom() {
            return true;
        }
        k += 1;
    }
    false
}

/// The source row that the first pair of `matches` with target row `t` aligns it with.
pub open spec fn matched_source(matches: Seq<(int, int)>, t: int) -> Option<int>
    decreases matches.len(),
{
    if matches.len() == 0 {
        None
    } else if matches[0].1 == t {
        Some(matches[0].0)
    } else {
        matched_source(matches.drop_first(), t)
    }
}

/// Target row `t` changed: no source row corresponds to it, or the one that does is another
/// commit.
pub open spec fn row_changed(source: Seq<Row>, target: Seq<Row>, matches: Seq<(int, int)>, t: int) -> bool {
    match matched_source(matches, t) {
        None => true,
        Some(s) => source[s].id != target[t].id,
    }
}

/// The screen lines of the changed rows among the first `n` target rows that no overlay covers.
pub open spec fn emphasized_upto(
    source: Seq<Row>,
    target: Seq<Row>,
    matches: Seq<(int, int)>,
    overlays: Seq<Area>,
    n: int,
) -> Seq<u16>
    decreases n,
{
    if n <= 0 {
        Seq::empty()
    } else {
        let rest = emphasized_upto(source, target, matches, overlays, n - 1);
        if row_changed(source, target, matches, n - 1) && !covered(target[n - 1].y, overlays) {
            rest.push(target[n - 1].y)
        } else {
            rest
        }
    }
}

/// The screen lines to emphasize when `target` replaces `source`: none where no row of the two
/// frames corresponds, else those of the changed target rows that no overlay covers.
pub open spec fn emphasized(source: Seq<Row>, target: Seq<Row>, overlays: Seq<Area>) -> Seq<u16> {
    let matches = traced(source, target, 0, 0);
    if matches.len() == 0 {
        Seq::empty()
    } else {
        emphasized_upto(source, target, matches, overlays, target.len() as int)
    }
}

/// The source row that the first of `matches` with target row `t` aligns it with.
fn find_matched(matches: &Vec<(usize, usize)>, t: usize) -> (r: Option<usize>)
    ensures
        match r {
            Some(s) => matched_source(pair_views(matches@), t as int) == Some(s as int),
            None => matched_source(pair_views(matches@), t as int) is None,
        },
{
    let ghost all = pair_views(matches@);
    assert(all.subrange(0, all.len() as int) =~= all);
    let mut k: usize = 0;
    while k < matches.len()
        invariant
            k <= matches@.len(),
            all == pair_views(matches@),
            matched_source(all, t as int) == matched_source(all.subrange(k as int, all.len() as int), t as int),
        decreases matches@.len() - k,
    {
        let ghost rest = all.subrange(k as int, all.len() as int);
        assert(rest.drop_first() =~= all.subrange(k + 1, all.len() as int));
        if matches[k].1 == t {
            return Some(matches[k].0);
        }
        k += 1;
    }
    None
}

/// The screen lines to emphasize when the frame `target` replaces the frame `source`.
pub fn emphasized_rows(source: &Vec<Row>, target: &Vec<Row>, overlays: &Vec<Area>) -> (r: Vec<u16>)
    requires
        (source@.len() + 1) * (target@.len() + 1) <= usize::MAX,
    ensures
        r@ == emphasized(source@, target@, overlays@),
{
    let matches = row_matches(source, target);
    if matches.len() == 0 {
        return Vec::new();
    }
    let ghost pairs = pair_views(matches@);
    let mut out: Vec<u16> = Vec::new();
    let mut t: usize = 0;
    while t < target.len()
        invariant
            t <= target@.len(),
            pairs == pair_views(matches@),
            pairs == traced(source@, target@, 0, 0),
            is_alignment(source@, target@, 0, 0, pairs),
            out@ == emphasized_upto(source@, target@, pairs, overlays@, t as int),
        decreases target@.len() - t,
    {
        let row = target[t];
        let changed = match find_matched(&matches, t) {
            None => true,
            Some(s) => {
                proof {
                    lemma_matched_in_range(pairs, t as int);
                    assert(pairs[choose|k: int| 0 <= k < pairs.len() && pairs[k].0 == s as int].0 < source@.len());
                }
                source[s].id != row.id
            },
        };
        if changed && !covered_by_overlay(row.y, overlays) {
            out.push(row.y);
        }
        t += 1;
    }
    out
}

/// A source row that `matches` aligns with a target row is one of the pairs.
proof fn lemma_matched_in_range(matches: Seq<(int, int)>, t: int)
    ensures
        match matched_source(matches, t) {
            Some(s) => exists|k: int| 0 <= k < matches.len() && (#[trigger] matches[k]).0 == s,
            None => true,
        },
    decreases matches.len(),
{
    if matches.len() > 0 && matches[0].1 != t {
        lemma_matched_in_range(matches.drop_first(), t);
        match matched_source(matches.drop_first(), t) {
            Some(s) => {
                let k = choose|k: int| 0 <= k < matches.drop_first().len() && (#[trigger] matches.drop_first()[k]).0 == s;
                assert(matches[k + 1].0 == s);
            },
            None => {},
        }
    } else if matches.len() > 0 {
        assert(matches[0].0 == matches[0].0);
    }
}

/// The columns of screen line `y` that emphasizing a row of `area` changes in a buffer covering
/// `buffer`: none where the line is outside `area`, else the columns of both.
pub open spec fn row_columns(area: Area, buffer: Area, y: u16) -> Option<(u16, u16)> {
    if y < area.y || y >= sat_add16(area.y, area.height) {
        None
    } else {
        Some((
            if area.x >= buffer.x { area.x } else { buffer.x },
            if sat_add16(area.x, area.width) <= sat_add16(buffer.x, buffer.width) {
                sat_add16(area.x, area.width)
            } else {
                sat_add16(buffer.x, buffer.width)
            },
        ))
    }
}

/// The columns, from the first up to the one before the second, that emphasizing line `y` of
/// `area` changes in a buffer covering `buffer`.
pub fn emphasis_columns(area: Area, buffer: Area, y: u16) -> (r: Option<(u16, u16)>)
    ensures
        r == row_columns(area, buffer, y),
{
    if y < area.y || y >= area.bottom() {
        return None;
    }
    let right = add_right(area);
    let buffer_right = add_right(buffer);
    Some((if area.x >= buffer.x { area.x } else { buffer.x }, if right <= buffer_right { right } else { buffer_right }))
}

/// The first column right of an area.
fn add_right(a: Area) -> (r: u16)
    ensures
        r == sat_add16(a.x, a.width),
{
    if a.width <= u16::MAX - a.x {
        a.x + a.width
    } else {
        u16::MAX
    }
}

/// Every emphasized line is the line of a target row that changed and that no overlay covers.
pub proof fn lemma_emphasis_marks_uncovered_changes(source: Seq<Row>, target: Seq<Row>, overlays: Seq<Area>, k: int)
    requires
        0 <= k < emphasized(source, target, overlays).len(),
    ensures
        exists|t: int|
            0 <= t < target.len() && row_changed(source, target, traced(source, target, 0, 0), t)
                && !covered(target[t].y, overlays) && #[trigger] emphasized(source, target, overlays)[k] == target[t].y,
{
    lemma_emphasized_upto(source, target, traced(source, target, 0, 0), overlays, target.len() as int, k);
}

proof fn lemma_emphasized_upto(
    source: Seq<Row>,
    target: Seq<Row>,
    matches: Seq<(int, int)>,
    overlays: Seq<Area>,
    n: int,
    k: int,
)
    requires
        n <= target.len(),
        0 <= k < emphasized_upto(source, target, matches, overlays, n).len(),
    ensures
        exists|t: int|
            0 <= t < n && row_changed(source, target, matches, t) && !covered(target[t].y, overlays)
                && #[trigger] emphasized_upto(source, target, matches, overlays, n)[k] == target[t].y,
    decreases n,
{
    let rest = emphasized_upto(source, target, matches, overlays, n - 1);
    if k < rest.len() {
        lemma_emphasized_upto(source, target, matches, overlays, n - 1, k);
        let t = choose|t: int|
            0 <= t < n - 1 && row_changed(source, target, matches, t) && !covered(target[t].y, overlays)
                && #[trigger] emphasized_upto(source, target, matches, overlays, n - 1)[k] == target[t].y;
        assert(emphasized_upto(source, target, matches, overlays, n)[k] == target[t].y);
    } else {
        assert(emphasized_upto(source, target, matches, overlays, n)[k] == target[n - 1].y);
    }
}

} // verus!

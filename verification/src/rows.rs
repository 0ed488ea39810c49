//! The shared row buffers of the history view: the append-only row cache, title packing and the
//! signature states of rows.
use vstd::prelude::*;

use crate::author::{Attribution, AttributionView};
use crate::bytes::push_all;
use crate::commit::{CommitRow, LoadedCommit, RowView, SignatureState, Span, copy_ids, row_views};
use crate::ids::ObjectId;
use crate::lanes::{first_index, lemma_first_index, lemma_first_index_none, lemma_first_index_of};

verus! {

/// The values of a sequence of attributions.
pub open spec fn attribution_views(a: Seq<Attribution>) -> Seq<AttributionView> {
    a.map_values(|x: Attribution| x@)
}

/// The identities of a sequence of row values.
pub open spec fn view_ids(s: Seq<RowView>) -> Seq<ObjectId> {
    s.map_values(|r: RowView| r.id)
}

/// Stores `r` in the cache: it replaces the entry with the same identity, or is appended.
pub open spec fn cache_put(cache: Seq<RowView>, r: RowView) -> Seq<RowView> {
    match first_index(view_ids(cache), r.id) {
        Some(i) => cache.update(i, r),
        None => cache.push(r),
    }
}

/// Stores each of `rs` in the cache, in order.
pub open spec fn cache_put_all(cache: Seq<RowView>, rs: Seq<RowView>) -> Seq<RowView>
    decreases rs.len(),
{
    if rs.len() == 0 {
        cache
    } else {
        cache_put(cache_put_all(cache, rs.drop_last()), rs.last())
    }
}

/// The entry cached for `id`, if any.
pub open spec fn cached(cache: Seq<RowView>, id: ObjectId) -> Option<RowView> {
    match first_index(view_ids(cache), id) {
        Some(i) => Some(cache[i]),
        None => None,
    }
}

/// A row with a new signature state.
pub open spec fn with_signature(r: RowView, s: SignatureState) -> RowView {
    RowView { signature: s, ..r }
}

/// A row whose signature check failed is offered for checking again.
pub open spec fn unfail(r: RowView) -> RowView {
    if r.signature == SignatureState::Failed {
        with_signature(r, SignatureState::Unverified)
    } else {
        r
    }
}

/// The cache once every row of `rows` whose check failed was stored again, reset.
pub open spec fn recache_failed(cache: Seq<RowView>, rows: Seq<RowView>) -> Seq<RowView>
    decreases rows.len(),
{
    if rows.len() == 0 {
        cache
    } else {
        let c = recache_failed(cache, rows.drop_last());
        if rows.last().signature == SignatureState::Failed {
            cache_put(c, unfail(rows.last()))
        } else {
            c
        }
    }
}

/// Every span of the rows lies within buffers of the given lengths.
pub open spec fn views_fit(rows: Seq<RowView>, titles: int, attributions: int) -> bool {
    forall|k: int|
        0 <= k < rows.len() ==> (#[trigger] rows[k]).title.start <= rows[k].title.end <= titles
            && rows[k].attributions.start <= rows[k].attributions.end <= attributions
}

pub proof fn lemma_cache_put_fits(cache: Seq<RowView>, r: RowView, titles: int, attributions: int)
    requires
        views_fit(cache, titles, attributions),
        views_fit(seq![r], titles, attributions),
    ensures
        views_fit(cache_put(cache, r), titles, attributions),
{
    lemma_first_index(view_ids(cache), r.id);
    assert(seq![r][0] == r);
}

pub proof fn lemma_cache_put_all_fits(cache: Seq<RowView>, rs: Seq<RowView>, titles: int, attributions: int)
    requires
        views_fit(cache, titles, attributions),
        views_fit(rs, titles, attributions),
    ensures
        views_fit(cache_put_all(cache, rs), titles, attributions),
    decreases rs.len(),
{
    if rs.len() > 0 {
        assert(views_fit(rs.drop_last(), titles, attributions)) by {
            assert forall|k: int| 0 <= k < rs.len() - 1 implies #[trigger] rs.drop_last()[k] == rs[k] by {}
        }
        lemma_cache_put_all_fits(cache, rs.drop_last(), titles, attributions);
        assert(views_fit(seq![rs.last()], titles, attributions)) by {
            assert(seq![rs.last()][0] == rs[rs.len() - 1]);
        }
        lemma_cache_put_fits(cache_put_all(cache, rs.drop_last()), rs.last(), titles, attributions);
    }
}

pub proof fn lemma_fits_grow(rows: Seq<RowView>, t1: int, a1: int, t2: int, a2: int)
    requires
        views_fit(rows, t1, a1),
        t1 <= t2,
        a1 <= a2,
    ensures
        views_fit(rows, t2, a2),
{
}

/// The position of the cache entry for `id`.
fn cache_position(cache: &Vec<CommitRow>, id: ObjectId) -> (r: Option<usize>)
    ensures
        match r {
            Some(i) => first_index(view_ids(row_views(cache@)), id) == Some(i as int),
            None => first_index(view_ids(row_views(cache@)), id) == None::<int>,
        },
{
    let ghost ids = view_ids(row_views(cache@));
    let mut i: usize = 0;
    while i < cache.len()
        invariant
            i <= cache@.len(),
            ids == view_ids(row_views(cache@)),
            ids.len() == cache@.len(),
            forall|j: int| 0 <= j < i ==> ids[j] != id,
        decreases cache@.len() - i,
    {
        assert(ids[i as int] == cache@[i as int].id);
        if cache[i].id == id {
            proof {
                lemma_first_index_of(ids, id, i as int);
            }
            return Some(i);
        }
        i += 1;
    }
    proof {
        lemma_first_index_none(ids, id);
    }
    None
}

/// Stores `row` in the cache, replacing the entry with the same identity or appending it.
pub fn cache_store(cache: &mut Vec<CommitRow>, row: CommitRow)
    ensures
        row_views(final(cache)@) == cache_put(row_views(old(cache)@), row@),
{
    let ghost before = row_views(cache@);
    proof {
        lemma_first_index(view_ids(before), row.id);
    }
    match cache_position(cache, row.id) {
        Some(i) => {
            cache.set(i, row);
            assert(row_views(cache@) =~= before.update(i as int, row@));
        },
        None => {
            cache.push(row);
            assert(row_views(cache@) =~= before.push(row@));
        },
    }
}

/// A copy of `row` with a new signature state.
pub fn resigned(row: &CommitRow, s: SignatureState) -> (r: CommitRow)
    ensures
        r@ == with_signature(row@, s),
{
    let mut r = row.duplicate();
    r.signature = s;
    r
}

/// Resets every failed signature of `rows` to unverified, storing each reset row in the cache too.
pub fn unfail_rows(rows: &Vec<CommitRow>, cache: &mut Vec<CommitRow>) -> (r: Vec<CommitRow>)
    ensures
        r@.len() == rows@.len(),
        forall|k: int| 0 <= k < rows@.len() ==> #[trigger] r@[k]@ == unfail(rows@[k]@),
        row_views(final(cache)@) == recache_failed(row_views(old(cache)@), row_views(rows@)),
{
    let ghost views = row_views(rows@);
    let mut out: Vec<CommitRow> = Vec::new();
    let mut i: usize = 0;
    while i < rows.len()
        invariant
            i <= rows@.len(),
            views == row_views(rows@),
            out@.len() == i,
            forall|k: int| 0 <= k < i ==> #[trigger] out@[k]@ == unfail(rows@[k]@),
            row_views(cache@) == recache_failed(row_views(old(cache)@), views.subrange(0, i as int)),
        decreases rows@.len() - i,
    {
        let ghost c = row_views(cache@);
        assert(views.subrange(0, i + 1).drop_last() =~= views.subrange(0, i as int));
        assert(views.subrange(0, i + 1).last() == rows@[i as int]@);
        if rows[i].signature == SignatureState::Failed {
            let reset = resigned(&rows[i], SignatureState::Unverified);
            cache_store(cache, resigned(&rows[i], SignatureState::Unverified));
            out.push(reset);
        } else {
            out.push(rows[i].duplicate());
        }
        i += 1;
    }
    assert(views.subrange(0, rows@.len() as int) =~= views);
    out
}

/// The titles of a batch, packed one after another.
pub open spec fn batch_titles(rows: Seq<LoadedCommit>) -> Seq<u8>
    decreases rows.len(),
{
    if rows.len() == 0 {
        Seq::empty()
    } else {
        batch_titles(rows.drop_last()) + rows.last().title@
    }
}

/// The row stored for a loaded commit whose title starts at `title_start` of the shared title buffer and
/// whose attributions are shifted by `base` into the shared attribution buffer.
pub open spec fn stored_row(l: LoadedCommit, title_start: int, base: int) -> RowView {
    RowView {
        id: l.id,
        parents: l.parent_ids@,
        committer_time: l.committer_time,
        author: l.author@,
        attributions: Span { start: (base + l.attributions.start) as usize, end: (base + l.attributions.end) as usize },
        title: Span { start: title_start as usize, end: (title_start + l.title@.len()) as usize },
        metadata_loaded: l.metadata_loaded,
        has_agent_marker: l.has_agent_marker,
        signature: l.signature,
    }
}

/// The rows stored for a batch whose titles are appended to `titles` bytes and whose attributions are
/// appended to `base` attributions.
pub open spec fn stored_rows(batch: Seq<LoadedCommit>, titles: int, base: int) -> Seq<RowView> {
    Seq::new(batch.len(), |k: int| stored_row(batch[k], titles + batch_titles(batch.take(k)).len(), base))
}

/// Every attribution span of a batch lies within its `n` attributions.
pub open spec fn batch_fits(batch: Seq<LoadedCommit>, n: int) -> bool {
    forall|k: int|
        0 <= k < batch.len() ==> (#[trigger] batch[k]).attributions.start <= batch[k].attributions.end <= n
}

pub proof fn lemma_batch_titles_take(batch: Seq<LoadedCommit>, k: int)
    requires
        0 <= k < batch.len(),
    ensures
        batch_titles(batch.take(k + 1)) == batch_titles(batch.take(k)) + batch[k].title@,
{
    assert(batch.take(k + 1).drop_last() =~= batch.take(k));
}

/// Appends a batch to the shared buffers: its titles to `titles`, its attributions to `attributions`,
/// and its rows, now holding spans of those buffers, to the cache. Returns the stored rows.
pub fn store_batch(
    titles: &mut Vec<u8>,
    attributions: &mut Vec<Attribution>,
    cache: &mut Vec<CommitRow>,
    rows: &Vec<LoadedCommit>,
    batch_attributions: &mut Vec<Attribution>,
) -> (stored: Vec<CommitRow>)
    requires
        batch_fits(rows@, old(batch_attributions)@.len() as int),
    ensures
        final(titles)@ == old(titles)@ + batch_titles(rows@),
        attribution_views(final(attributions)@) == attribution_views(old(attributions)@) + attribution_views(
            old(batch_attributions)@,
        ),
        row_views(stored@) == stored_rows(rows@, old(titles)@.len() as int, old(attributions)@.len() as int),
        row_views(final(cache)@) == cache_put_all(
            row_views(old(cache)@),
            stored_rows(rows@, old(titles)@.len() as int, old(attributions)@.len() as int),
        ),
        views_fit(row_views(stored@), final(titles)@.len() as int, final(attributions)@.len() as int),
{
    let ghost t0 = titles@;
    let ghost a0 = attributions@;
    let ghost b0 = batch_attributions@;
    let ghost c0 = row_views(cache@);
    let ghost want = stored_rows(rows@, t0.len() as int, a0.len() as int);
    let base = attributions.len();
    attributions.append(batch_attributions);
    let total = attributions.len();
    assert(attribution_views(attributions@) =~= attribution_views(a0) + attribution_views(b0));
    let mut stored: Vec<CommitRow> = Vec::new();
    let mut i: usize = 0;
    while i < rows.len()
        invariant
            i <= rows@.len(),
            base == a0.len(),
            attributions@ == a0 + b0,
            total == a0.len() + b0.len(),
            titles@ == t0 + batch_titles(rows@.take(i as int)),
            want == stored_rows(rows@, t0.len() as int, a0.len() as int),
            stored@.len() == i,
            forall|k: int| 0 <= k < i ==> #[trigger] stored@[k]@ == want[k],
            row_views(cache@) == cache_put_all(c0, want.take(i as int)),
            batch_fits(rows@, b0.len() as int),
            views_fit(row_views(stored@), titles@.len() as int, attributions@.len() as int),
        decreases rows@.len() - i,
    {
        let row = &rows[i];
        proof {
            lemma_batch_titles_take(rows@, i as int);
        }
        let ghost before_views = row_views(stored@);
        let start = titles.len();
        proof {
            lemma_fits_grow(before_views, start as int, attributions@.len() as int, start + row.title@.len(), attributions@.len() as int);
        }
        push_all(titles, row.title.as_slice());
        let end = titles.len();
        assert(rows@[i as int].attributions.start <= rows@[i as int].attributions.end <= b0.len());
        let a_start = base + row.attributions.start;
        let a_end = base + row.attributions.end;
        let r = CommitRow {
            id: row.id,
            parent_ids: copy_ids(&row.parent_ids),
            committer_time: row.committer_time,
            author: row.author.duplicate(),
            attributions: Span { start: a_start, end: a_end },
            title: Span { start, end },
            metadata_loaded: row.metadata_loaded,
            has_agent_marker: row.has_agent_marker,
            signature: row.signature,
        };
        let copy = r.duplicate();
        cache_store(cache, copy);
        let ghost rv = r@;
        stored.push(r);
        proof {
            assert(row_views(stored@) =~= before_views.push(rv));
            assert(want.take(i + 1).drop_last() =~= want.take(i as int));
            assert(rows@.take(i + 1).drop_last() =~= rows@.take(i as int));
            assert(stored@[i as int]@ == want[i as int]);
        }
        i += 1;
    }
    assert(rows@.take(rows@.len() as int) =~= rows@);
    assert(want.take(rows@.len() as int) =~= want);
    assert(row_views(stored@) =~= want);
    stored
}

} // verus!

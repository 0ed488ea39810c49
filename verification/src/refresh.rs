//! Refreshing the view from its append-only cache of rows: which commits are reachable from the tips
//! shown and which of them are hidden.
use vstd::prelude::*;

use crate::app::{
    App, LoadedCommits, State, nav_is, same_changes, same_commit_view, same_display, same_horizontal,
    same_preview, spans_fit,
};
use crate::commit::{CommitRow, RowView, row_views};
use crate::ids::ObjectId;
use crate::lanes::{contains_id, first_index, lemma_first_index};
use crate::rows::{
    attribution_views, batch_titles, cache_put_all, cached, lemma_cache_put_all_fits, lemma_fits_grow, stored_rows,
    view_ids,
};

verus! {

/// `p` is a parent of the cached row of `child`.
pub open spec fn parent_of(cache: Seq<RowView>, child: ObjectId, p: ObjectId) -> bool {
    match cached(cache, child) {
        Some(r) => r.parents.contains(p),
        None => false,
    }
}

/// Each identity of `ids` is a tip or a parent of the cached row of an identity listed before it.
pub open spec fn derived(cache: Seq<RowView>, tips: Seq<ObjectId>, ids: Seq<ObjectId>) -> bool {
    forall|k: int|
        0 <= k < ids.len() ==> tips.contains(#[trigger] ids[k]) || exists|j: int|
            0 <= j < k && parent_of(cache, ids[j], ids[k])
}

/// `id` is reachable from the tips through the parents of cached rows.
pub open spec fn reaches(cache: Seq<RowView>, tips: Seq<ObjectId>, id: ObjectId) -> bool {
    exists|ids: Seq<ObjectId>| derived(cache, tips, ids) && ids.contains(id)
}

/// Every parent of every cached row, in order.
pub open spec fn all_parents(cache: Seq<RowView>) -> Seq<ObjectId>
    decreases cache.len(),
{
    if cache.len() == 0 {
        Seq::empty()
    } else {
        all_parents(cache.drop_last()) + cache.last().parents
    }
}

pub proof fn lemma_all_parents(cache: Seq<RowView>, i: int, p: ObjectId)
    requires
        0 <= i < cache.len(),
        cache[i].parents.contains(p),
    ensures
        all_parents(cache).contains(p),
    decreases cache.len(),
{
    vstd::seq_lib::lemma_seq_concat_contains_all_elements(all_parents(cache.drop_last()), cache.last().parents, p);
    if i < cache.len() - 1 {
        assert(cache.drop_last()[i] == cache[i]);
        lemma_all_parents(cache.drop_last(), i, p);
    }
}

pub proof fn lemma_parent_in_candidates(cache: Seq<RowView>, tips: Seq<ObjectId>, child: ObjectId, p: ObjectId)
    requires
        parent_of(cache, child, p),
    ensures
        (tips + all_parents(cache)).contains(p),
{
    lemma_first_index(view_ids(cache), child);
    let i = first_index(view_ids(cache), child).unwrap();
    lemma_all_parents(cache, i, p);
    vstd::seq_lib::lemma_seq_concat_contains_all_elements(tips, all_parents(cache), p);
}

/// The cached row of `id`, if any.
fn cache_lookup(cache: &Vec<CommitRow>, id: ObjectId) -> (r: Option<usize>)
    ensures
        match r {
            Some(i) => i < cache@.len() && cached(row_views(cache@), id) == Some(cache@[i as int]@),
            None => cached(row_views(cache@), id).is_none(),
        },
{
    let ghost views = row_views(cache@);
    proof {
        assert(view_ids(views) =~= crate::commit::row_ids(cache@));
        lemma_first_index(view_ids(views), id);
    }
    crate::reachability::row_position(cache, id)
}

impl App {
    /// The identities reachable from `tips` through the parents of the cached rows.
    pub fn reachable_from(&self, tips: &Vec<ObjectId>) -> (r: Vec<ObjectId>)
        ensures
            forall|id: ObjectId| r@.contains(id) <==> reaches(row_views(self.all_rows@), tips@, id),
    {
        let cache = &self.all_rows;
        let ghost c = row_views(cache@);
        let ghost u = tips@ + all_parents(c);
        let mut reachable: Vec<ObjectId> = Vec::new();
        let mut pending: Vec<ObjectId> = crate::commit::copy_ids(tips);
        proof {
            assert forall|p: ObjectId| pending@.contains(p) implies u.contains(p) by {
                vstd::seq_lib::lemma_seq_concat_contains_all_elements(tips@, all_parents(c), p);
            }
        }
        while pending.len() > 0
            invariant
                c == row_views(cache@),
                u == tips@ + all_parents(c),
                derived(c, tips@, reachable@),
                reachable@.no_duplicates(),
                forall|x: ObjectId| reachable@.contains(x) ==> u.contains(x),
                forall|p: ObjectId| pending@.contains(p) ==> u.contains(p),
                forall|p: ObjectId|
                    pending@.contains(p) ==> tips@.contains(p) || exists|j: int|
                        0 <= j < reachable@.len() && parent_of(c, reachable@[j], p),
                forall|x: ObjectId, q: ObjectId|
                    reachable@.contains(x) && parent_of(c, x, q) ==> reachable@.contains(q) || pending@.contains(q),
                forall|t: ObjectId| tips@.contains(t) ==> reachable@.contains(t) || pending@.contains(t),
                reachable@.len() <= u.len(),
            decreases u.len() - reachable@.len(), pending@.len(),
        {
            let ghost before = pending@;
            let ghost old_reachable = reachable@;
            let id = pending.pop().unwrap();
            let ghost popped = pending@;
            proof {
                assert(before == popped.push(id));
                assert forall|p: ObjectId| before.contains(p) <==> (popped.contains(p) || p == id) by {
                    vstd::seq_lib::lemma_seq_contains_after_push(popped, id, p);
                }
            }
            if !contains_id(&reachable, id) {
                reachable.push(id);
                proof {
                    assert forall|p: ObjectId| reachable@.contains(p) <==> (old_reachable.contains(p) || p == id) by {
                        vstd::seq_lib::lemma_seq_contains_after_push(old_reachable, id, p);
                    }
                    assert(derived(c, tips@, reachable@)) by {
                        assert forall|k: int| 0 <= k < reachable@.len() implies tips@.contains(#[trigger] reachable@[k])
                            || exists|j: int| 0 <= j < k && parent_of(c, reachable@[j], reachable@[k]) by {
                            if k < old_reachable.len() {
                                assert(reachable@[k] == old_reachable[k]);
                                if !tips@.contains(old_reachable[k]) {
                                    let j = choose|j: int| 0 <= j < k && parent_of(c, old_reachable[j], old_reachable[k]);
                                    assert(reachable@[j] == old_reachable[j]);
                                }
                            } else {
                                assert(reachable@[k] == id);
                                if !tips@.contains(id) {
                                    let j = choose|j: int| 0 <= j < old_reachable.len() && parent_of(c, old_reachable[j], id);
                                    assert(reachable@[j] == old_reachable[j]);
                                }
                            }
                        }
                    }
                    assert(reachable@.no_duplicates()) by {
                        assert forall|a: int, b: int| 0 <= a < b < reachable@.len() implies reachable@[a] != reachable@[b] by {
                            if b == reachable@.len() - 1 {
                                assert(old_reachable.contains(reachable@[a]));
                            } else {
                                assert(reachable@[a] == old_reachable[a]);
                                assert(reachable@[b] == old_reachable[b]);
                            }
                        }
                    }
                    reachable@.unique_seq_to_set();
                    u.lemma_cardinality_of_set();
                    assert(reachable@.to_set().subset_of(u.to_set()));
                    vstd::set_lib::lemma_len_subset(reachable@.to_set(), u.to_set());
                }
                match cache_lookup(cache, id) {
                    Some(i) => {
                        let mut parents = crate::commit::copy_ids(&cache[i].parent_ids);
                        let ghost ps = parents@;
                        pending.append(&mut parents);
                        proof {
                            assert(ps == c[i as int].parents);
                            assert forall|p: ObjectId| pending@.contains(p) <==> (popped.contains(p) || ps.contains(p)) by {
                                vstd::seq_lib::lemma_seq_concat_contains_all_elements(popped, ps, p);
                            }
                            assert forall|p: ObjectId| ps.contains(p) implies u.contains(p) && parent_of(c, id, p) by {
                                lemma_parent_in_candidates(c, tips@, id, p);
                            }
                            assert forall|p: ObjectId| pending@.contains(p) implies tips@.contains(p) || exists|j: int|
                                0 <= j < reachable@.len() && parent_of(c, reachable@[j], p) by {
                                if popped.contains(p) {
                                    assert(before.contains(p));
                                    if !tips@.contains(p) {
                                        let j = choose|j: int| 0 <= j < old_reachable.len() && parent_of(c, old_reachable[j], p);
                                        assert(reachable@[j] == old_reachable[j]);
                                    }
                                } else {
                                    assert(reachable@[reachable@.len() - 1] == id);
                                }
                            }
                        }
                    },
                    None => {
                        proof {
                            assert forall|p: ObjectId| pending@.contains(p) implies tips@.contains(p) || exists|j: int|
                                0 <= j < reachable@.len() && parent_of(c, reachable@[j], p) by {
                                assert(before.contains(p));
                                if !tips@.contains(p) {
                                    let j = choose|j: int| 0 <= j < old_reachable.len() && parent_of(c, old_reachable[j], p);
                                    assert(reachable@[j] == old_reachable[j]);
                                }
                            }
                        }
                    },
                }
            }
        }
        proof {
            assert forall|id: ObjectId| reachable@.contains(id) <==> reaches(c, tips@, id) by {
                if reaches(c, tips@, id) {
                    let ids = choose|ids: Seq<ObjectId>| derived(c, tips@, ids) && ids.contains(id);
                    lemma_derived_within(c, tips@, ids, reachable@);
                }
            }
        }
        reachable
    }
}

/// A closed set that holds the tips holds every identity derived from them.
pub proof fn lemma_derived_within(cache: Seq<RowView>, tips: Seq<ObjectId>, ids: Seq<ObjectId>, closed: Seq<ObjectId>)
    requires
        derived(cache, tips, ids),
        forall|t: ObjectId| tips.contains(t) ==> closed.contains(t),
        forall|x: ObjectId, q: ObjectId| closed.contains(x) && parent_of(cache, x, q) ==> closed.contains(q),
    ensures
        forall|k: int| 0 <= k < ids.len() ==> closed.contains(#[trigger] ids[k]),
    decreases ids.len(),
{
    if ids.len() > 0 {
        let shorter = ids.drop_last();
        assert(derived(cache, tips, shorter)) by {
            assert forall|k: int| 0 <= k < shorter.len() implies tips.contains(#[trigger] shorter[k]) || exists|j: int|
                0 <= j < k && parent_of(cache, shorter[j], shorter[k]) by {
                assert(shorter[k] == ids[k]);
                if !tips.contains(ids[k]) {
                    let j = choose|j: int| 0 <= j < k && parent_of(cache, ids[j], ids[k]);
                    assert(shorter[j] == ids[j]);
                }
            }
        }
        lemma_derived_within(cache, tips, shorter, closed);
        let last = ids.len() - 1;
        assert forall|k: int| 0 <= k < ids.len() implies closed.contains(#[trigger] ids[k]) by {
            if k < last {
                assert(shorter[k] == ids[k]);
            } else {
                if !tips.contains(ids[k]) {
                    let j = choose|j: int| 0 <= j < k && parent_of(cache, ids[j], ids[k]);
                    assert(shorter[j] == ids[j]);
                }
            }
        }
    }
}

// ---------------------------------------------------------------------------------------------
// Projecting the cache onto the tips shown.
// ---------------------------------------------------------------------------------------------

/// A refresh shows `id`: it is reachable from the view tips and not from the hidden tips.
pub open spec fn refresh_visible(
    cache: Seq<RowView>,
    view_tips: Seq<ObjectId>,
    hidden_tips: Seq<ObjectId>,
    id: ObjectId,
) -> bool {
    reaches(cache, view_tips, id) && !reaches(cache, hidden_tips, id)
}

/// A refresh with hidden tips keeps `id` as a boundary row: it is not shown, but a parent of the
/// cached row of a commit that is.
pub open spec fn refresh_boundary(
    cache: Seq<RowView>,
    view_tips: Seq<ObjectId>,
    hidden_tips: Seq<ObjectId>,
    id: ObjectId,
) -> bool {
    &&& hidden_tips.len() > 0
    &&& !refresh_visible(cache, view_tips, hidden_tips, id)
    &&& exists|child: ObjectId|
        #[trigger] refresh_visible(cache, view_tips, hidden_tips, child) && parent_of(cache, child, id)
}

/// The cached rows that a refresh lays out, in cache order: those shown and the boundary rows.
pub open spec fn refresh_rows(cache: Seq<RowView>, view_tips: Seq<ObjectId>, hidden_tips: Seq<ObjectId>) -> Seq<
    RowView,
> {
    cache.filter(
        |r: RowView|
            refresh_visible(cache, view_tips, hidden_tips, r.id) || refresh_boundary(
                cache,
                view_tips,
                hidden_tips,
                r.id,
            ),
    )
}

/// The identities of `ids` that `excluded` does not hold, without repetition.
fn without(ids: &Vec<ObjectId>, excluded: &Vec<ObjectId>) -> (r: Vec<ObjectId>)
    ensures
        r@.no_duplicates(),
        forall|id: ObjectId| r@.contains(id) <==> (ids@.contains(id) && !excluded@.contains(id)),
{
    let mut out: Vec<ObjectId> = Vec::new();
    let mut i: usize = 0;
    while i < ids.len()
        invariant
            i <= ids@.len(),
            out@.no_duplicates(),
            forall|id: ObjectId|
                out@.contains(id) <==> (ids@.subrange(0, i as int).contains(id) && !excluded@.contains(id)),
        decreases ids@.len() - i,
    {
        let id = ids[i];
        let ghost before = out@;
        let ghost seen = ids@.subrange(0, i as int);
        assert(ids@.subrange(0, i + 1) == seen.push(id));
        if !contains_id(excluded, id) && !contains_id(&out, id) {
            out.push(id);
        }
        proof {
            assert forall|x: ObjectId| out@.contains(x) <==> (seen.push(id).contains(x) && !excluded@.contains(x)) by {
                vstd::seq_lib::lemma_seq_contains_after_push(seen, id, x);
                if out@ != before {
                    vstd::seq_lib::lemma_seq_contains_after_push(before, id, x);
                }
            }
            if out@ != before {
                assert forall|a: int, b: int| 0 <= a < b < out@.len() implies out@[a] != out@[b] by {
                    if b == out@.len() - 1 {
                        assert(before.contains(out@[a]));
                    } else {
                        assert(out@[a] == before[a] && out@[b] == before[b]);
                    }
                }
            }
        }
        i += 1;
    }
    assert(ids@.subrange(0, ids@.len() as int) == ids@);
    out
}

/// `boundary` with each of `parents` added that neither `visible` nor `boundary` holds yet.
fn add_outside(boundary: Vec<ObjectId>, parents: &Vec<ObjectId>, visible: &Vec<ObjectId>) -> (r: Vec<ObjectId>)
    requires
        boundary@.no_duplicates(),
    ensures
        r@.no_duplicates(),
        forall|id: ObjectId|
            r@.contains(id) <==> (boundary@.contains(id) || (parents@.contains(id) && !visible@.contains(id))),
{
    let ghost start = boundary@;
    let mut out = boundary;
    let mut i: usize = 0;
    while i < parents.len()
        invariant
            i <= parents@.len(),
            out@.no_duplicates(),
            forall|id: ObjectId|
                out@.contains(id) <==> (start.contains(id) || (parents@.subrange(0, i as int).contains(id)
                    && !visible@.contains(id))),
        decreases parents@.len() - i,
    {
        let p = parents[i];
        let ghost before = out@;
        let ghost seen = parents@.subrange(0, i as int);
        assert(parents@.subrange(0, i + 1) == seen.push(p));
        if !contains_id(visible, p) && !contains_id(&out, p) {
            out.push(p);
        }
        proof {
            assert forall|x: ObjectId|
                #[trigger] out@.contains(x) <==> (start.contains(x) || (seen.push(p).contains(x) && !visible@.contains(x))) by {
                assert(before.contains(x) <==> (start.contains(x) || (seen.contains(x) && !visible@.contains(x))));
                vstd::seq_lib::lemma_seq_contains_after_push(seen, p, x);
                if out@ != before {
                    vstd::seq_lib::lemma_seq_contains_after_push(before, p, x);
                }
            }
            if out@ != before {
                assert forall|a: int, b: int| 0 <= a < b < out@.len() implies out@[a] != out@[b] by {
                    if b == out@.len() - 1 {
                        assert(before.contains(out@[a]));
                    } else {
                        assert(out@[a] == before[a] && out@[b] == before[b]);
                    }
                }
            }
        }
        i += 1;
    }
    assert(parents@.subrange(0, parents@.len() as int) == parents@);
    out
}

/// The parents of the cached rows of `visible` that `visible` does not hold, without repetition.
fn outside_parents(cache: &Vec<CommitRow>, visible: &Vec<ObjectId>) -> (r: Vec<ObjectId>)
    ensures
        r@.no_duplicates(),
        forall|id: ObjectId|
            r@.contains(id) <==> (!visible@.contains(id) && exists|child: ObjectId|
                visible@.contains(child) && parent_of(row_views(cache@), child, id)),
{
    let ghost c = row_views(cache@);
    let mut out: Vec<ObjectId> = Vec::new();
    let mut k: usize = 0;
    while k < visible.len()
        invariant
            c == row_views(cache@),
            k <= visible@.len(),
            out@.no_duplicates(),
            forall|id: ObjectId|
                out@.contains(id) <==> (!visible@.contains(id) && exists|j: int|
                    0 <= j < k && parent_of(c, visible@[j], id)),
        decreases visible@.len() - k,
    {
        let child = visible[k];
        let ghost before = out@;
        match cache_lookup(cache, child) {
            Some(i) => {
                out = add_outside(out, &cache[i].parent_ids, visible);
                proof {
                    assert(c[i as int] == cache@[i as int]@);
                    assert forall|id: ObjectId|
                        out@.contains(id) <==> (!visible@.contains(id) && exists|j: int|
                            0 <= j < k + 1 && parent_of(c, visible@[j], id)) by {
                        if out@.contains(id) && !before.contains(id) {
                            assert(parent_of(c, visible@[k as int], id));
                        }
                        if !visible@.contains(id) && (exists|j: int| 0 <= j < k + 1 && parent_of(c, visible@[j], id)) {
                            let j = choose|j: int| 0 <= j < k + 1 && parent_of(c, visible@[j], id);
                            if j < k {
                                assert(before.contains(id));
                            }
                        }
                    }
                }
            },
            None => {
                proof {
                    assert forall|id: ObjectId|
                        out@.contains(id) <==> (!visible@.contains(id) && exists|j: int|
                            0 <= j < k + 1 && parent_of(c, visible@[j], id)) by {
                        if !visible@.contains(id) && (exists|j: int| 0 <= j < k + 1 && parent_of(c, visible@[j], id)) {
                            let j = choose|j: int| 0 <= j < k + 1 && parent_of(c, visible@[j], id);
                            assert(j < k);
                        }
                    }
                }
            },
        }
        k += 1;
    }
    proof {
        assert forall|id: ObjectId|
            out@.contains(id) <==> (!visible@.contains(id) && exists|child: ObjectId|
                visible@.contains(child) && parent_of(c, child, id)) by {
            if !visible@.contains(id) && exists|child: ObjectId| visible@.contains(child) && parent_of(c, child, id) {
                let child = choose|child: ObjectId| visible@.contains(child) && parent_of(c, child, id);
                let j = choose|j: int| 0 <= j < visible@.len() && visible@[j] == child;
                assert(parent_of(c, visible@[j], id));
            }
        }
    }
    out
}

/// Copies of the cached rows whose identity `visible` or `boundary` holds, in cache order.
fn select_rows(cache: &Vec<CommitRow>, visible: &Vec<ObjectId>, boundary: &Vec<ObjectId>) -> (r: Vec<CommitRow>)
    ensures
        row_views(r@) == row_views(cache@).filter(
            |v: RowView| visible@.contains(v.id) || boundary@.contains(v.id),
        ),
{
    let ghost c = row_views(cache@);
    let ghost pred = |v: RowView| visible@.contains(v.id) || boundary@.contains(v.id);
    let mut out: Vec<CommitRow> = Vec::new();
    let mut i: usize = 0;
    while i < cache.len()
        invariant
            c == row_views(cache@),
            pred == (|v: RowView| visible@.contains(v.id) || boundary@.contains(v.id)),
            i <= cache@.len(),
            row_views(out@) == c.take(i as int).filter(pred),
        decreases cache@.len() - i,
    {
        let ghost before = row_views(out@);
        proof {
            assert(c.take(i + 1).drop_last() == c.take(i as int));
            assert(c.take(i + 1).last() == cache@[i as int]@);
            reveal(Seq::filter);
        }
        let id = cache[i].id;
        if contains_id(visible, id) || contains_id(boundary, id) {
            out.push(cache[i].duplicate());
            assert(row_views(out@) == before.push(cache@[i as int]@));
        }
        i += 1;
    }
    assert(c.take(cache@.len() as int) == c);
    out
}

/// The refresh began: the batch was stored, the rows to lay out are those the tips show and the
/// boundary rows, which are noted as hidden until the layout is installed; the tail is no longer
/// followed and the rest of the view is unchanged.
pub open spec fn refresh_started(
    a: App,
    b: App,
    batch: LoadedCommits,
    view_tips: Seq<ObjectId>,
    hidden_tips: Seq<ObjectId>,
    select_top: bool,
    rows: Seq<RowView>,
) -> bool {
    let c = row_views(b.all_rows@);
    &&& b.titles@ == a.titles@ + batch_titles(batch.rows@)
    &&& attribution_views(b.attributions@) == attribution_views(a.attributions@) + attribution_views(
        batch.attributions@,
    )
    &&& c == cache_put_all(
        row_views(a.all_rows@),
        stored_rows(batch.rows@, a.titles@.len() as int, a.attributions@.len() as int),
    )
    &&& rows == refresh_rows(c, view_tips, hidden_tips)
    &&& b.pending_hidden_rows matches Some(h) && h@.no_duplicates() && forall|id: ObjectId|
        h@.contains(id) <==> refresh_boundary(c, view_tips, hidden_tips, id)
    &&& b.select_top_after_refresh == select_top
    &&& b.state == State::Computing
    &&& b.rows == a.rows
    &&& b.hidden_rows == a.hidden_rows
    &&& b.notes == a.notes
    &&& b.graph == a.graph
    &&& nav_is(a, b, a.selected, a.offset, false)
    &&& same_horizontal(a, b)
    &&& same_display(a, b)
    &&& same_changes(a, b)
    &&& same_commit_view(a, b)
    &&& same_preview(a, b)
    &&& b.signature_failures == a.signature_failures
    &&& b.signature_verification_running == a.signature_verification_running
    &&& b.copy_feedback == a.copy_feedback
    &&& b.deferred_history_state == a.deferred_history_state
    &&& b.lane_time == a.lane_time
    &&& b.estimated_lane_width == a.estimated_lane_width
    &&& b.reload_selection == a.reload_selection
    &&& b.manual_refresh == a.manual_refresh
    &&& b.selection_relation == a.selection_relation
    &&& b.notice == a.notice
}

impl App {
    /// Stores `commits` in the cache and projects it onto the tips shown: the rows reachable from
    /// `view_tips` but not from `hidden_tips`, and, where there are hidden tips, the parents of those
    /// rows that are hidden, as boundary rows. Returns the rows to lay out.
    pub fn start_refresh(
        &mut self,
        commits: LoadedCommits,
        view_tips: &Vec<ObjectId>,
        hidden_tips: &Vec<ObjectId>,
        select_top: bool,
    ) -> (r: Option<Vec<CommitRow>>)
        requires
            old(self).wf(),
            commits.wf(),
        ensures
            final(self).wf(),
            r matches Some(rows) && refresh_started(
                *old(self),
                *final(self),
                commits,
                view_tips@,
                hidden_tips@,
                select_top,
                row_views(rows@),
            ),
            r matches Some(rows) && spans_fit(
                rows@,
                final(self).titles@.len() as int,
                final(self).attributions@.len() as int,
            ),
    {
        let ghost a = *self;
        let stored = self.store_commits(commits);
        let ghost s = row_views(stored@);
        let ghost m = *self;
        let ghost c = row_views(self.all_rows@);
        let reachable = self.reachable_from(view_tips);
        let hidden = self.reachable_from(hidden_tips);
        let visible = without(&reachable, &hidden);
        let boundary = if hidden_tips.len() == 0 {
            Vec::new()
        } else {
            outside_parents(&self.all_rows, &visible)
        };
        let rows = select_rows(&self.all_rows, &visible, &boundary);
        proof {
            assert forall|id: ObjectId| #[trigger] visible@.contains(id) <==> refresh_visible(c, view_tips@, hidden_tips@, id) by {}
            assert forall|id: ObjectId|
                #[trigger] boundary@.contains(id) <==> refresh_boundary(c, view_tips@, hidden_tips@, id) by {
                if hidden_tips@.len() > 0 {
                    if boundary@.contains(id) {
                        let child = choose|child: ObjectId| visible@.contains(child) && parent_of(c, child, id);
                        assert(refresh_visible(c, view_tips@, hidden_tips@, child));
                    }
                    if refresh_boundary(c, view_tips@, hidden_tips@, id) {
                        let child = choose|child: ObjectId|
                            #[trigger] refresh_visible(c, view_tips@, hidden_tips@, child) && parent_of(c, child, id);
                        assert(visible@.contains(child));
                    }
                }
            }
            let p1 = |v: RowView| visible@.contains(v.id) || boundary@.contains(v.id);
            let p2 = |v: RowView|
                refresh_visible(c, view_tips@, hidden_tips@, v.id) || refresh_boundary(c, view_tips@, hidden_tips@, v.id);
            assert(p1 =~= p2);
            assert(row_views(rows@) == refresh_rows(c, view_tips@, hidden_tips@));
            assert(attribution_views(m.attributions@).len() == m.attributions@.len());
            assert(attribution_views(a.attributions@).len() == a.attributions@.len());
            lemma_fits_grow(
                row_views(a.all_rows@),
                a.titles@.len() as int,
                a.attributions@.len() as int,
                m.titles@.len() as int,
                m.attributions@.len() as int,
            );
            lemma_fits_grow(
                row_views(a.rows@),
                a.titles@.len() as int,
                a.attributions@.len() as int,
                m.titles@.len() as int,
                m.attributions@.len() as int,
            );
            lemma_cache_put_all_fits(row_views(a.all_rows@), s, m.titles@.len() as int, m.attributions@.len() as int);
            assert forall|k: int| 0 <= k < row_views(rows@).len() implies c.contains(#[trigger] row_views(rows@)[k]) by {
                c.lemma_filter_contains_rev(p2, row_views(rows@)[k]);
            }
        }
        let cur = self.take();
        *self = App {
            pending_hidden_rows: Some(boundary),
            select_top_after_refresh: select_top,
            state: State::Computing,
            follow_tail: false,
            ..cur
        };
        Some(rows)
    }
}

} // verus!

//! Properties of the view that span several actions.
use vstd::prelude::*;

use crate::app::{Action, App, EffectView, NameMode, first_unhidden, last_unhidden, max1, nearest_unhidden, row_hidden, same_history, unchanged, visible_offset};
use crate::commit::{CommitRow, RowView, row_views};
use crate::ids::ObjectId;
use crate::loading::{lemma_first_unhidden_bound, lemma_last_unhidden_bound};
use crate::navigation::{moved_to_following, nth_down, nth_up, reach_ok, target_of};
use crate::update::{attributions_in_view, check_ids, check_requested, nav_wf, prepared, updated};
use crate::app::{same_history_but_rows, spans_fit};
use crate::lanes::topology;
use crate::navigation::rows_reset;
use crate::rows::{lemma_cache_put_fits, recache_failed, unfail, views_fit, with_signature};
use crate::signatures::marking;

verus! {

/// The columns of the history that the switches turn on and off.
pub open spec fn same_columns(a: App, b: App) -> bool {
    &&& b.show_committer_date == a.show_committer_date
    &&& b.show_emails == a.show_emails
    &&& b.show_trailers == a.show_trailers
    &&& b.use_mailmap == a.use_mailmap
    &&& b.align_metadata == a.align_metadata
    &&& b.name_mode == a.name_mode
    &&& b.ref_mode == a.ref_mode
}

/// Switching the date twice shows the columns as before, asks nothing of the surrounding program, and
/// leaves the loaded history alone.
pub proof fn lemma_switching_the_date_twice_restores_it(
    a: App,
    b: App,
    c: App,
    first: Seq<EffectView>,
    second: Seq<EffectView>,
)
    requires
        updated(a, Action::ToggleDate, b, first),
        updated(b, Action::ToggleDate, c, second),
    ensures
        same_columns(a, c),
        same_history(a, c),
        first.len() == 0 && second.len() == 0,
{
}

/// Switching the emails twice shows the columns as before.
pub proof fn lemma_switching_the_emails_twice_restores_them(
    a: App,
    b: App,
    c: App,
    first: Seq<EffectView>,
    second: Seq<EffectView>,
)
    requires
        updated(a, Action::ToggleEmail, b, first),
        updated(b, Action::ToggleEmail, c, second),
    ensures
        same_columns(a, c),
        same_history(a, c),
        first.len() == 0 && second.len() == 0,
{
}

/// Switching the trailer attributions twice shows the columns as before.
pub proof fn lemma_switching_the_trailers_twice_restores_them(
    a: App,
    b: App,
    c: App,
    first: Seq<EffectView>,
    second: Seq<EffectView>,
)
    requires
        updated(a, Action::ToggleTrailers, b, first),
        updated(b, Action::ToggleTrailers, c, second),
    ensures
        same_columns(a, c),
        same_history(a, c),
        first.len() == 0 && second.len() == 0,
{
}

/// Switching the mailmap twice shows the columns as before.
pub proof fn lemma_switching_the_mailmap_twice_restores_it(
    a: App,
    b: App,
    c: App,
    first: Seq<EffectView>,
    second: Seq<EffectView>,
)
    requires
        updated(a, Action::ToggleMailmap, b, first),
        updated(b, Action::ToggleMailmap, c, second),
    ensures
        same_columns(a, c),
        same_history(a, c),
        first.len() == 0 && second.len() == 0,
{
}

/// Switching the alignment of metadata twice shows the columns as before.
pub proof fn lemma_switching_the_alignment_twice_restores_it(
    a: App,
    b: App,
    c: App,
    first: Seq<EffectView>,
    second: Seq<EffectView>,
)
    requires
        updated(a, Action::ToggleAlign, b, first),
        updated(b, Action::ToggleAlign, c, second),
    ensures
        same_columns(a, c),
        same_history(a, c),
        first.len() == 0 && second.len() == 0,
{
}

/// Switching the references three times shows them as before: all, the default ones, none.
pub proof fn lemma_references_cycle_in_three_steps(
    a: App,
    b: App,
    c: App,
    d: App,
    e1: Seq<EffectView>,
    e2: Seq<EffectView>,
    e3: Seq<EffectView>,
)
    requires
        updated(a, Action::ToggleRefs, b, e1),
        updated(b, Action::ToggleRefs, c, e2),
        updated(c, Action::ToggleRefs, d, e3),
    ensures
        d.ref_mode == a.ref_mode,
        b.ref_mode != a.ref_mode,
        c.ref_mode != a.ref_mode,
        same_history(a, d),
{
}

/// Switching names never stops at the attributions while none is in view: from all names it goes
/// straight to none.
pub proof fn lemma_names_skip_inert_attributions(a: App, b: App, effects: Seq<EffectView>)
    requires
        updated(a, Action::ToggleName, b, effects),
        !attributions_in_view(prepared(a, Action::ToggleName)),
    ensures
        b.name_mode != NameMode::Author,
        a.name_mode == NameMode::All ==> b.name_mode == NameMode::Off,
{
}

/// With attributions in view, switching names three times shows them as before: all names, the
/// author only, none.
pub proof fn lemma_names_cycle_with_attributions(
    a: App,
    b: App,
    c: App,
    d: App,
    e1: Seq<EffectView>,
    e2: Seq<EffectView>,
    e3: Seq<EffectView>,
)
    requires
        a.name_mode == NameMode::All,
        updated(a, Action::ToggleName, b, e1),
        updated(b, Action::ToggleName, c, e2),
        updated(c, Action::ToggleName, d, e3),
        attributions_in_view(prepared(a, Action::ToggleName)),
    ensures
        b.name_mode == NameMode::Author,
        c.name_mode == NameMode::Off,
        d.name_mode == NameMode::All,
{
}


/// A signature check is asked for once: a request that starts a check asks for the visible unverified
/// signatures, and a second request while that check runs asks for nothing and changes nothing.
pub proof fn lemma_a_running_check_is_not_requested_again(
    a: App,
    b: App,
    c: App,
    first: Seq<EffectView>,
    second: Seq<EffectView>,
)
    requires
        updated(a, Action::VerifySignatures, b, first),
        updated(b, Action::VerifySignatures, c, second),
        first.len() > 0,
    ensures
        first == seq![EffectView::VerifySignatures(check_ids(prepared(a, Action::VerifySignatures)))],
        b.signature_verification_running,
        second.len() == 0,
        unchanged(prepared(b, Action::VerifySignatures), c),
{
}

/// A request with no visible unverified signature, or one made while a check runs, asks for nothing.
pub proof fn lemma_nothing_to_check_asks_for_nothing(a: App, b: App, effects: Seq<EffectView>)
    requires
        updated(a, Action::VerifySignatures, b, effects),
        a.signature_verification_running || check_ids(prepared(a, Action::VerifySignatures)).len() == 0,
    ensures
        effects.len() == 0,
{
}


/// The actions that move the selection through the history.
pub open spec fn moves_through_history(action: Action) -> bool {
    match action {
        Action::MoveUp | Action::MoveDown | Action::MoveUpBy(_) | Action::MoveDownBy(_) | Action::HalfPageUp
        | Action::HalfPageDown | Action::PageUp | Action::PageDown | Action::First | Action::Last => true,
        _ => false,
    }
}

proof fn lemma_first_unhidden_found(rows: Seq<CommitRow>, hidden: Seq<ObjectId>, lo: int, hi: int, s: int)
    requires
        0 <= lo <= s < hi <= usize::MAX,
        !row_hidden(rows, hidden, s),
    ensures
        first_unhidden(rows, hidden, lo, hi) is Some,
    decreases hi - lo,
{
    if row_hidden(rows, hidden, lo) {
        lemma_first_unhidden_found(rows, hidden, lo + 1, hi, s);
    }
}

proof fn lemma_last_unhidden_found(rows: Seq<CommitRow>, hidden: Seq<ObjectId>, lo: int, hi: int, s: int)
    requires
        0 <= lo <= s < hi <= usize::MAX,
        !row_hidden(rows, hidden, s),
    ensures
        last_unhidden(rows, hidden, lo, hi) is Some,
    decreases hi - lo,
{
    if row_hidden(rows, hidden, hi - 1) {
        lemma_last_unhidden_found(rows, hidden, lo, hi - 1, s);
    }
}

proof fn lemma_nearest_found(rows: Seq<CommitRow>, hidden: Seq<ObjectId>, target: int, down: bool, s: int)
    requires
        0 <= target < rows.len() <= usize::MAX,
        0 <= s < rows.len(),
        !row_hidden(rows, hidden, s),
    ensures
        nearest_unhidden(rows, hidden, target, down) matches Some(i) && i < rows.len() && !row_hidden(
            rows,
            hidden,
            i as int,
        ),
{
    let n = rows.len() as int;
    lemma_first_unhidden_bound(rows, hidden, target, n);
    lemma_last_unhidden_bound(rows, hidden, 0, target);
    lemma_last_unhidden_bound(rows, hidden, 0, target + 1);
    lemma_first_unhidden_bound(rows, hidden, target + 1, n);
    if down {
        if s >= target {
            lemma_first_unhidden_found(rows, hidden, target, n, s);
        } else if first_unhidden(rows, hidden, target, n) is None {
            lemma_last_unhidden_found(rows, hidden, 0, target, s);
        }
    } else {
        if s <= target {
            lemma_last_unhidden_found(rows, hidden, 0, target + 1, s);
        } else if last_unhidden(rows, hidden, 0, target + 1) is None {
            lemma_first_unhidden_found(rows, hidden, target + 1, n, s);
        }
    }
}

proof fn lemma_nth_up_found(a: App, reach: Seq<bool>, i: int, hi: int, k: int)
    requires
        0 <= i,
        hi <= usize::MAX + 1,
    ensures
        nth_up(a, reach, i, hi, k) matches Some(j) ==> i <= j < hi && reach_ok(a, reach, j as int),
    decreases hi - i,
{
    if i < hi && !(reach_ok(a, reach, i) && k <= 1) {
        if reach_ok(a, reach, i) {
            lemma_nth_up_found(a, reach, i + 1, hi, k - 1);
        } else {
            lemma_nth_up_found(a, reach, i + 1, hi, k);
        }
    }
}

proof fn lemma_nth_down_found(a: App, reach: Seq<bool>, i: int, k: int)
    requires
        i <= usize::MAX + 1,
    ensures
        nth_down(a, reach, i, k) matches Some(j) ==> 0 <= j < i && reach_ok(a, reach, j as int),
    decreases i,
{
    if i > 0 && !(reach_ok(a, reach, i - 1) && k <= 1) {
        if reach_ok(a, reach, i - 1) {
            lemma_nth_down_found(a, reach, i - 1, k - 1);
        } else {
            lemma_nth_down_found(a, reach, i - 1, k);
        }
    }
}

proof fn lemma_visible_offset(t: usize, offset: usize, viewport: usize)
    ensures
        visible_offset(Some(t), offset, viewport) <= t < visible_offset(Some(t), offset, viewport) + max1(viewport),
{
}

/// Where a move lands on a selectable row, the law's conclusions hold.
proof fn lemma_landed(p: App, b: App, t: usize, follow: bool)
    requires
        moved_to_following(p, b, Some(t), follow),
        t < p.rows@.len(),
        !row_hidden(p.rows@, p.hidden_rows@, t as int),
    ensures
        b.selected matches Some(u) && u < b.rows@.len() && !row_hidden(b.rows@, b.hidden_rows@, u as int),
        b.hidden_rows == p.hidden_rows,
        b.rows@.len() == p.rows@.len(),
        forall|k: int| 0 <= k < p.rows@.len() ==> #[trigger] b.rows@[k].id == p.rows@[k].id,
        b.selected matches Some(u) && b.offset <= u < b.offset + max1(b.viewport_rows),
{
    lemma_visible_offset(t, p.offset, p.viewport_rows);
    assert forall|k: int| 0 <= k < p.rows@.len() implies #[trigger] b.rows@[k].id == p.rows@[k].id by {
        assert(b.rows@[k]@.id == b.rows@[k].id);
        assert(p.rows@[k]@.id == p.rows@[k].id);
    }
    assert(b.rows@[t as int].id == p.rows@[t as int].id);
}

/// Moving the selection through the history keeps it on a selectable row: from a selected row that is no
/// boundary row of hidden history, every move of the selection lands on such a row again, scrolled into
/// view where it moved, while the commits shown and the hidden rows stay as they were.
pub proof fn lemma_moving_keeps_a_selectable_row(a: App, action: Action, b: App, effects: Seq<EffectView>, s: usize)
    requires
        updated(a, action, b, effects),
        moves_through_history(action),
        a.changes_focus.is_none(),
        a.selected == Some(s),
        s < a.rows@.len(),
        !row_hidden(a.rows@, a.hidden_rows@, s as int),
    ensures
        b.selected matches Some(t) && t < b.rows@.len() && !row_hidden(b.rows@, b.hidden_rows@, t as int),
        b.hidden_rows == a.hidden_rows,
        b.rows@.len() == a.rows@.len(),
        forall|k: int| 0 <= k < a.rows@.len() ==> #[trigger] b.rows@[k].id == a.rows@[k].id,
        b.selected != a.selected ==> (b.selected matches Some(t) && b.offset <= t < b.offset + max1(
            b.viewport_rows,
        )),
{
    let p = prepared(a, action);
    let n = a.rows@.len() as int;
    assert(n <= usize::MAX) by {
        assert(a.rows.len() == n);
    }
    let distance: usize = match action {
        Action::MoveUpBy(d) => d,
        Action::MoveDownBy(d) => d,
        Action::HalfPageUp | Action::HalfPageDown => max1((p.viewport_rows / 2) as usize),
        Action::PageUp | Action::PageDown => max1(p.viewport_rows),
        _ => 1,
    };
    let down = match action {
        Action::MoveDown | Action::MoveDownBy(_) | Action::HalfPageDown | Action::PageDown | Action::Last => true,
        _ => false,
    };
    let stepping = match action {
        Action::MoveUp | Action::MoveDown | Action::MoveUpBy(_) | Action::MoveDownBy(_) => true,
        _ => false,
    };
    let scrolls_message = match action {
        Action::PageUp | Action::PageDown => p.show_commit && p.commit_max > 0,
        _ => false,
    };
    let step = crate::navigation::reachable_step(p, distance, down);
    if action == Action::First {
        lemma_first_unhidden_found(p.rows@, p.hidden_rows@, 0, n, s as int);
        lemma_first_unhidden_bound(p.rows@, p.hidden_rows@, 0, n);
        let i = first_unhidden(p.rows@, p.hidden_rows@, 0, n).unwrap();
        lemma_landed(p, b, i, false);
    } else if action == Action::Last {
        lemma_last_unhidden_found(p.rows@, p.hidden_rows@, 0, n, s as int);
        lemma_last_unhidden_bound(p.rows@, p.hidden_rows@, 0, n);
        let i = last_unhidden(p.rows@, p.hidden_rows@, 0, n).unwrap();
        lemma_landed(p, b, i, p.state == crate::app::State::Loading);
    } else if scrolls_message {
    } else if stepping && step is Some {
        match step {
            Some(Some(next)) => {
                let r = p.reachable_rows.unwrap()@;
                if down {
                    lemma_nth_up_found(p, r, s + 1, n, max1(distance) as int);
                } else {
                    lemma_nth_down_found(p, r, s as int, max1(distance) as int);
                }
                lemma_landed(p, b, next, false);
            },
            _ => {},
        }
    } else {
        let target = target_of(s, distance, down, n);
        lemma_nearest_found(p.rows@, p.hidden_rows@, target as int, down, s as int);
        let i = nearest_unhidden(p.rows@, p.hidden_rows@, target as int, down).unwrap();
        lemma_landed(p, b, i, false);
    }
}


proof fn lemma_recache_fits(cache: Seq<RowView>, rows: Seq<RowView>, titles: int, attributions: int)
    requires
        views_fit(cache, titles, attributions),
        views_fit(rows, titles, attributions),
    ensures
        views_fit(recache_failed(cache, rows), titles, attributions),
    decreases rows.len(),
{
    if rows.len() > 0 {
        assert(views_fit(rows.drop_last(), titles, attributions)) by {
            assert forall|k: int| 0 <= k < rows.len() - 1 implies #[trigger] rows.drop_last()[k] == rows[k] by {}
        }
        lemma_recache_fits(cache, rows.drop_last(), titles, attributions);
        assert(views_fit(seq![unfail(rows.last())], titles, attributions)) by {
            assert(seq![unfail(rows.last())][0] == unfail(rows[rows.len() - 1]));
        }
        lemma_cache_put_fits(recache_failed(cache, rows.drop_last()), unfail(rows.last()), titles, attributions);
    }
}

/// Rows that differ only in their signatures have the same spans and the same topology.
proof fn lemma_same_rows_but_signatures(p: App, b: App)
    requires
        p.wf(),
        b.rows@.len() == p.rows@.len(),
        forall|k: int|
            0 <= k < p.rows@.len() ==> #[trigger] b.rows@[k]@ == with_signature(p.rows@[k]@, b.rows@[k].signature),
        b.titles == p.titles,
        b.attributions == p.attributions,
    ensures
        spans_fit(b.rows@, b.titles@.len() as int, b.attributions@.len() as int),
        topology(b.rows@) == topology(p.rows@),
{
    assert forall|k: int| 0 <= k < b.rows@.len() implies #[trigger] row_views(b.rows@)[k].title.start
        <= row_views(b.rows@)[k].title.end <= b.titles@.len() && row_views(b.rows@)[k].attributions.start
        <= row_views(b.rows@)[k].attributions.end <= b.attributions@.len() by {
        assert(row_views(b.rows@)[k] == b.rows@[k]@);
        assert(row_views(p.rows@)[k] == p.rows@[k]@);
    }
    assert forall|k: int| 0 <= k < b.rows@.len() implies #[trigger] topology(b.rows@)[k] == topology(p.rows@)[k] by {
        assert(b.rows@[k]@ == with_signature(p.rows@[k]@, b.rows@[k].signature));
    }
    assert(topology(b.rows@) =~= topology(p.rows@));
}

proof fn lemma_reset_keeps_wf(p: App, b: App)
    requires
        p.wf(),
        nav_wf(b),
        rows_reset(p, b),
        same_history_but_rows(p, b),
        b.state == p.state,
    ensures
        b.wf(),
{
    assert forall|k: int| 0 <= k < p.rows@.len() implies #[trigger] b.rows@[k]@ == with_signature(
        p.rows@[k]@,
        b.rows@[k].signature,
    ) by {
        assert(b.rows@[k]@ == unfail(p.rows@[k]@));
    }
    lemma_same_rows_but_signatures(p, b);
    lemma_recache_fits(row_views(p.all_rows@), row_views(p.rows@), p.titles@.len() as int, p.attributions@.len() as int);
}

proof fn lemma_marking_keeps(
    rows: Seq<RowView>,
    hidden: Seq<ObjectId>,
    cache: Seq<RowView>,
    lo: int,
    hi: int,
    titles: int,
    attributions: int,
)
    requires
        0 <= lo,
        hi <= rows.len(),
        views_fit(cache, titles, attributions),
        views_fit(rows, titles, attributions),
    ensures
        marking(rows, hidden, cache, lo, hi).0.len() == rows.len(),
        forall|k: int|
            0 <= k < rows.len() ==> #[trigger] marking(rows, hidden, cache, lo, hi).0[k] == with_signature(
                rows[k],
                marking(rows, hidden, cache, lo, hi).0[k].signature,
            ),
        views_fit(marking(rows, hidden, cache, lo, hi).1, titles, attributions),
    decreases hi - lo,
{
    let m = marking(rows, hidden, cache, lo, hi);
    if hi <= lo {
        assert forall|k: int| 0 <= k < rows.len() implies #[trigger] m.0[k] == with_signature(rows[k], m.0[k].signature) by {}
    } else {
        let s = marking(rows, hidden, cache, lo, hi - 1);
        lemma_marking_keeps(rows, hidden, cache, lo, hi - 1, titles, attributions);
        let r = rows[hi - 1];
        if !hidden.contains(r.id) && r.signature == crate::commit::SignatureState::Unverified {
            let v = with_signature(r, crate::commit::SignatureState::Verifying);
            assert(s.0[hi - 1] == with_signature(r, s.0[hi - 1].signature));
            assert forall|k: int| 0 <= k < rows.len() implies #[trigger] m.0[k] == with_signature(rows[k], m.0[k].signature) by {
                if k != hi - 1 {
                    assert(m.0[k] == s.0[k]);
                    assert(s.0[k] == with_signature(rows[k], s.0[k].signature));
                }
            }
            assert(views_fit(seq![v], titles, attributions)) by {
                assert(seq![v][0] == v);
                assert(rows[hi - 1] == r);
            }
            lemma_cache_put_fits(s.1, v, titles, attributions);
        }
    }
}

/// Every action keeps the view well formed, where it keeps the selection within the rows and the change
/// panes consistent.
pub proof fn lemma_update_keeps_wf(a: App, action: Action, b: App, effects: Seq<EffectView>)
    requires
        a.wf(),
        updated(a, action, b, effects),
        nav_wf(b),
    ensures
        b.wf(),
{
    let p = prepared(a, action);
    assert(p.wf());
    if rows_reset(p, b) && same_history_but_rows(p, b) && b.state == p.state {
        lemma_reset_keeps_wf(p, b);
    }
    if action == Action::VerifySignatures && check_requested(p, b) && !p.signature_verification_running {
        lemma_marking_keeps(
            row_views(p.rows@),
            p.hidden_rows@,
            row_views(p.all_rows@),
            crate::signatures::window_start(p),
            crate::signatures::window_end(p),
            p.titles@.len() as int,
            p.attributions@.len() as int,
        );
        let m = marking(
            row_views(p.rows@),
            p.hidden_rows@,
            row_views(p.all_rows@),
            crate::signatures::window_start(p),
            crate::signatures::window_end(p),
        );
        assert forall|k: int| 0 <= k < p.rows@.len() implies #[trigger] b.rows@[k]@ == with_signature(
            p.rows@[k]@,
            b.rows@[k].signature,
        ) by {
            assert(row_views(b.rows@)[k] == b.rows@[k]@);
            assert(row_views(p.rows@)[k] == p.rows@[k]@);
            assert(m.0[k] == with_signature(row_views(p.rows@)[k], m.0[k].signature));
        }
        lemma_same_rows_but_signatures(p, b);
    }
}


/// The identity of a row that a signature check asks for: one that is no boundary row of hidden history
/// and whose signature is not yet verified.
pub open spec fn checked_id(hidden: Seq<ObjectId>) -> spec_fn(RowView) -> Option<ObjectId> {
    |r: RowView|
        if !hidden.contains(r.id) && r.signature == crate::commit::SignatureState::Unverified {
            Some(r.id)
        } else {
            None
        }
}

proof fn lemma_marking_exact(rows: Seq<RowView>, hidden: Seq<ObjectId>, cache: Seq<RowView>, lo: int, hi: int)
    requires
        0 <= lo <= hi <= rows.len(),
    ensures
        marking(rows, hidden, cache, lo, hi).2 == rows.subrange(lo, hi).filter_map(checked_id(hidden)),
        marking(rows, hidden, cache, lo, hi).0.len() == rows.len(),
        forall|k: int|
            0 <= k < rows.len() ==> #[trigger] marking(rows, hidden, cache, lo, hi).0[k] == if lo <= k < hi
                && checked_id(hidden)(rows[k]) is Some {
                with_signature(rows[k], crate::commit::SignatureState::Verifying)
            } else {
                rows[k]
            },
    decreases hi - lo,
{
    let m = marking(rows, hidden, cache, lo, hi);
    let w = rows.subrange(lo, hi);
    if hi == lo {
        assert(w.len() == 0);
        assert(w.filter_map(checked_id(hidden)) =~= Seq::<ObjectId>::empty());
    } else {
        lemma_marking_exact(rows, hidden, cache, lo, hi - 1);
        let s = marking(rows, hidden, cache, lo, hi - 1);
        assert(w.drop_last() =~= rows.subrange(lo, hi - 1));
        assert(w.last() == rows[hi - 1]);
        let r = rows[hi - 1];
        if !hidden.contains(r.id) && r.signature == crate::commit::SignatureState::Unverified {
            assert(checked_id(hidden)(r) == Some(r.id));
            assert(m.2 =~= s.2 + seq![r.id]);
        } else {
            assert(checked_id(hidden)(r) is None);
        }
    }
}

/// A signature check asks for exactly the visible rows that are no boundary rows of hidden history and
/// whose signatures are unverified, in the order shown, and marks exactly those rows as being verified;
/// while a check runs, a request asks for nothing and changes nothing.
pub proof fn lemma_a_check_asks_for_the_visible_unverified_rows(a: App, b: App, effects: Seq<EffectView>)
    requires
        updated(a, Action::VerifySignatures, b, effects),
    ensures
        ({
            let lo = crate::signatures::window_start(a);
            let hi = crate::signatures::window_end(a);
            let ids = row_views(a.rows@).subrange(lo, hi).filter_map(checked_id(a.hidden_rows@));
            &&& effects == if !a.signature_verification_running && ids.len() > 0 {
                seq![EffectView::VerifySignatures(ids)]
            } else {
                Seq::<EffectView>::empty()
            }
            &&& !a.signature_verification_running ==> b.rows@.len() == a.rows@.len() && forall|k: int|
                0 <= k < a.rows@.len() ==> #[trigger] b.rows@[k]@ == if lo <= k < hi && checked_id(a.hidden_rows@)(
                    a.rows@[k]@,
                ) is Some {
                    with_signature(a.rows@[k]@, crate::commit::SignatureState::Verifying)
                } else {
                    a.rows@[k]@
                }
            &&& a.signature_verification_running ==> unchanged(prepared(a, Action::VerifySignatures), b)
        }),
{
    let p = prepared(a, Action::VerifySignatures);
    let lo = crate::signatures::window_start(a);
    let hi = crate::signatures::window_end(a);
    assert(crate::signatures::window_start(p) == lo && crate::signatures::window_end(p) == hi);
    assert(0 <= lo <= hi <= a.rows@.len());
    lemma_marking_exact(row_views(a.rows@), a.hidden_rows@, row_views(a.all_rows@), lo, hi);
    if !a.signature_verification_running {
        assert forall|k: int| 0 <= k < a.rows@.len() implies #[trigger] b.rows@[k]@ == if lo <= k < hi
            && checked_id(a.hidden_rows@)(a.rows@[k]@) is Some {
            with_signature(a.rows@[k]@, crate::commit::SignatureState::Verifying)
        } else {
            a.rows@[k]@
        } by {
            assert(row_views(b.rows@)[k] == b.rows@[k]@);
            assert(row_views(a.rows@)[k] == a.rows@[k]@);
        }
    }
}


proof fn lemma_titles_prefix(rows: Seq<crate::commit::LoadedCommit>, j: int)
    requires
        0 <= j <= rows.len(),
    ensures
        crate::rows::batch_titles(rows.take(j)).len() <= crate::rows::batch_titles(rows).len(),
        crate::rows::batch_titles(rows).subrange(0, crate::rows::batch_titles(rows.take(j)).len() as int)
            == crate::rows::batch_titles(rows.take(j)),
    decreases rows.len(),
{
    let all = crate::rows::batch_titles(rows);
    if j == rows.len() {
        assert(rows.take(j) =~= rows);
        assert(all.subrange(0, all.len() as int) =~= all);
    } else {
        let d = rows.drop_last();
        lemma_titles_prefix(d, j);
        assert(d.take(j) =~= rows.take(j));
        let p = crate::rows::batch_titles(rows.take(j));
        assert(all == crate::rows::batch_titles(d) + rows.last().title@);
        assert(all.subrange(0, p.len() as int) =~= crate::rows::batch_titles(d).subrange(0, p.len() as int));
    }
}

/// Storing a batch appends its titles and attributions to the shared buffers, and the spans of each
/// stored row select exactly its own title and its own attributions there.
pub proof fn lemma_stored_spans_select_their_text(
    a: App,
    b: App,
    batch: crate::app::LoadedCommits,
    stored: Seq<RowView>,
    k: int,
)
    requires
        crate::loading::batch_stored(a, b, batch, stored),
        batch.wf(),
        0 <= k < batch.rows@.len(),
    ensures
        b.titles@ == a.titles@ + crate::rows::batch_titles(batch.rows@),
        b.titles@.subrange(stored[k].title.start as int, stored[k].title.end as int) == batch.rows@[k].title@,
        crate::rows::attribution_views(b.attributions@).subrange(
            stored[k].attributions.start as int,
            stored[k].attributions.end as int,
        ) == crate::rows::attribution_views(batch.attributions@).subrange(
            batch.rows@[k].attributions.start as int,
            batch.rows@[k].attributions.end as int,
        ),
{
    let rows = batch.rows@;
    let t = a.titles@.len() as int;
    assert(b.titles@.len() == b.titles.len());
    assert(b.attributions@.len() == b.attributions.len());
    assert(crate::rows::attribution_views(b.attributions@).len() == b.attributions@.len());
    assert(crate::rows::attribution_views(a.attributions@).len() == a.attributions@.len());
    assert(crate::rows::attribution_views(batch.attributions@).len() == batch.attributions@.len());
    let before = crate::rows::batch_titles(rows.take(k));
    crate::rows::lemma_batch_titles_take(rows, k);
    lemma_titles_prefix(rows, k + 1);
    let upto = crate::rows::batch_titles(rows.take(k + 1));
    let title = rows[k].title@;
    assert(upto == before + title);
    assert(stored[k] == crate::rows::stored_row(rows[k], t + before.len(), a.attributions@.len() as int));
    let all = crate::rows::batch_titles(rows);
    assert(b.titles@.subrange(t + before.len(), t + (before.len() + title.len()) as int) =~= all.subrange(
        before.len() as int,
        ((before.len() + title.len()) as int) as int,
    ));
    assert(all.subrange(before.len() as int, (before.len() + title.len()) as int) =~= upto.subrange(
        before.len() as int,
        ((before.len() + title.len()) as int) as int,
    )) by {
        assert forall|i: int| 0 <= i < title.len() implies #[trigger] all[before.len() + i] == upto[before.len() + i] by {
            assert(all.subrange(0, upto.len() as int)[before.len() + i] == all[before.len() + i]);
        }
    }
    assert(upto.subrange(before.len() as int, (before.len() + title.len()) as int) =~= title);
    let av = crate::rows::attribution_views(a.attributions@);
    let bv = crate::rows::attribution_views(batch.attributions@);
    assert(crate::rows::attribution_views(b.attributions@).subrange(
        av.len() + rows[k].attributions.start,
        av.len() + rows[k].attributions.end,
    ) =~= bv.subrange(rows[k].attributions.start as int, rows[k].attributions.end as int));
}


proof fn lemma_verdicts_keep(rows: Seq<RowView>, cache: Seq<RowView>, results: Seq<(ObjectId, bool)>, titles: int, attributions: int)
    requires
        views_fit(cache, titles, attributions),
        views_fit(rows, titles, attributions),
    ensures
        crate::signatures::verdicts(rows, cache, results).0.len() == rows.len(),
        forall|k: int|
            0 <= k < rows.len() ==> #[trigger] crate::signatures::verdicts(rows, cache, results).0[k] == with_signature(
                rows[k],
                crate::signatures::verdicts(rows, cache, results).0[k].signature,
            ),
        views_fit(crate::signatures::verdicts(rows, cache, results).1, titles, attributions),
    decreases results.len(),
{
    let v = crate::signatures::verdicts(rows, cache, results);
    if results.len() == 0 {
        assert forall|k: int| 0 <= k < rows.len() implies #[trigger] v.0[k] == with_signature(rows[k], v.0[k].signature) by {}
    } else {
        let d = results.drop_last();
        lemma_verdicts_keep(rows, cache, d, titles, attributions);
        let s = crate::signatures::verdicts(rows, cache, d);
        crate::lanes::lemma_first_index(crate::rows::view_ids(s.0), results.last().0);
        if let Some(i) = crate::lanes::first_index(crate::rows::view_ids(s.0), results.last().0) {
            let r = with_signature(
                s.0[i],
                if results.last().1 { crate::commit::SignatureState::Verified } else { crate::commit::SignatureState::Failed },
            );
            assert(s.0[i] == with_signature(rows[i], s.0[i].signature));
            assert forall|k: int| 0 <= k < rows.len() implies #[trigger] v.0[k] == with_signature(rows[k], v.0[k].signature) by {
                if k != i {
                    assert(v.0[k] == s.0[k]);
                    assert(s.0[k] == with_signature(rows[k], s.0[k].signature));
                }
            }
            assert(views_fit(seq![r], titles, attributions)) by {
                assert(seq![r][0] == r);
                assert(rows[i] == rows[i]);
            }
            lemma_cache_put_fits(s.1, r, titles, attributions);
        } else {
            assert forall|k: int| 0 <= k < rows.len() implies #[trigger] v.0[k] == with_signature(rows[k], v.0[k].signature) by {
                assert(s.0[k] == with_signature(rows[k], s.0[k].signature));
            }
        }
    }
}

/// Recording the verdicts of a signature check keeps the view well formed.
pub proof fn lemma_verdicts_keep_wf(a: App, b: App, results: Seq<(ObjectId, bool)>)
    requires
        a.wf(),
        crate::signatures::verdicts_recorded(a, b, results),
    ensures
        b.wf(),
{
    lemma_verdicts_keep(row_views(a.rows@), row_views(a.all_rows@), results, a.titles@.len() as int, a.attributions@.len() as int);
    let v = crate::signatures::verdicts(row_views(a.rows@), row_views(a.all_rows@), results);
    assert forall|k: int| 0 <= k < a.rows@.len() implies #[trigger] b.rows@[k]@ == with_signature(
        a.rows@[k]@,
        b.rows@[k].signature,
    ) by {
        assert(row_views(b.rows@)[k] == b.rows@[k]@);
        assert(row_views(a.rows@)[k] == a.rows@[k]@);
    }
    lemma_same_rows_but_signatures(a, b);
}

} // verus!

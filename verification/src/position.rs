//! The footer's account of where the view stands in the history.
use vstd::prelude::*;
use vstd::string::StringSliceAdditionalSpecFns;

use crate::app::{App, State};
use crate::bytes::push_all;

verus! {

/// The decimal digits of `n`, as ASCII bytes.
pub open spec fn decimal(n: nat) -> Seq<u8>
    decreases n,
{
    if n < 10 {
        seq![(48 + n) as u8]
    } else {
        decimal(n / 10).push((48 + n % 10) as u8)
    }
}

/// Appends the decimal digits of `n`.
pub fn push_decimal(out: &mut Vec<u8>, n: usize)
    ensures
        final(out)@ == old(out)@ + decimal(n as nat),
    decreases n,
{
    if n >= 10 {
        push_decimal(out, n / 10);
        out.push((48 + n % 10) as u8);
        assert(out@ =~= old(out)@ + decimal((n / 10) as nat).push((48 + n % 10) as u8));
    } else {
        out.push((48 + n) as u8);
        assert(out@ =~= old(out)@ + decimal(n as nat));
    }
}

/// Appends the decimal digits of a 64-bit count.
pub fn push_decimal_u64(out: &mut Vec<u8>, n: u64)
    ensures
        final(out)@ == old(out)@ + decimal(n as nat),
    decreases n,
{
    if n >= 10 {
        push_decimal_u64(out, n / 10);
        out.push((48 + n % 10) as u8);
        assert(out@ =~= old(out)@ + decimal((n / 10) as nat).push((48 + n % 10) as u8));
    } else {
        out.push((48 + n) as u8);
        assert(out@ =~= old(out)@ + decimal(n as nat));
    }
}

/// The history phase the footer reports: the one deferred behind a background refresh, if any.
pub open spec fn reported_state(app: App) -> State {
    match app.deferred_history_state {
        Some(s) => s,
        None => app.state,
    }
}

/// The footer text: the number of commits while the history still loads or lays out, and the
/// position of the selected row counted from the oldest commit once the graph is complete.
pub open spec fn position_text(app: App) -> Seq<u8> {
    match (reported_state(app), app.selected) {
        (State::Complete, Some(selected)) => seq![35u8] + decimal(
            (if app.rows@.len() >= selected {
                app.rows@.len() - selected
            } else {
                0
            }) as nat,
        ),
        _ => decimal(app.rows@.len()) + " commits".spec_bytes(),
    }
}

/// The footer text that tells where the view stands in the history.
pub fn history_position(app: &App) -> (r: Vec<u8>)
    ensures
        r@ == position_text(*app),
{
    let state = match app.deferred_history_state {
        Some(s) => s,
        None => app.state,
    };
    let complete = match state {
        State::Complete => true,
        _ => false,
    };
    let mut out: Vec<u8> = Vec::new();
    match app.selected {
        Some(selected) if complete => {
            out.push(35u8);
            let n = app.rows.len();
            push_decimal(&mut out, if n >= selected { n - selected } else { 0 });
        },
        _ => {
            push_decimal(&mut out, app.rows.len());
            push_all(&mut out, " commits".as_bytes());
        },
    }
    out
}

} // verus!

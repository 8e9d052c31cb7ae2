//! Active health checking: turning probe outcomes into table updates.
//!
//! One probe round gathers, for every upstream, either the HTTP status code
//! of a successful exchange or nothing (connect failure, timeout, or a
//! response that could not be read). The round's verdicts are then applied
//! to the health table, flipping a flag only on a transition so the alive
//! count is adjusted exactly once per logical change.

use crate::health::HealthTable;
use vstd::prelude::*;

verus! {

/// A probe counts as healthy exactly when an exchange completed and the
/// status code is 200; any failure or other status is unhealthy.
pub fn probe_verdict(status: Option<u16>) -> (healthy: bool)
    ensures
        healthy <==> status == Some(200u16),
{
    match status {
        Some(code) => code == 200,
        None => false,
    }
}

/// Applies one round of per-upstream verdicts (`true` = healthy) to the
/// table. After the round, upstream `i` is marked down exactly when its
/// probe was unhealthy; `mark_up`/`mark_down` are called only on a
/// transition.
pub fn apply_probe_round(t: &mut HealthTable, healthy: &Vec<bool>)
    requires
        old(t).wf(),
        healthy@.len() == old(t)@.len(),
    ensures
        final(t).wf(),
        final(t)@.len() == old(t)@.len(),
        forall|i: int| 0 <= i < final(t)@.len() ==> final(t)@[i] == !healthy@[i],
{
    let n = t.len();
    let mut i: usize = 0;
    while i < n
        invariant
            t.wf(),
            n == t@.len(),
            healthy@.len() == n,
            i <= n,
            forall|j: int| 0 <= j < i ==> t@[j] == !healthy@[j],
        decreases n - i,
    {
        if healthy[i] {
            if t.is_down(i) {
                t.mark_up(i);
            }
        } else {
            if !t.is_down(i) {
                t.mark_down(i);
            }
        }
        i += 1;
    }
}

} // verus!

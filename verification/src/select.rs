//! Picking a live upstream for a new client connection.
//!
//! Selection reads the health table and chooses uniformly at random among
//! the upstreams that are not marked down; it never performs any network
//! work itself. When a connect attempt (made by the caller) fails, the
//! failed upstream is marked down and a fresh candidate is drawn from the
//! table's current state, with the number of attempts bounded by the number
//! of upstreams that were alive at the start of the episode.

use crate::health::{alive_of, HealthTable};
use vstd::prelude::*;

verus! {

/// Failure of upstream selection: every upstream is marked down.
#[derive(Clone, Copy, Debug, PartialEq, Eq, Structural)]
pub enum SelectError {
    AllUpstreamsDown,
}

/// Relies on rand::random_range over `0..n`: returns a uniformly random
/// value of the (non-empty) range, so strictly below `n`.
#[verifier::external_body]
fn random_below(n: usize) -> (r: usize)
    requires
        n > 0,
    ensures
        r < n,
{
    rand::random_range(0..n)
}

proof fn lemma_alive_take_step(s: Seq<bool>, i: int)
    requires
        0 <= i < s.len(),
    ensures
        alive_of(s.take(i + 1)) == alive_of(s.take(i)) + if s[i] {
            0int
        } else {
            1int
        },
{
    assert(s.take(i + 1).drop_last() =~= s.take(i));
    assert(s.take(i + 1).last() == s[i]);
}

proof fn lemma_alive_take_all(s: Seq<bool>)
    ensures
        alive_of(s.take(s.len() as int)) == alive_of(s),
{
    assert(s.take(s.len() as int) =~= s);
}

/// Chooses a live upstream uniformly at random from the table's current
/// state, or reports that every upstream is down. No connection is
/// attempted here: the caller owns all blocking work.
pub fn select_upstream(t: &HealthTable) -> (r: Result<usize, SelectError>)
    requires
        t.wf(),
    ensures
        r is Ok <==> alive_of(t@) > 0,
        match r {
            Ok(i) => i < t@.len() && !t@[i as int],
            Err(e) => e == SelectError::AllUpstreamsDown && alive_of(t@) == 0,
        },
{
    let total = t.alive_count();
    if total == 0 {
        proof {
            lemma_alive_take_all(t@);
        }
        return Err(SelectError::AllUpstreamsDown);
    }
    let target = random_below(total);
    let n = t.len();
    let mut seen: usize = 0;
    let mut i: usize = 0;
    while i < n
        invariant
            t.wf(),
            n == t@.len(),
            i <= n,
            target < alive_of(t@),
            seen == alive_of(t@.take(i as int)),
            seen <= target,
        decreases n - i,
    {
        proof {
            lemma_alive_take_step(t@, i as int);
        }
        if !t.is_down(i) {
            if seen == target {
                return Ok(i);
            }
            seen += 1;
        }
        i += 1;
    }
    proof {
        lemma_alive_take_all(t@);
        assert(false);
    }
    Err(SelectError::AllUpstreamsDown)
}

/// After a connect attempt to `failed` has been refused, marks that
/// upstream down in the current table and draws a fresh candidate from the
/// table's new state. The failed upstream can never be returned again while
/// it stays down.
pub fn mark_failed_and_reselect(t: &mut HealthTable, failed: usize) -> (r: Result<
    usize,
    SelectError,
>)
    requires
        old(t).wf(),
        failed < old(t)@.len(),
    ensures
        final(t).wf(),
        final(t)@ == old(t)@.update(failed as int, true),
        r is Ok <==> alive_of(final(t)@) > 0,
        match r {
            Ok(i) => i < final(t)@.len() && !final(t)@[i as int] && i != failed,
            Err(e) => e == SelectError::AllUpstreamsDown && alive_of(final(t)@) == 0,
        },
{
    t.mark_down(failed);
    select_upstream(t)
}

/// Book-keeping that bounds one connection-establishment episode: at most
/// as many connect attempts as upstreams were alive when the episode began,
/// so a flapping table cannot cause an unbounded retry loop.
pub struct FailoverBudget {
    attempts_left: usize,
}

impl FailoverBudget {
    /// Attempts still allowed.
    pub closed spec fn spec_left(&self) -> usize {
        self.attempts_left
    }

    /// Starts an episode against the given table: one attempt per upstream
    /// currently alive.
    pub fn new(t: &HealthTable) -> (b: FailoverBudget)
        requires
            t.wf(),
        ensures
            b.spec_left() == alive_of(t@),
    {
        FailoverBudget { attempts_left: t.alive_count() }
    }

    /// Consumes one attempt; returns false when the budget is exhausted and
    /// the episode must end with an error.
    pub fn try_spend(&mut self) -> (r: bool)
        ensures
            r <==> old(self).spec_left() > 0,
            r ==> final(self).spec_left() == old(self).spec_left() - 1,
            !r ==> final(self).spec_left() == 0,
    {
        if self.attempts_left > 0 {
            self.attempts_left -= 1;
            true
        } else {
            false
        }
    }
}

} // verus!

//! Shared record of which upstream servers are currently reachable.
//!
//! The table keeps one boolean per upstream (`true` means the upstream is
//! down) together with a running count of upstreams that are still alive.
//! The invariant `alive == N - count_true(down)` is stated by [`HealthTable::wf`]
//! and is established by the constructor and preserved by every mutator.

use vstd::prelude::*;

verus! {

/// Number of `true` entries in a sequence of booleans.
pub open spec fn count_true(s: Seq<bool>) -> nat
    decreases s.len(),
{
    if s.len() == 0 {
        0
    } else {
        count_true(s.drop_last()) + if s.last() {
            1nat
        } else {
            0nat
        }
    }
}

/// Number of upstreams a down-flag sequence counts as alive.
pub open spec fn alive_of(s: Seq<bool>) -> int {
    s.len() - count_true(s)
}

proof fn lemma_count_true_le_len(s: Seq<bool>)
    ensures
        count_true(s) <= s.len(),
    decreases s.len(),
{
    if s.len() > 0 {
        lemma_count_true_le_len(s.drop_last());
    }
}

/// If every entry of `s` is `true`, the count equals the length, and
/// conversely.
proof fn lemma_count_true_all(s: Seq<bool>)
    ensures
        count_true(s) == s.len() <==> (forall|i: int| 0 <= i < s.len() ==> s[i]),
    decreases s.len(),
{
    lemma_count_true_le_len(s);
    if s.len() > 0 {
        lemma_count_true_all(s.drop_last());
        lemma_count_true_le_len(s.drop_last());
        if count_true(s) == s.len() {
            assert(forall|i: int| 0 <= i < s.len() - 1 ==> s[i] == s.drop_last()[i]);
        } else if forall|i: int| 0 <= i < s.len() ==> s[i] {
            assert(forall|i: int| 0 <= i < s.drop_last().len() ==> s.drop_last()[i]);
        }
    }
}

/// A `true` entry witnesses that the count is positive.
proof fn lemma_count_true_pos(s: Seq<bool>, i: int)
    requires
        0 <= i < s.len(),
        s[i],
    ensures
        count_true(s) >= 1,
    decreases s.len(),
{
    if i < s.len() - 1 {
        lemma_count_true_pos(s.drop_last(), i);
    }
}

/// The alive count is positive exactly when some entry is `false`.
proof fn lemma_alive_pos_exists(s: Seq<bool>)
    ensures
        alive_of(s) > 0 <==> exists|i: int| 0 <= i < s.len() && !s[i],
    decreases s.len(),
{
    lemma_count_true_le_len(s);
    if s.len() > 0 {
        lemma_alive_pos_exists(s.drop_last());
        lemma_count_true_le_len(s.drop_last());
        if !s.last() {
            assert(!s[s.len() - 1]);
        } else {
            if exists|i: int| 0 <= i < s.len() && !s[i] {
                let i = choose|i: int| 0 <= i < s.len() && !s[i];
                assert(!s.drop_last()[i]);
            }
            if exists|i: int| 0 <= i < s.drop_last().len() && !s.drop_last()[i] {
                let i = choose|i: int| 0 <= i < s.drop_last().len() && !s.drop_last()[i];
                assert(!s[i]);
            }
        }
    }
}

/// Updating one entry changes the count by the difference of the old and new
/// entry.
proof fn lemma_count_true_update(s: Seq<bool>, i: int, b: bool)
    requires
        0 <= i < s.len(),
    ensures
        count_true(s.update(i, b)) == count_true(s) - (if s[i] {
            1int
        } else {
            0int
        }) + (if b {
            1int
        } else {
            0int
        }),
    decreases s.len(),
{
    let t = s.update(i, b);
    if i == s.len() - 1 {
        assert(t.drop_last() =~= s.drop_last());
    } else {
        assert(t.drop_last() =~= s.drop_last().update(i, b));
        lemma_count_true_update(s.drop_last(), i, b);
    }
}

/// Shared health record for a fixed set of `N` upstreams; entry `i` of the
/// view is `true` iff upstream `i` is currently marked down.
pub struct HealthTable {
    alive: usize,
    down: Vec<bool>,
}

impl View for HealthTable {
    type V = Seq<bool>;

    closed spec fn view(&self) -> Seq<bool> {
        self.down@
    }
}

impl HealthTable {
    /// The table's invariant: the alive counter agrees with the down flags.
    pub closed spec fn wf(&self) -> bool {
        self.alive == alive_of(self.down@)
    }

    /// Builds a table of `n` upstreams, all initially alive.
    pub fn new(n: usize) -> (t: HealthTable)
        ensures
            t.wf(),
            t@.len() == n,
            forall|i: int| 0 <= i < n ==> !t@[i],
    {
        let mut down: Vec<bool> = Vec::new();
        let mut k: usize = 0;
        while k < n
            invariant
                k <= n,
                down@.len() == k,
                forall|i: int| 0 <= i < k ==> !down@[i],
                count_true(down@) == 0,
            decreases n - k,
        {
            let ghost prev = down@;
            down.push(false);
            proof {
                assert(down@.drop_last() =~= prev);
            }
            k += 1;
        }
        HealthTable { alive: n, down }
    }

    /// Number of upstreams the table was built for.
    pub fn len(&self) -> (n: usize)
        ensures
            n == self@.len(),
    {
        self.down.len()
    }

    /// Marks upstream `i` down; a no-op when it is already down. The alive
    /// counter is adjusted in the same step, so the invariant is preserved.
    pub fn mark_down(&mut self, i: usize)
        requires
            old(self).wf(),
            i < old(self)@.len(),
        ensures
            final(self).wf(),
            final(self)@ == old(self)@.update(i as int, true),
    {
        proof {
            lemma_count_true_update(self.down@, i as int, true);
            lemma_count_true_le_len(self.down@);
            if !self.down@[i as int] {
                lemma_count_true_all(self.down@);
            }
        }
        if !self.down[i] {
            self.down.set(i, true);
            self.alive = self.alive - 1;
        } else {
            proof {
                assert(self.down@.update(i as int, true) =~= self.down@);
            }
        }
    }

    /// Marks upstream `i` alive again; a no-op when it is not down.
    pub fn mark_up(&mut self, i: usize)
        requires
            old(self).wf(),
            i < old(self)@.len(),
        ensures
            final(self).wf(),
            final(self)@ == old(self)@.update(i as int, false),
    {
        proof {
            lemma_count_true_update(self.down@, i as int, false);
            lemma_count_true_le_len(self.down@);
            if self.down@[i as int] {
                lemma_count_true_pos(self.down@, i as int);
            }
        }
        let n = self.down.len();
        if self.down[i] {
            assert(self.alive < n);
            self.down.set(i, false);
            self.alive = self.alive + 1;
        } else {
            proof {
                assert(self.down@.update(i as int, false) =~= self.down@);
            }
        }
    }

    /// True iff at least one upstream is alive; an O(1) read of the counter.
    pub fn any_alive(&self) -> (r: bool)
        requires
            self.wf(),
        ensures
            r <==> exists|i: int| 0 <= i < self@.len() && !self@[i],
            r <==> alive_of(self@) > 0,
    {
        proof {
            lemma_alive_pos_exists(self.down@);
            if self.alive > 0 {
                let i = choose|i: int| 0 <= i < self.down@.len() && !self.down@[i];
                assert(0 <= i < self@.len() && !self@[i]);
            }
        }
        self.alive > 0
    }

    /// Current number of alive upstreams.
    pub fn alive_count(&self) -> (r: usize)
        requires
            self.wf(),
        ensures
            r == alive_of(self@),
    {
        self.alive
    }

    /// Whether upstream `i` is currently marked down.
    pub fn is_down(&self, i: usize) -> (r: bool)
        requires
            i < self@.len(),
        ensures
            r == self@[i as int],
    {
        self.down[i]
    }

    /// Point-in-time copy of the alive count and the down flags, taken in one
    /// step so the invariant holds in the copy.
    pub fn snapshot(&self) -> (r: (usize, Vec<bool>))
        requires
            self.wf(),
        ensures
            r.0 == alive_of(self@),
            r.1@ == self@,
    {
        (self.alive, self.down.clone())
    }
}

/// The alive count a well-formed table reports is determined by the down
/// flags alone: it always equals `N - count_true(down)`.
pub proof fn lemma_alive_count_invariant(t: &HealthTable)
    requires
        t.wf(),
    ensures
        alive_of(t@) == t@.len() - count_true(t@),
        0 <= alive_of(t@) <= t@.len(),
{
    lemma_count_true_le_len(t@);
}

/// Marking an upstream down is idempotent: the first call lowers the alive
/// count by one exactly when the flag was clear, and a repeated call changes
/// neither the flags nor the count.
pub proof fn lemma_mark_down_idempotent(s: Seq<bool>, i: int)
    requires
        0 <= i < s.len(),
    ensures
        alive_of(s.update(i, true)) == alive_of(s) - (if s[i] {
            0int
        } else {
            1int
        }),
        s.update(i, true).update(i, true) == s.update(i, true),
        alive_of(s.update(i, true).update(i, true)) == alive_of(s.update(i, true)),
{
    lemma_count_true_update(s, i, true);
    lemma_count_true_update(s.update(i, true), i, true);
    assert(s.update(i, true).update(i, true) =~= s.update(i, true));
}

/// Marking an upstream up is idempotent in the same way: a second call in a
/// row changes the alive count by zero, so two calls change it by exactly
/// what one call does.
pub proof fn lemma_mark_up_idempotent(s: Seq<bool>, i: int)
    requires
        0 <= i < s.len(),
    ensures
        alive_of(s.update(i, false)) == alive_of(s) + (if s[i] {
            1int
        } else {
            0int
        }),
        s.update(i, false).update(i, false) == s.update(i, false),
        alive_of(s.update(i, false).update(i, false)) == alive_of(s.update(i, false)),
{
    lemma_count_true_update(s, i, false);
    lemma_count_true_update(s.update(i, false), i, false);
    assert(s.update(i, false).update(i, false) =~= s.update(i, false));
}

} // verus!

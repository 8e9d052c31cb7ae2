//! The shared-state discipline: the health table behind a
//! single-writer/many-reader lock and the rate-limit table behind an
//! exclusive lock. Every mutation happens in one critical section, so the
//! tables' invariants hold whenever a reader observes them; selection holds
//! the lock only to read, never across a caller's blocking work.

use crate::health::{alive_of, lemma_alive_count_invariant, HealthTable};
use crate::limiter::RateLimiter;
use crate::select::SelectError;
use vstd::prelude::*;
use vstd::rwlock::{RwLock, RwLockPredicate};

verus! {

/// The lock invariant of the shared health table: a well-formed table of
/// the fixed number of upstreams.
pub struct HealthPred {
    /// Number of upstreams the table was built for.
    pub n: usize,
}

impl RwLockPredicate<HealthTable> for HealthPred {
    open spec fn inv(self, t: HealthTable) -> bool {
        t.wf() && t@.len() == self.n
    }
}

/// The health table shared by all workers and the prober. Writers exclude
/// all other access; readers may run concurrently with each other.
pub struct SharedHealthTable {
    lock: RwLock<HealthTable, HealthPred>,
}

impl SharedHealthTable {
    /// Number of upstreams.
    pub closed spec fn spec_n(&self) -> usize {
        self.lock.pred().n
    }

    /// Builds a shared table of `n` upstreams, all initially alive.
    pub fn new(n: usize) -> (r: SharedHealthTable)
        ensures
            r.spec_n() == n,
    {
        let t = HealthTable::new(n);
        SharedHealthTable { lock: RwLock::new(t, Ghost(HealthPred { n })) }
    }

    /// Number of upstreams the table was built for.
    pub fn upstream_count(&self) -> (r: usize)
        ensures
            r == self.spec_n(),
    {
        let handle = self.lock.acquire_read();
        let r = handle.borrow().len();
        handle.release_read();
        r
    }

    /// Marks upstream `i` down: the flag flip and the counter adjustment
    /// happen in one critical section.
    pub fn mark_down(&self, i: usize)
        requires
            i < self.spec_n(),
    {
        let (mut t, handle) = self.lock.acquire_write();
        t.mark_down(i);
        handle.release_write(t);
    }

    /// Marks upstream `i` alive again, in one critical section.
    pub fn mark_up(&self, i: usize)
        requires
            i < self.spec_n(),
    {
        let (mut t, handle) = self.lock.acquire_write();
        t.mark_up(i);
        handle.release_write(t);
    }

    /// Whether any upstream was alive at the moment of the read.
    pub fn any_alive(&self) -> bool {
        let handle = self.lock.acquire_read();
        let r = handle.borrow().any_alive();
        handle.release_read();
        r
    }

    /// A point-in-time copy of the alive count and the down flags, taken
    /// under one read lock, so the count matches the flags in the copy.
    pub fn snapshot(&self) -> (r: (usize, Vec<bool>))
        ensures
            r.1@.len() == self.spec_n(),
            r.0 == alive_of(r.1@),
    {
        let handle = self.lock.acquire_read();
        let r = handle.borrow().snapshot();
        handle.release_read();
        r
    }

    /// The alive count at the moment of the read; never above the number
    /// of upstreams.
    pub fn alive_count(&self) -> (r: usize)
        ensures
            r <= self.spec_n(),
    {
        let handle = self.lock.acquire_read();
        let t = handle.borrow();
        proof {
            lemma_alive_count_invariant(t);
        }
        let r = t.alive_count();
        handle.release_read();
        r
    }

    /// Draws a live candidate under a read lock alone: no lock is held
    /// while the caller performs the blocking connect.
    pub fn select(&self) -> (r: Result<usize, SelectError>)
        ensures
            r matches Ok(i) ==> i < self.spec_n(),
    {
        let handle = self.lock.acquire_read();
        let r = crate::select::select_upstream(handle.borrow());
        handle.release_read();
        r
    }

    /// After a failed connect to `failed`: marks it down and re-derives a
    /// candidate from the table's current state, in one brief critical
    /// section with no network work inside.
    pub fn mark_failed_and_reselect(&self, failed: usize) -> (r: Result<usize, SelectError>)
        requires
            failed < self.spec_n(),
        ensures
            r matches Ok(i) ==> i < self.spec_n() && i != failed,
    {
        let (mut t, handle) = self.lock.acquire_write();
        let r = crate::select::mark_failed_and_reselect(&mut t, failed);
        handle.release_write(t);
        r
    }

    /// A failover budget for one connection-establishment episode: one
    /// attempt per upstream alive at the moment of the read.
    pub fn failover_budget(&self) -> crate::select::FailoverBudget {
        let handle = self.lock.acquire_read();
        let b = crate::select::FailoverBudget::new(handle.borrow());
        handle.release_read();
        b
    }

    /// Applies one probe round in a single critical section, so the alive
    /// count is adjusted exactly once per transition.
    pub fn apply_probe_round(&self, healthy: &Vec<bool>)
        requires
            healthy@.len() == self.spec_n(),
    {
        let (mut t, handle) = self.lock.acquire_write();
        crate::probe::apply_probe_round(&mut t, healthy);
        handle.release_write(t);
    }
}

/// The lock invariant of the shared rate limiter: well-formed, with the
/// configured maximum.
pub struct LimiterPred {
    /// The configured per-window maximum.
    pub max: usize,
}

impl RwLockPredicate<RateLimiter> for LimiterPred {
    open spec fn inv(self, l: RateLimiter) -> bool {
        l.wf() && l.spec_max() == self.max
    }
}

/// The rate-limit table behind an exclusive lock: every access mutates an
/// entry, so readers take the write lock too. No entry ever escapes the
/// lock.
pub struct SharedRateLimiter {
    lock: RwLock<RateLimiter, LimiterPred>,
}

impl SharedRateLimiter {
    /// The configured per-window maximum.
    pub closed spec fn spec_max(&self) -> usize {
        self.lock.pred().max
    }

    /// Builds a shared limiter with an empty table.
    pub fn new(max_per_window: usize) -> (r: SharedRateLimiter)
        ensures
            r.spec_max() == max_per_window,
    {
        let l = RateLimiter::new(max_per_window);
        SharedRateLimiter { lock: RwLock::new(l, Ghost(LimiterPred { max: max_per_window })) }
    }

    /// Records one connection from `ip` and says whether to accept it, in
    /// one critical section. With limiting disabled every connection is
    /// accepted.
    pub fn allow(&self, ip: u128) -> (r: bool)
        ensures
            self.spec_max() == 0 ==> r,
    {
        let (mut l, handle) = self.lock.acquire_write();
        let r = l.allow(ip);
        handle.release_write(l);
        r
    }

    /// Clears the whole table at a window boundary.
    pub fn reset(&self) {
        let (mut l, handle) = self.lock.acquire_write();
        l.reset();
        handle.release_write(l);
    }
}

} // verus!

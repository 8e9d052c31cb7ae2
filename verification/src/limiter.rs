//! Per-client fixed-window rate limiting.
//!
//! The limiter maps a client address (as a 128-bit integer, wide enough for
//! any IP address) to the number of connections counted against the limit in the
//! current window. Entries are created lazily on a client's first
//! connection, and the whole table is cleared at each window boundary.

use vstd::prelude::*;

verus! {

/// The mathematical content of an association list: the map from each key to
/// the value of its last occurrence.
pub open spec fn map_of(s: Seq<(u128, usize)>) -> Map<u128, usize>
    decreases s.len(),
{
    if s.len() == 0 {
        Map::empty()
    } else {
        map_of(s.drop_last()).insert(s.last().0, s.last().1)
    }
}

/// No key occurs twice.
pub open spec fn keys_unique(s: Seq<(u128, usize)>) -> bool {
    forall|i: int, j: int| 0 <= i < j < s.len() ==> s[i].0 != s[j].0
}

proof fn lemma_map_of_contains(s: Seq<(u128, usize)>, ip: u128)
    ensures
        map_of(s).contains_key(ip) <==> exists|k: int| 0 <= k < s.len() && s[k].0 == ip,
    decreases s.len(),
{
    if s.len() > 0 {
        lemma_map_of_contains(s.drop_last(), ip);
        if s.last().0 == ip {
            assert(s[s.len() - 1].0 == ip);
        } else if map_of(s).contains_key(ip) {
            let k = choose|k: int| 0 <= k < s.drop_last().len() && s.drop_last()[k].0 == ip;
            assert(s[k].0 == ip);
        } else if exists|k: int| 0 <= k < s.len() && s[k].0 == ip {
            let k = choose|k: int| 0 <= k < s.len() && s[k].0 == ip;
            assert(s.drop_last()[k].0 == ip);
        }
    }
}

proof fn lemma_map_of_index(s: Seq<(u128, usize)>, k: int)
    requires
        keys_unique(s),
        0 <= k < s.len(),
    ensures
        map_of(s).contains_key(s[k].0),
        map_of(s)[s[k].0] == s[k].1,
    decreases s.len(),
{
    if k < s.len() - 1 {
        assert(keys_unique(s.drop_last()));
        lemma_map_of_index(s.drop_last(), k);
        assert(s[k].0 != s.last().0);
    }
}

proof fn lemma_map_of_update(s: Seq<(u128, usize)>, k: int, v: usize)
    requires
        keys_unique(s),
        0 <= k < s.len(),
    ensures
        map_of(s.update(k, (s[k].0, v))) =~= map_of(s).insert(s[k].0, v),
    decreases s.len(),
{
    let t = s.update(k, (s[k].0, v));
    if k == s.len() - 1 {
        assert(t.drop_last() =~= s.drop_last());
    } else {
        assert(keys_unique(s.drop_last()));
        assert(t.drop_last() =~= s.drop_last().update(k, (s[k].0, v)));
        lemma_map_of_update(s.drop_last(), k, v);
        assert(s[k].0 != s.last().0);
    }
}

/// Fixed-window rate limiter: accepts a client's connection iff the
/// post-increment count for its address is within the configured maximum.
/// A maximum of zero disables limiting entirely.
pub struct RateLimiter {
    max_per_window: usize,
    counts: Vec<(u128, usize)>,
}

impl View for RateLimiter {
    type V = Map<u128, usize>;

    closed spec fn view(&self) -> Map<u128, usize> {
        map_of(self.counts@)
    }
}

impl RateLimiter {
    /// Internal invariant: one entry per client address.
    pub closed spec fn wf(&self) -> bool {
        keys_unique(self.counts@)
    }

    /// Configured maximum number of connections per client per window.
    pub closed spec fn spec_max(&self) -> usize {
        self.max_per_window
    }

    /// The count on record for `ip`, zero when absent.
    pub open spec fn count_of(m: Map<u128, usize>, ip: u128) -> usize {
        if m.contains_key(ip) {
            m[ip]
        } else {
            0
        }
    }

    /// Builds a limiter with an empty table.
    pub fn new(max_per_window: usize) -> (r: RateLimiter)
        ensures
            r.wf(),
            r@ == Map::<u128, usize>::empty(),
            r.spec_max() == max_per_window,
    {
        RateLimiter { max_per_window, counts: Vec::new() }
    }

    /// Records one connection from `ip` and says whether to accept it.
    ///
    /// With limiting disabled (`max == 0`) nothing is recorded and every
    /// connection is accepted. Otherwise the client's counter is bumped
    /// (saturating at the integer's maximum) and the connection is accepted
    /// iff the post-increment count is at most the configured maximum.
    pub fn allow(&mut self, ip: u128) -> (r: bool)
        requires
            old(self).wf(),
        ensures
            final(self).wf(),
            final(self).spec_max() == old(self).spec_max(),
            old(self).spec_max() == 0 ==> r && final(self)@ == old(self)@,
            old(self).spec_max() > 0 ==> {
                let c = Self::count_of(old(self)@, ip);
                let bumped = if c < usize::MAX {
                    (c + 1) as usize
                } else {
                    usize::MAX
                };
                &&& final(self)@ == old(self)@.insert(ip, bumped)
                &&& (r <==> bumped <= old(self).spec_max())
            },
    {
        if self.max_per_window == 0 {
            return true;
        }
        let n = self.counts.len();
        let mut k: usize = 0;
        while k < n
            invariant
                self == old(self),
                self.wf(),
                self.max_per_window > 0,
                n == self.counts@.len(),
                k <= n,
                forall|j: int| 0 <= j < k ==> self.counts@[j].0 != ip,
            decreases n - k,
        {
            if self.counts[k].0 == ip {
                let c = self.counts[k].1;
                let bumped = if c < usize::MAX {
                    c + 1
                } else {
                    usize::MAX
                };
                proof {
                    lemma_map_of_index(self.counts@, k as int);
                    lemma_map_of_update(self.counts@, k as int, bumped);
                }
                self.counts.set(k, (ip, bumped));
                return bumped <= self.max_per_window;
            }
            k += 1;
        }
        proof {
            lemma_map_of_contains(self.counts@, ip);
            let ghost prev = self.counts@;
            assert(prev.push((ip, 1usize)).drop_last() =~= prev);
        }
        let ghost prev = self.counts@;
        self.counts.push((ip, 1));
        proof {
            assert(self.counts@.drop_last() =~= prev);
            assert(forall|i: int| 0 <= i < prev.len() ==> self.counts@[i] == prev[i]);
        }
        1 <= self.max_per_window
    }

    /// Clears the whole table at a window boundary.
    pub fn reset(&mut self)
        ensures
            final(self).wf(),
            final(self).spec_max() == old(self).spec_max(),
            final(self)@ == Map::<u128, usize>::empty(),
    {
        self.counts = Vec::new();
    }
}

} // verus!

//! Breakpoint bookkeeping for the debugger: the table of set breakpoints
//! and the word-level arithmetic used when a breakpoint byte is written
//! into the debugged program's text.

use vstd::prelude::*;

verus! {

/// Number of bytes in a machine word of the debugged program.
pub const WORD_SIZE: usize = 8;

/// One breakpoint: its address and the original byte it replaced.
#[derive(Clone, Copy, Debug, PartialEq, Eq, Structural)]
pub struct BreakPoint {
    /// Address the breakpoint is set at.
    pub address: usize,
    /// The instruction byte that was overwritten there.
    pub orig_byte: u8,
}

/// Rounds an address down to the start of its machine word.
pub fn align_addr_to_word(addr: usize) -> (r: usize)
    ensures
        r == addr - (addr % 8),
        r % 8 == 0,
        r <= addr,
        addr - r < 8,
{
    addr - (addr % 8)
}

/// Byte `k` of a little-endian machine word.
pub open spec fn byte_of(word: u64, k: u64) -> u64 {
    (word >> ((8 * k) as u64)) & 0xff
}

/// Replaces byte `byte_offset` of `word` with `val`, returning the updated
/// word and the byte that was there: all other bytes are untouched.
pub fn patch_byte_in_word(word: u64, byte_offset: usize, val: u8) -> (r: (u64, u8))
    requires
        byte_offset < 8,
    ensures
        r.1 == byte_of(word, byte_offset as u64),
        byte_of(r.0, byte_offset as u64) == val,
        forall|k: u64| k < 8 && k != byte_offset ==> byte_of(r.0, k) == byte_of(word, k),
{
    let shift: u64 = 8 * (byte_offset as u64);
    let orig: u8 = ((word >> shift) & 0xff) as u8;
    let masked: u64 = word & !(0xffu64 << shift);
    let updated: u64 = masked | ((val as u64) << shift);
    proof {
        let sh = shift;
        assert((((word >> sh) & 0xff) as u8) as u64 == (word >> sh) & 0xff) by (bit_vector);
        assert((((word & !(0xffu64 << sh)) | ((val as u64) << sh)) >> sh) & 0xff == val as u64)
            by (bit_vector)
            requires
                sh <= 56,
        ;
        assert(forall|sh2: u64|
            sh2 <= 56 && sh2 % 8 == 0 && sh % 8 == 0 && sh2 != sh ==> (((word & !(0xffu64 << sh))
                | ((val as u64) << sh)) >> sh2) & 0xff == (word >> sh2) & 0xff) by (bit_vector)
            requires
                sh <= 56,
        ;
        assert forall|k: u64| k < 8 && k != byte_offset implies byte_of(updated, k) == byte_of(
            word,
            k,
        ) by {
            let sh2 = (8 * k) as u64;
            assert(sh2 <= 56 && sh2 % 8 == 0);
            assert(sh % 8 == 0);
            assert(sh2 != sh);
            assert((updated >> sh2) & 0xff == (word >> sh2) & 0xff);
        }
    }
    (updated, orig)
}

/// The set breakpoints as a map from address to entry.
pub open spec fn bp_map_of(s: Seq<BreakPoint>) -> Map<usize, BreakPoint>
    decreases s.len(),
{
    if s.len() == 0 {
        Map::empty()
    } else {
        bp_map_of(s.drop_last()).insert(s.last().address, s.last())
    }
}

/// No address occurs twice.
pub open spec fn bp_keys_unique(s: Seq<BreakPoint>) -> bool {
    forall|i: int, j: int| 0 <= i < j < s.len() ==> s[i].address != s[j].address
}

proof fn lemma_bp_map_of_contains(s: Seq<BreakPoint>, addr: usize)
    ensures
        bp_map_of(s).contains_key(addr) <==> exists|k: int| 0 <= k < s.len() && s[k].address
            == addr,
    decreases s.len(),
{
    if s.len() > 0 {
        lemma_bp_map_of_contains(s.drop_last(), addr);
        if s.last().address == addr {
            assert(s[s.len() - 1].address == addr);
        } else if bp_map_of(s).contains_key(addr) {
            let k = choose|k: int|
                0 <= k < s.drop_last().len() && s.drop_last()[k].address == addr;
            assert(s[k].address == addr);
        } else if exists|k: int| 0 <= k < s.len() && s[k].address == addr {
            let k = choose|k: int| 0 <= k < s.len() && s[k].address == addr;
            assert(s.drop_last()[k].address == addr);
        }
    }
}

proof fn lemma_bp_map_of_index(s: Seq<BreakPoint>, k: int)
    requires
        bp_keys_unique(s),
        0 <= k < s.len(),
    ensures
        bp_map_of(s).contains_key(s[k].address),
        bp_map_of(s)[s[k].address] == s[k],
    decreases s.len(),
{
    if k < s.len() - 1 {
        assert(bp_keys_unique(s.drop_last()));
        lemma_bp_map_of_index(s.drop_last(), k);
        assert(s[k].address != s.last().address);
    }
}

proof fn lemma_bp_map_of_update(s: Seq<BreakPoint>, k: int, bp: BreakPoint)
    requires
        bp_keys_unique(s),
        0 <= k < s.len(),
        bp.address == s[k].address,
    ensures
        bp_map_of(s.update(k, bp)) =~= bp_map_of(s).insert(bp.address, bp),
    decreases s.len(),
{
    let t = s.update(k, bp);
    if k == s.len() - 1 {
        assert(t.drop_last() =~= s.drop_last());
    } else {
        assert(bp_keys_unique(s.drop_last()));
        assert(t.drop_last() =~= s.drop_last().update(k, bp));
        lemma_bp_map_of_update(s.drop_last(), k, bp);
        assert(s[k].address != s.last().address);
    }
}

/// The debugger's table of set breakpoints, keyed by address.
pub struct BreakPointTable {
    entries: Vec<BreakPoint>,
}

impl View for BreakPointTable {
    type V = Map<usize, BreakPoint>;

    closed spec fn view(&self) -> Map<usize, BreakPoint> {
        bp_map_of(self.entries@)
    }
}

impl BreakPointTable {
    /// Internal invariant: one entry per address.
    pub closed spec fn wf(&self) -> bool {
        bp_keys_unique(self.entries@)
    }

    /// An empty table.
    pub fn new() -> (r: BreakPointTable)
        ensures
            r.wf(),
            r@ == Map::<usize, BreakPoint>::empty(),
    {
        BreakPointTable { entries: Vec::new() }
    }

    /// Number of breakpoints set.
    pub fn len(&self) -> (n: usize)
        requires
            self.wf(),
        ensures
            n == self@.dom().len(),
    {
        proof {
            Self::lemma_len(self.entries@);
        }
        self.entries.len()
    }

    proof fn lemma_len(s: Seq<BreakPoint>)
        requires
            bp_keys_unique(s),
        ensures
            bp_map_of(s).dom().finite(),
            bp_map_of(s).dom().len() == s.len(),
        decreases s.len(),
    {
        if s.len() > 0 {
            assert(bp_keys_unique(s.drop_last()));
            Self::lemma_len(s.drop_last());
            lemma_bp_map_of_contains(s.drop_last(), s.last().address);
            assert(!bp_map_of(s.drop_last()).contains_key(s.last().address)) by {
                if exists|k: int|
                    0 <= k < s.drop_last().len() && s.drop_last()[k].address == s.last().address {
                    let k = choose|k: int|
                        0 <= k < s.drop_last().len() && s.drop_last()[k].address
                            == s.last().address;
                    assert(s[k].address == s[s.len() - 1].address);
                }
            }
        }
    }

    /// Sets or replaces the breakpoint at `bp.address`.
    pub fn insert(&mut self, bp: BreakPoint)
        requires
            old(self).wf(),
        ensures
            final(self).wf(),
            final(self)@ == old(self)@.insert(bp.address, bp),
    {
        let n = self.entries.len();
        let mut k: usize = 0;
        while k < n
            invariant
                self == old(self),
                self.wf(),
                n == self.entries@.len(),
                k <= n,
                forall|j: int| 0 <= j < k ==> self.entries@[j].address != bp.address,
            decreases n - k,
        {
            if self.entries[k].address == bp.address {
                proof {
                    lemma_bp_map_of_update(self.entries@, k as int, bp);
                }
                self.entries.set(k, bp);
                return ;
            }
            k += 1;
        }
        let ghost prev = self.entries@;
        self.entries.push(bp);
        proof {
            assert(self.entries@.drop_last() =~= prev);
            assert(forall|i: int| 0 <= i < prev.len() ==> self.entries@[i] == prev[i]);
        }
    }

    /// The breakpoint at `addr`, when one is set there.
    pub fn get(&self, addr: usize) -> (r: Option<BreakPoint>)
        requires
            self.wf(),
        ensures
            self@.contains_key(addr) ==> r == Some(self@[addr]),
            !self@.contains_key(addr) ==> r is None,
    {
        let n = self.entries.len();
        let mut k: usize = 0;
        while k < n
            invariant
                self.wf(),
                n == self.entries@.len(),
                self@ == bp_map_of(self.entries@),
                k <= n,
                forall|j: int| 0 <= j < k ==> self.entries@[j].address != addr,
            decreases n - k,
        {
            if self.entries[k].address == addr {
                proof {
                    lemma_bp_map_of_index(self.entries@, k as int);
                }
                return Some(self.entries[k]);
            }
            k += 1;
        }
        proof {
            lemma_bp_map_of_contains(self.entries@, addr);
        }
        None
    }

    /// The addresses of all set breakpoints.
    pub fn addresses(&self) -> (r: Vec<usize>)
        requires
            self.wf(),
        ensures
            r@.len() == self@.dom().len(),
            forall|t: int| 0 <= t < r@.len() ==> self@.contains_key(r@[t]),
            forall|a: usize| self@.contains_key(a) ==> r@.contains(a),
    {
        proof {
            Self::lemma_len(self.entries@);
        }
        let n = self.entries.len();
        let mut out: Vec<usize> = Vec::new();
        let mut k: usize = 0;
        while k < n
            invariant
                self.wf(),
                n == self.entries@.len(),
                self@ == bp_map_of(self.entries@),
                k <= n,
                out@.len() == k,
                forall|t: int| 0 <= t < k ==> out@[t] == self.entries@[t].address,
            decreases n - k,
        {
            out.push(self.entries[k].address);
            k += 1;
        }
        proof {
            assert forall|t: int| 0 <= t < out@.len() implies self@.contains_key(out@[t]) by {
                lemma_bp_map_of_index(self.entries@, t);
            }
            assert forall|a: usize| self@.contains_key(a) implies out@.contains(a) by {
                lemma_bp_map_of_contains(self.entries@, a);
                let k2 = choose|k2: int|
                    0 <= k2 < self.entries@.len() && self.entries@[k2].address == a;
                assert(out@[k2] == a);
            }
        }
        out
    }
}

} // verus!

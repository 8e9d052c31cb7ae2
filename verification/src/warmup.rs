//! Small vector exercises: bumping the first element and removing
//! duplicates while keeping first occurrences in order.

use vstd::prelude::*;

verus! {

/// The result of removing duplicates from `s`, keeping the first
/// occurrence of each value in order.
pub open spec fn dedup_spec(s: Seq<i32>) -> Seq<i32>
    decreases s.len(),
{
    if s.len() == 0 {
        s
    } else {
        let p = dedup_spec(s.drop_last());
        if p.contains(s.last()) {
            p
        } else {
            p.push(s.last())
        }
    }
}

/// Returns the vector with `n` added to its first element; an empty vector
/// comes back unchanged.
pub fn add_n(v: Vec<i32>, n: i32) -> (r: Vec<i32>)
    requires
        v@.len() > 0 ==> i32::MIN <= v@[0] + n <= i32::MAX,
    ensures
        r@ == if v@.len() > 0 {
            v@.update(0, (v@[0] + n) as i32)
        } else {
            v@
        },
{
    let mut out = v;
    if out.len() > 0 {
        let x = out[0];
        out.set(0, x + n);
    } else {
        proof {
            assert(out@ =~= out@.update(0, (out@[0] + n) as i32) || out@.len() == 0);
        }
    }
    out
}

/// Adds `n` to the first element in place; does nothing to an empty vector.
pub fn add_n_inplace(v: &mut Vec<i32>, n: i32)
    requires
        old(v)@.len() > 0 ==> i32::MIN <= old(v)@[0] + n <= i32::MAX,
    ensures
        final(v)@ == if old(v)@.len() > 0 {
            old(v)@.update(0, (old(v)@[0] + n) as i32)
        } else {
            old(v)@
        },
{
    if v.len() > 0 {
        let x = v[0];
        v.set(0, x + n);
    }
}

fn vec_contains(v: &Vec<i32>, x: i32) -> (r: bool)
    ensures
        r == v@.contains(x),
{
    let n = v.len();
    let mut k: usize = 0;
    while k < n
        invariant
            n == v@.len(),
            k <= n,
            forall|t: int| 0 <= t < k ==> v@[t] != x,
        decreases n - k,
    {
        if v[k] == x {
            assert(v@[k as int] == x);
            return true;
        }
        k += 1;
    }
    proof {
        if v@.contains(x) {
            let t = choose|t: int| 0 <= t < v@.len() && v@[t] == x;
        }
    }
    false
}

/// Removes duplicate values, keeping the first occurrence of each in its
/// original position relative to the others.
pub fn dedup(v: &mut Vec<i32>)
    ensures
        final(v)@ == dedup_spec(old(v)@),
{
    let n = v.len();
    let mut out: Vec<i32> = Vec::new();
    let mut k: usize = 0;
    while k < n
        invariant
            n == v@.len(),
            v@ == old(v)@,
            k <= n,
            out@ == dedup_spec(v@.take(k as int)),
        decreases n - k,
    {
        proof {
            assert(v@.take(k as int + 1).drop_last() =~= v@.take(k as int));
            assert(v@.take(k as int + 1).last() == v@[k as int]);
        }
        let x = v[k];
        if !vec_contains(&out, x) {
            out.push(x);
        }
        k += 1;
    }
    proof {
        assert(v@.take(n as int) =~= v@);
    }
    *v = out;
}

} // verus!

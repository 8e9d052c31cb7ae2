//! Reassembly of results computed out of order: workers hand back
//! `(index, value)` pairs, and the output vector places each value at its
//! index.

use vstd::prelude::*;

verus! {

/// The vector of length `len` that starts as `fill` everywhere and takes
/// each pair's value at its index, later pairs winning.
pub open spec fn place_spec<U>(len: nat, fill: U, pairs: Seq<(usize, U)>) -> Seq<U>
    decreases pairs.len(),
{
    if pairs.len() == 0 {
        Seq::new(len, |i: int| fill)
    } else {
        place_spec(len, fill, pairs.drop_last()).update(pairs.last().0 as int, pairs.last().1)
    }
}

/// Builds the output of a scattered computation: value `v` of each pair
/// `(i, v)` is placed at position `i`.
pub fn place_results<U: Copy>(len: usize, fill: U, pairs: &Vec<(usize, U)>) -> (r: Vec<U>)
    requires
        forall|t: int| 0 <= t < pairs@.len() ==> (#[trigger] pairs@[t]).0 < len,
    ensures
        r@ == place_spec(len as nat, fill, pairs@),
        r@.len() == len,
{
    let mut out: Vec<U> = Vec::new();
    let mut k: usize = 0;
    while k < len
        invariant
            k <= len,
            out@.len() == k,
            forall|t: int| 0 <= t < k ==> out@[t] == fill,
        decreases len - k,
    {
        out.push(fill);
        k += 1;
    }
    proof {
        assert(out@ =~= place_spec(len as nat, fill, pairs@.take(0)));
    }
    let n = pairs.len();
    let mut t: usize = 0;
    while t < n
        invariant
            n == pairs@.len(),
            t <= n,
            forall|w: int| 0 <= w < pairs@.len() ==> (#[trigger] pairs@[w]).0 < len,
            out@.len() == len,
            out@ == place_spec(len as nat, fill, pairs@.take(t as int)),
        decreases n - t,
    {
        let (idx, v) = pairs[t];
        out.set(idx, v);
        proof {
            assert(pairs@.take(t as int + 1).drop_last() =~= pairs@.take(t as int));
            assert(pairs@.take(t as int + 1).last() == pairs@[t as int]);
        }
        t += 1;
    }
    proof {
        assert(pairs@.take(n as int) =~= pairs@);
    }
    out
}

proof fn lemma_place_spec_len<U>(len: nat, fill: U, pairs: Seq<(usize, U)>)
    requires
        forall|t: int| 0 <= t < pairs.len() ==> (#[trigger] pairs[t]).0 < len,
    ensures
        place_spec(len, fill, pairs).len() == len,
    decreases pairs.len(),
{
    if pairs.len() > 0 {
        assert(forall|t: int|
            0 <= t < pairs.drop_last().len() ==> (#[trigger] pairs.drop_last()[t]).0 < len);
        lemma_place_spec_len(len, fill, pairs.drop_last());
        assert(pairs[pairs.len() - 1] == pairs.last());
    }
}

proof fn lemma_last_pair_valid<U>(pairs: Seq<(usize, U)>, i: int)
    requires
        exists|t: int| 0 <= t < pairs.len() && (#[trigger] pairs[t]).0 == i,
    ensures
        0 <= last_pair_for(pairs, i) < pairs.len(),
        pairs[last_pair_for(pairs, i)].0 == i,
    decreases pairs.len(),
{
    let w = choose|w: int| 0 <= w < pairs.len() && (#[trigger] pairs[w]).0 == i;
    if pairs.last().0 != i {
        assert(w < pairs.len() - 1);
        assert(pairs.drop_last()[w] == pairs[w]);
        lemma_last_pair_valid(pairs.drop_last(), i);
        assert(pairs.drop_last()[last_pair_for(pairs.drop_last(), i)]
            == pairs[last_pair_for(pairs.drop_last(), i)]);
    }
}

/// Placing pairs that cover every index exactly once yields, at each
/// index, the value paired with it, whatever order the pairs arrived in.
pub proof fn lemma_place_complete<U>(len: nat, fill: U, pairs: Seq<(usize, U)>, i: int)
    requires
        0 <= i < len,
        forall|t: int| 0 <= t < pairs.len() ==> (#[trigger] pairs[t]).0 < len,
        exists|t: int| 0 <= t < pairs.len() && (#[trigger] pairs[t]).0 == i,
    ensures
        ({
            let t = last_pair_for(pairs, i);
            place_spec(len, fill, pairs)[i] == pairs[t].1
        }),
    decreases pairs.len(),
{
    lemma_last_pair_valid(pairs, i);
    assert(forall|t2: int|
        0 <= t2 < pairs.drop_last().len() ==> (#[trigger] pairs.drop_last()[t2]).0 < len);
    lemma_place_spec_len(len, fill, pairs.drop_last());
    assert(pairs[pairs.len() - 1] == pairs.last());
    let t = last_pair_for(pairs, i);
    if pairs.last().0 == i {
    } else {
        let w = choose|w: int| 0 <= w < pairs.len() && (#[trigger] pairs[w]).0 == i;
        assert(w < pairs.len() - 1);
        assert(pairs.drop_last()[w] == pairs[w]);
        assert(forall|t2: int|
            0 <= t2 < pairs.drop_last().len() ==> (#[trigger] pairs.drop_last()[t2]).0 < len);
        lemma_place_complete(len, fill, pairs.drop_last(), i);
        assert(last_pair_for(pairs.drop_last(), i) == t);
        assert(pairs.drop_last()[t] == pairs[t]);
    }
}

/// The position of the last pair for index `i`.
pub open spec fn last_pair_for<U>(pairs: Seq<(usize, U)>, i: int) -> int
    decreases pairs.len(),
{
    if pairs.len() == 0 {
        0
    } else if pairs.last().0 == i {
        pairs.len() - 1
    } else {
        last_pair_for(pairs.drop_last(), i)
    }
}

} // verus!

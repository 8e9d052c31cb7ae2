//! Word counting: splitting a line at spaces and tallying how often each
//! word occurs over a file's lines.

use vstd::prelude::*;

verus! {

/// The segments joined back together with one space between neighbours.
pub open spec fn joined(segs: Seq<Seq<char>>) -> Seq<char>
    decreases segs.len(),
{
    if segs.len() == 0 {
        Seq::empty()
    } else if segs.len() == 1 {
        segs[0]
    } else {
        joined(segs.drop_last()) + seq![' '] + segs.last()
    }
}

/// Whether no segment holds a space.
pub open spec fn no_spaces(segs: Seq<Seq<char>>) -> bool {
    forall|i: int, j: int|
        0 <= i < segs.len() && 0 <= j < segs[i].len() ==> #[trigger] segs[i][j] != ' '
}

/// Splits at every space, empty segments kept, so that joining the result
/// with single spaces gives the input back: the unique such decomposition.
pub fn split_words(line: &str) -> (r: Vec<String>)
    ensures
        r@.len() >= 1,
        no_spaces(r.deep_view()),
        joined(r.deep_view()) == line@,
{
    let total = line.unicode_len();
    let mut segs: Vec<String> = Vec::new();
    let mut start: usize = 0;
    let mut k: usize = 0;
    while k < total
        invariant
            total == line@.len(),
            start <= k <= total,
            no_spaces(segs.deep_view()),
            forall|t: int| start <= t < k ==> line@[t] != ' ',
            segs@.len() == 0 ==> start == 0,
            segs@.len() > 0 ==> line@.take(start as int) == joined(segs.deep_view()) + seq![' '],
        decreases total - k,
    {
        let c = line.get_char(k);
        if c == ' ' {
            let piece = line.substring_char(start, k).to_owned();
            let ghost prev_deep = segs.deep_view();
            proof {
                lemma_joined_push(prev_deep, piece@);
                assert(piece@ =~= line@.subrange(start as int, k as int));
                if segs@.len() > 0 {
                    assert(line@.take(k as int + 1) =~= line@.take(start as int) + line@.subrange(
                        start as int,
                        k as int,
                    ) + seq![' ']);
                } else {
                    assert(line@.take(k as int + 1) =~= line@.subrange(start as int, k as int)
                        + seq![' ']);
                }
            }
            segs.push(piece);
            proof {
                assert(segs.deep_view() =~= prev_deep.push(line@.subrange(
                    start as int,
                    k as int,
                )));
                assert forall|i: int, j: int|
                    0 <= i < segs.deep_view().len() && 0 <= j < segs.deep_view()[i].len()
                    implies #[trigger] segs.deep_view()[i][j] != ' ' by {
                    if i < segs.deep_view().len() - 1 {
                    } else {
                        assert(segs.deep_view()[i][j] == line@[start + j]);
                    }
                }
            }
            start = k + 1;
        }
        k += 1;
    }
    let piece = line.substring_char(start, total).to_owned();
    let ghost prev_deep = segs.deep_view();
    proof {
        lemma_joined_push(prev_deep, piece@);
        assert(piece@ =~= line@.subrange(start as int, total as int));
        if segs@.len() > 0 {
            assert(line@ =~= line@.take(start as int) + line@.subrange(
                start as int,
                total as int,
            ));
        } else {
            assert(line@ =~= line@.subrange(start as int, total as int));
        }
    }
    segs.push(piece);
    proof {
        assert(segs.deep_view() =~= prev_deep.push(line@.subrange(start as int, total as int)));
        assert forall|i: int, j: int|
            0 <= i < segs.deep_view().len() && 0 <= j < segs.deep_view()[i].len()
            implies #[trigger] segs.deep_view()[i][j] != ' ' by {
            if i < segs.deep_view().len() - 1 {
            } else {
                assert(segs.deep_view()[i][j] == line@[start + j]);
            }
        }
        assert(joined(segs.deep_view()) == line@);
    }
    segs
}

proof fn lemma_joined_push(segs: Seq<Seq<char>>, x: Seq<char>)
    ensures
        segs.len() == 0 ==> joined(segs.push(x)) == x,
        segs.len() > 0 ==> joined(segs.push(x)) == joined(segs) + seq![' '] + x,
{
    if segs.len() == 0 {
        assert(joined(segs.push(x)) == segs.push(x)[0]);
        assert(segs.push(x)[0] == x);
    } else {
        assert(segs.push(x).drop_last() =~= segs);
        assert(segs.push(x).last() == x);
    }
}

/// The tally of each word's occurrences.
pub open spec fn counts_of(ws: Seq<Seq<char>>) -> Map<Seq<char>, int>
    decreases ws.len(),
{
    if ws.len() == 0 {
        Map::empty()
    } else {
        let m = counts_of(ws.drop_last());
        let prev = if m.contains_key(ws.last()) {
            m[ws.last()]
        } else {
            0
        };
        m.insert(ws.last(), prev + 1)
    }
}

/// The tally map an association list holds.
pub open spec fn tally_of(s: Seq<(Seq<char>, usize)>) -> Map<Seq<char>, int>
    decreases s.len(),
{
    if s.len() == 0 {
        Map::empty()
    } else {
        tally_of(s.drop_last()).insert(s.last().0, s.last().1 as int)
    }
}

/// One entry per word.
pub open spec fn tally_keys_unique(s: Seq<(Seq<char>, usize)>) -> bool {
    forall|i: int, j: int| 0 <= i < j < s.len() ==> s[i].0 != s[j].0
}

pub open spec fn entry_views(s: Seq<(String, usize)>) -> Seq<(Seq<char>, usize)> {
    s.map_values(|p: (String, usize)| (p.0@, p.1))
}

proof fn lemma_tally_contains(s: Seq<(Seq<char>, usize)>, w: Seq<char>)
    ensures
        tally_of(s).contains_key(w) <==> exists|k: int| 0 <= k < s.len() && s[k].0 == w,
    decreases s.len(),
{
    if s.len() > 0 {
        lemma_tally_contains(s.drop_last(), w);
        if s.last().0 == w {
            assert(s[s.len() - 1].0 == w);
        } else if tally_of(s).contains_key(w) {
            let k = choose|k: int| 0 <= k < s.drop_last().len() && s.drop_last()[k].0 == w;
            assert(s[k].0 == w);
        } else if exists|k: int| 0 <= k < s.len() && s[k].0 == w {
            let k = choose|k: int| 0 <= k < s.len() && s[k].0 == w;
            assert(s.drop_last()[k].0 == w);
        }
    }
}

proof fn lemma_tally_index(s: Seq<(Seq<char>, usize)>, k: int)
    requires
        tally_keys_unique(s),
        0 <= k < s.len(),
    ensures
        tally_of(s).contains_key(s[k].0),
        tally_of(s)[s[k].0] == s[k].1,
    decreases s.len(),
{
    if k < s.len() - 1 {
        assert(tally_keys_unique(s.drop_last()));
        lemma_tally_index(s.drop_last(), k);
        assert(s[k].0 != s.last().0);
    }
}

proof fn lemma_tally_update(s: Seq<(Seq<char>, usize)>, k: int, v: usize)
    requires
        tally_keys_unique(s),
        0 <= k < s.len(),
    ensures
        tally_of(s.update(k, (s[k].0, v))) =~= tally_of(s).insert(s[k].0, v as int),
    decreases s.len(),
{
    let t = s.update(k, (s[k].0, v));
    if k == s.len() - 1 {
        assert(t.drop_last() =~= s.drop_last());
    } else {
        assert(tally_keys_unique(s.drop_last()));
        assert(t.drop_last() =~= s.drop_last().update(k, (s[k].0, v)));
        lemma_tally_update(s.drop_last(), k, v);
        assert(s[k].0 != s.last().0);
    }
}

/// Position of `word` in the tally list, when present.
fn find_entry(counts: &Vec<(String, usize)>, word: &String) -> (r: Option<usize>)
    ensures
        match r {
            Some(k) => k < counts@.len() && entry_views(counts@)[k as int].0 == word@,
            None => forall|t: int|
                0 <= t < counts@.len() ==> (#[trigger] entry_views(counts@)[t]).0 != word@,
        },
{
    let m = counts.len();
    let mut k: usize = 0;
    while k < m
        invariant
            m == counts@.len(),
            k <= m,
            forall|t: int| 0 <= t < k ==> (#[trigger] entry_views(counts@)[t]).0 != word@,
        decreases m - k,
    {
        if counts[k].0.eq(word) {
            proof {
                assert(entry_views(counts@)[k as int].0 == word@);
            }
            return Some(k);
        }
        proof {
            assert(entry_views(counts@)[k as int].0 != word@);
        }
        k += 1;
    }
    None
}

/// Tallies how often each word occurs, one entry per distinct word.
pub fn count_words(words: &Vec<String>) -> (r: Vec<(String, usize)>)
    ensures
        tally_keys_unique(entry_views(r@)),
        tally_of(entry_views(r@)) == counts_of(words.deep_view()),
{
    let ghost ws = words.deep_view();
    let mut counts: Vec<(String, usize)> = Vec::new();
    let n = words.len();
    let mut i: usize = 0;
    while i < n
        invariant
            n == words@.len(),
            ws == words.deep_view(),
            i <= n,
            tally_keys_unique(entry_views(counts@)),
            tally_of(entry_views(counts@)) == counts_of(ws.take(i as int)),
            forall|t: int| 0 <= t < counts@.len() ==> 1 <= (#[trigger] counts@[t]).1 <= i,
        decreases n - i,
    {
        let ghost prefix = ws.take(i as int);
        proof {
            assert(ws.take(i as int + 1).drop_last() =~= prefix);
            assert(ws.take(i as int + 1).last() == ws[i as int]);
            assert(ws[i as int] == words@[i as int]@);
        }
        let word = &words[i];
        match find_entry(&counts, word) {
            Some(k) => {
                let c = counts[k].1;
                proof {
                    assert(entry_views(counts@)[k as int].1 == c);
                    lemma_tally_index(entry_views(counts@), k as int);
                    lemma_tally_update(entry_views(counts@), k as int, (c + 1) as usize);
                    lemma_tally_contains(entry_views(counts@), word@);
                }
                let key = counts[k].0.clone();
                let ghost prev_entries = counts@;
                counts.set(k, (key, c + 1));
                proof {
                    assert(entry_views(counts@) =~= entry_views(prev_entries).update(
                        k as int,
                        (word@, (c + 1) as usize),
                    ));
                }
            },
            None => {
                proof {
                    lemma_tally_contains(entry_views(counts@), word@);
                    let ghost prev = entry_views(counts@);
                    assert(prev.push((word@, 1usize)).drop_last() =~= prev);
                }
                let ghost prev_entries = counts@;
                counts.push((word.clone(), 1));
                proof {
                    assert(entry_views(counts@).drop_last() =~= entry_views(prev_entries));
                    assert(entry_views(counts@).last() == (word@, 1usize));
                    assert(forall|t: int|
                        0 <= t < prev_entries.len() ==> #[trigger] entry_views(counts@)[t]
                            == entry_views(prev_entries)[t]);
                }
            },
        }
        i += 1;
    }
    proof {
        assert(ws.take(n as int) =~= ws);
    }
    counts
}

} // verus!

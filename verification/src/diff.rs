//! Line-diff engine: a longest-common-subsequence table over two files'
//! lines, reconstruction of the matched line indices, and the derivation of
//! the deleted and added lines that a diff listing shows.

use vstd::prelude::*;

verus! {

/// Length of the longest common subsequence of two sequences of lines.
pub open spec fn lcs_len(a: Seq<Seq<char>>, b: Seq<Seq<char>>) -> nat
    decreases a.len() + b.len(),
{
    if a.len() == 0 || b.len() == 0 {
        0
    } else if a.last() == b.last() {
        lcs_len(a.drop_last(), b.drop_last()) + 1
    } else {
        let x = lcs_len(a.drop_last(), b);
        let y = lcs_len(a, b.drop_last());
        if x >= y {
            x
        } else {
            y
        }
    }
}

proof fn lemma_lcs_len_bound(a: Seq<Seq<char>>, b: Seq<Seq<char>>)
    ensures
        lcs_len(a, b) <= a.len(),
        lcs_len(a, b) <= b.len(),
    decreases a.len() + b.len(),
{
    if a.len() > 0 && b.len() > 0 {
        lemma_lcs_len_bound(a.drop_last(), b.drop_last());
        lemma_lcs_len_bound(a.drop_last(), b);
        lemma_lcs_len_bound(a, b.drop_last());
    }
}

/// The recurrence at a pair of non-empty prefixes whose last lines match.
proof fn lemma_lcs_step_match(a: Seq<Seq<char>>, b: Seq<Seq<char>>, i: int, j: int)
    requires
        1 <= i <= a.len(),
        1 <= j <= b.len(),
        a[i - 1] == b[j - 1],
    ensures
        lcs_len(a.take(i), b.take(j)) == lcs_len(a.take(i - 1), b.take(j - 1)) + 1,
{
    assert(a.take(i).drop_last() =~= a.take(i - 1));
    assert(b.take(j).drop_last() =~= b.take(j - 1));
    assert(a.take(i).last() == a[i - 1]);
    assert(b.take(j).last() == b[j - 1]);
}

/// The recurrence at a pair of non-empty prefixes whose last lines differ.
proof fn lemma_lcs_step_mismatch(a: Seq<Seq<char>>, b: Seq<Seq<char>>, i: int, j: int)
    requires
        1 <= i <= a.len(),
        1 <= j <= b.len(),
        a[i - 1] != b[j - 1],
    ensures
        lcs_len(a.take(i), b.take(j)) == if lcs_len(a.take(i - 1), b.take(j)) >= lcs_len(
            a.take(i),
            b.take(j - 1),
        ) {
            lcs_len(a.take(i - 1), b.take(j))
        } else {
            lcs_len(a.take(i), b.take(j - 1))
        },
{
    assert(a.take(i).drop_last() =~= a.take(i - 1));
    assert(b.take(j).drop_last() =~= b.take(j - 1));
    assert(a.take(i).last() == a[i - 1]);
    assert(b.take(j).last() == b[j - 1]);
    assert(a.take(i).drop_last() =~= a.take(i - 1));
    assert((b.take(j)).take(j - 1) =~= b.take(j - 1));
}

proof fn lemma_flat_index_bound(n: int, m: int, i: int, j: int)
    by (nonlinear_arith)
    requires
        0 <= i < m,
        0 <= j < n,
    ensures
        0 <= i * n + j < m * n,
{
}

proof fn lemma_flat_index_injective(n: int, i1: int, j1: int, i2: int, j2: int)
    by (nonlinear_arith)
    requires
        0 <= j1 < n,
        0 <= j2 < n,
        0 <= i1,
        0 <= i2,
        i1 * n + j1 == i2 * n + j2,
    ensures
        i1 == i2,
        j1 == j2,
{
}

/// A rectangular table of counters, stored row-major.
pub struct Grid {
    num_rows: usize,
    num_cols: usize,
    elems: Vec<usize>,
}

impl Grid {
    /// Internal invariant: storage matches the dimensions.
    pub closed spec fn wf(&self) -> bool {
        self.elems@.len() == self.num_rows * self.num_cols
    }

    /// Number of rows.
    pub closed spec fn spec_rows(&self) -> usize {
        self.num_rows
    }

    /// Number of columns.
    pub closed spec fn spec_cols(&self) -> usize {
        self.num_cols
    }

    /// Value at row `i`, column `j`.
    pub closed spec fn spec_cell(&self, i: int, j: int) -> usize {
        self.elems@[i * self.num_cols + j]
    }

    /// Builds a grid of the given dimensions, all cells zero.
    pub fn new(num_rows: usize, num_cols: usize) -> (g: Grid)
        requires
            num_rows * num_cols <= usize::MAX,
        ensures
            g.wf(),
            g.spec_rows() == num_rows,
            g.spec_cols() == num_cols,
            forall|i: int, j: int|
                0 <= i < num_rows && 0 <= j < num_cols ==> g.spec_cell(i, j) == 0,
    {
        let total: usize = num_rows * num_cols;
        let mut elems: Vec<usize> = Vec::new();
        let mut k: usize = 0;
        while k < total
            invariant
                k <= total,
                elems@.len() == k,
                forall|t: int| 0 <= t < k ==> elems@[t] == 0,
            decreases total - k,
        {
            elems.push(0);
            k += 1;
        }
        let g = Grid { num_rows, num_cols, elems };
        proof {
            assert forall|i: int, j: int|
                0 <= i < num_rows && 0 <= j < num_cols implies g.spec_cell(i, j) == 0 by {
                lemma_flat_index_bound(num_cols as int, num_rows as int, i, j);
            }
        }
        g
    }

    /// The dimensions, rows then columns.
    pub fn size(&self) -> (r: (usize, usize))
        ensures
            r.0 == self.spec_rows(),
            r.1 == self.spec_cols(),
    {
        (self.num_rows, self.num_cols)
    }

    /// The value at `(row, col)`, or nothing when out of bounds.
    pub fn get(&self, row: usize, col: usize) -> (r: Option<usize>)
        requires
            self.wf(),
        ensures
            row < self.spec_rows() && col < self.spec_cols() ==> r == Some(
                self.spec_cell(row as int, col as int),
            ),
            !(row < self.spec_rows() && col < self.spec_cols()) ==> r is None,
    {
        if row < self.num_rows && col < self.num_cols {
            let total = self.elems.len();
            proof {
                lemma_flat_index_bound(
                    self.num_cols as int,
                    self.num_rows as int,
                    row as int,
                    col as int,
                );
            }
            Some(self.elems[row * self.num_cols + col])
        } else {
            None
        }
    }

    /// Stores `val` at `(row, col)`; rejects an out-of-bounds position and
    /// leaves the grid unchanged in that case.
    pub fn set(&mut self, row: usize, col: usize, val: usize) -> (r: Result<(), ()>)
        requires
            old(self).wf(),
        ensures
            final(self).wf(),
            final(self).spec_rows() == old(self).spec_rows(),
            final(self).spec_cols() == old(self).spec_cols(),
            row < old(self).spec_rows() && col < old(self).spec_cols() ==> {
                &&& r is Ok
                &&& final(self).spec_cell(row as int, col as int) == val
                &&& forall|i: int, j: int|
                    0 <= i < old(self).spec_rows() && 0 <= j < old(self).spec_cols() && !(i == row
                        && j == col) ==> final(self).spec_cell(i, j) == old(self).spec_cell(i, j)
            },
            !(row < old(self).spec_rows() && col < old(self).spec_cols()) ==> r is Err
                && *final(self) == *old(self),
    {
        if row < self.num_rows && col < self.num_cols {
            let total = self.elems.len();
            proof {
                lemma_flat_index_bound(
                    self.num_cols as int,
                    self.num_rows as int,
                    row as int,
                    col as int,
                );
            }
            let idx = row * self.num_cols + col;
            self.elems.set(idx, val);
            proof {
                assert forall|i: int, j: int|
                    0 <= i < self.num_rows && 0 <= j < self.num_cols && !(i == row && j
                        == col) implies self.spec_cell(i, j) == old(self).spec_cell(i, j) by {
                    lemma_flat_index_bound(self.num_cols as int, self.num_rows as int, i, j);
                    if i * (self.num_cols as int) + j == row * (self.num_cols as int) + col {
                        lemma_flat_index_injective(
                            self.num_cols as int,
                            i,
                            j,
                            row as int,
                            col as int,
                        );
                    }
                }
            }
            Ok(())
        } else {
            Err(())
        }
    }
}

/// Whether grid `g` holds, at every cell `(i, j)` of its dimensions, the
/// LCS length of the line prefixes of lengths `i + 1` and `j + 1`.
pub open spec fn is_lcs_grid(g: &Grid, a: Seq<Seq<char>>, b: Seq<Seq<char>>) -> bool {
    &&& g.spec_rows() == a.len()
    &&& g.spec_cols() == b.len()
    &&& forall|i: int, j: int|
        0 <= i < a.len() && 0 <= j < b.len() ==> g.spec_cell(i, j) == lcs_len(
            a.take(i + 1),
            b.take(j + 1),
        )
}

/// Fills the dynamic-programming table: cell `(i, j)` holds the LCS length
/// of the first `i + 1` lines of `seq1` and the first `j + 1` lines of
/// `seq2`.
pub fn lcs(seq1: &Vec<String>, seq2: &Vec<String>) -> (g: Grid)
    requires
        seq1@.len() >= 1,
        seq2@.len() >= 1,
        seq1@.len() * seq2@.len() <= usize::MAX,
    ensures
        g.wf(),
        is_lcs_grid(&g, seq1.deep_view(), seq2.deep_view()),
{
    let ghost a = seq1.deep_view();
    let ghost b = seq2.deep_view();
    let m = seq1.len();
    let n = seq2.len();
    let mut grid = Grid::new(m, n);

    // Column 0: LCS of each prefix of `seq1` against the first line of
    // `seq2` alone.
    let mut i: usize = 0;
    while i < m
        invariant
            grid.wf(),
            grid.spec_rows() == m,
            grid.spec_cols() == n,
            m == a.len(),
            n == b.len(),
            m == seq1@.len(),
            n == seq2@.len(),
            a == seq1.deep_view(),
            b == seq2.deep_view(),
            1 <= m,
            1 <= n,
            i <= m,
            forall|i2: int| 0 <= i2 < i ==> grid.spec_cell(i2, 0) == lcs_len(a.take(i2 + 1), b.take(1)),
            forall|i2: int| i <= i2 < m ==> grid.spec_cell(i2, 0) == 0,
            forall|i2: int, j2: int|
                0 <= i2 < m && 1 <= j2 < n ==> grid.spec_cell(i2, j2) == 0,
        decreases m - i,
    {
        let c1 = &seq1[i];
        let c2 = &seq2[0];
        proof {
            assert(a[i as int] == seq1@[i as int]@);
            assert(b[0] == seq2@[0]@);
        }
        if c1.eq(c2) {
            proof {
                lemma_lcs_step_match(a, b, i as int + 1, 1);
                assert(a.take(i as int) =~= a.take(i + 1 - 1));
                assert(lcs_len(a.take(i as int), b.take(0)) == 0) by {
                    assert(b.take(0).len() == 0);
                }
            }
            let _ = grid.set(i, 0, 1);
        } else {
            if i > 0 {
                let r: usize = match grid.get(i - 1, 0) {
                    Some(v) => v,
                    None => 0,
                };
                proof {
                    lemma_lcs_step_mismatch(a, b, i as int + 1, 1);
                    assert(lcs_len(a.take(i + 1), b.take(0)) == 0) by {
                        assert(b.take(0).len() == 0);
                    }
                }
                let _ = grid.set(i, 0, r);
            } else {
                proof {
                    lemma_lcs_step_mismatch(a, b, 1, 1);
                    assert(lcs_len(a.take(0), b.take(1)) == 0) by {
                        assert(a.take(0).len() == 0);
                    }
                    assert(lcs_len(a.take(1), b.take(0)) == 0) by {
                        assert(b.take(0).len() == 0);
                    }
                }
            }
        }
        i += 1;
    }

    // Row 0: LCS of the first line of `seq1` alone against each prefix of
    // `seq2`.
    let mut j: usize = 0;
    while j < n
        invariant
            grid.wf(),
            grid.spec_rows() == m,
            grid.spec_cols() == n,
            m == a.len(),
            n == b.len(),
            m == seq1@.len(),
            n == seq2@.len(),
            a == seq1.deep_view(),
            b == seq2.deep_view(),
            1 <= m,
            1 <= n,
            j <= n,
            forall|i2: int| 0 <= i2 < m ==> grid.spec_cell(i2, 0) == lcs_len(a.take(i2 + 1), b.take(1)),
            forall|j2: int| 1 <= j2 < j ==> grid.spec_cell(0, j2) == lcs_len(a.take(1), b.take(j2 + 1)),
            forall|i2: int, j2: int|
                1 <= i2 < m && 1 <= j2 < n ==> grid.spec_cell(i2, j2) == 0,
        decreases n - j,
    {
        let c1 = &seq1[0];
        let c2 = &seq2[j];
        proof {
            assert(a[0] == seq1@[0]@);
            assert(b[j as int] == seq2@[j as int]@);
        }
        if c1.eq(c2) {
            proof {
                lemma_lcs_step_match(a, b, 1, j as int + 1);
                assert(lcs_len(a.take(0), b.take(j as int)) == 0) by {
                    assert(a.take(0).len() == 0);
                }
            }
            let _ = grid.set(0, j, 1);
        } else {
            if j > 0 {
                let r: usize = match grid.get(0, j - 1) {
                    Some(v) => v,
                    None => 0,
                };
                proof {
                    lemma_lcs_step_mismatch(a, b, 1, j as int + 1);
                    assert(lcs_len(a.take(0), b.take(j + 1)) == 0) by {
                        assert(a.take(0).len() == 0);
                    }
                }
                let _ = grid.set(0, j, r);
            }
        }
        j += 1;
    }

    // Interior cells by the standard recurrence.
    let mut i: usize = 1;
    while i < m
        invariant
            grid.wf(),
            grid.spec_rows() == m,
            grid.spec_cols() == n,
            m == a.len(),
            n == b.len(),
            m == seq1@.len(),
            n == seq2@.len(),
            a == seq1.deep_view(),
            b == seq2.deep_view(),
            1 <= m,
            1 <= n,
            1 <= i <= m,
            forall|i2: int| 0 <= i2 < m ==> grid.spec_cell(i2, 0) == lcs_len(a.take(i2 + 1), b.take(1)),
            forall|j2: int| 0 <= j2 < n ==> grid.spec_cell(0, j2) == lcs_len(a.take(1), b.take(j2 + 1)),
            forall|i2: int, j2: int|
                1 <= i2 < i && 1 <= j2 < n ==> grid.spec_cell(i2, j2) == lcs_len(
                    a.take(i2 + 1),
                    b.take(j2 + 1),
                ),
        decreases m - i,
    {
        let c1 = &seq1[i];
        proof {
            assert(a[i as int] == seq1@[i as int]@);
        }
        let mut j: usize = 1;
        while j < n
            invariant
                grid.wf(),
                grid.spec_rows() == m,
                grid.spec_cols() == n,
                m == a.len(),
                n == b.len(),
                m == seq1@.len(),
                n == seq2@.len(),
                a == seq1.deep_view(),
                b == seq2.deep_view(),
                1 <= i < m,
                1 <= j <= n,
                c1@ == a[i as int],
                forall|i2: int| 0 <= i2 < m ==> grid.spec_cell(i2, 0) == lcs_len(
                    a.take(i2 + 1),
                    b.take(1),
                ),
                forall|j2: int| 0 <= j2 < n ==> grid.spec_cell(0, j2) == lcs_len(
                    a.take(1),
                    b.take(j2 + 1),
                ),
                forall|i2: int, j2: int|
                    1 <= i2 < i && 1 <= j2 < n ==> grid.spec_cell(i2, j2) == lcs_len(
                        a.take(i2 + 1),
                        b.take(j2 + 1),
                    ),
                forall|j2: int|
                    1 <= j2 < j ==> grid.spec_cell(i as int, j2) == lcs_len(
                        a.take(i as int + 1),
                        b.take(j2 + 1),
                    ),
            decreases n - j,
        {
            let c2 = &seq2[j];
            proof {
                assert(b[j as int] == seq2@[j as int]@);
            }
            if c1.eq(c2) {
                let res: usize = match grid.get(i - 1, j - 1) {
                    Some(v) => v,
                    None => 1,
                };
                proof {
                    lemma_lcs_len_bound(a.take(i as int), b.take(j as int));
                    lemma_lcs_step_match(a, b, i as int + 1, j as int + 1);
                }
                let _ = grid.set(i, j, res + 1);
            } else {
                let res1: usize = match grid.get(i - 1, j) {
                    Some(v) => v,
                    None => 0,
                };
                let res2: usize = match grid.get(i, j - 1) {
                    Some(v) => v,
                    None => 0,
                };
                proof {
                    lemma_lcs_step_mismatch(a, b, i as int + 1, j as int + 1);
                }
                if res1 > res2 {
                    let _ = grid.set(i, j, res1);
                } else {
                    let _ = grid.set(i, j, res2);
                }
            }
            j += 1;
        }
        i += 1;
    }
    proof {
        assert forall|i2: int, j2: int|
            0 <= i2 < a.len() && 0 <= j2 < b.len() implies grid.spec_cell(i2, j2) == lcs_len(
            a.take(i2 + 1),
            b.take(j2 + 1),
        ) by {}
    }
    grid
}

/// The character for one decimal digit.
pub open spec fn digit_char(d: int) -> char {
    if d == 0 {
        '0'
    } else if d == 1 {
        '1'
    } else if d == 2 {
        '2'
    } else if d == 3 {
        '3'
    } else if d == 4 {
        '4'
    } else if d == 5 {
        '5'
    } else if d == 6 {
        '6'
    } else if d == 7 {
        '7'
    } else if d == 8 {
        '8'
    } else {
        '9'
    }
}

/// The decimal rendering of a non-negative number, most significant digit
/// first.
pub open spec fn spec_decimal(n: int) -> Seq<char>
    decreases n,
    when n >= 0
{
    if n < 10 {
        seq![digit_char(n)]
    } else {
        spec_decimal(n / 10) + seq![digit_char(n % 10)]
    }
}

/// The digits of `ds` as characters, in reverse order.
spec fn chars_rev(ds: Seq<usize>) -> Seq<char>
    decreases ds.len(),
{
    if ds.len() == 0 {
        Seq::empty()
    } else {
        chars_rev(ds.drop_first()) + seq![digit_char(ds.first() as int)]
    }
}

proof fn lemma_chars_rev_push(ds: Seq<usize>, x: usize)
    ensures
        chars_rev(ds.push(x)) == seq![digit_char(x as int)] + chars_rev(ds),
    decreases ds.len(),
{
    if ds.len() == 0 {
        let e: Seq<usize> = Seq::empty();
        assert(chars_rev(e) =~= Seq::<char>::empty());
        assert(chars_rev(ds) =~= Seq::<char>::empty());
        assert(ds.push(x).drop_first() =~= e);
        assert(ds.push(x).first() == x);
        assert(chars_rev(ds.push(x)) =~= seq![digit_char(x as int)] + chars_rev(ds));
    } else {
        assert(ds.push(x).drop_first() =~= ds.drop_first().push(x));
        assert(ds.push(x).first() == ds.first());
        lemma_chars_rev_push(ds.drop_first(), x);
        assert(chars_rev(ds.push(x)) == chars_rev(ds.drop_first().push(x)) + seq![
            digit_char(ds.first() as int),
        ]);
        assert(chars_rev(ds.push(x)) =~= seq![digit_char(x as int)] + chars_rev(ds));
    }
}

fn digit_str(d: usize) -> (r: &'static str)
    requires
        d < 10,
    ensures
        r@ == seq![digit_char(d as int)],
{
    proof {
        reveal_strlit("0");
        reveal_strlit("1");
        reveal_strlit("2");
        reveal_strlit("3");
        reveal_strlit("4");
        reveal_strlit("5");
        reveal_strlit("6");
        reveal_strlit("7");
        reveal_strlit("8");
        reveal_strlit("9");
    }
    let r = match d {
        0 => "0",
        1 => "1",
        2 => "2",
        3 => "3",
        4 => "4",
        5 => "5",
        6 => "6",
        7 => "7",
        8 => "8",
        _ => "9",
    };
    proof {
        assert(r@ =~= seq![digit_char(d as int)]);
    }
    r
}

/// Renders a number in decimal.
pub fn usize_to_decimal(n: usize) -> (s: String)
    ensures
        s@ == spec_decimal(n as int),
{
    let mut digits: Vec<usize> = Vec::new();
    let mut m = n;
    if m == 0 {
        digits.push(0);
        proof {
            lemma_chars_rev_push(Seq::empty(), 0);
            assert(chars_rev(digits@) =~= spec_decimal(0));
        }
    }
    while m > 0
        invariant
            n > 0 ==> m <= n,
            forall|t: int| 0 <= t < digits@.len() ==> digits@[t] < 10,
            spec_decimal(n as int) == if m > 0 {
                spec_decimal(m as int) + chars_rev(digits@)
            } else {
                chars_rev(digits@)
            },
        decreases m,
    {
        let d = m % 10;
        let ghost prev = digits@;
        digits.push(d);
        proof {
            lemma_chars_rev_push(prev, d);
            if m >= 10 {
                assert(spec_decimal(m as int) == spec_decimal(m as int / 10) + seq![
                    digit_char(m as int % 10),
                ]);
            }
            assert(spec_decimal(m as int) + chars_rev(prev) =~= (if m / 10 > 0 {
                spec_decimal(m as int / 10) + chars_rev(digits@)
            } else {
                chars_rev(digits@)
            }));
        }
        m = m / 10;
    }
    let mut out = String::new();
    let mut idx = digits.len();
    proof {
        assert(digits@.skip(digits@.len() as int) =~= Seq::<usize>::empty());
    }
    while idx > 0
        invariant
            idx <= digits@.len(),
            forall|t: int| 0 <= t < digits@.len() ==> digits@[t] < 10,
            out@ == chars_rev(digits@.skip(idx as int)),
        decreases idx,
    {
        idx = idx - 1;
        out.append(digit_str(digits[idx]));
        proof {
            assert(digits@.skip(idx as int).drop_first() =~= digits@.skip(idx as int + 1));
            assert(digits@.skip(idx as int).first() == digits@[idx as int]);
        }
    }
    proof {
        assert(digits@.skip(0) =~= digits@);
    }
    out
}

impl Grid {
    /// One row of the text rendering: the first `j` cells of row `i`, each
    /// followed by a space.
    pub open spec fn spec_render_row(self, i: int, j: int) -> Seq<char>
        decreases j,
        when j >= 0
    {
        if j <= 0 {
            Seq::empty()
        } else {
            self.spec_render_row(i, j - 1) + spec_decimal(self.spec_cell(i, j - 1) as int) + seq![
                ' ',
            ]
        }
    }

    /// The text rendering of the first `i` rows, one line each.
    pub open spec fn spec_render(self, i: int) -> Seq<char>
        decreases i,
        when i >= 0
    {
        if i <= 0 {
            Seq::empty()
        } else {
            self.spec_render(i - 1) + self.spec_render_row(i - 1, self.spec_cols() as int) + seq![
                '\n',
            ]
        }
    }

    /// The whole grid as text, one line per row, cells separated by spaces.
    pub fn display(&self) -> (r: String)
        requires
            self.wf(),
        ensures
            r@ == self.spec_render(self.spec_rows() as int),
    {
        proof {
            reveal_strlit(" ");
            reveal_strlit("\n");
        }
        let mut out = String::new();
        let m = self.num_rows;
        let n = self.num_cols;
        let mut i: usize = 0;
        while i < m
            invariant
                self.wf(),
                m == self.spec_rows(),
                n == self.spec_cols(),
                i <= m,
                " "@ == seq![' '],
                "\n"@ == seq!['\n'],
                out@ == self.spec_render(i as int),
            decreases m - i,
        {
            let mut j: usize = 0;
            while j < n
                invariant
                    self.wf(),
                    m == self.spec_rows(),
                    n == self.spec_cols(),
                    i < m,
                    j <= n,
                    " "@ == seq![' '],
                    out@ == self.spec_render(i as int) + self.spec_render_row(i as int, j as int),
                decreases n - j,
            {
                let v: usize = match self.get(i, j) {
                    Some(v) => v,
                    None => 0,
                };
                let num = usize_to_decimal(v);
                out.append(num.as_str());
                out.append(" ");
                j += 1;
            }
            out.append("\n");
            i += 1;
        }
        out
    }
}

/// Every element is smaller than every later one.
pub open spec fn strictly_sorted(s: Seq<usize>) -> bool {
    forall|i: int, j: int| 0 <= i < j < s.len() ==> s[i] < s[j]
}

/// Insertion into a strictly sorted sequence, keeping it sorted and
/// without duplicates.
pub open spec fn sorted_insert(s: Seq<usize>, x: usize) -> Seq<usize>
    decreases s.len(),
{
    if s.len() == 0 {
        seq![x]
    } else if s.last() < x {
        s.push(x)
    } else if s.last() == x {
        s
    } else {
        sorted_insert(s.drop_last(), x).push(s.last())
    }
}

proof fn lemma_sorted_insert_props(s: Seq<usize>, x: usize)
    requires
        strictly_sorted(s),
    ensures
        strictly_sorted(sorted_insert(s, x)),
        forall|y: usize| #[trigger] sorted_insert(s, x).contains(y) ==> s.contains(y) || y == x,
        forall|y: usize| #[trigger] s.contains(y) ==> sorted_insert(s, x).contains(y),
        sorted_insert(s, x).contains(x),
        sorted_insert(s, x).len() <= s.len() + 1,
    decreases s.len(),
{
    let r = sorted_insert(s, x);
    if s.len() == 0 {
        assert(r[0] == x);
        assert forall|y: usize| #[trigger] r.contains(y) implies s.contains(y) || y == x by {
            let k = choose|k: int| 0 <= k < r.len() && r[k] == y;
        }
    } else if s.last() < x {
        assert(r[s.len() as int] == x);
        assert forall|y: usize| #[trigger] r.contains(y) implies s.contains(y) || y == x by {
            let k = choose|k: int| 0 <= k < r.len() && r[k] == y;
            if k < s.len() {
                assert(s[k] == y);
            }
        }
        assert forall|y: usize| #[trigger] s.contains(y) implies r.contains(y) by {
            let k = choose|k: int| 0 <= k < s.len() && s[k] == y;
            assert(r[k] == y);
        }
    } else if s.last() == x {
        assert(s[s.len() - 1] == x);
    } else {
        assert(strictly_sorted(s.drop_last()));
        lemma_sorted_insert_props(s.drop_last(), x);
        let inner = sorted_insert(s.drop_last(), x);
        // every element of `inner` is below `s.last()`, so pushing the last
        // element back keeps the order
        assert forall|k: int| 0 <= k < inner.len() implies inner[k] < s.last() by {
            assert(inner.contains(inner[k]));
            if s.drop_last().contains(inner[k]) {
                let t = choose|t: int|
                    0 <= t < s.drop_last().len() && s.drop_last()[t] == inner[k];
                assert(s[t] == inner[k]);
            }
        }
        assert forall|y: usize| #[trigger] r.contains(y) implies s.contains(y) || y == x by {
            let k = choose|k: int| 0 <= k < r.len() && r[k] == y;
            if k < inner.len() {
                assert(inner[k] == y);
                assert(inner.contains(y));
                if s.drop_last().contains(y) {
                    let t = choose|t: int|
                        0 <= t < s.drop_last().len() && s.drop_last()[t] == y;
                    assert(s[t] == y);
                }
            } else {
                assert(y == s.last());
                assert(s[s.len() - 1] == y);
            }
        }
        assert forall|y: usize| #[trigger] s.contains(y) implies r.contains(y) by {
            let k = choose|k: int| 0 <= k < s.len() && s[k] == y;
            if k < s.len() - 1 {
                assert(s.drop_last()[k] == y);
                assert(s.drop_last().contains(y));
                assert(inner.contains(y));
                let t = choose|t: int| 0 <= t < inner.len() && inner[t] == y;
                assert(r[t] == y);
            } else {
                assert(y == s.last());
                assert(r[r.len() - 1] == y);
            }
        }
        assert(r.contains(x)) by {
            assert(inner.contains(x));
            let t = choose|t: int| 0 <= t < inner.len() && inner[t] == x;
            assert(r[t] == x);
        }
    }
}

fn sorted_insert_vec(v: &mut Vec<usize>, x: usize)
    ensures
        final(v)@ == sorted_insert(old(v)@, x),
    decreases old(v)@.len(),
{
    let n = v.len();
    if n == 0 {
        v.push(x);
        proof {
            assert(v@ =~= seq![x]);
        }
    } else {
        let last = v[n - 1];
        if last < x {
            v.push(x);
        } else if last == x {
        } else {
            let ghost prev = v@;
            let popped = match v.pop() {
                Some(p) => p,
                None => 0,
            };
            proof {
                assert(v@ =~= prev.drop_last());
            }
            sorted_insert_vec(v, x);
            v.push(popped);
        }
    }
}

/// A set of line indices, kept as a strictly increasing vector; the view is
/// that vector, so listing the set in ascending order is the identity.
pub struct IndexSet {
    elems: Vec<usize>,
}

impl View for IndexSet {
    type V = Seq<usize>;

    closed spec fn view(&self) -> Seq<usize> {
        self.elems@
    }
}

impl IndexSet {
    /// Internal invariant: ascending, no duplicates.
    pub closed spec fn wf(&self) -> bool {
        strictly_sorted(self.elems@)
    }

    /// The empty set.
    pub fn new() -> (r: IndexSet)
        ensures
            r.wf(),
            r@ == Seq::<usize>::empty(),
    {
        IndexSet { elems: Vec::new() }
    }

    /// Number of elements.
    pub fn len(&self) -> (n: usize)
        ensures
            n == self@.len(),
    {
        self.elems.len()
    }

    /// Whether `x` is in the set.
    pub fn contains_index(&self, x: usize) -> (r: bool)
        ensures
            r == self@.contains(x),
    {
        let n = self.elems.len();
        let mut k: usize = 0;
        while k < n
            invariant
                n == self.elems@.len(),
                k <= n,
                self@ == self.elems@,
                forall|t: int| 0 <= t < k ==> self.elems@[t] != x,
            decreases n - k,
        {
            if self.elems[k] == x {
                assert(self@[k as int] == x);
                return true;
            }
            k += 1;
        }
        proof {
            if self@.contains(x) {
                let t = choose|t: int| 0 <= t < self@.len() && self@[t] == x;
            }
        }
        false
    }

    /// Adds `x`, keeping the order; a no-op when already present.
    pub fn insert(&mut self, x: usize)
        requires
            old(self).wf(),
        ensures
            final(self).wf(),
            final(self)@ == sorted_insert(old(self)@, x),
    {
        proof {
            lemma_sorted_insert_props(self.elems@, x);
        }
        sorted_insert_vec(&mut self.elems, x);
    }

    /// The elements in ascending order.
    pub fn to_vec(&self) -> (r: Vec<usize>)
        ensures
            r@ == self@,
    {
        self.elems.clone()
    }
}

/// The traversal of the LCS table that collects, into the two sets, the
/// line indices the listing treats as matched: at `(i, j)` equal lines are
/// recorded and the walk steps diagonally; otherwise it follows the larger
/// neighbouring cell.
pub open spec fn helper_spec(
    g: Grid,
    a: Seq<Seq<char>>,
    b: Seq<Seq<char>>,
    i: int,
    j: int,
    t1: Seq<usize>,
    t2: Seq<usize>,
) -> (Seq<usize>, Seq<usize>)
    decreases i + j,
    when 0 <= i && 0 <= j
{
    let matched = a[i] == b[j];
    let u1 = if matched {
        sorted_insert(t1, i as usize)
    } else {
        t1
    };
    let u2 = if matched {
        sorted_insert(t2, j as usize)
    } else {
        t2
    };
    if i == 0 && j == 0 {
        (u1, u2)
    } else if i == 0 {
        helper_spec(g, a, b, i, j - 1, u1, u2)
    } else if j == 0 {
        helper_spec(g, a, b, i - 1, j, u1, u2)
    } else if matched {
        helper_spec(g, a, b, i - 1, j - 1, u1, u2)
    } else if g.spec_cell(i - 1, j) > g.spec_cell(i, j - 1) {
        helper_spec(g, a, b, i - 1, j, t1, t2)
    } else {
        helper_spec(g, a, b, i, j - 1, t1, t2)
    }
}

/// Walks the LCS table from `(i, j)` towards the origin, recording into the
/// two sets the indices of lines the listing keeps.
pub fn helper(
    lcs_table: &Grid,
    lines1: &Vec<String>,
    lines2: &Vec<String>,
    i: usize,
    j: usize,
    lcs_in_1: &mut IndexSet,
    lcs_in_2: &mut IndexSet,
)
    requires
        lcs_table.wf(),
        old(lcs_in_1).wf(),
        old(lcs_in_2).wf(),
        lcs_table.spec_rows() == lines1@.len(),
        lcs_table.spec_cols() == lines2@.len(),
        i < lines1@.len(),
        j < lines2@.len(),
    ensures
        final(lcs_in_1).wf(),
        final(lcs_in_2).wf(),
        (final(lcs_in_1)@, final(lcs_in_2)@) == helper_spec(
            *lcs_table,
            lines1.deep_view(),
            lines2.deep_view(),
            i as int,
            j as int,
            old(lcs_in_1)@,
            old(lcs_in_2)@,
        ),
    decreases i + j,
{
    let ghost a = lines1.deep_view();
    let ghost b = lines2.deep_view();
    proof {
        assert(a[i as int] == lines1@[i as int]@);
        assert(b[j as int] == lines2@[j as int]@);
    }
    let matched = lines1[i].eq(&lines2[j]);
    if matched {
        lcs_in_1.insert(i);
        lcs_in_2.insert(j);
    }
    if i == 0 && j == 0 {
    } else if i == 0 {
        helper(lcs_table, lines1, lines2, i, j - 1, lcs_in_1, lcs_in_2);
    } else if j == 0 {
        helper(lcs_table, lines1, lines2, i - 1, j, lcs_in_1, lcs_in_2);
    } else if matched {
        helper(lcs_table, lines1, lines2, i - 1, j - 1, lcs_in_1, lcs_in_2);
    } else {
        let up: usize = match lcs_table.get(i - 1, j) {
            Some(v) => v,
            None => 0,
        };
        let left: usize = match lcs_table.get(i, j - 1) {
            Some(v) => v,
            None => 0,
        };
        if up > left {
            helper(lcs_table, lines1, lines2, i - 1, j, lcs_in_1, lcs_in_2);
        } else {
            helper(lcs_table, lines1, lines2, i, j - 1, lcs_in_1, lcs_in_2);
        }
    }
}

/// Index of the first occurrence of `x` in `s`; `s.len()` when absent.
pub open spec fn first_pos(s: Seq<usize>, x: usize) -> int
    decreases s.len(),
{
    if s.len() == 0 {
        0
    } else if s.first() == x {
        0
    } else {
        1 + first_pos(s.drop_first(), x)
    }
}

proof fn lemma_first_pos(s: Seq<usize>, x: usize)
    requires
        s.contains(x),
    ensures
        0 <= first_pos(s, x) < s.len(),
        s[first_pos(s, x)] == x,
        forall|t: int| 0 <= t < first_pos(s, x) ==> s[t] != x,
    decreases s.len(),
{
    if s.first() != x {
        assert(s.drop_first().contains(x)) by {
            let k = choose|k: int| 0 <= k < s.len() && s[k] == x;
            assert(s.drop_first()[k - 1] == x);
        }
        lemma_first_pos(s.drop_first(), x);
        assert forall|t: int| 0 <= t < first_pos(s, x) implies s[t] != x by {
            if t > 0 {
                assert(s.drop_first()[t - 1] == s[t]);
            }
        }
    }
}

/// The original-file position attributed to an added line: scanning from
/// `k` downwards for the nearest index that the matched set holds, that
/// index is looked up in the second listing and the entry at the same
/// position of the first listing, plus one, is the answer; zero when the
/// scan reaches the start without a match.
pub open spec fn delete_index_spec(v1: Seq<usize>, s2: Seq<usize>, v2: Seq<usize>, k: int) -> usize
    decreases k + 1,
    when k >= -1
{
    if k < 0 {
        0
    } else if s2.contains(k as usize) && v2.contains(k as usize) {
        ((v1[first_pos(v2, k as usize)] + 1) as usize)
    } else {
        delete_index_spec(v1, s2, v2, k - 1)
    }
}

/// For an added line at `new_index`, finds the position in the first file
/// after which the diff listing shows it.
pub fn delete_index_in_old(
    v1_helper: &Vec<usize>,
    lcs_in_2: &IndexSet,
    v2_helper: &Vec<usize>,
    new_index: usize,
) -> (r: usize)
    requires
        v2_helper@.len() <= v1_helper@.len(),
        forall|t: int| 0 <= t < v1_helper@.len() ==> v1_helper@[t] < usize::MAX,
    ensures
        r == delete_index_spec(v1_helper@, lcs_in_2@, v2_helper@, new_index as int - 1),
{
    let ghost v1 = v1_helper@;
    let ghost s2 = lcs_in_2@;
    let ghost v2 = v2_helper@;
    let mut k: usize = new_index;
    while k > 0
        invariant
            v1 == v1_helper@,
            s2 == lcs_in_2@,
            v2 == v2_helper@,
            v2.len() <= v1.len(),
            forall|t: int| 0 <= t < v1.len() ==> v1[t] < usize::MAX,
            k <= new_index,
            delete_index_spec(v1, s2, v2, new_index as int - 1) == delete_index_spec(
                v1,
                s2,
                v2,
                k as int - 1,
            ),
        decreases k,
    {
        let kk = k - 1;
        if lcs_in_2.contains_index(kk) {
            let n2 = v2_helper.len();
            let mut idx: usize = 0;
            while idx < n2
                invariant
                    v1 == v1_helper@,
                    s2 == lcs_in_2@,
                    v2 == v2_helper@,
                    n2 == v2.len(),
                    v2.len() <= v1.len(),
                    forall|t: int| 0 <= t < v1.len() ==> v1[t] < usize::MAX,
                    idx <= n2,
                    forall|t: int| 0 <= t < idx ==> v2[t] != kk,
                    s2.contains(kk),
                    delete_index_spec(v1, s2, v2, new_index as int - 1) == delete_index_spec(
                        v1,
                        s2,
                        v2,
                        kk as int,
                    ),
                decreases n2 - idx,
            {
                if v2_helper[idx] == kk {
                    proof {
                        assert(v2.contains(kk)) by {
                            assert(v2[idx as int] == kk);
                        }
                        lemma_first_pos(v2, kk);
                        assert(first_pos(v2, kk) == idx);
                    }
                    return v1_helper[idx] + 1;
                }
                idx += 1;
            }
            proof {
                if v2.contains(kk) {
                    let t = choose|t: int| 0 <= t < v2.len() && v2[t] == kk;
                }
            }
        }
        k = kk;
    }
    0
}

/// The indices below `bound` that the listing `s` does not hold, in
/// ascending order.
pub open spec fn missing_indices(bound: int, s: Seq<usize>) -> Seq<usize>
    decreases bound,
    when bound >= 0
{
    if bound <= 0 {
        Seq::empty()
    } else {
        missing_indices(bound - 1, s) + if s.contains((bound - 1) as usize) {
            Seq::empty()
        } else {
            seq![(bound - 1) as usize]
        }
    }
}

fn collect_missing(bound: usize, s: &IndexSet) -> (r: Vec<usize>)
    ensures
        r@ == missing_indices(bound as int, s@),
{
    let mut out: Vec<usize> = Vec::new();
    let mut k: usize = 0;
    while k < bound
        invariant
            k <= bound,
            out@ == missing_indices(k as int, s@),
        decreases bound - k,
    {
        if !s.contains_index(k) {
            out.push(k);
            proof {
                assert(out@ =~= missing_indices(k as int, s@) + seq![k]);
            }
        } else {
            proof {
                assert(out@ =~= missing_indices(k as int, s@) + Seq::<usize>::empty());
            }
        }
        k += 1;
    }
    out
}

proof fn lemma_helper_spec_range(
    g: Grid,
    a: Seq<Seq<char>>,
    b: Seq<Seq<char>>,
    i: int,
    j: int,
    t1: Seq<usize>,
    t2: Seq<usize>,
    bound1: usize,
    bound2: usize,
)
    requires
        0 <= i < bound1,
        0 <= j < bound2,
        strictly_sorted(t1),
        strictly_sorted(t2),
        forall|t: int| 0 <= t < t1.len() ==> t1[t] < bound1,
        forall|t: int| 0 <= t < t2.len() ==> t2[t] < bound2,
    ensures
        forall|t: int|
            0 <= t < helper_spec(g, a, b, i, j, t1, t2).0.len() ==> helper_spec(
                g,
                a,
                b,
                i,
                j,
                t1,
                t2,
            ).0[t] < bound1,
        forall|t: int|
            0 <= t < helper_spec(g, a, b, i, j, t1, t2).1.len() ==> helper_spec(
                g,
                a,
                b,
                i,
                j,
                t1,
                t2,
            ).1[t] < bound2,
        strictly_sorted(helper_spec(g, a, b, i, j, t1, t2).0),
        strictly_sorted(helper_spec(g, a, b, i, j, t1, t2).1),
    decreases i + j,
{
    let matched = a[i] == b[j];
    let u1 = if matched {
        sorted_insert(t1, i as usize)
    } else {
        t1
    };
    let u2 = if matched {
        sorted_insert(t2, j as usize)
    } else {
        t2
    };
    if matched {
        lemma_sorted_insert_props(t1, i as usize);
        lemma_sorted_insert_props(t2, j as usize);
        assert forall|t: int| 0 <= t < u1.len() implies u1[t] < bound1 by {
            assert(u1.contains(u1[t]));
            if t1.contains(u1[t]) {
                let w = choose|w: int| 0 <= w < t1.len() && t1[w] == u1[t];
            }
        }
        assert forall|t: int| 0 <= t < u2.len() implies u2[t] < bound2 by {
            assert(u2.contains(u2[t]));
            if t2.contains(u2[t]) {
                let w = choose|w: int| 0 <= w < t2.len() && t2[w] == u2[t];
            }
        }
    }
    if i == 0 && j == 0 {
    } else if i == 0 {
        lemma_helper_spec_range(g, a, b, i, j - 1, u1, u2, bound1, bound2);
    } else if j == 0 {
        lemma_helper_spec_range(g, a, b, i - 1, j, u1, u2, bound1, bound2);
    } else if matched {
        lemma_helper_spec_range(g, a, b, i - 1, j - 1, u1, u2, bound1, bound2);
    } else if g.spec_cell(i - 1, j) > g.spec_cell(i, j - 1) {
        lemma_helper_spec_range(g, a, b, i - 1, j, t1, t2, bound1, bound2);
    } else {
        lemma_helper_spec_range(g, a, b, i, j - 1, t1, t2, bound1, bound2);
    }
}

/// The lines a diff listing derives from the filled LCS table: the indices
/// of lines of the first file that were deleted, and for each added line of
/// the second file, the original-file position it is shown after together
/// with its own index. Nothing is returned when the matched listings cannot
/// be paired (more matched lines on the second side than the first); the
/// reconstruction has no position to attribute in that case.
pub fn compute_diff(lcs_table: &Grid, lines1: &Vec<String>, lines2: &Vec<String>) -> (r: Option<
    (Vec<usize>, Vec<(usize, usize)>),
>)
    requires
        lcs_table.wf(),
        lines1@.len() >= 1,
        lines2@.len() >= 1,
        lcs_table.spec_rows() == lines1@.len(),
        lcs_table.spec_cols() == lines2@.len(),
    ensures
        ({
            let sets = helper_spec(
                *lcs_table,
                lines1.deep_view(),
                lines2.deep_view(),
                lines1@.len() - 1,
                lines2@.len() - 1,
                Seq::empty(),
                Seq::empty(),
            );
            &&& (r is Some <==> sets.1.len() <= sets.0.len())
            &&& match r {
                Some(diff) => {
                    let dels = diff.0;
                    let adds = diff.1;
                    let added = missing_indices(lines2@.len() as int, sets.1);
                    &&& dels@ == missing_indices(lines1@.len() as int, sets.0)
                    &&& adds@.len() == added.len()
                    &&& forall|t: int|
                        0 <= t < adds@.len() ==> adds@[t] == (
                            delete_index_spec(sets.0, sets.1, sets.1, added[t] - 1),
                            added[t],
                        )
                },
                None => true,
            }
        }),
{
    let m = lines1.len();
    let n = lines2.len();
    let mut lcs_in_1 = IndexSet::new();
    let mut lcs_in_2 = IndexSet::new();
    helper(lcs_table, lines1, lines2, m - 1, n - 1, &mut lcs_in_1, &mut lcs_in_2);
    let ghost sets = helper_spec(
        *lcs_table,
        lines1.deep_view(),
        lines2.deep_view(),
        m as int - 1,
        n as int - 1,
        Seq::empty(),
        Seq::empty(),
    );
    proof {
        lemma_helper_spec_range(
            *lcs_table,
            lines1.deep_view(),
            lines2.deep_view(),
            m as int - 1,
            n as int - 1,
            Seq::empty(),
            Seq::empty(),
            m,
            n,
        );
    }
    let v1 = lcs_in_1.to_vec();
    let v2 = lcs_in_2.to_vec();
    if v2.len() > v1.len() {
        return None;
    }
    let dels = collect_missing(m, &lcs_in_1);
    let added = collect_missing(n, &lcs_in_2);
    let mut adds: Vec<(usize, usize)> = Vec::new();
    let ghost added_spec = missing_indices(n as int, sets.1);
    let mut t: usize = 0;
    while t < added.len()
        invariant
            added@ == added_spec,
            v1@ == sets.0,
            v2@ == sets.1,
            lcs_in_2@ == sets.1,
            v2@.len() <= v1@.len(),
            forall|w: int| 0 <= w < v1@.len() ==> v1@[w] < usize::MAX,
            t <= added@.len(),
            adds@.len() == t,
            forall|w: int|
                0 <= w < t ==> adds@[w] == (
                    delete_index_spec(sets.0, sets.1, sets.1, added_spec[w] - 1),
                    added_spec[w],
                ),
        decreases added@.len() - t,
    {
        let idx = added[t];
        let val = delete_index_in_old(&v1, &lcs_in_2, &v2, idx);
        adds.push((val, idx));
        t += 1;
    }
    Some((dels, adds))
}

} // verus!

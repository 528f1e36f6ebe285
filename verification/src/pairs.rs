//! Unordered pairs of line indices: how many there are, and in which order
//! they are handed out.

use vstd::prelude::*;

verus! {

/// One comparison: the indices of two different lines, the smaller one first.
#[derive(Clone, Copy, Debug, PartialEq, Eq, Structural, PartialOrd, Ord, Hash)]
pub struct PairKey {
    pub line_a: u32,
    pub line_b: u32,
}

/// The number of unordered pairs among `n` items: `n * (n - 1) / 2`, and `0`
/// when there are fewer than two items.
pub open spec fn pair_count(n: nat) -> nat {
    if n < 2 {
        0
    } else {
        (n * (n - 1) / 2) as nat
    }
}

/// The number of pairs among `n` items whose smaller index is `i`.
pub open spec fn row_len(n: nat, i: nat) -> nat {
    if i + 1 < n {
        (n - 1 - i) as nat
    } else {
        0
    }
}

/// The pairs among `n` items whose smaller index is `i`, by ascending larger index.
pub open spec fn row_pairs(n: nat, i: nat) -> Seq<PairKey> {
    Seq::new(row_len(n, i), |k: int| PairKey { line_a: i as u32, line_b: (i + 1 + k) as u32 })
}

/// The number of pairs among `n` items whose smaller index is below `i`.
pub open spec fn rows_len(n: nat, i: nat) -> nat
    decreases i,
{
    if i == 0 {
        0
    } else {
        rows_len(n, (i - 1) as nat) + row_len(n, (i - 1) as nat)
    }
}

/// The pairs among `n` items whose smaller index is below `i`, row after row.
pub open spec fn pairs_before_row(n: nat, i: nat) -> Seq<PairKey>
    decreases i,
{
    if i == 0 {
        Seq::empty()
    } else {
        pairs_before_row(n, (i - 1) as nat) + row_pairs(n, (i - 1) as nat)
    }
}

/// All pairs among `n` items in row-major order: first those with smaller
/// index `0` by ascending larger index, then those with smaller index `1`,
/// and so on.
pub open spec fn all_pairs(n: nat) -> Seq<PairKey> {
    pairs_before_row(n, n)
}

/// The place of the pair `(i, j)` in the row-major order of the pairs among `n` items.
pub open spec fn pair_position(n: nat, i: nat, j: nat) -> nat {
    (rows_len(n, i) + j - i - 1) as nat
}

/// Whether `p` comes before `q` in row-major order.
pub open spec fn comes_before(p: PairKey, q: PairKey) -> bool {
    p.line_a < q.line_a || (p.line_a == q.line_a && p.line_b < q.line_b)
}

/// Twice the number of pairs in the first `i` rows is `i * (2 * n - i - 1)`.
proof fn lemma_rows_len_closed_form(n: nat, i: nat)
    requires
        i <= n,
    ensures
        2 * rows_len(n, i) == i * (2 * n - i - 1),
    decreases i,
{
    if i > 0 {
        let p = (i - 1) as nat;
        lemma_rows_len_closed_form(n, p);
        let before = rows_len(n, p);
        let now = rows_len(n, i);
        assert(now == before + (n - 1 - p));
        assert(2 * now == i * (2 * n - i - 1)) by (nonlinear_arith)
            requires
                i == p + 1,
                2 * before == p * (2 * n - p - 1),
                now == before + (n - 1 - p),
        ;
    } else {
        assert(i * (2 * n - i - 1) == 0) by (nonlinear_arith)
            requires
                i == 0,
        ;
    }
}

/// The rows taken together hold `n * (n - 1) / 2` pairs.
proof fn lemma_rows_len_total(n: nat)
    ensures
        rows_len(n, n) == pair_count(n),
{
    lemma_rows_len_closed_form(n, n);
    if n >= 2 {
        assert(n * (2 * n - n - 1) == n * (n - 1)) by (nonlinear_arith);
    } else if n == 1 {
        assert(rows_len(1, 1) == rows_len(1, 0) + row_len(1, 0));
    }
}

/// Later rows start at later places.
proof fn lemma_rows_len_monotonic(n: nat, i: nat, j: nat)
    requires
        i <= j,
    ensures
        rows_len(n, i) <= rows_len(n, j),
    decreases j,
{
    if i < j {
        lemma_rows_len_monotonic(n, i, (j - 1) as nat);
    }
}

/// The first `i` rows written out hold as many pairs as `rows_len` counts.
proof fn lemma_pairs_before_row_len(n: nat, i: nat)
    ensures
        pairs_before_row(n, i).len() == rows_len(n, i),
    decreases i,
{
    if i > 0 {
        lemma_pairs_before_row_len(n, (i - 1) as nat);
    }
}

/// Every pair in the first `m` rows has its smaller index below `m`, its
/// larger index below `n`, and stands at its own place.
proof fn lemma_pairs_before_row_position(n: nat, m: nat, k: int)
    requires
        n <= u32::MAX,
        m <= n,
        0 <= k < pairs_before_row(n, m).len(),
    ensures
        pairs_before_row(n, m)[k].line_a < m,
        pairs_before_row(n, m)[k].line_a < pairs_before_row(n, m)[k].line_b < n,
        pair_position(
            n,
            pairs_before_row(n, m)[k].line_a as nat,
            pairs_before_row(n, m)[k].line_b as nat,
        ) == k,
    decreases m,
{
    lemma_pairs_before_row_len(n, (m - 1) as nat);
    if k < pairs_before_row(n, (m - 1) as nat).len() {
        lemma_pairs_before_row_position(n, (m - 1) as nat, k);
    } else {
        let c = k - rows_len(n, (m - 1) as nat);
        assert(pairs_before_row(n, m)[k] == row_pairs(n, (m - 1) as nat)[c]);
    }
}

/// The pair `(i, j)` stands at its place in the first `m` rows, for every row `i` below `m`.
proof fn lemma_pairs_before_row_holds(n: nat, m: nat, i: nat, j: nat)
    requires
        n <= u32::MAX,
        i < j < n,
        i < m <= n,
    ensures
        pair_position(n, i, j) < pairs_before_row(n, m).len(),
        pairs_before_row(n, m)[pair_position(n, i, j) as int] == (PairKey {
            line_a: i as u32,
            line_b: j as u32,
        }),
    decreases m,
{
    lemma_pairs_before_row_len(n, (m - 1) as nat);
    lemma_pairs_before_row_len(n, m);
    if i == m - 1 {
        let c = j - i - 1;
        assert(pairs_before_row(n, m)[pair_position(n, i, j) as int] == row_pairs(n, i)[c]);
    } else {
        lemma_pairs_before_row_holds(n, (m - 1) as nat, i, j);
        lemma_rows_len_monotonic(n, i + 1, (m - 1) as nat);
    }
}

/// There are `n * (n - 1) / 2` pairs among `n` items, and none among fewer than two.
pub proof fn lemma_all_pairs_len(n: nat)
    ensures
        all_pairs(n).len() == pair_count(n),
{
    lemma_pairs_before_row_len(n, n);
    lemma_rows_len_total(n);
}

/// Every pair handed out joins two different lines of the `n`, the smaller
/// index first, and stands at the place that row-major order gives it.
pub proof fn lemma_all_pairs_position(n: nat, k: int)
    requires
        n <= u32::MAX,
        0 <= k < all_pairs(n).len(),
    ensures
        all_pairs(n)[k].line_a < all_pairs(n)[k].line_b < n,
        pair_position(n, all_pairs(n)[k].line_a as nat, all_pairs(n)[k].line_b as nat) == k,
{
    lemma_pairs_before_row_position(n, n, k);
}

/// Every pair of two different lines among the `n` is handed out.
pub proof fn lemma_all_pairs_complete(n: nat, i: nat, j: nat)
    requires
        n <= u32::MAX,
        i < j < n,
    ensures
        pair_position(n, i, j) < all_pairs(n).len(),
        all_pairs(n)[pair_position(n, i, j) as int] == (PairKey { line_a: i as u32, line_b: j as u32 }),
{
    lemma_pairs_before_row_holds(n, n, i, j);
}

/// The pairs come in row-major order, so no pair is handed out twice.
pub proof fn lemma_all_pairs_row_major(n: nat, k1: int, k2: int)
    requires
        n <= u32::MAX,
        0 <= k1 < k2 < all_pairs(n).len(),
    ensures
        comes_before(all_pairs(n)[k1], all_pairs(n)[k2]),
        all_pairs(n)[k1] != all_pairs(n)[k2],
{
    let p = all_pairs(n)[k1];
    let q = all_pairs(n)[k2];
    lemma_all_pairs_position(n, k1);
    lemma_all_pairs_position(n, k2);
    if q.line_a < p.line_a {
        lemma_rows_len_monotonic(n, (q.line_a + 1) as nat, p.line_a as nat);
    }
}

/// Returns the number of pair combinations among `num` items.
pub fn pair_combinations_count(num: u32) -> (count: u64)
    ensures
        count == pair_count(num as nat),
{
    if num < 2 {
        0
    } else {
        let n: u64 = num as u64;
        assert(n * (n - 1) <= 0xffff_ffff * 0xffff_ffff) by (nonlinear_arith)
            requires
                2 <= n <= 0xffff_ffff,
        ;
        n * (n - 1) / 2
    }
}

/// Hands out the pairs among a number of lines one by one, in row-major
/// order, without ever holding them all.
#[derive(Clone, Copy, Debug)]
pub struct PairEnumerator {
    lines_cnt: u32,
    line_a: u32,
    line_b: u32,
}

impl PairEnumerator {
    /// The next pair is `(line_a, line_b)`; when the pairs have run out, the
    /// fields rest on the empty last row.
    #[verifier::type_invariant]
    spec fn well_formed(self) -> bool {
        &&& self.line_a < self.line_b
        &&& self.line_b < self.lines_cnt || (self.line_b == self.line_a + 1 && if self.lines_cnt
            >= 2 {
            self.line_b == self.lines_cnt
        } else {
            self.line_a == 0
        })
    }

    /// The number of lines whose pairs are handed out.
    pub closed spec fn lines(self) -> nat {
        self.lines_cnt as nat
    }

    /// The number of pairs handed out so far.
    pub closed spec fn emitted(self) -> nat {
        pair_position(self.lines_cnt as nat, self.line_a as nat, self.line_b as nat)
    }

    /// Starts at the first pair among `lines_cnt` lines.
    pub fn new(lines_cnt: u32) -> (e: Self)
        ensures
            e.lines() == lines_cnt,
            e.emitted() == 0,
    {
        PairEnumerator { lines_cnt, line_a: 0, line_b: 1 }
    }

    /// The number of lines whose pairs are handed out.
    pub fn lines_cnt(&self) -> (n: u32)
        ensures
            n == self.lines(),
    {
        self.lines_cnt
    }

    /// Goes back to the first pair.
    pub fn restart(&mut self)
        ensures
            final(self).lines() == old(self).lines(),
            final(self).emitted() == 0,
    {
        *self = PairEnumerator { lines_cnt: self.lines_cnt, line_a: 0, line_b: 1 };
    }

    /// Hands out the next pair in row-major order, or `None` once all
    /// `n * (n - 1) / 2` pairs have been handed out. A pair always joins two
    /// different lines, the smaller index first.
    pub fn next_pair(&mut self) -> (next: Option<PairKey>)
        ensures
            final(self).lines() == old(self).lines(),
            old(self).emitted() <= pair_count(old(self).lines()),
            match next {
                Some(pair) => {
                    &&& old(self).emitted() < pair_count(old(self).lines())
                    &&& pair == all_pairs(old(self).lines())[old(self).emitted() as int]
                    &&& pair.line_a < pair.line_b < old(self).lines()
                    &&& final(self).emitted() == old(self).emitted() + 1
                },
                None => {
                    &&& old(self).emitted() == pair_count(old(self).lines())
                    &&& *final(self) == *old(self)
                },
            },
    {
        proof {
            use_type_invariant(&*self);
        }
        let n = self.lines_cnt;
        let line_a = self.line_a;
        let line_b = self.line_b;
        proof {
            lemma_rows_len_total(n as nat);
            lemma_all_pairs_len(n as nat);
        }
        if line_b >= n {
            proof {
                if n >= 2 {
                    assert(rows_len(n as nat, n as nat) == rows_len(n as nat, (n - 1) as nat)
                        + row_len(n as nat, (n - 1) as nat));
                }
            }
            None
        } else {
            proof {
                lemma_all_pairs_complete(n as nat, line_a as nat, line_b as nat);
                assert(rows_len(n as nat, (line_a + 1) as nat) == rows_len(n as nat, line_a as nat)
                    + row_len(n as nat, line_a as nat));
            }
            if line_b + 1 < n {
                *self = PairEnumerator { lines_cnt: n, line_a, line_b: line_b + 1 };
            } else {
                *self = PairEnumerator { lines_cnt: n, line_a: line_a + 1, line_b: line_a + 2 };
            }
            Some(PairKey { line_a, line_b })
        }
    }
}

} // verus!

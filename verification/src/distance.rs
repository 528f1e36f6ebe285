//! The optimal-string-alignment (OSA) distance between two byte sequences.
//!
//! The distance counts insertions, deletions, substitutions and swaps of two
//! adjacent bytes, where no byte takes part in more than one operation. It is
//! defined on raw bytes, so it does not depend on how the text is encoded.

use vstd::prelude::*;
use vstd::string::StringSliceAdditionalSpecFns;

verus! {

/// The smaller of two numbers.
pub open spec fn min_of(x: nat, y: nat) -> nat {
    if x <= y {
        x
    } else {
        y
    }
}

/// The larger of two numbers.
pub open spec fn max_of(x: nat, y: nat) -> nat {
    if x >= y {
        x
    } else {
        y
    }
}

/// What it costs to put `y` in the place of `x`: nothing if they are the same byte.
pub open spec fn substitution_cost(x: u8, y: u8) -> nat {
    if x == y {
        0
    } else {
        1
    }
}

/// Whether the last two bytes of the first `i` bytes of `a` are the last two
/// bytes of the first `j` bytes of `b` in swapped order.
pub open spec fn ends_swapped(a: Seq<u8>, b: Seq<u8>, i: nat, j: nat) -> bool {
    i >= 2 && j >= 2 && a[i - 1] == b[j - 2] && a[i - 2] == b[j - 1]
}

/// The OSA distance between the first `i` bytes of `a` and the first `j` bytes of `b`.
///
/// Against an empty prefix every byte of the other prefix is inserted or
/// deleted. Otherwise the last bytes are deleted, inserted or substituted,
/// or, where the two prefixes end in the same two bytes in swapped order,
/// that pair is transposed in one step.
pub open spec fn prefix_distance(a: Seq<u8>, b: Seq<u8>, i: nat, j: nat) -> nat
    decreases i + j,
{
    if i == 0 {
        j
    } else if j == 0 {
        i
    } else {
        let deletion = prefix_distance(a, b, (i - 1) as nat, j) + 1;
        let insertion = prefix_distance(a, b, i, (j - 1) as nat) + 1;
        let substitution = prefix_distance(a, b, (i - 1) as nat, (j - 1) as nat)
            + substitution_cost(a[i - 1], b[j - 1]);
        let best = min_of(min_of(deletion, insertion), substitution);
        if ends_swapped(a, b, i, j) {
            min_of(best, prefix_distance(a, b, (i - 2) as nat, (j - 2) as nat) + 1)
        } else {
            best
        }
    }
}

/// The OSA distance between `a` and `b`.
pub open spec fn osa_distance(a: Seq<u8>, b: Seq<u8>) -> nat {
    prefix_distance(a, b, a.len(), b.len())
}

/// Swapping the two sequences, and the two prefix lengths with them, leaves
/// the distance between the prefixes unchanged.
pub proof fn lemma_prefix_distance_symmetric(a: Seq<u8>, b: Seq<u8>, i: nat, j: nat)
    ensures
        prefix_distance(a, b, i, j) == prefix_distance(b, a, j, i),
    decreases i + j,
{
    if i > 0 && j > 0 {
        lemma_prefix_distance_symmetric(a, b, (i - 1) as nat, j);
        lemma_prefix_distance_symmetric(a, b, i, (j - 1) as nat);
        lemma_prefix_distance_symmetric(a, b, (i - 1) as nat, (j - 1) as nat);
        if i >= 2 && j >= 2 {
            lemma_prefix_distance_symmetric(a, b, (i - 2) as nat, (j - 2) as nat);
        }
    }
}

/// The distance between two prefixes is at most the length of the longer one.
pub proof fn lemma_prefix_distance_upper_bound(a: Seq<u8>, b: Seq<u8>, i: nat, j: nat)
    ensures
        prefix_distance(a, b, i, j) <= max_of(i, j),
    decreases i + j,
{
    if i > 0 && j > 0 {
        lemma_prefix_distance_upper_bound(a, b, (i - 1) as nat, (j - 1) as nat);
    }
}

/// The distance between two prefixes is at least the difference of their lengths.
pub proof fn lemma_prefix_distance_lower_bound(a: Seq<u8>, b: Seq<u8>, i: nat, j: nat)
    ensures
        prefix_distance(a, b, i, j) + min_of(i, j) >= max_of(i, j),
    decreases i + j,
{
    if i > 0 && j > 0 {
        lemma_prefix_distance_lower_bound(a, b, (i - 1) as nat, j);
        lemma_prefix_distance_lower_bound(a, b, i, (j - 1) as nat);
        lemma_prefix_distance_lower_bound(a, b, (i - 1) as nat, (j - 1) as nat);
        if i >= 2 && j >= 2 {
            lemma_prefix_distance_lower_bound(a, b, (i - 2) as nat, (j - 2) as nat);
        }
    }
}

/// A prefix is at distance zero from itself.
pub proof fn lemma_prefix_distance_to_itself(a: Seq<u8>, i: nat)
    ensures
        prefix_distance(a, a, i, i) == 0,
    decreases i,
{
    if i > 0 {
        lemma_prefix_distance_to_itself(a, (i - 1) as nat);
    }
}

/// The distance is symmetric: it is the same from `a` to `b` as from `b` to `a`.
pub proof fn lemma_distance_symmetric(a: Seq<u8>, b: Seq<u8>)
    ensures
        osa_distance(a, b) == osa_distance(b, a),
{
    lemma_prefix_distance_symmetric(a, b, a.len(), b.len());
}

/// Every sequence is at distance zero from itself.
pub proof fn lemma_distance_to_itself(a: Seq<u8>)
    ensures
        osa_distance(a, a) == 0,
{
    lemma_prefix_distance_to_itself(a, a.len());
}

/// The distance between a sequence and the empty sequence, in either order,
/// is the length of the sequence.
pub proof fn lemma_distance_to_empty(a: Seq<u8>)
    ensures
        osa_distance(a, Seq::<u8>::empty()) == a.len(),
        osa_distance(Seq::<u8>::empty(), a) == a.len(),
{
}

/// The distance lies between the difference of the two lengths and the
/// length of the longer sequence.
pub proof fn lemma_distance_bounds(a: Seq<u8>, b: Seq<u8>)
    ensures
        osa_distance(a, b) <= max_of(a.len(), b.len()),
        osa_distance(a, b) + min_of(a.len(), b.len()) >= max_of(a.len(), b.len()),
{
    lemma_prefix_distance_upper_bound(a, b, a.len(), b.len());
    lemma_prefix_distance_lower_bound(a, b, a.len(), b.len());
}

fn smaller(x: u64, y: u64) -> (m: u64)
    ensures
        m == min_of(x as nat, y as nat),
{
    if x <= y {
        x
    } else {
        y
    }
}

/// The first row of the table: the distances from the empty prefix of `a`
/// to each prefix of `b`.
fn first_row(a: &[u8], b: &[u8]) -> (row: Vec<u32>)
    requires
        b@.len() <= u32::MAX,
    ensures
        row@.len() == b@.len() + 1,
        forall|c: int| 0 <= c <= b@.len() ==> row@[c] == prefix_distance(a@, b@, 0, c as nat),
{
    let m = b.len();
    let mut row: Vec<u32> = Vec::new();
    row.push(0);
    let mut j: usize = 0;
    while j < m
        invariant
            m == b@.len(),
            m <= u32::MAX,
            j <= m,
            row@.len() == j + 1,
            forall|c: int| 0 <= c <= j ==> row@[c] == prefix_distance(a@, b@, 0, c as nat),
        decreases m - j,
    {
        j = j + 1;
        row.push(j as u32);
    }
    row
}

/// The row of the table for the first `i + 1` bytes of `a`, from the row
/// `above` it and, where there is one, the row `above2` before that.
fn next_row(a: &[u8], b: &[u8], i: usize, above2: &Vec<u32>, above: &Vec<u32>) -> (row: Vec<u32>)
    requires
        a@.len() <= u32::MAX,
        b@.len() <= u32::MAX,
        i < a@.len(),
        above@.len() == b@.len() + 1,
        forall|c: int| 0 <= c <= b@.len() ==> above@[c] == prefix_distance(a@, b@, i as nat, c as nat),
        i >= 1 ==> above2@.len() == b@.len() + 1,
        i >= 1 ==> forall|c: int|
            0 <= c <= b@.len() ==> above2@[c] == prefix_distance(a@, b@, (i - 1) as nat, c as nat),
    ensures
        row@.len() == b@.len() + 1,
        forall|c: int|
            0 <= c <= b@.len() ==> row@[c] == prefix_distance(a@, b@, (i + 1) as nat, c as nat),
{
    let m = b.len();
    let mut row: Vec<u32> = Vec::new();
    row.push((i + 1) as u32);
    let mut j: usize = 0;
    while j < m
        invariant
            m == b@.len(),
            a@.len() <= u32::MAX,
            m <= u32::MAX,
            i < a@.len(),
            j <= m,
            above@.len() == m + 1,
            forall|c: int| 0 <= c <= m ==> above@[c] == prefix_distance(a@, b@, i as nat, c as nat),
            i >= 1 ==> above2@.len() == m + 1,
            i >= 1 ==> forall|c: int|
                0 <= c <= m ==> above2@[c] == prefix_distance(a@, b@, (i - 1) as nat, c as nat),
            row@.len() == j + 1,
            forall|c: int|
                0 <= c <= j ==> row@[c] == prefix_distance(a@, b@, (i + 1) as nat, c as nat),
        decreases m - j,
    {
        let cost: u64 = if a[i] == b[j] {
            0
        } else {
            1
        };
        let deletion: u64 = above[j + 1] as u64 + 1;
        let insertion: u64 = row[j] as u64 + 1;
        let substitution: u64 = above[j] as u64 + cost;
        let mut best: u64 = smaller(smaller(deletion, insertion), substitution);
        if i > 0 && j > 0 && a[i] == b[j - 1] && a[i - 1] == b[j] {
            let transposition: u64 = above2[j - 1] as u64 + 1;
            best = smaller(best, transposition);
        }
        proof {
            assert(best == prefix_distance(a@, b@, (i + 1) as nat, (j + 1) as nat));
            lemma_prefix_distance_upper_bound(a@, b@, (i + 1) as nat, (j + 1) as nat);
        }
        row.push(best as u32);
        j = j + 1;
    }
    row
}

/// Computes the OSA distance between two byte sequences.
///
/// The table of prefix distances is filled row by row; only the last rows
/// are kept.
pub fn distance(a: &[u8], b: &[u8]) -> (d: u32)
    requires
        a@.len() <= u32::MAX,
        b@.len() <= u32::MAX,
    ensures
        d == osa_distance(a@, b@),
{
    let n = a.len();
    let m = b.len();
    let mut above2: Vec<u32> = Vec::new();
    let mut above: Vec<u32> = first_row(a, b);
    let mut i: usize = 0;
    while i < n
        invariant
            n == a@.len(),
            m == b@.len(),
            n <= u32::MAX,
            m <= u32::MAX,
            i <= n,
            above@.len() == m + 1,
            forall|c: int| 0 <= c <= m ==> above@[c] == prefix_distance(a@, b@, i as nat, c as nat),
            i >= 1 ==> above2@.len() == m + 1,
            i >= 1 ==> forall|c: int|
                0 <= c <= m ==> above2@[c] == prefix_distance(a@, b@, (i - 1) as nat, c as nat),
        decreases n - i,
    {
        let row = next_row(a, b, i, &above2, &above);
        above2 = above;
        above = row;
        i = i + 1;
    }
    above[m]
}

/// Computes the OSA distance between two strings, taken as their bytes.
pub fn calculate_osa_distance_between_two_strings(str_a: &str, str_b: &str) -> (d: u32)
    requires
        str_a.spec_bytes().len() <= u32::MAX,
        str_b.spec_bytes().len() <= u32::MAX,
    ensures
        d == osa_distance(str_a.spec_bytes(), str_b.spec_bytes()),
{
    distance(str_a.as_bytes(), str_b.as_bytes())
}

} // verus!

//! The order in which results are listed, and how many of them.
//!
//! Results are ranked by their raw distance or by their normalized distance,
//! ascending or descending. The normalized distance of a result is the
//! fraction `2 * dldist / total_length`; two such fractions are compared by
//! cross-multiplication, so the order is exact. A result for two empty lines
//! has normalized distance zero.

use std::cmp::Ordering;
use vstd::prelude::*;
use crate::results::DistanceResult;

verus! {

/// On the command line, the number of pairs that stands for "list them all".
pub const NUM_PRINT_ALL: u16 = 0;

/// The length by which the distance of `r` is divided: the bytes of its two
/// lines together, or one where both lines are empty.
pub open spec fn normalizing_length(r: DistanceResult) -> nat {
    if r.total_length == 0 {
        1
    } else {
        r.total_length as nat
    }
}

/// Whether the normalized distance of `a` is at most that of `b`.
pub open spec fn normalized_at_most(a: DistanceResult, b: DistanceResult) -> bool {
    a.dldist * normalizing_length(b) <= b.dldist * normalizing_length(a)
}

/// Whether `a` may stand before `b` in the listing: its distance, raw or
/// normalized, is at most that of `b`, or at least that of `b` where the
/// listing is descending.
pub open spec fn ranks_at_most(
    a: DistanceResult,
    b: DistanceResult,
    normalize: bool,
    descending: bool,
) -> bool {
    let first = if descending {
        b
    } else {
        a
    };
    let second = if descending {
        a
    } else {
        b
    };
    if normalize {
        normalized_at_most(first, second)
    } else {
        first.dldist <= second.dldist
    }
}

/// The number of results to list out of `total` when `n_pairs` were asked
/// for: all of them if `n_pairs` is zero, else `n_pairs` or as many as there are.
pub open spec fn listed_count(total: u64, n_pairs: u16) -> u64 {
    if n_pairs == NUM_PRINT_ALL || total <= n_pairs {
        total
    } else {
        n_pairs as u64
    }
}

/// Cross-multiplied fractions with positive denominators are ordered transitively.
proof fn lemma_fractions_transitive(x1: nat, l1: nat, x2: nat, l2: nat, x3: nat, l3: nat)
    requires
        l1 > 0,
        l2 > 0,
        l3 > 0,
        x1 * l2 <= x2 * l1,
        x2 * l3 <= x3 * l2,
    ensures
        x1 * l3 <= x3 * l1,
{
    assert((x1 * l2) * l3 <= (x2 * l1) * l3) by (nonlinear_arith)
        requires
            x1 * l2 <= x2 * l1,
    ;
    assert((x2 * l3) * l1 <= (x3 * l2) * l1) by (nonlinear_arith)
        requires
            x2 * l3 <= x3 * l2,
    ;
    assert((x2 * l1) * l3 == (x2 * l3) * l1) by (nonlinear_arith);
    assert((x1 * l2) * l3 == (x1 * l3) * l2) by (nonlinear_arith);
    assert((x3 * l2) * l1 == (x3 * l1) * l2) by (nonlinear_arith);
    assert(x1 * l3 <= x3 * l1) by (nonlinear_arith)
        requires
            (x1 * l3) * l2 <= (x3 * l1) * l2,
            l2 > 0,
    ;
}

/// The ranking is a total preorder: every result ranks at most itself, of
/// two results one ranks at most the other, and ranking at most is transitive.
pub proof fn lemma_ranking_total_preorder(
    a: DistanceResult,
    b: DistanceResult,
    c: DistanceResult,
    normalize: bool,
    descending: bool,
)
    ensures
        ranks_at_most(a, a, normalize, descending),
        ranks_at_most(a, b, normalize, descending) || ranks_at_most(b, a, normalize, descending),
        ranks_at_most(a, b, normalize, descending) && ranks_at_most(b, c, normalize, descending)
            ==> ranks_at_most(a, c, normalize, descending),
{
    if normalize && ranks_at_most(a, b, normalize, descending) && ranks_at_most(
        b,
        c,
        normalize,
        descending,
    ) {
        if descending {
            lemma_fractions_transitive(
                c.dldist as nat,
                normalizing_length(c),
                b.dldist as nat,
                normalizing_length(b),
                a.dldist as nat,
                normalizing_length(a),
            );
        } else {
            lemma_fractions_transitive(
                a.dldist as nat,
                normalizing_length(a),
                b.dldist as nat,
                normalizing_length(b),
                c.dldist as nat,
                normalizing_length(c),
            );
        }
    }
}

fn normalized_not_above(a: &DistanceResult, b: &DistanceResult) -> (at_most: bool)
    ensures
        at_most == normalized_at_most(*a, *b),
{
    let length_a: u128 = if a.total_length == 0 {
        1
    } else {
        a.total_length as u128
    };
    let length_b: u128 = if b.total_length == 0 {
        1
    } else {
        b.total_length as u128
    };
    let dldist_a: u128 = a.dldist as u128;
    let dldist_b: u128 = b.dldist as u128;
    assert(dldist_a * length_b <= 0xffff_ffff * 0xffff_ffff_ffff_ffff) by (nonlinear_arith)
        requires
            dldist_a <= 0xffff_ffff,
            length_b <= 0xffff_ffff_ffff_ffff,
    ;
    assert(dldist_b * length_a <= 0xffff_ffff * 0xffff_ffff_ffff_ffff) by (nonlinear_arith)
        requires
            dldist_b <= 0xffff_ffff,
            length_a <= 0xffff_ffff_ffff_ffff,
    ;
    dldist_a * length_b <= dldist_b * length_a
}

fn in_order(a: &DistanceResult, b: &DistanceResult, normalize: bool, descending: bool) -> (at_most:
    bool)
    ensures
        at_most == ranks_at_most(*a, *b, normalize, descending),
{
    let first = if descending {
        b
    } else {
        a
    };
    let second = if descending {
        a
    } else {
        b
    };
    if normalize {
        normalized_not_above(first, second)
    } else {
        first.dldist <= second.dldist
    }
}

/// Compares two results for the listing: `Less` if `a` must stand before
/// `b`, `Greater` if it must stand after it, `Equal` if either may come first.
pub fn compare_results(
    a: &DistanceResult,
    b: &DistanceResult,
    normalize: bool,
    descending: bool,
) -> (order: Ordering)
    ensures
        order == Ordering::Less <==> !ranks_at_most(*b, *a, normalize, descending),
        order == Ordering::Greater <==> !ranks_at_most(*a, *b, normalize, descending),
        order == Ordering::Equal <==> ranks_at_most(*a, *b, normalize, descending)
            && ranks_at_most(*b, *a, normalize, descending),
{
    let forth = in_order(a, b, normalize, descending);
    let back = in_order(b, a, normalize, descending);
    if forth && back {
        Ordering::Equal
    } else if forth {
        Ordering::Less
    } else {
        Ordering::Greater
    }
}

/// Settles how many of `combinations_cnt` results are listed when `n_pairs`
/// were asked for, where zero asks for all of them.
pub fn print_count(combinations_cnt: u64, n_pairs: u16) -> (count: u64)
    ensures
        count == listed_count(combinations_cnt, n_pairs),
{
    if n_pairs == NUM_PRINT_ALL || combinations_cnt <= n_pairs as u64 {
        combinations_cnt
    } else {
        n_pairs as u64
    }
}

} // verus!

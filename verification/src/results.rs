//! The result of comparing one pair of lines, and the results of comparing
//! every pair of a text one after the other.

use vstd::prelude::*;
use vstd::string::StringSliceAdditionalSpecFns;
use vstd::utf8::encode_utf8;
use crate::distance::{distance, osa_distance};
use crate::pairs::{all_pairs, lemma_all_pairs_len, pair_combinations_count, pair_count,
    PairEnumerator, PairKey};

verus! {

/// What was found for one pair of lines.
///
/// The mean length of the two lines is `total_length / 2`, and the
/// normalized distance is `dldist` divided by that mean, which is the
/// fraction `2 * dldist / total_length`. Both are held as whole numbers, so
/// they are exact. Where both lines are empty the normalized distance counts
/// as zero.
#[derive(Clone, Copy, Debug, PartialEq, Eq, Structural, PartialOrd, Ord, Hash)]
pub struct DistanceResult {
    /// The index of the first line.
    pub line_a: u32,
    /// The index of the second line.
    pub line_b: u32,
    /// The OSA distance between the two lines.
    pub dldist: u32,
    /// The number of bytes of the two lines together.
    pub total_length: u64,
}

/// The bytes of a line of text.
pub open spec fn line_bytes(line: Seq<char>) -> Seq<u8> {
    encode_utf8(line)
}

/// The result for `pair`, where `a` and `b` are the bytes of its two lines.
pub open spec fn result_for(pair: PairKey, a: Seq<u8>, b: Seq<u8>) -> DistanceResult {
    DistanceResult {
        line_a: pair.line_a,
        line_b: pair.line_b,
        dldist: osa_distance(a, b) as u32,
        total_length: (a.len() + b.len()) as u64,
    }
}

/// The result for `pair` among `lines`.
pub open spec fn result_among(lines: Seq<String>, pair: PairKey) -> DistanceResult {
    result_for(
        pair,
        line_bytes(lines[pair.line_a as int]@),
        line_bytes(lines[pair.line_b as int]@),
    )
}

/// The results for all pairs among `lines`, in row-major order of the pairs.
pub open spec fn expected_results(lines: Seq<String>) -> Seq<DistanceResult> {
    all_pairs(lines.len()).map_values(|pair: PairKey| result_among(lines, pair))
}

/// Whether the lines are few enough and short enough for their indices and
/// distances to be held in 32 bits.
pub open spec fn comparable(lines: Seq<String>) -> bool {
    &&& lines.len() <= u32::MAX
    &&& forall|i: int| 0 <= i < lines.len() ==> (#[trigger] line_bytes(lines[i]@)).len() <= u32::MAX
}

/// Tells whether the lines are few enough and short enough to be compared.
pub fn is_comparable(lines: &Vec<String>) -> (fits: bool)
    ensures
        fits == comparable(lines@),
{
    if lines.len() > u32::MAX as usize {
        return false;
    }
    let mut i: usize = 0;
    while i < lines.len()
        invariant
            i <= lines@.len(),
            forall|k: int| 0 <= k < i ==> (#[trigger] line_bytes(lines@[k]@)).len() <= u32::MAX,
        decreases lines@.len() - i,
    {
        if lines[i].as_str().as_bytes().len() > u32::MAX as usize {
            assert(line_bytes(lines@[i as int]@).len() > u32::MAX);
            return false;
        }
        i = i + 1;
    }
    true
}

/// Compares the two lines of one pair.
pub fn distance_result(pair: PairKey, line_a: &str, line_b: &str) -> (result: DistanceResult)
    requires
        line_a.spec_bytes().len() <= u32::MAX,
        line_b.spec_bytes().len() <= u32::MAX,
    ensures
        result == result_for(pair, line_a.spec_bytes(), line_b.spec_bytes()),
{
    let a = line_a.as_bytes();
    let b = line_b.as_bytes();
    DistanceResult {
        line_a: pair.line_a,
        line_b: pair.line_b,
        dldist: distance(a, b),
        total_length: a.len() as u64 + b.len() as u64,
    }
}

/// Compares every pair of lines, one pair after the other, and returns the
/// results in row-major order of the pairs.
pub fn calculate_osa_distances(lines: &Vec<String>) -> (results: Vec<DistanceResult>)
    requires
        comparable(lines@),
    ensures
        results@ == expected_results(lines@),
        results@.len() == pair_count(lines@.len()),
{
    let lines_cnt = lines.len() as u32;
    let mut pairs = PairEnumerator::new(lines_cnt);
    let mut results: Vec<DistanceResult> = Vec::new();
    proof {
        lemma_all_pairs_len(lines@.len());
    }
    loop
        invariant
            comparable(lines@),
            lines_cnt == lines@.len(),
            pairs.lines() == lines@.len(),
            pairs.emitted() <= pair_count(lines@.len()),
            all_pairs(lines@.len()).len() == pair_count(lines@.len()),
            results@ == expected_results(lines@).take(pairs.emitted() as int),
        decreases pair_count(lines@.len()) - pairs.emitted(),
    {
        let ghost done = pairs.emitted();
        match pairs.next_pair() {
            None => {
                return results;
            },
            Some(pair) => {
                let line_a = lines[pair.line_a as usize].as_str();
                let line_b = lines[pair.line_b as usize].as_str();
                assert(line_bytes(lines@[pair.line_a as int]@).len() <= u32::MAX);
                assert(line_bytes(lines@[pair.line_b as int]@).len() <= u32::MAX);
                let result = distance_result(pair, line_a, line_b);
                results.push(result);
                assert(results@ == expected_results(lines@).take(done as int + 1));
            },
        }
    }
}

/// The number of results that were collected is not the number of pairs.
#[derive(Clone, Copy, Debug, PartialEq, Eq, Structural)]
pub struct CountMismatch {
    /// How many results were collected.
    pub collected: u64,
    /// How many pairs there are among the lines.
    pub expected: u64,
}

/// Collects the results as they come in, in whatever order, and checks at
/// the end that there is one for every pair.
#[derive(Debug)]
pub struct ResultAggregator {
    lines_cnt: u32,
    results: Vec<DistanceResult>,
}

impl ResultAggregator {
    /// The number of lines that are compared.
    pub closed spec fn lines(self) -> nat {
        self.lines_cnt as nat
    }

    /// The results collected so far, in the order in which they came.
    pub closed spec fn collected(self) -> Seq<DistanceResult> {
        self.results@
    }

    /// Starts with nothing collected.
    pub fn new(lines_cnt: u32) -> (aggregator: Self)
        ensures
            aggregator.lines() == lines_cnt,
            aggregator.collected() == Seq::<DistanceResult>::empty(),
    {
        ResultAggregator { lines_cnt, results: Vec::new() }
    }

    /// Takes in one result.
    pub fn accept(&mut self, result: DistanceResult)
        ensures
            final(self).lines() == old(self).lines(),
            final(self).collected() == old(self).collected().push(result),
    {
        self.results.push(result);
    }

    /// Hands over what was collected if there are exactly as many results as
    /// there are pairs among the lines, and reports the two counts otherwise.
    pub fn finish(self) -> (outcome: Result<Vec<DistanceResult>, CountMismatch>)
        ensures
            match outcome {
                Ok(results) => {
                    &&& results@ == self.collected()
                    &&& results@.len() == pair_count(self.lines())
                },
                Err(mismatch) => {
                    &&& self.collected().len() != pair_count(self.lines())
                    &&& mismatch.collected == self.collected().len()
                    &&& mismatch.expected == pair_count(self.lines())
                },
            },
    {
        let collected = self.results.len() as u64;
        let expected = pair_combinations_count(self.lines_cnt);
        if collected == expected {
            Ok(self.results)
        } else {
            Err(CountMismatch { collected, expected })
        }
    }
}

} // verus!

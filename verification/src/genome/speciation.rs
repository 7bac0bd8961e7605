//! How far two genomes are apart, for sorting them into species.

use crate::genome::gene::ConnectionGene;
use crate::genome::recombination::lookup;
use crate::genome::{Genome, WEIGHT_UNIT};
use vstd::prelude::*;

verus! {

/// The distance between two weights.
pub open spec fn weight_distance(a: i64, b: i64) -> nat {
    if a >= b {
        (a - b) as nat
    } else {
        (b - a) as nat
    }
}

/// How many of the connections `own` find a match in `other`: a connection
/// with the same innovation number.
pub open spec fn matching_count(own: Seq<ConnectionGene>, other: Seq<ConnectionGene>) -> nat
    decreases own.len(),
{
    if own.len() == 0 {
        0
    } else {
        matching_count(own.drop_last(), other) + if lookup(
            other,
            own.last().innovation_number,
        ).is_some() {
            1nat
        } else {
            0nat
        }
    }
}

/// The sum, over the connections `own` that find a match in `other`, of the
/// distance between the two weights.
pub open spec fn weight_gap(own: Seq<ConnectionGene>, other: Seq<ConnectionGene>) -> nat
    decreases own.len(),
{
    if own.len() == 0 {
        0
    } else {
        weight_gap(own.drop_last(), other) + match lookup(other, own.last().innovation_number) {
            Some(theirs) => weight_distance(own.last().weight, theirs.weight),
            None => 0nat,
        }
    }
}

/// What a comparison of two genomes counts.
#[derive(Clone, Copy, Debug)]
pub struct GenomeComparison {
    /// The connections of the first genome that find a match in the second.
    pub matching: u128,
    /// The connections of either genome that find no match in the other:
    /// the disjoint and the excess genes together.
    pub unmatched: u128,
    /// The sum of the distances between the weights of matching connections.
    pub weight_gap: u128,
    /// The number of connections of the genome that has more of them.
    pub larger: u128,
}

/// What the comparison of two lists of connections counts.
pub open spec fn comparison(own: Seq<ConnectionGene>, other: Seq<ConnectionGene>)
    -> GenomeComparison {
    GenomeComparison {
        matching: matching_count(own, other) as u128,
        unmatched: (own.len() - matching_count(own, other) + other.len() - matching_count(
            other,
            own,
        )) as u128,
        weight_gap: weight_gap(own, other) as u128,
        larger: if own.len() >= other.len() {
            own.len() as u128
        } else {
            other.len() as u128
        },
    }
}

/// The distance that follows from a comparison, in fixed point like the two
/// factors: the share of unmatched connections in the larger genome, times
/// `structure_factor`, plus the mean distance between matching weights,
/// times `weight_factor`. A part whose divisor is zero counts as zero, and
/// each division is cut off.
pub open spec fn distance_of(counts: GenomeComparison, structure_factor: u32, weight_factor: u32)
    -> int {
    let structure = if counts.larger == 0 {
        0
    } else {
        (structure_factor * counts.unmatched) / (counts.larger as int)
    };
    let weights = if counts.matching == 0 {
        0
    } else {
        (weight_factor * (counts.weight_gap / counts.matching)) / (WEIGHT_UNIT as int)
    };
    structure + weights
}

/// The counts stay within what the lengths allow.
pub proof fn lemma_counts_bounded(own: Seq<ConnectionGene>, other: Seq<ConnectionGene>)
    ensures
        matching_count(own, other) <= own.len(),
        weight_gap(own, other) <= matching_count(own, other) * 0xffff_ffff_ffff_ffff,
    decreases own.len(),
{
    if own.len() > 0 {
        lemma_counts_bounded(own.drop_last(), other);
        let before = matching_count(own.drop_last(), other);
        assert(before * 0xffff_ffff_ffff_ffff + 0xffff_ffff_ffff_ffff == (before + 1)
            * 0xffff_ffff_ffff_ffff) by (nonlinear_arith);
    }
}

/// Computes the distance between two weights.
fn weight_distance_of(a: i64, b: i64) -> (distance: u64)
    ensures
        distance == weight_distance(a, b),
{
    if a >= b {
        (a as i128 - b as i128) as u64
    } else {
        (b as i128 - a as i128) as u64
    }
}

impl Genome {
    /// Counts the connections of this genome that find a match in `other`,
    /// and sums up the distances between the matching weights.
    fn count_matching(&self, other: &Genome) -> (counts: (usize, u128))
        ensures
            counts.0 == matching_count(self@.connections, other@.connections),
            counts.1 == weight_gap(self@.connections, other@.connections),
    {
        let mut matching: usize = 0;
        let mut gap: u128 = 0;
        for i in 0..self.connection_genome.len()
            invariant
                matching == matching_count(
                    self@.connections.subrange(0, i as int),
                    other@.connections,
                ),
                gap == weight_gap(self@.connections.subrange(0, i as int), other@.connections),
        {
            let ghost seen = self@.connections.subrange(0, i as int);
            let ghost more = self@.connections.subrange(0, i + 1);
            proof {
                assert(more.drop_last() =~= seen);
                lemma_counts_bounded(seen, other@.connections);
                lemma_counts_bounded(more, other@.connections);
                assert(matching_count(more, other@.connections) * 0xffff_ffff_ffff_ffff
                    <= 0xffff_ffff_ffff_ffff * 0xffff_ffff_ffff_ffff) by (nonlinear_arith)
                    requires
                        matching_count(more, other@.connections) <= 0xffff_ffff_ffff_ffff,
                ;
            }
            let own = self.connection_genome[i];
            if let Some(theirs) = other.find_connection(own.innovation_number) {
                matching += 1;
                gap += weight_distance_of(own.weight, theirs.weight) as u128;
            }
        }
        assert(self@.connections.subrange(0, self@.connections.len() as int)
            =~= self@.connections);
        (matching, gap)
    }

    /// Compares this genome with `other`, connection by connection.
    pub fn compare(&self, other: &Genome) -> (counts: GenomeComparison)
        ensures
            counts == comparison(self@.connections, other@.connections),
    {
        let (matching, weight_gap) = self.count_matching(other);
        let (matching_back, _) = other.count_matching(self);
        proof {
            lemma_counts_bounded(self@.connections, other@.connections);
            lemma_counts_bounded(other@.connections, self@.connections);
        }
        let own = self.connection_genome.len();
        let theirs = other.connection_genome.len();
        GenomeComparison {
            matching: matching as u128,
            unmatched: (own - matching) as u128 + (theirs - matching_back) as u128,
            weight_gap,
            larger: if own >= theirs {
                own as u128
            } else {
                theirs as u128
            },
        }
    }

    /// The distance between this genome and `other`, in fixed point like the
    /// two factors that weigh the difference in structure and the difference
    /// in weights.
    pub fn species_distance(&self, other: &Genome, structure_factor: u32, weight_factor: u32) -> (
        distance: u128)
        ensures
            distance == distance_of(
                comparison(self@.connections, other@.connections),
                structure_factor,
                weight_factor,
            ),
    {
        let counts = self.compare(other);
        proof {
            let own = self@.connections;
            let theirs = other@.connections;
            lemma_counts_bounded(own, theirs);
            lemma_counts_bounded(theirs, own);
            assert(own.len() == self.connection_genome.len());
            assert(theirs.len() == other.connection_genome.len());
            assert(matching_count(own, theirs) * 0xffff_ffff_ffff_ffff <= 0xffff_ffff_ffff_ffff
                * 0xffff_ffff_ffff_ffff) by (nonlinear_arith)
                requires
                    matching_count(own, theirs) <= 0xffff_ffff_ffff_ffff,
            ;
        }
        let structure: u128 = if counts.larger == 0 {
            0
        } else {
            assert(structure_factor * counts.unmatched <= 0xffff_ffff * 0x2_0000_0000_0000_0000)
                by (nonlinear_arith)
                requires
                    structure_factor <= 0xffff_ffff,
                    counts.unmatched <= 0x2_0000_0000_0000_0000,
            ;
            (structure_factor as u128) * counts.unmatched / counts.larger
        };
        let weights: u128 = if counts.matching == 0 {
            0
        } else {
            let mean = counts.weight_gap / counts.matching;
            assert(mean <= 0xffff_ffff_ffff_ffff) by (nonlinear_arith)
                requires
                    mean == counts.weight_gap / counts.matching,
                    counts.matching > 0,
                    counts.weight_gap <= counts.matching * 0xffff_ffff_ffff_ffff,
            ;
            assert(weight_factor * mean <= 0xffff_ffff * 0xffff_ffff_ffff_ffff)
                by (nonlinear_arith)
                requires
                    weight_factor <= 0xffff_ffff,
                    mean <= 0xffff_ffff_ffff_ffff,
            ;
            (weight_factor as u128) * mean / (WEIGHT_UNIT as u128)
        };
        structure + weights
    }
}

} // verus!

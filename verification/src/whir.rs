//! The parameters of the WHIR commitment scheme.

use vstd::prelude::*;

verus! {

/// The conjecture that the soundness of WHIR rests on.
#[derive(Debug, Clone, Copy, PartialEq, Eq, Structural)]
pub enum SecurityAssumption {
    UniqueDecoding,
    JohnsonBound,
    CapacityBound,
}

/// How many variables are folded in a round: one number for the first round, one
/// for all others.
#[derive(Debug, Clone, Copy, PartialEq, Eq, Structural)]
pub struct FoldingFactor {
    first_round: usize,
    subsequent_round: usize,
}

impl FoldingFactor {
    /// The number of variables folded in round `round`.
    pub closed spec fn factor(self, round: int) -> usize {
        if round == 0 {
            self.first_round
        } else {
            self.subsequent_round
        }
    }

    /// The folding factor with the given numbers.
    pub closed spec fn of(first_round: usize, subsequent_round: usize) -> FoldingFactor {
        FoldingFactor { first_round, subsequent_round }
    }

    pub fn new(first_round: usize, subsequent_round: usize) -> (r: Self)
        ensures
            r == FoldingFactor::of(first_round, subsequent_round),
            r.factor(0) == first_round,
            forall|n: int| n > 0 ==> #[trigger] r.factor(n) == subsequent_round,
    {
        FoldingFactor { first_round, subsequent_round }
    }

    /// The number of variables folded in round `round`.
    pub fn at_round(&self, round: usize) -> (r: usize)
        ensures
            r == self.factor(round as int),
    {
        if round == 0 {
            self.first_round
        } else {
            self.subsequent_round
        }
    }
}

/// What `of` builds is told by its first two factors.
pub broadcast proof fn lemma_factors(a: usize, b: usize)
    ensures
        (#[trigger] FoldingFactor::of(a, b)).factor(0) == a,
        FoldingFactor::of(a, b).factor(1) == b,
{
}

/// The first two factors determine a folding factor.
pub broadcast proof fn lemma_of_factors(f: FoldingFactor)
    ensures
        #[trigger] FoldingFactor::of(f.factor(0), f.factor(1)) == f,
{
}

/// The parameters from which WHIR derives its rounds.
#[derive(Debug, Clone, Copy, PartialEq, Eq, Structural)]
pub struct WhirConfigBuilder {
    pub starting_log_inv_rate: usize,
    pub max_num_variables_to_send_coeffs: usize,
    pub rs_domain_initial_reduction_factor: usize,
    pub folding_factor: FoldingFactor,
    pub soundness_type: SecurityAssumption,
    pub security_level: usize,
    pub pow_bits: usize,
}

} // verus!

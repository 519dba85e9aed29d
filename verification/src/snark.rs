//! A SNARK for a single AIR over base-field columns, with WHIR as its commitment
//! scheme: the layout of the trace, what a prover and a verifier check before
//! they start, and the order in which they write and read the transcript.
//!
//! A proof commits to the trace columns, proves the AIR constraints, and opens
//! the columns at the point where the constraints were reduced to. It hides
//! nothing of the trace.

use crate::field::{Ring, RingModel};
use crate::whir::WhirConfigBuilder;
use std::collections::BTreeMap;
use vstd::arithmetic::power2::{
    lemma2_to64, lemma2_to64_rest, lemma_pow2_pos, lemma_pow2_strictly_increases, lemma_pow2_unfold,
    pow2,
};
use vstd::bits::{lemma_usize_pow2_no_overflow, lemma_usize_shl_is_mul};
use vstd::layout::unsigned_int_max_values;
use vstd::prelude::*;

verus! {

broadcast use vstd::std_specs::btree::group_btree_axioms;

/// The dimensions of one column: `2^n_vars` rows, of which a prefix may be
/// public, the following `committed_size` rows are committed, and the others hold
/// a default value.
#[derive(Debug, Clone, Copy)]
pub struct ColDims<T> {
    pub n_vars: usize,
    pub log_public_data_size: Option<usize>,
    pub committed_size: usize,
    pub default_value: T,
}

/// A column that is committed in full.
pub open spec fn full_dims<T: RingModel>(n_vars: usize) -> ColDims<T> {
    ColDims {
        n_vars,
        log_public_data_size: None,
        committed_size: pow2(n_vars as nat) as usize,
        default_value: T::elem(0),
    }
}

impl<T: Ring> ColDims<T> {
    /// A column that is committed in full.
    pub fn full(n_vars: usize) -> (r: Self)
        requires
            n_vars < usize::BITS,
        ensures
            r == full_dims::<T>(n_vars),
            r.committed_size == pow2(n_vars as nat),
    {
        proof {
            lemma_usize_pow2_no_overflow(n_vars as nat);
            lemma_usize_shl_is_mul(1usize, n_vars);
        }
        ColDims {
            n_vars,
            log_public_data_size: None,
            committed_size: 1usize << n_vars,
            default_value: T::zero(),
        }
    }
}

/// What is committed and what is public of the trace.
///
/// - `dims_f[i]` says which parts of column `i` are committed and which public.
/// - `public_data_f[i]` holds what the verifier knows of column `i`: a prefix of
///   `2^log_public_data_size` rows.
#[derive(Debug, Clone)]
pub struct AirSnarkTraceLayout<T> {
    pub dims_f: Vec<ColDims<T>>,
    pub public_data_f: BTreeMap<usize, Vec<T>>,
}

impl<T: Ring + Copy> AirSnarkTraceLayout<T> {
    /// The layout in which every column is committed in full.
    pub fn all_committed(log_n_rows: usize, n_columns_f: usize) -> (r: Self)
        requires
            log_n_rows < usize::BITS,
        ensures
            r.dims_f@ == Seq::new(n_columns_f as nat, |i: int| full_dims::<T>(log_n_rows)),
            r.public_data_f@ == Map::<usize, Vec<T>>::empty(),
    {
        let mut dims_f: Vec<ColDims<T>> = Vec::new();
        let mut i: usize = 0;
        while i < n_columns_f
            invariant
                i <= n_columns_f,
                log_n_rows < usize::BITS,
                dims_f@ =~= Seq::new(i as nat, |j: int| full_dims::<T>(log_n_rows)),
            decreases n_columns_f - i,
        {
            dims_f.push(ColDims::full(log_n_rows));
            i = i + 1;
        }
        AirSnarkTraceLayout { dims_f, public_data_f: BTreeMap::new() }
    }

    /// Add what the verifier knows of a column.
    pub fn insert_public_data(&mut self, col: usize, data: Vec<T>)
        ensures
            final(self).dims_f == old(self).dims_f,
            final(self).public_data_f@ == old(self).public_data_f@.insert(col, data),
    {
        self.public_data_f.insert(col, data);
    }
}

/// Configuration for proving and verifying a single AIR with WHIR-backed
/// commitments.
#[derive(Debug, Clone, Copy, PartialEq, Eq, Structural)]
pub struct AirSnarkConfig {
    pub univariate_skips: usize,
    pub log_smallest_decomposition_chunk: usize,
    /// Target soundness security.
    pub security_bits: usize,
    pub whir_config_builder: WhirConfigBuilder,
}

/// The least `k` with `n <= 2^k`.
pub open spec fn ceil_log2(n: nat) -> nat
    decreases n,
{
    if n <= 1 {
        0
    } else {
        1 + ceil_log2((n + 1) / 2)
    }
}

proof fn lemma_ceil_log2(n: nat)
    ensures
        n <= pow2(ceil_log2(n)),
        ceil_log2(n) > 0 ==> pow2((ceil_log2(n) - 1) as nat) < n,
    decreases n,
{
    if n <= 1 {
        lemma2_to64();
    } else {
        let half = (n + 1) / 2;
        lemma_ceil_log2(half);
        let k = ceil_log2(half);
        lemma_pow2_unfold(k + 1);
        if k > 0 {
            lemma_pow2_unfold(k);
        } else {
            lemma2_to64();
        }
    }
}

proof fn lemma_ceil_log2_unique(n: nat, k: nat)
    requires
        n <= pow2(k),
        k > 0 ==> pow2((k - 1) as nat) < n,
    ensures
        k == ceil_log2(n),
{
    lemma_ceil_log2(n);
    let c = ceil_log2(n);
    if k < c {
        if k < c - 1 {
            lemma_pow2_strictly_increases(k, (c - 1) as nat);
        }
    } else if c < k {
        if c < k - 1 {
            lemma_pow2_strictly_increases(c, (k - 1) as nat);
        }
    }
}

/// Every power of two has its exponent as its logarithm.
pub proof fn logarithm_of_power(k: nat)
    ensures
        ceil_log2(pow2(k)) == k,
        is_power_of_two(pow2(k)),
{
    if k > 0 {
        lemma_pow2_strictly_increases((k - 1) as nat, k);
    }
    lemma_ceil_log2_unique(pow2(k), k);
}

/// A number is a power of two where some power of two is that number.
pub proof fn powers_of_two(n: nat)
    ensures
        is_power_of_two(n) <==> exists|k: nat| #[trigger] pow2(k) == n,
{
    if exists|k: nat| #[trigger] pow2(k) == n {
        let k = choose|k: nat| #[trigger] pow2(k) == n;
        logarithm_of_power(k);
    }
}

/// The logarithm of a number is the least exponent whose power of two reaches it.
pub proof fn logarithm_is_least(n: nat, k: nat)
    ensures
        n <= pow2(ceil_log2(n)),
        n <= pow2(k) ==> ceil_log2(n) <= k,
{
    lemma_ceil_log2(n);
    let c = ceil_log2(n);
    if k < c && k < c - 1 {
        lemma_pow2_strictly_increases(k, (c - 1) as nat);
    }
}

/// The logarithm of a `usize` is one too.
pub proof fn lemma_log_fits(n: usize)
    ensures
        ceil_log2(n as nat) <= usize::BITS,
{
    lemma_not_beyond_bits(n, usize::BITS as nat);
    logarithm_is_least(n as nat, usize::BITS as nat);
}

/// `p3_util::log2_ceil_usize`: the least exponent whose power of two is at least
/// the argument, zero for zero.
#[verifier::external_body]
fn log2_ceil(n: usize) -> (r: usize)
    ensures
        n <= pow2(r as nat),
        r > 0 ==> pow2((r - 1) as nat) < n,
{
    p3_util::log2_ceil_usize(n)
}

/// `p3_util::log2_strict_usize`: the exponent of a power of two; it panics on any
/// other argument.
#[verifier::external_body]
fn log2_strict(n: usize) -> (r: usize)
    requires
        is_power_of_two(n as nat),
    ensures
        n == pow2(r as nat),
{
    p3_util::log2_strict_usize(n)
}

/// Some power of two is `n`.
pub open spec fn is_power_of_two(n: nat) -> bool {
    pow2(ceil_log2(n)) == n
}

/// The logarithm of a number of rows, if it is a power of two.
pub fn row_log(n_rows: usize) -> (r: Option<usize>)
    ensures
        r == (if is_power_of_two(n_rows as nat) {
            Some(ceil_log2(n_rows as nat) as usize)
        } else {
            None
        }),
        r matches Some(k) ==> n_rows == pow2(k as nat) && k == ceil_log2(n_rows as nat),
        forall|k: nat| #![trigger pow2(k)] pow2(k) == n_rows ==> r == Some(k as usize),
{
    proof {
        assert forall|j: nat| #[trigger] pow2(j) == n_rows implies is_power_of_two(n_rows as nat)
            && ceil_log2(n_rows as nat) == j by {
            logarithm_of_power(j);
        }
    }
    let k: usize = log2_ceil(n_rows);
    proof {
        lemma_ceil_log2_unique(n_rows as nat, k as nat);
        if k >= usize::BITS {
            lemma_usize_pow2_no_overflow((usize::BITS - 1) as nat);
            lemma_not_beyond_bits(n_rows, k as nat);
        }
    }
    if k >= usize::BITS as usize {
        return None;
    }
    proof {
        lemma_usize_pow2_no_overflow(k as nat);
        lemma_usize_shl_is_mul(1usize, k);
    }
    if 1usize << k == n_rows {
        let strict: usize = log2_strict(n_rows);
        proof {
            logarithm_of_power(strict as nat);
        }
        Some(strict)
    } else {
        None
    }
}

/// No `usize` is a power of two whose exponent is the number of its bits or more.
pub proof fn lemma_not_beyond_bits(n: usize, k: nat)
    requires
        k >= usize::BITS,
    ensures
        n < pow2(k),
{
    unsigned_int_max_values();
    lemma_pow2_pos(k);
    lemma2_to64();
    lemma2_to64_rest();
    if k > usize::BITS {
        lemma_pow2_strictly_increases(usize::BITS as nat, k);
    }
}

/// `max(a - b, 0)`.
pub open spec fn monus(a: int, b: int) -> int {
    if a <= b {
        0
    } else {
        a - b
    }
}

/// The number of grinding bits that make up for what a field of `field_bits` bits
/// lacks, at constraints of the given degree.
pub open spec fn grinding_bits(security_bits: usize, field_bits: usize, degree: usize) -> int {
    monus(security_bits as int, monus(field_bits as int, ceil_log2((degree + 1) as nat) as int))
}

/// The number of grinding bits, from the size of the extension field.
pub fn pow_bits_auto(security_bits: usize, field_bits: usize, degree: usize) -> (r: usize)
    requires
        degree < usize::MAX,
    ensures
        r == grinding_bits(security_bits, field_bits, degree),
{
    let log: usize = log2_ceil(degree + 1);
    proof {
        lemma_ceil_log2_unique((degree + 1) as nat, log as nat);
    }
    security_bits.saturating_sub(field_bits.saturating_sub(log))
}

/// WHIR parameters with the given security level.
pub open spec fn with_security(b: WhirConfigBuilder, security_bits: usize) -> WhirConfigBuilder {
    WhirConfigBuilder { security_level: security_bits, ..b }
}

/// WHIR parameters with the given security level.
pub fn whir_builder_with_security(b: WhirConfigBuilder, security_bits: usize) -> (r:
    WhirConfigBuilder)
    ensures
        r == with_security(b, security_bits),
        r.security_level == security_bits,
{
    let mut r = b;
    r.security_level = security_bits;
    r
}

} // verus!

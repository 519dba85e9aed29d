//! The degree of constraints as polynomials in the cells of a row.
//!
//! The constraints are functions of a ring. Evaluated in the ring model below,
//! on cells of degree one, each of them gives a bound on its own degree.

use crate::bits::pack_of;
use crate::field::{xor3_of, RingModel};
use crate::keccak_air::{
    a_constraints, a_limb_bits, b_at, bits_constraints, c_constraints, chi_constraints,
    chi_limb_bits, column_sum, export_constraints, first_lane_constraints, first_limb_bits,
    flag_constraints, flag_sum, iota_constraints, iota_limb_bits, keccak_constraints,
    one_hot_constraint, output_constraints, parity_constraints, preimage_constraints,
    preimage_next_constraints, rc_sum, rotation_constraints, round_constraints,
    schedule_constraints, NUM_KECCAK_COLS, R,
};
use vstd::prelude::*;

verus! {

/// A bound on the degree of a polynomial.
pub struct Degree {
    pub bound: nat,
}

/// Sums keep the larger degree, products add degrees, constants have degree
/// zero.
impl RingModel for Degree {
    open spec fn elem(n: nat) -> Self {
        Degree { bound: 0 }
    }

    open spec fn sum_of(x: Self, y: Self) -> Self {
        if x.bound <= y.bound {
            y
        } else {
            x
        }
    }

    open spec fn diff_of(x: Self, y: Self) -> Self {
        if x.bound <= y.bound {
            y
        } else {
            x
        }
    }

    open spec fn prod_of(x: Self, y: Self) -> Self {
        Degree { bound: x.bound + y.bound }
    }
}

/// `n` cells, each a variable of its own.
pub open spec fn variables(n: nat) -> Seq<Degree> {
    Seq::new(n, |i: int| Degree { bound: 1 })
}

/// Every element has a degree of at most `d`.
pub open spec fn all_within(s: Seq<Degree>, d: nat) -> bool {
    forall|i: int| 0 <= i < s.len() ==> (#[trigger] s[i]).bound <= d
}

pub proof fn lemma_within_concat(a: Seq<Degree>, b: Seq<Degree>, d: nat)
    requires
        all_within(a, d),
        all_within(b, d),
    ensures
        all_within(a + b, d),
{
    assert forall|i: int| 0 <= i < (a + b).len() implies (#[trigger] (a + b)[i]).bound <= d by {
        if i < a.len() {
            assert(a[i].bound <= d);
        } else {
            assert(b[i - a.len()].bound <= d);
        }
    }
}

pub proof fn lemma_within_pack(s: Seq<Degree>, d: nat)
    requires
        all_within(s, d),
    ensures
        pack_of(s).bound <= d,
    decreases s.len(),
{
    if s.len() > 0 {
        assert(all_within(s.drop_first(), d));
        lemma_within_pack(s.drop_first(), d);
        assert(s[0].bound <= d);
    }
}

proof fn lemma_flag_sum_degree(up: Seq<Degree>, n: int)
    requires
        all_within(up, 1),
        0 <= n <= up.len(),
    ensures
        flag_sum(up, n).bound <= 1,
    decreases n,
{
    if n > 0 {
        lemma_flag_sum_degree(up, n - 1);
        assert(up[n - 1].bound <= 1);
    }
}

proof fn lemma_rc_sum_degree(up: Seq<Degree>, z: int, n: int)
    requires
        all_within(up, 1),
        0 <= n <= up.len(),
    ensures
        rc_sum(up, z, n).bound <= 1,
    decreases n,
{
    if n > 0 {
        lemma_rc_sum_degree(up, z, n - 1);
        assert(up[n - 1].bound <= 1);
    }
}

proof fn lemma_column_sum_degree(up: Seq<Degree>, x: int, z: int, n: int)
    requires
        up == variables(NUM_KECCAK_COLS as nat),
        0 <= n <= 5,
        0 <= x < 5,
        0 <= z < 64,
    ensures
        column_sum(up, x, z, n).bound <= 1,
    decreases n,
{
    if n > 0 {
        lemma_column_sum_degree(up, x, z, n - 1);
    }
}

proof fn lemma_schedule_degree(up: Seq<Degree>, down: Seq<Degree>, pre_at: int)
    requires
        up == variables(NUM_KECCAK_COLS as nat),
        all_within(down, 1),
        down.len() >= 24,
        0 <= pre_at,
        pre_at + 100 <= down.len(),
    ensures
        all_within(schedule_constraints(up, down, pre_at), 4),
{
    lemma_flag_sum_degree(up, 24);
    let b1 = flag_constraints(up);
    let b2 = b1 + one_hot_constraint(up);
    let b3 = b2 + rotation_constraints(up, down);
    let b4 = b3 + export_constraints(up);
    let b5 = b4 + preimage_constraints(up);
    assert(all_within(rotation_constraints(up, down), 4)) by {
        assert forall|i: int| 0 <= i < 24 implies (#[trigger] rotation_constraints(
            up,
            down,
        )[i]).bound <= 4 by {
            assert(down[(i + 1) % 24].bound <= 1);
        }
    }
    assert(all_within(preimage_next_constraints(up, down, pre_at), 4)) by {
        assert forall|k: int| 0 <= k < 100 implies (#[trigger] preimage_next_constraints(
            up,
            down,
            pre_at,
        )[k]).bound <= 4 by {
            assert(down[pre_at + k].bound <= 1);
        }
    }
    lemma_within_concat(b1, one_hot_constraint(up), 4);
    lemma_within_concat(b2, rotation_constraints(up, down), 4);
    lemma_within_concat(b3, export_constraints(up), 4);
    lemma_within_concat(b4, preimage_constraints(up), 4);
    lemma_within_concat(b5, preimage_next_constraints(up, down, pre_at), 4);
}

proof fn lemma_a_degree(up: Seq<Degree>)
    requires
        up == variables(NUM_KECCAK_COLS as nat),
    ensures
        all_within(a_constraints(up), 4),
{
    reveal(xor3_of);
    assert forall|k: int| 0 <= k < 1700 implies (#[trigger] a_constraints(up)[k]).bound <= 4 by {
        let lane = k / 68;
        let j = k % 68;
        if j >= 64 {
            lemma_within_pack(a_limb_bits(up, lane, j - 64), 3);
        }
    }
}

proof fn lemma_parity_degree(up: Seq<Degree>)
    requires
        up == variables(NUM_KECCAK_COLS as nat),
    ensures
        all_within(parity_constraints(up), 4),
{
    assert forall|k: int| 0 <= k < 320 implies (#[trigger] parity_constraints(up)[k]).bound <= 4 by {
        lemma_column_sum_degree(up, k / 64, k % 64, 5);
    }
}

/// B is a rearrangement of cells.
proof fn lemma_b_degree(up: Seq<Degree>, x: int, y: int, z: int)
    requires
        up == variables(NUM_KECCAK_COLS as nat),
        0 <= x < 5,
        0 <= y < 5,
        0 <= z < 64,
    ensures
        b_at(up, x, y, z).bound == 1,
{
    let a = (x + 3 * y) % 5;
    let w = (z + 64 - R@[a]@[x]) % 64;
    assert(0 <= a < 5 && 0 <= w < 64);
}

proof fn lemma_chi_degree(up: Seq<Degree>)
    requires
        up == variables(NUM_KECCAK_COLS as nat),
    ensures
        all_within(chi_constraints(up), 4),
{
    assert forall|k: int| 0 <= k < 100 implies (#[trigger] chi_constraints(up)[k]).bound <= 4 by {
        let bits = chi_limb_bits(up, k / 4, k % 4);
        assert forall|i: int| 0 <= i < bits.len() implies (#[trigger] bits[i]).bound <= 3 by {
            let lane = k / 4;
            let z = 16 * (k % 4) + i;
            lemma_b_degree(up, lane % 5, lane / 5, z);
            lemma_b_degree(up, (lane % 5 + 1) % 5, lane / 5, z);
            lemma_b_degree(up, (lane % 5 + 2) % 5, lane / 5, z);
        }
        lemma_within_pack(bits, 3);
    }
}

proof fn lemma_first_lane_degree(up: Seq<Degree>)
    requires
        up == variables(NUM_KECCAK_COLS as nat),
    ensures
        all_within(first_lane_constraints(up), 4),
        all_within(iota_constraints(up), 4),
{
    assert forall|l: int| 0 <= l < 4 implies (#[trigger] first_lane_constraints(up)[l]).bound
        <= 4 by {
        lemma_within_pack(first_limb_bits(up, l), 1);
    }
    assert forall|l: int| 0 <= l < 4 implies (#[trigger] iota_constraints(up)[l]).bound <= 4 by {
        let bits = iota_limb_bits(up, l);
        assert forall|i: int| 0 <= i < bits.len() implies (#[trigger] bits[i]).bound <= 2 by {
            lemma_rc_sum_degree(up, 16 * l + i, 24);
        }
        lemma_within_pack(bits, 2);
    }
}

/// Every constraint of the Keccak-f AIR has a degree of at most four, the
/// degree that the AIR declares.
pub proof fn keccak_degree(n_down: nat, pre_at: int, a_at: int)
    requires
        n_down >= 24,
        0 <= pre_at <= n_down - 100,
        0 <= a_at <= n_down - 100,
    ensures
        all_within(
            keccak_constraints(
                variables(NUM_KECCAK_COLS as nat),
                variables(n_down),
                pre_at,
                a_at,
            ),
            4,
        ),
{
    reveal(xor3_of);
    let up = variables(NUM_KECCAK_COLS as nat);
    let down = variables(n_down);
    lemma_schedule_degree(up, down, pre_at);
    lemma_a_degree(up);
    lemma_parity_degree(up);
    lemma_chi_degree(up);
    lemma_first_lane_degree(up);
    let b1 = c_constraints(up);
    let b2 = b1 + a_constraints(up);
    let b3 = b2 + parity_constraints(up);
    let b4 = b3 + chi_constraints(up);
    let b5 = b4 + bits_constraints(up);
    let b6 = b5 + first_lane_constraints(up);
    lemma_within_concat(b1, a_constraints(up), 4);
    lemma_within_concat(b2, parity_constraints(up), 4);
    lemma_within_concat(b3, chi_constraints(up), 4);
    lemma_within_concat(b4, bits_constraints(up), 4);
    lemma_within_concat(b5, first_lane_constraints(up), 4);
    lemma_within_concat(b6, iota_constraints(up), 4);
    let s = schedule_constraints(up, down, pre_at);
    lemma_within_concat(s, round_constraints(up), 4);
    lemma_within_concat(s + round_constraints(up), output_constraints(up, down, a_at), 4);
}

} // verus!

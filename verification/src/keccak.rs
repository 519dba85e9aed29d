//! The Keccak-f[1600] permutation on bits.

use crate::keccak_air::{rc_bit, R};
use vstd::prelude::*;

verus! {

/// Bit `A[x, y, z]` of a state: `s[64 (5y + x) + z]`.
pub open spec fn lane_bit(s: Seq<bool>, x: int, y: int, z: int) -> bool {
    s[64 * (5 * y + x) + z]
}

/// The state whose bit `A[x, y, z]` is `f(x, y, z)`.
pub open spec fn state_from(f: spec_fn(int, int, int) -> bool) -> Seq<bool> {
    Seq::new(1600, |i: int| f((i / 64) % 5, i / 320, i % 64))
}

/// The parity of column `x, z`.
pub open spec fn column_parity(s: Seq<bool>, x: int, z: int) -> bool {
    lane_bit(s, x, 0, z) != (lane_bit(s, x, 1, z) != (lane_bit(s, x, 2, z) != (lane_bit(s, x, 3, z)
        != lane_bit(s, x, 4, z))))
}

/// Add to each bit the parities of two neighbouring columns.
pub open spec fn theta(s: Seq<bool>) -> Seq<bool> {
    state_from(
        |x: int, y: int, z: int|
            (lane_bit(s, x, y, z) != column_parity(s, (x + 4) % 5, z)) != column_parity(
                s,
                (x + 1) % 5,
                (z + 63) % 64,
            ),
    )
}

/// Rotate each lane by its offset.
pub open spec fn rho(s: Seq<bool>) -> Seq<bool> {
    state_from(|x: int, y: int, z: int| lane_bit(s, x, y, (z + 64 - R@[x]@[y]) % 64))
}

/// Rearrange the lanes.
pub open spec fn pi(s: Seq<bool>) -> Seq<bool> {
    state_from(|x: int, y: int, z: int| lane_bit(s, (x + 3 * y) % 5, x, z))
}

/// Combine each bit with two others of its row.
pub open spec fn chi(s: Seq<bool>) -> Seq<bool> {
    state_from(
        |x: int, y: int, z: int|
            lane_bit(s, x, y, z) != (!lane_bit(s, (x + 1) % 5, y, z) && lane_bit(
                s,
                (x + 2) % 5,
                y,
                z,
            )),
    )
}

/// Add the constant of round `round` to the first lane.
pub open spec fn iota(s: Seq<bool>, round: int) -> Seq<bool> {
    state_from(
        |x: int, y: int, z: int| lane_bit(s, x, y, z) != (x == 0 && y == 0 && rc_bit(round, z)),
    )
}

/// The state before the round constant is added.
pub open spec fn keccak_mix(s: Seq<bool>) -> Seq<bool> {
    chi(pi(rho(theta(s))))
}

/// Round `round` of the permutation.
pub open spec fn keccak_round(s: Seq<bool>, round: int) -> Seq<bool> {
    iota(keccak_mix(s), round)
}

/// The first `n` rounds.
pub open spec fn keccak_rounds(s: Seq<bool>, n: int) -> Seq<bool>
    decreases n,
{
    if n <= 0 {
        s
    } else {
        keccak_round(keccak_rounds(s, n - 1), n - 1)
    }
}

/// The permutation Keccak-f[1600].
pub open spec fn keccak_f(s: Seq<bool>) -> Seq<bool> {
    keccak_rounds(s, 24)
}

} // verus!

//! What the Keccak-f AIR means: its constraints vanish on a row exactly when
//! the row describes one round of Keccak-f, and rows chained over a whole
//! permutation carry the permutation's input to its output.

use crate::bits::{
    all_zero, bit_value, bits_value, is_bit, lemma_all_zero_concat, lemma_andn_bits,
    lemma_bits_value_injective, lemma_bool_check, lemma_diff_zero, lemma_pack_bits, lemma_prod_zero,
    lemma_xor3_bits, lemma_xor_bits, pack_of, truth, truths,
};
use crate::field::{andn_of, bool_elem, double_of, xor3_of, RingModel};
use crate::keccak::{
    chi, column_parity, iota, keccak_mix, keccak_round, lane_bit, pi, rho, state_from, theta,
};
use crate::keccak_air::{
    a_constraints, a_limb_bits, a_prime_at, b_at, bits_constraints, c_at, c_constraints, c_prime_at,
    chi_bit, chi_constraints, chi_limb_bits, column_sum, first_lane_constraints, first_limb_bits,
    flag_constraints, flag_sum, iota_constraints, iota_limb_bits, lemma_rotation_range,
    one_hot_constraint, parity_constraint, parity_constraints, rc_bit, rc_sum, round_constraints,
    COL_A, COL_A_PRIME, COL_A_PRIME_PRIME, COL_A_PRIME_PRIME_0_0_BITS,
    COL_A_PRIME_PRIME_PRIME_0_0_LIMBS, R,
};
use crate::prime_field::{
    has_limbs, lemma_diff_value, lemma_elem_value, lemma_prod_value, lemma_sum_value,
    lemma_value_range, PrimeFieldModel,
};
use vstd::prelude::*;

verus! {

broadcast use {
    lemma_value_range,
    lemma_elem_value,
    lemma_sum_value,
    lemma_diff_value,
    lemma_prod_value,
};

/// Value `k` of the group that starts at column `base`.
pub open spec fn cell<T: PrimeFieldModel>(row: Seq<T>, base: int, k: int) -> T {
    row[base + k]
}

/// The hundred values from `base` on are the limbs of the state.
pub open spec fn holds_limbs<T: PrimeFieldModel>(row: Seq<T>, base: int, s: Seq<bool>) -> bool {
    forall|k: int|
        0 <= k < 100 ==> (#[trigger] cell(row, base, k)).value() == bits_value(
            s.subrange(16 * k, 16 * k + 16),
        )
}

/// The values from `base` on are the given bits.
pub open spec fn holds_bits<T: PrimeFieldModel>(row: Seq<T>, base: int, bits: Seq<bool>) -> bool {
    forall|i: int|
        0 <= i < bits.len() ==> (#[trigger] cell(row, base, i)).value() == bit_value(bits[i])
}

/// Only the flag of `round` is set.
pub open spec fn flags_are<T: PrimeFieldModel>(row: Seq<T>, round: int) -> bool {
    &&& 0 <= round < 24
    &&& forall|i: int| 0 <= i < 24 ==> (#[trigger] row[i]).value() == bit_value(i == round)
}

/// C and C' hold the column parities of the state and what theta makes of them.
pub open spec fn holds_parities<T: PrimeFieldModel>(row: Seq<T>, s: Seq<bool>) -> bool {
    &&& forall|x: int, z: int|
        0 <= x < 5 && 0 <= z < 64 ==> (#[trigger] c_at(row, x, z)).value() == bit_value(
            column_parity(s, x, z),
        )
    &&& forall|x: int, z: int|
        0 <= x < 5 && 0 <= z < 64 ==> (#[trigger] c_prime_at(row, x, z)).value() == bit_value(
            (column_parity(s, x, z) != column_parity(s, (x + 4) % 5, z)) != column_parity(
                s,
                (x + 1) % 5,
                (z + 63) % 64,
            ),
        )
}

/// The row describes round `round` on input state `s`.
pub open spec fn is_round_row<T: PrimeFieldModel>(row: Seq<T>, round: int, s: Seq<bool>) -> bool {
    &&& s.len() == 1600
    &&& flags_are(row, round)
    &&& holds_limbs(row, COL_A as int, s)
    &&& holds_parities(row, s)
    &&& holds_bits(row, COL_A_PRIME as int, theta(s))
    &&& holds_limbs(row, COL_A_PRIME_PRIME as int, keccak_mix(s))
    &&& holds_bits(row, COL_A_PRIME_PRIME_0_0_BITS as int, keccak_mix(s).take(64))
    &&& holds_first_output(row, round, s)
}

/// The limbs of `A'''[0, 0]` are those of the first lane of the round output.
pub open spec fn holds_first_output<T: PrimeFieldModel>(
    row: Seq<T>,
    round: int,
    s: Seq<bool>,
) -> bool {
    forall|l: int|
        0 <= l < 4 ==> (#[trigger] cell(row, COL_A_PRIME_PRIME_PRIME_0_0_LIMBS as int, l)).value()
            == bits_value(keccak_round(s, round).subrange(16 * l, 16 * l + 16))
}

/// The constraints that speak of one row alone, all zero.
pub open spec fn row_satisfied<T: PrimeFieldModel>(row: Seq<T>) -> bool {
    &&& all_zero(flag_constraints(row))
    &&& all_zero(one_hot_constraint(row))
    &&& all_zero(round_constraints(row))
}

/// The round whose flag is set.
pub open spec fn round_of<T: PrimeFieldModel>(row: Seq<T>) -> int {
    choose|r: int| flags_are(row, r)
}

/// The round input that A', C and C' describe.
pub open spec fn input_of<T: PrimeFieldModel>(row: Seq<T>) -> Seq<bool> {
    Seq::new(
        1600,
        |i: int|
            (truth(row[COL_A_PRIME + i]) != truth(c_at(row, (i / 64) % 5, i % 64))) != truth(
                c_prime_at(row, (i / 64) % 5, i % 64),
            ),
    )
}

/// The bits of A'.
spec fn prime_of<T: PrimeFieldModel>(row: Seq<T>) -> Seq<bool> {
    Seq::new(1600, |i: int| truth(row[COL_A_PRIME + i]))
}

/// The sum of the first `n` flags, over the integers.
spec fn flag_count<T: PrimeFieldModel>(row: Seq<T>, n: int) -> int
    decreases n,
{
    if n <= 0 {
        0
    } else {
        flag_count(row, n - 1) + row[n - 1].value()
    }
}

spec fn flags_are_bits<T: PrimeFieldModel>(row: Seq<T>) -> bool {
    forall|i: int| 0 <= i < 24 ==> is_bit(#[trigger] row[i])
}

proof fn lemma_flag_bits<T: PrimeFieldModel>(row: Seq<T>)
    ensures
        all_zero(flag_constraints(row)) <==> flags_are_bits(row),
{
    let f = flag_constraints(row);
    if all_zero(f) {
        assert forall|i: int| 0 <= i < 24 implies is_bit(#[trigger] row[i]) by {
            assert(f[i].value() == 0);
            lemma_bool_check(row[i]);
        }
    }
    if flags_are_bits(row) {
        assert forall|i: int| 0 <= i < f.len() implies (#[trigger] f[i]).value() == 0 by {
            assert(is_bit(row[i]));
            lemma_bool_check(row[i]);
        }
    }
}

proof fn lemma_flag_count<T: PrimeFieldModel>(row: Seq<T>, n: int)
    requires
        has_limbs::<T>(),
        0 <= n <= 24,
        flags_are_bits(row),
    ensures
        0 <= flag_count(row, n) <= n,
        flag_sum(row, n).value() == flag_count(row, n),
        flag_count(row, n) == 0 ==> forall|i: int| 0 <= i < n ==> (#[trigger] row[i]).value() == 0,
        flag_count(row, n) == 1 ==> exists|r: int|
            0 <= r < n && (#[trigger] row[r]).value() == 1 && forall|i: int|
                0 <= i < n && i != r ==> (#[trigger] row[i]).value() == 0,
    decreases n,
{
    if n > 0 {
        lemma_flag_count(row, n - 1);
        assert(is_bit(row[n - 1]));
        if flag_count(row, n) == 1 {
            if row[n - 1].value() == 0 {
                let r = choose|r: int|
                    0 <= r < n - 1 && (#[trigger] row[r]).value() == 1 && forall|i: int|
                        0 <= i < n - 1 && i != r ==> (#[trigger] row[i]).value() == 0;
                assert(row[r].value() == 1);
            } else {
                assert(row[n - 1].value() == 1);
            }
        }
    }
}

/// One-hot flags name a round.
proof fn lemma_flags_sound<T: PrimeFieldModel>(row: Seq<T>)
    requires
        has_limbs::<T>(),
        all_zero(flag_constraints(row)),
        all_zero(one_hot_constraint(row)),
    ensures
        flags_are(row, round_of(row)),
{
    lemma_flag_bits(row);
    lemma_flag_count(row, 24);
    assert(one_hot_constraint(row)[0].value() == 0);
    lemma_diff_zero(flag_sum(row, 24), T::elem(1));
    let r = choose|r: int|
        0 <= r < 24 && (#[trigger] row[r]).value() == 1 && forall|i: int|
            0 <= i < 24 && i != r ==> (#[trigger] row[i]).value() == 0;
    assert(flags_are(row, r));
}

proof fn lemma_flag_count_one_hot<T: PrimeFieldModel>(row: Seq<T>, round: int, n: int)
    requires
        flags_are(row, round),
        0 <= n <= 24,
    ensures
        flag_count(row, n) == bit_value(n > round),
    decreases n,
{
    if n > 0 {
        lemma_flag_count_one_hot(row, round, n - 1);
        assert(row[n - 1].value() == bit_value(n - 1 == round));
    }
}

/// The flags of a round satisfy the flag constraints.
proof fn lemma_flags_complete<T: PrimeFieldModel>(row: Seq<T>, round: int)
    requires
        has_limbs::<T>(),
        flags_are(row, round),
    ensures
        all_zero(flag_constraints(row)),
        all_zero(one_hot_constraint(row)),
{
    assert forall|i: int| 0 <= i < 24 implies is_bit(#[trigger] row[i]) by {
        assert(row[i].value() == bit_value(i == round));
    }
    lemma_flag_bits(row);
    lemma_flag_count(row, 24);
    lemma_flag_count_one_hot(row, round, 24);
    lemma_diff_zero(flag_sum(row, 24), T::elem(1));
}

/// C holds bits.
spec fn c_bits<T: PrimeFieldModel>(row: Seq<T>) -> bool {
    forall|x: int, z: int| 0 <= x < 5 && 0 <= z < 64 ==> is_bit(#[trigger] c_at(row, x, z))
}

/// C' holds what theta makes of the bits of C.
spec fn c_prime_defined<T: PrimeFieldModel>(row: Seq<T>) -> bool {
    forall|x: int, z: int|
        0 <= x < 5 && 0 <= z < 64 ==> (#[trigger] c_prime_at(row, x, z)).value() == bit_value(
            (truth(c_at(row, x, z)) != truth(c_at(row, (x + 4) % 5, z))) != truth(
                c_at(row, (x + 1) % 5, (z + 63) % 64),
            ),
        )
}

/// C holds bits, and C' what theta makes of them.
spec fn c_consistent<T: PrimeFieldModel>(row: Seq<T>) -> bool {
    c_bits(row) && c_prime_defined(row)
}

proof fn lemma_c_block_sound<T: PrimeFieldModel>(row: Seq<T>)
    requires
        all_zero(c_constraints(row)),
    ensures
        c_consistent(row),
{
    let f = c_constraints(row);
    assert forall|x: int, z: int| 0 <= x < 5 && 0 <= z < 64 implies is_bit(
        #[trigger] c_at(row, x, z),
    ) by {
        let k = 128 * x + z;
        assert(k / 128 == x && k % 128 == z && k % 64 == z);
        assert(f[k].value() == 0);
        lemma_bool_check(c_at(row, x, z));
    }
    assert forall|x: int, z: int| 0 <= x < 5 && 0 <= z < 64 implies (#[trigger] c_prime_at(
        row,
        x,
        z,
    )).value() == bit_value(
        (truth(c_at(row, x, z)) != truth(c_at(row, (x + 4) % 5, z))) != truth(
            c_at(row, (x + 1) % 5, (z + 63) % 64),
        ),
    ) by {
        let k = 128 * x + 64 + z;
        assert(k / 128 == x && k % 128 == 64 + z && k % 64 == z);
        assert(f[k].value() == 0);
        let (c0, c1, c2) = (
            c_at(row, x, z),
            c_at(row, (x + 4) % 5, z),
            c_at(row, (x + 1) % 5, (z + 63) % 64),
        );
        lemma_xor3_bits(c0, c1, c2);
        lemma_diff_zero(c_prime_at(row, x, z), xor3_of(c0, c1, c2));
    }
}

proof fn lemma_c_block_complete<T: PrimeFieldModel>(row: Seq<T>)
    requires
        c_consistent(row),
    ensures
        all_zero(c_constraints(row)),
{
    let f = c_constraints(row);
    assert forall|k: int| 0 <= k < f.len() implies (#[trigger] f[k]).value() == 0 by {
        let x = k / 128;
        let z = k % 64;
        let (c0, c1, c2) = (
            c_at(row, x, z),
            c_at(row, (x + 4) % 5, z),
            c_at(row, (x + 1) % 5, (z + 63) % 64),
        );
        lemma_bool_check(c0);
        lemma_xor3_bits(c0, c1, c2);
        lemma_diff_zero(c_prime_at(row, x, z), xor3_of(c0, c1, c2));
    }
}

/// A' holds bits.
spec fn a_prime_bits<T: PrimeFieldModel>(row: Seq<T>) -> bool {
    forall|i: int| 0 <= i < 1600 ==> is_bit(#[trigger] cell(row, COL_A_PRIME as int, i))
}

/// The limb that A', C and C' describe.
proof fn lemma_a_limb<T: PrimeFieldModel>(row: Seq<T>, k: int)
    requires
        has_limbs::<T>(),
        c_consistent(row),
        a_prime_bits(row),
        0 <= k < 100,
    ensures
        pack_of(a_limb_bits(row, k / 4, k % 4)).value() == bits_value(
            input_of(row).subrange(16 * k, 16 * k + 16),
        ),
{
    let lane = k / 4;
    let limb = k % 4;
    let bits = a_limb_bits(row, lane, limb);
    let s = input_of(row);
    assert forall|i: int| 0 <= i < 16 implies is_bit(#[trigger] bits[i]) && truth(bits[i]) == s[16
        * k + i] by {
        let z = 16 * limb + i;
        let j = 64 * lane + z;
        assert(j / 64 == lane && j % 64 == z && 16 * k + i == j);
        assert(64 * lane == 320 * (lane / 5) + 64 * (lane % 5));
        assert(is_bit(cell(row, COL_A_PRIME as int, j)));
        let ap = a_prime_at(row, lane / 5, lane % 5, z);
        let c = c_at(row, lane % 5, z);
        let cp = c_prime_at(row, lane % 5, z);
        lemma_xor3_bits(ap, c, cp);
    }
    lemma_pack_bits(bits);
    assert(truths(bits) =~= s.subrange(16 * k, 16 * k + 16));
}

proof fn lemma_a_block_sound<T: PrimeFieldModel>(row: Seq<T>)
    requires
        has_limbs::<T>(),
        c_consistent(row),
        all_zero(a_constraints(row)),
    ensures
        a_prime_bits(row),
        holds_limbs(row, COL_A as int, input_of(row)),
{
    let f = a_constraints(row);
    assert forall|i: int| 0 <= i < 1600 implies is_bit(
        #[trigger] cell(row, COL_A_PRIME as int, i),
    ) by {
        let lane = i / 64;
        let k = 68 * lane + i % 64;
        assert(k / 68 == lane && k % 68 == i % 64);
        assert(64 * lane == 320 * (lane / 5) + 64 * (lane % 5));
        assert(f[k].value() == 0);
        lemma_bool_check(a_prime_at(row, lane / 5, lane % 5, i % 64));
    }
    assert forall|k: int| 0 <= k < 100 implies (#[trigger] cell(row, COL_A as int, k)).value()
        == bits_value(input_of(row).subrange(16 * k, 16 * k + 16)) by {
        let j = 68 * (k / 4) + 64 + k % 4;
        assert(j / 68 == k / 4 && j % 68 == 64 + k % 4);
        assert(f[j].value() == 0);
        lemma_a_limb(row, k);
        lemma_diff_zero(pack_of(a_limb_bits(row, k / 4, k % 4)), row[COL_A + k]);
    }
}

proof fn lemma_a_block_complete<T: PrimeFieldModel>(row: Seq<T>)
    requires
        has_limbs::<T>(),
        c_consistent(row),
        a_prime_bits(row),
        holds_limbs(row, COL_A as int, input_of(row)),
    ensures
        all_zero(a_constraints(row)),
{
    let f = a_constraints(row);
    assert forall|k: int| 0 <= k < f.len() implies (#[trigger] f[k]).value() == 0 by {
        let lane = k / 68;
        let j = k % 68;
        if j < 64 {
            assert(64 * lane == 320 * (lane / 5) + 64 * (lane % 5));
            assert(is_bit(cell(row, COL_A_PRIME as int, 64 * lane + j)));
            lemma_bool_check(a_prime_at(row, lane / 5, lane % 5, j));
        } else {
            let m = 4 * lane + (j - 64);
            assert(m / 4 == lane && m % 4 == j - 64);
            lemma_a_limb(row, m);
            assert(cell(row, COL_A as int, m).value() == bits_value(
                input_of(row).subrange(16 * m, 16 * m + 16),
            ));
            lemma_diff_zero(pack_of(a_limb_bits(row, lane, j - 64)), row[COL_A + m]);
        }
    }
}

/// Reading back a state built bit by bit.
proof fn lemma_state_from(f: spec_fn(int, int, int) -> bool, x: int, y: int, z: int)
    requires
        0 <= x < 5,
        0 <= y < 5,
        0 <= z < 64,
    ensures
        lane_bit(state_from(f), x, y, z) == f(x, y, z),
{
    let i = 64 * (5 * y + x) + z;
    assert(i / 64 == 5 * y + x && i % 64 == z && i / 320 == y && (i / 64) % 5 == x);
}

/// The sum of a column of A', over the integers.
proof fn lemma_column_sum<T: PrimeFieldModel>(row: Seq<T>, x: int, z: int)
    requires
        has_limbs::<T>(),
        a_prime_bits(row),
        0 <= x < 5,
        0 <= z < 64,
    ensures
        column_sum(row, x, z, 5).value() == bit_value(lane_bit(prime_of(row), x, 0, z)) + bit_value(
            lane_bit(prime_of(row), x, 1, z),
        ) + bit_value(lane_bit(prime_of(row), x, 2, z)) + bit_value(
            lane_bit(prime_of(row), x, 3, z),
        ) + bit_value(lane_bit(prime_of(row), x, 4, z)),
{
    assert forall|y: int| 0 <= y < 5
        implies (#[trigger] a_prime_at(row, y, x, z)).value() == bit_value(
        lane_bit(prime_of(row), x, y, z),
    ) by {
        let i = 320 * y + 64 * x + z;
        assert(is_bit(cell(row, COL_A_PRIME as int, i)));
        assert(i == 64 * (5 * y + x) + z);
    }
    assert(column_sum(row, x, z, 0).value() == 0);
    assert(column_sum(row, x, z, 1).value() == bit_value(lane_bit(prime_of(row), x, 0, z)));
    assert(column_sum(row, x, z, 2).value() == column_sum(row, x, z, 1).value() + bit_value(
        lane_bit(prime_of(row), x, 1, z),
    ));
    assert(column_sum(row, x, z, 3).value() == column_sum(row, x, z, 2).value() + bit_value(
        lane_bit(prime_of(row), x, 2, z),
    ));
    assert(column_sum(row, x, z, 4).value() == column_sum(row, x, z, 3).value() + bit_value(
        lane_bit(prime_of(row), x, 3, z),
    ));
    assert(column_sum(row, x, z, 5).value() == column_sum(row, x, z, 4).value() + bit_value(
        lane_bit(prime_of(row), x, 4, z),
    ));
}

/// The parity constraint is zero exactly where C' is the parity of the column.
proof fn lemma_parity<T: PrimeFieldModel>(row: Seq<T>, x: int, z: int)
    requires
        has_limbs::<T>(),
        a_prime_bits(row),
        is_bit(c_prime_at(row, x, z)),
        0 <= x < 5,
        0 <= z < 64,
    ensures
        parity_constraint(row, 64 * x + z).value() == 0
            <==> column_parity(prime_of(row), x, z) == truth(
            c_prime_at(row, x, z),
        ),
{
    let k = 64 * x + z;
    assert(k / 64 == x && k % 64 == z);
    let sum = column_sum(row, x, z, 5);
    let cp = c_prime_at(row, x, z);
    lemma_column_sum(row, x, z);
    let d = T::diff_of(sum, cp);
    let two = T::elem(2);
    let four = double_of(T::elem(2));
    lemma_prod_zero(T::prod_of(d, T::diff_of(d, two)), T::diff_of(d, four));
    lemma_prod_zero(d, T::diff_of(d, two));
    lemma_diff_zero(d, two);
    lemma_diff_zero(d, four);
    assert(two.value() == 2 && four.value() == 4);
    assert(parity_constraint(row, k).value() == 0
        <==> (d.value() == 0 || d.value() == 2 || d.value() == 4));
    assert(d.value() == 0 <==> sum.value() - cp.value() == 0);
    assert(d.value() == 2 <==> sum.value() - cp.value() == 2);
    assert(d.value() == 4 <==> sum.value() - cp.value() == 4);
}

/// C' is the parity of every column of A'.
spec fn parity_holds<T: PrimeFieldModel>(row: Seq<T>) -> bool {
    forall|x: int, z: int|
        0 <= x < 5 && 0 <= z < 64 ==> column_parity(prime_of(row), x, z) == truth(
            #[trigger] c_prime_at(row, x, z),
        )
}

proof fn lemma_parity_block<T: PrimeFieldModel>(row: Seq<T>)
    requires
        has_limbs::<T>(),
        c_consistent(row),
        a_prime_bits(row),
    ensures
        all_zero(parity_constraints(row)) <==> parity_holds(row),
{
    let f = parity_constraints(row);
    if all_zero(f) {
        assert forall|x: int, z: int| 0 <= x < 5 && 0 <= z < 64 implies column_parity(
            prime_of(row),
            x,
            z,
        ) == truth(#[trigger] c_prime_at(row, x, z)) by {
            assert(f[64 * x + z].value() == 0);
            lemma_parity(row, x, z);
        }
    }
    if parity_holds(row) {
        assert forall|k: int| 0 <= k < f.len() implies (#[trigger] f[k]).value() == 0 by {
            assert(k == 64 * (k / 64) + k % 64);
            assert(is_bit(c_prime_at(row, k / 64, k % 64)));
            lemma_parity(row, k / 64, k % 64);
        }
    }
}

/// A bit of the state that A', C and C' describe.
proof fn lemma_input_bit<T: PrimeFieldModel>(row: Seq<T>, x: int, y: int, z: int)
    requires
        0 <= x < 5,
        0 <= y < 5,
        0 <= z < 64,
    ensures
        lane_bit(input_of(row), x, y, z) == ((lane_bit(prime_of(row), x, y, z) != truth(
            c_at(row, x, z),
        )) != truth(c_prime_at(row, x, z))),
{
    let i = 64 * (5 * y + x) + z;
    assert(i % 64 == z && (i / 64) % 5 == x && 0 <= i < 1600);
}

/// The state that A', C and C' describe has the column parities C.
proof fn lemma_input_parity<T: PrimeFieldModel>(row: Seq<T>, x: int, z: int)
    requires
        parity_holds(row),
        0 <= x < 5,
        0 <= z < 64,
    ensures
        column_parity(input_of(row), x, z) == truth(c_at(row, x, z)),
{
    lemma_input_bit(row, x, 0, z);
    lemma_input_bit(row, x, 1, z);
    lemma_input_bit(row, x, 2, z);
    lemma_input_bit(row, x, 3, z);
    lemma_input_bit(row, x, 4, z);
    assert(column_parity(prime_of(row), x, z) == truth(c_prime_at(row, x, z)));
}

/// C and C' hold the parities of the state that A', C and C' describe.
proof fn lemma_parities_sound<T: PrimeFieldModel>(row: Seq<T>)
    requires
        c_consistent(row),
        parity_holds(row),
    ensures
        holds_parities(row, input_of(row)),
{
    let s = input_of(row);
    assert forall|x: int, z: int| 0 <= x < 5 && 0 <= z < 64 implies (#[trigger] c_at(
        row,
        x,
        z,
    )).value() == bit_value(column_parity(s, x, z)) by {
        lemma_input_parity(row, x, z);
        assert(is_bit(c_at(row, x, z)));
    }
    assert forall|x: int, z: int| 0 <= x < 5 && 0 <= z < 64 implies (#[trigger] c_prime_at(
        row,
        x,
        z,
    )).value() == bit_value(
        (column_parity(s, x, z) != column_parity(s, (x + 4) % 5, z)) != column_parity(
            s,
            (x + 1) % 5,
            (z + 63) % 64,
        ),
    ) by {
        lemma_input_parity(row, x, z);
        lemma_input_parity(row, (x + 4) % 5, z);
        lemma_input_parity(row, (x + 1) % 5, (z + 63) % 64);
    }
}

/// A bit of A' is that of the image under theta.
proof fn lemma_theta_sound_bit<T: PrimeFieldModel>(row: Seq<T>, x: int, y: int, z: int)
    requires
        holds_parities(row, input_of(row)),
        0 <= x < 5,
        0 <= y < 5,
        0 <= z < 64,
    ensures
        lane_bit(theta(input_of(row)), x, y, z) == lane_bit(prime_of(row), x, y, z),
{
    let s = input_of(row);
    lemma_input_bit(row, x, y, z);
    lemma_theta_bit(s, x, y, z);
    let parity = column_parity(s, x, z);
    let left = column_parity(s, (x + 4) % 5, z);
    let right = column_parity(s, (x + 1) % 5, (z + 63) % 64);
    assert(c_at(row, x, z).value() == bit_value(parity));
    assert(c_prime_at(row, x, z).value() == bit_value((parity != left) != right));
}

/// The state that A', C and C' describe has the column parities C, and A' is
/// its image under theta.
proof fn lemma_theta_sound<T: PrimeFieldModel>(row: Seq<T>)
    requires
        c_consistent(row),
        parity_holds(row),
    ensures
        holds_parities(row, input_of(row)),
        theta(input_of(row)) == prime_of(row),
{
    lemma_parities_sound(row);
    let t = theta(input_of(row));
    assert forall|i: int| 0 <= i < 1600 implies t[i] == prime_of(row)[i] by {
        let (x, y, z) = ((i / 64) % 5, i / 320, i % 64);
        assert(i == 64 * (5 * y + x) + z);
        lemma_theta_sound_bit(row, x, y, z);
    }
    assert(t =~= prime_of(row));
}

/// A bit of the image under theta.
proof fn lemma_theta_bit(s: Seq<bool>, x: int, y: int, z: int)
    requires
        0 <= x < 5,
        0 <= y < 5,
        0 <= z < 64,
    ensures
        lane_bit(theta(s), x, y, z) == ((lane_bit(s, x, y, z) != column_parity(s, (x + 4) % 5, z))
            != column_parity(s, (x + 1) % 5, (z + 63) % 64)),
{
    lemma_state_from(
        |i: int, j: int, k: int|
            (lane_bit(s, i, j, k) != column_parity(s, (i + 4) % 5, k)) != column_parity(
                s,
                (i + 1) % 5,
                (k + 63) % 64,
            ),
        x,
        y,
        z,
    );
}

/// A column parity of the image under theta.
proof fn lemma_theta_parity(s: Seq<bool>, x: int, z: int)
    requires
        0 <= x < 5,
        0 <= z < 64,
    ensures
        column_parity(theta(s), x, z) == ((column_parity(s, x, z) != column_parity(
            s,
            (x + 4) % 5,
            z,
        )) != column_parity(s, (x + 1) % 5, (z + 63) % 64)),
{
    lemma_theta_bit(s, x, 0, z);
    lemma_theta_bit(s, x, 1, z);
    lemma_theta_bit(s, x, 2, z);
    lemma_theta_bit(s, x, 3, z);
    lemma_theta_bit(s, x, 4, z);
}

proof fn lemma_prime_complete<T: PrimeFieldModel>(row: Seq<T>, t: Seq<bool>)
    requires
        t.len() == 1600,
        holds_bits(row, COL_A_PRIME as int, t),
    ensures
        a_prime_bits(row),
        prime_of(row) == t,
{
    let p = prime_of(row);
    assert forall|i: int| 0 <= i < 1600 implies is_bit(
        #[trigger] cell(row, COL_A_PRIME as int, i),
    ) && p[i] == t[i] by {
        assert(cell(row, COL_A_PRIME as int, i).value() == bit_value(t[i]));
    }
    assert forall|i: int| 0 <= i < 1600 implies p[i] == t[i] by {
        assert(is_bit(cell(row, COL_A_PRIME as int, i)));
    }
    assert(p =~= t);
}

proof fn lemma_c_complete<T: PrimeFieldModel>(row: Seq<T>, s: Seq<bool>)
    requires
        holds_parities(row, s),
    ensures
        c_consistent(row),
{
    assert forall|x: int, z: int| 0 <= x < 5 && 0 <= z < 64 implies (#[trigger] c_prime_at(
        row,
        x,
        z,
    )).value() == bit_value(
        (truth(c_at(row, x, z)) != truth(c_at(row, (x + 4) % 5, z))) != truth(
            c_at(row, (x + 1) % 5, (z + 63) % 64),
        ),
    ) by {
        assert(c_at(row, x, z).value() == bit_value(column_parity(s, x, z)));
        assert(c_at(row, (x + 4) % 5, z).value() == bit_value(column_parity(s, (x + 4) % 5, z)));
        assert(c_at(row, (x + 1) % 5, (z + 63) % 64).value() == bit_value(
            column_parity(s, (x + 1) % 5, (z + 63) % 64),
        ));
    }
}

/// The columns of a described round give back its input.
proof fn lemma_input_complete<T: PrimeFieldModel>(row: Seq<T>, s: Seq<bool>)
    requires
        has_limbs::<T>(),
        s.len() == 1600,
        holds_parities(row, s),
        prime_of(row) == theta(s),
    ensures
        input_of(row) == s,
{
    let p = prime_of(row);
    assert forall|i: int| 0 <= i < 1600 implies input_of(row)[i] == s[i] by {
        let (x, y, z) = ((i / 64) % 5, i / 320, i % 64);
        assert(i == 64 * (5 * y + x) + z);
        lemma_theta_bit(s, x, y, z);
        assert(lane_bit(p, x, y, z) == p[i]);
        assert(c_at(row, x, z).value() == bit_value(column_parity(s, x, z)));
        assert(c_prime_at(row, x, z).value() == bit_value(
            (column_parity(s, x, z) != column_parity(s, (x + 4) % 5, z)) != column_parity(
                s,
                (x + 1) % 5,
                (z + 63) % 64,
            ),
        ));
    }
    assert(input_of(row) =~= s);
}

proof fn lemma_parity_complete<T: PrimeFieldModel>(row: Seq<T>, s: Seq<bool>)
    requires
        holds_parities(row, s),
        prime_of(row) == theta(s),
    ensures
        parity_holds(row),
{
    assert forall|x: int, z: int| 0 <= x < 5 && 0 <= z < 64 implies column_parity(
        prime_of(row),
        x,
        z,
    ) == truth(#[trigger] c_prime_at(row, x, z)) by {
        lemma_theta_parity(s, x, z);
    }
}

/// B holds the bits of the state after rho and pi.
proof fn lemma_b_bit<T: PrimeFieldModel>(row: Seq<T>, x: int, y: int, z: int)
    requires
        a_prime_bits(row),
        0 <= x < 5,
        0 <= y < 5,
        0 <= z < 64,
    ensures
        is_bit(b_at(row, x, y, z)),
        truth(b_at(row, x, y, z)) == lane_bit(pi(rho(prime_of(row))), x, y, z),
{
    let p = prime_of(row);
    let a = (x + 3 * y) % 5;
    lemma_rotation_range();
    let w = (z + 64 - R@[a]@[x]) % 64;
    assert(is_bit(cell(row, COL_A_PRIME as int, 320 * x + 64 * a + w)));
    let q = rho(p);
    lemma_state_from(|i: int, j: int, k: int| lane_bit(q, (i + 3 * j) % 5, i, k), x, y, z);
    lemma_state_from(
        |i: int, j: int, k: int| lane_bit(p, i, j, (k + 64 - R@[i]@[j]) % 64),
        a,
        x,
        z,
    );
    assert(64 * (5 * x + a) + w == 320 * x + 64 * a + w);
}

/// The limb that B describes.
proof fn lemma_chi_limb<T: PrimeFieldModel>(row: Seq<T>, k: int)
    requires
        has_limbs::<T>(),
        a_prime_bits(row),
        0 <= k < 100,
    ensures
        pack_of(chi_limb_bits(row, k / 4, k % 4)).value() == bits_value(
            chi(pi(rho(prime_of(row)))).subrange(16 * k, 16 * k + 16),
        ),
{
    let lane = k / 4;
    let limb = k % 4;
    let bits = chi_limb_bits(row, lane, limb);
    let b = pi(rho(prime_of(row)));
    let s = chi(b);
    assert forall|i: int| 0 <= i < 16 implies is_bit(#[trigger] bits[i]) && truth(bits[i]) == s[16
        * k + i] by {
        let z = 16 * limb + i;
        let x = lane % 5;
        let y = lane / 5;
        let j = 64 * lane + z;
        assert(j / 64 == lane && j % 64 == z && j / 320 == y && 16 * k + i == j);
        lemma_b_bit(row, x, y, z);
        lemma_b_bit(row, (x + 1) % 5, y, z);
        lemma_b_bit(row, (x + 2) % 5, y, z);
        let b1 = b_at(row, (x + 1) % 5, y, z);
        let b2 = b_at(row, (x + 2) % 5, y, z);
        lemma_andn_bits(b1, b2);
        lemma_xor_bits(andn_of(b1, b2), b_at(row, x, y, z));
        assert(bits[i] == chi_bit(row, x, y, z));
    }
    lemma_pack_bits(bits);
    assert(truths(bits) =~= s.subrange(16 * k, 16 * k + 16));
}

/// A'' holds the limbs that B describes.
proof fn lemma_chi_block<T: PrimeFieldModel>(row: Seq<T>)
    requires
        has_limbs::<T>(),
        a_prime_bits(row),
    ensures
        all_zero(chi_constraints(row)) <==> holds_limbs(
            row,
            COL_A_PRIME_PRIME as int,
            chi(pi(rho(prime_of(row)))),
        ),
{
    let f = chi_constraints(row);
    let s = chi(pi(rho(prime_of(row))));
    if all_zero(f) {
        assert forall|k: int| 0 <= k < 100 implies (#[trigger] cell(
            row,
            COL_A_PRIME_PRIME as int,
            k,
        )).value() == bits_value(s.subrange(16 * k, 16 * k + 16)) by {
            assert(f[k].value() == 0);
            lemma_chi_limb(row, k);
            lemma_diff_zero(pack_of(chi_limb_bits(row, k / 4, k % 4)), row[COL_A_PRIME_PRIME + k]);
        }
    }
    if holds_limbs(row, COL_A_PRIME_PRIME as int, s) {
        assert forall|k: int| 0 <= k < f.len() implies (#[trigger] f[k]).value() == 0 by {
            lemma_chi_limb(row, k);
            assert(cell(row, COL_A_PRIME_PRIME as int, k).value() == bits_value(
                s.subrange(16 * k, 16 * k + 16),
            ));
            lemma_diff_zero(pack_of(chi_limb_bits(row, k / 4, k % 4)), row[COL_A_PRIME_PRIME + k]);
        }
    }
}

/// The bits of `A''[0, 0]`.
spec fn first_of<T: PrimeFieldModel>(row: Seq<T>) -> Seq<bool> {
    Seq::new(64, |z: int| truth(row[COL_A_PRIME_PRIME_0_0_BITS + z]))
}

spec fn first_bits<T: PrimeFieldModel>(row: Seq<T>) -> bool {
    forall|z: int|
        0 <= z < 64 ==> is_bit(#[trigger] cell(row, COL_A_PRIME_PRIME_0_0_BITS as int, z))
}

proof fn lemma_bits_block<T: PrimeFieldModel>(row: Seq<T>)
    ensures
        all_zero(bits_constraints(row)) <==> first_bits(row),
{
    let f = bits_constraints(row);
    if all_zero(f) {
        assert forall|z: int| 0 <= z < 64 implies is_bit(
            #[trigger] cell(row, COL_A_PRIME_PRIME_0_0_BITS as int, z),
        ) by {
            assert(f[z].value() == 0);
            lemma_bool_check(row[COL_A_PRIME_PRIME_0_0_BITS + z]);
        }
    }
    if first_bits(row) {
        assert forall|z: int| 0 <= z < f.len() implies (#[trigger] f[z]).value() == 0 by {
            assert(is_bit(cell(row, COL_A_PRIME_PRIME_0_0_BITS as int, z)));
            lemma_bool_check(row[COL_A_PRIME_PRIME_0_0_BITS + z]);
        }
    }
}

proof fn lemma_first_limb<T: PrimeFieldModel>(row: Seq<T>, l: int)
    requires
        has_limbs::<T>(),
        first_bits(row),
        0 <= l < 4,
    ensures
        pack_of(first_limb_bits(row, l)).value() == bits_value(
            first_of(row).subrange(16 * l, 16 * l + 16),
        ),
{
    let bits = first_limb_bits(row, l);
    assert forall|i: int| 0 <= i < 16 implies is_bit(#[trigger] bits[i]) by {
        assert(is_bit(cell(row, COL_A_PRIME_PRIME_0_0_BITS as int, 16 * l + i)));
    }
    lemma_pack_bits(bits);
    assert(truths(bits) =~= first_of(row).subrange(16 * l, 16 * l + 16));
}

/// With A'' holding the limbs of `m`, its first lane agrees with the bits
/// exactly where the bits are those of `m`.
proof fn lemma_first_lane_block<T: PrimeFieldModel>(row: Seq<T>, m: Seq<bool>)
    requires
        has_limbs::<T>(),
        first_bits(row),
        m.len() == 1600,
        holds_limbs(row, COL_A_PRIME_PRIME as int, m),
    ensures
        all_zero(first_lane_constraints(row)) <==> first_of(row) == m.take(64),
{
    let f = first_lane_constraints(row);
    let b = first_of(row);
    if all_zero(f) {
        assert forall|z: int| 0 <= z < 64 implies b[z] == m.take(64)[z] by {
            let l = z / 16;
            assert(f[l].value() == 0);
            lemma_first_limb(row, l);
            lemma_diff_zero(pack_of(first_limb_bits(row, l)), row[COL_A_PRIME_PRIME + l]);
            assert(cell(row, COL_A_PRIME_PRIME as int, l).value() == bits_value(
                m.subrange(16 * l, 16 * l + 16),
            ));
            lemma_bits_value_injective(
                b.subrange(16 * l, 16 * l + 16),
                m.subrange(16 * l, 16 * l + 16),
            );
            assert(b.subrange(16 * l, 16 * l + 16)[z - 16 * l] == b[z]);
            assert(m.subrange(16 * l, 16 * l + 16)[z - 16 * l] == m[z]);
        }
        assert(b =~= m.take(64));
    }
    if b == m.take(64) {
        assert forall|l: int| 0 <= l < f.len() implies (#[trigger] f[l]).value() == 0 by {
            lemma_first_limb(row, l);
            lemma_diff_zero(pack_of(first_limb_bits(row, l)), row[COL_A_PRIME_PRIME + l]);
            assert(cell(row, COL_A_PRIME_PRIME as int, l).value() == bits_value(
                m.subrange(16 * l, 16 * l + 16),
            ));
            assert(b.subrange(16 * l, 16 * l + 16) =~= m.subrange(16 * l, 16 * l + 16));
        }
    }
}

/// The flags select the constant of the round.
proof fn lemma_rc_sum<T: PrimeFieldModel>(row: Seq<T>, round: int, z: int, n: int)
    requires
        has_limbs::<T>(),
        flags_are(row, round),
        0 <= n <= 24,
    ensures
        rc_sum(row, z, n).value() == bit_value(n > round && rc_bit(round, z)),
    decreases n,
{
    if n > 0 {
        lemma_rc_sum(row, round, z, n - 1);
        let flag = row[n - 1];
        assert(flag.value() == bit_value(n - 1 == round));
        let k = bool_elem::<T>(rc_bit(n - 1, z));
        assert(k.value() == bit_value(rc_bit(n - 1, z)));
        assert(flag.value() == 0 ==> flag.value() * k.value() == 0) by (nonlinear_arith);
        assert(flag.value() == 1 ==> flag.value() * k.value() == k.value()) by (nonlinear_arith);
    }
}

/// A bit of the first lane after the round constant is added.
proof fn lemma_iota_bit(m: Seq<bool>, round: int, z: int)
    requires
        0 <= z < 64,
    ensures
        iota(m, round)[z] == (m[z] != rc_bit(round, z)),
{
    lemma_state_from(
        |x: int, y: int, k: int| lane_bit(m, x, y, k) != (x == 0 && y == 0 && rc_bit(round, k)),
        0,
        0,
        z,
    );
}

proof fn lemma_iota_limb_bit<T: PrimeFieldModel>(
    row: Seq<T>,
    round: int,
    m: Seq<bool>,
    l: int,
    i: int,
)
    requires
        has_limbs::<T>(),
        flags_are(row, round),
        first_bits(row),
        m.len() == 1600,
        first_of(row) == m.take(64),
        0 <= l < 4,
        0 <= i < 16,
    ensures
        is_bit(iota_limb_bits(row, l)[i]),
        truth(iota_limb_bits(row, l)[i]) == iota(m, round)[16 * l + i],
{
    let z = 16 * l + i;
    assert(is_bit(cell(row, COL_A_PRIME_PRIME_0_0_BITS as int, z)));
    lemma_rc_sum(row, round, z, 24);
    lemma_xor_bits(rc_sum(row, z, 24), row[COL_A_PRIME_PRIME_0_0_BITS + z]);
    assert(first_of(row)[z] == m.take(64)[z]);
    lemma_iota_bit(m, round, z);
}

proof fn lemma_iota_limb<T: PrimeFieldModel>(row: Seq<T>, round: int, m: Seq<bool>, l: int)
    requires
        has_limbs::<T>(),
        flags_are(row, round),
        first_bits(row),
        m.len() == 1600,
        first_of(row) == m.take(64),
        0 <= l < 4,
    ensures
        pack_of(iota_limb_bits(row, l)).value() == bits_value(
            iota(m, round).subrange(16 * l, 16 * l + 16),
        ),
{
    let bits = iota_limb_bits(row, l);
    let t = iota(m, round);
    assert forall|i: int| 0 <= i < 16 implies is_bit(#[trigger] bits[i]) && truth(bits[i]) == t[16
        * l + i] by {
        lemma_iota_limb_bit(row, round, m, l, i);
    }
    lemma_pack_bits(bits);
    assert(truths(bits) =~= t.subrange(16 * l, 16 * l + 16));
}

proof fn lemma_iota_block<T: PrimeFieldModel>(row: Seq<T>, round: int, s: Seq<bool>)
    requires
        has_limbs::<T>(),
        flags_are(row, round),
        first_bits(row),
        first_of(row) == keccak_mix(s).take(64),
    ensures
        all_zero(iota_constraints(row)) <==> holds_first_output(row, round, s),
{
    let f = iota_constraints(row);
    if all_zero(f) {
        assert forall|l: int| 0 <= l < 4 implies (#[trigger] cell(
            row,
            COL_A_PRIME_PRIME_PRIME_0_0_LIMBS as int,
            l,
        )).value() == bits_value(keccak_round(s, round).subrange(16 * l, 16 * l + 16)) by {
            assert(f[l].value() == 0);
            lemma_iota_limb(row, round, keccak_mix(s), l);
            lemma_diff_zero(
                pack_of(iota_limb_bits(row, l)),
                row[COL_A_PRIME_PRIME_PRIME_0_0_LIMBS + l],
            );
        }
    }
    if holds_first_output(row, round, s) {
        assert forall|l: int| 0 <= l < f.len() implies (#[trigger] f[l]).value() == 0 by {
            lemma_iota_limb(row, round, keccak_mix(s), l);
            assert(cell(row, COL_A_PRIME_PRIME_PRIME_0_0_LIMBS as int, l).value() == bits_value(
                keccak_round(s, round).subrange(16 * l, 16 * l + 16),
            ));
            lemma_diff_zero(
                pack_of(iota_limb_bits(row, l)),
                row[COL_A_PRIME_PRIME_PRIME_0_0_LIMBS + l],
            );
        }
    }
}

/// The round constraints are zero exactly where every block of them is.
proof fn lemma_round_blocks<T: PrimeFieldModel>(row: Seq<T>)
    ensures
        all_zero(round_constraints(row)) <==> {
            &&& all_zero(c_constraints(row))
            &&& all_zero(a_constraints(row))
            &&& all_zero(parity_constraints(row))
            &&& all_zero(chi_constraints(row))
            &&& all_zero(bits_constraints(row))
            &&& all_zero(first_lane_constraints(row))
            &&& all_zero(iota_constraints(row))
        },
{
    let b1 = c_constraints(row);
    let b2 = b1 + a_constraints(row);
    let b3 = b2 + parity_constraints(row);
    let b4 = b3 + chi_constraints(row);
    let b5 = b4 + bits_constraints(row);
    let b6 = b5 + first_lane_constraints(row);
    lemma_all_zero_concat(b1, a_constraints(row));
    lemma_all_zero_concat(b2, parity_constraints(row));
    lemma_all_zero_concat(b3, chi_constraints(row));
    lemma_all_zero_concat(b4, bits_constraints(row));
    lemma_all_zero_concat(b5, first_lane_constraints(row));
    lemma_all_zero_concat(b6, iota_constraints(row));
}

/// Where all the blocks up to chi hold, the row describes the round up to A''.
proof fn lemma_mix_sound<T: PrimeFieldModel>(row: Seq<T>)
    requires
        has_limbs::<T>(),
        all_zero(c_constraints(row)),
        all_zero(a_constraints(row)),
        all_zero(parity_constraints(row)),
        all_zero(chi_constraints(row)),
    ensures
        holds_limbs(row, COL_A as int, input_of(row)),
        holds_parities(row, input_of(row)),
        holds_bits(row, COL_A_PRIME as int, theta(input_of(row))),
        holds_limbs(row, COL_A_PRIME_PRIME as int, keccak_mix(input_of(row))),
{
    let s = input_of(row);
    lemma_c_block_sound(row);
    lemma_a_block_sound(row);
    lemma_parity_block(row);
    lemma_theta_sound(row);
    lemma_chi_block(row);
    lemma_holds_prime(row);
}

proof fn lemma_holds_prime<T: PrimeFieldModel>(row: Seq<T>)
    requires
        a_prime_bits(row),
    ensures
        holds_bits(row, COL_A_PRIME as int, prime_of(row)),
{
    let p = prime_of(row);
    assert forall|i: int| 0 <= i < p.len() implies (#[trigger] cell(
        row,
        COL_A_PRIME as int,
        i,
    )).value() == bit_value(p[i]) by {
        assert(is_bit(cell(row, COL_A_PRIME as int, i)));
    }
}

proof fn lemma_mix_complete<T: PrimeFieldModel>(row: Seq<T>, s: Seq<bool>)
    requires
        has_limbs::<T>(),
        s.len() == 1600,
        holds_limbs(row, COL_A as int, s),
        holds_parities(row, s),
        holds_bits(row, COL_A_PRIME as int, theta(s)),
        holds_limbs(row, COL_A_PRIME_PRIME as int, keccak_mix(s)),
    ensures
        all_zero(c_constraints(row)),
        all_zero(a_constraints(row)),
        all_zero(parity_constraints(row)),
        all_zero(chi_constraints(row)),
{
    lemma_prime_complete(row, theta(s));
    lemma_c_complete(row, s);
    lemma_input_complete(row, s);
    lemma_parity_complete(row, s);
    lemma_c_block_complete(row);
    lemma_a_block_complete(row);
    lemma_parity_block(row);
    lemma_chi_block(row);
}

/// The bits of the first lane of `m`.
proof fn lemma_first_holds<T: PrimeFieldModel>(row: Seq<T>, m: Seq<bool>)
    requires
        m.len() == 1600,
    ensures
        first_bits(row) && first_of(row) == m.take(64) <==> holds_bits(
            row,
            COL_A_PRIME_PRIME_0_0_BITS as int,
            m.take(64),
        ),
{
    let head = m.take(64);
    if first_bits(row) && first_of(row) == head {
        assert forall|i: int| 0 <= i < head.len() implies (#[trigger] cell(
            row,
            COL_A_PRIME_PRIME_0_0_BITS as int,
            i,
        )).value() == bit_value(head[i]) by {
            assert(is_bit(cell(row, COL_A_PRIME_PRIME_0_0_BITS as int, i)));
            assert(head[i] == first_of(row)[i]);
        }
    }
    if holds_bits(row, COL_A_PRIME_PRIME_0_0_BITS as int, head) {
        assert forall|z: int| 0 <= z < 64 implies is_bit(
            #[trigger] cell(row, COL_A_PRIME_PRIME_0_0_BITS as int, z),
        ) && first_of(row)[z] == head[z] by {
            assert(cell(row, COL_A_PRIME_PRIME_0_0_BITS as int, z).value() == bit_value(head[z]));
        }
        assert forall|z: int| 0 <= z < 64 implies first_of(row)[z] == head[z] by {
            assert(is_bit(cell(row, COL_A_PRIME_PRIME_0_0_BITS as int, z)));
        }
        assert(first_of(row) =~= head);
    }
}

/// A row whose constraints are zero describes a round of Keccak-f: the round
/// that its flags name, on the input that its limbs hold.
pub proof fn round_soundness<T: PrimeFieldModel>(row: Seq<T>)
    requires
        has_limbs::<T>(),
        row_satisfied(row),
    ensures
        is_round_row(row, round_of(row), input_of(row)),
{
    let s = input_of(row);
    lemma_round_blocks(row);
    lemma_flags_sound(row);
    lemma_mix_sound(row);
    lemma_bits_block(row);
    lemma_first_lane_block(row, keccak_mix(s));
    lemma_first_holds(row, keccak_mix(s));
    lemma_iota_block(row, round_of(row), s);
}

/// A row that describes a round of Keccak-f satisfies every constraint on a
/// single row.
pub proof fn round_completeness<T: PrimeFieldModel>(row: Seq<T>, round: int, s: Seq<bool>)
    requires
        has_limbs::<T>(),
        is_round_row(row, round, s),
    ensures
        row_satisfied(row),
{
    lemma_flags_complete(row, round);
    lemma_mix_complete(row, s);
    lemma_first_holds(row, keccak_mix(s));
    lemma_bits_block(row);
    lemma_first_lane_block(row, keccak_mix(s));
    lemma_iota_block(row, round, s);
    lemma_round_blocks(row);
}

} // verus!

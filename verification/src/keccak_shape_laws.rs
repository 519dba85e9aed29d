//! What the columns and the declared shape of the Keccak-f AIRs come down to, of every
//! result that a call can have.

use crate::air::{Air, RowBuilder};
use crate::bits::{all_zero, bits_value};
use crate::degree::{all_within, keccak_degree, variables};
use crate::field::Ring;
use crate::keccak::keccak_f;
use crate::keccak_air::{
    b_at, down_index, input_limb, keccak_constraints, lemma_rotation_range, make_col_map,
    output_limb, rc_value_bit, row_determines_columns, KeccakAir, KeccakAirOptimizedDown,
    KeccakCols, KeccakDownCols, COL_A, COL_PREIMAGE, NUM_KECCAK_COLS, R, RC,
};
use crate::keccak_laws::holds_limbs;
use crate::keccak_trace_laws::{
    asked_columns_are_needed, asks_for, constraint_count, down_values, is_step,
    optimized_down_agrees, permutation_satisfied, rate_limbs_of_permutation, step_completeness,
    step_soundness, tells_apart,
};
use crate::prime_field::{has_limbs, PrimeFieldModel};
use vstd::arithmetic::power2::pow2;
use vstd::bits::lemma_u64_shr_is_div;
use vstd::prelude::*;

verus! {

/// The columns stand in the order of the registers, lane by lane and the last index
/// fastest.
pub proof fn columns_stand_in_order<T: Copy>(cols: &KeccakCols<T>, i: usize, r: T)
    requires
        call_ensures(KeccakCols::<T>::column, (cols, i), r),
        i < 2633,
    ensures
        i < 24 ==> r == cols.step_flags@[i as int],
        i == 24 ==> r == cols.export,
        forall|y: int, x: int, l: int|
            #![trigger cols.preimage@[y]@[x]@[l]]
            0 <= y < 5 && 0 <= x < 5 && 0 <= l < 4 && i == 25 + 20 * y + 4 * x + l ==> r
                == cols.preimage@[y]@[x]@[l],
        forall|y: int, x: int, l: int|
            #![trigger cols.a@[y]@[x]@[l]]
            0 <= y < 5 && 0 <= x < 5 && 0 <= l < 4 && i == 125 + 20 * y + 4 * x + l ==> r
                == cols.a@[y]@[x]@[l],
        forall|x: int, z: int|
            #![trigger cols.c@[x]@[z]]
            0 <= x < 5 && 0 <= z < 64 && i == 225 + 64 * x + z ==> r == cols.c@[x]@[z],
        forall|x: int, z: int|
            #![trigger cols.c_prime@[x]@[z]]
            0 <= x < 5 && 0 <= z < 64 && i == 545 + 64 * x + z ==> r == cols.c_prime@[x]@[z],
        forall|y: int, x: int, z: int|
            #![trigger cols.a_prime@[y]@[x]@[z]]
            0 <= y < 5 && 0 <= x < 5 && 0 <= z < 64 && i == 865 + 320 * y + 64 * x + z ==> r
                == cols.a_prime@[y]@[x]@[z],
        forall|y: int, x: int, l: int|
            #![trigger cols.a_prime_prime@[y]@[x]@[l]]
            0 <= y < 5 && 0 <= x < 5 && 0 <= l < 4 && i == 2465 + 20 * y + 4 * x + l ==> r
                == cols.a_prime_prime@[y]@[x]@[l],
        2565 <= i < 2629 ==> r == cols.a_prime_prime_0_0_bits@[i - 2565],
        2629 <= i ==> r == cols.a_prime_prime_prime_0_0_limbs@[i - 2629],
{
}

/// A row that is written and read again gives the same registers, and a row that is
/// read and written again is the same row.
pub proof fn rows_and_registers_are_inverse<T: Copy>(
    cols: &KeccakCols<T>,
    row: &mut Vec<T>,
    slice: &[T],
    back: KeccakCols<T>,
)
    requires
        call_ensures(KeccakCols::<T>::write_row, (cols, row), ()),
        call_ensures(KeccakCols::<T>::from_row, (slice,), back),
    ensures
        slice@ == final(row)@ ==> back == *cols,
        back == *cols ==> slice@ == final(row)@,
{
    if slice@ == final(row)@ {
        row_determines_columns(back, *cols);
    }
}

/// The column map tells the column of every register.
pub proof fn column_map_counts_columns(map: KeccakCols<usize>, i: usize, r: usize)
    requires
        call_ensures(make_col_map, (), map),
        call_ensures(KeccakCols::<usize>::column, (&map, i), r),
        i < 2633,
    ensures
        r == i,
{
    assert(map.row()[i as int] == i);
}

/// A bit of B is the bit of A' that the constraints take it to be: lane
/// `A'[(x + 3y) % 5, x]`, rotated to the left by the offset of that lane.
pub proof fn b_is_the_b_of_the_constraints<T: Copy>(
    cols: KeccakCols<T>,
    map: KeccakCols<usize>,
    x: usize,
    y: usize,
    z: usize,
    r: usize,
)
    requires
        x < 5,
        y < 5,
        z < 64,
        call_ensures(make_col_map, (), map),
        call_ensures(KeccakCols::<usize>::b, (&map, x, y, z), r),
    ensures
        cols.b_cell(x as int, y as int, z as int) == b_at(
            cols.row(),
            x as int,
            y as int,
            z as int,
        ),
        ({
            let lane = (x + 3 * y) % 5;
            &&& 865 + 320 * x + 64 * lane <= r < 865 + 320 * x + 64 * lane + 64
            &&& (r - 865 + R@[lane]@[x as int]) % 64 == z
        }),
{
    lemma_rotation_range();
    let lane = (x + 3 * y) % 5;
    let w = (z + 64 - R@[lane]@[x as int]) % 64;
    let k = 320 * x + 64 * lane + w;
    assert(k / 320 == x && (k / 64) % 5 == lane && k % 64 == w);
    assert(cols.row()[865 + k] == cols.cell(865 + k));
    assert(map.row()[865 + k] == map.cell(865 + k));
    assert(map.row()[865 + k] == 865 + k);
}

/// The columns of the input limbs are registers of the preimage, and those of the
/// output limbs registers of `A'''`, in the same order.
pub proof fn rate_limbs_are_registers(
    map: KeccakCols<usize>,
    y: usize,
    x: usize,
    limb: usize,
    i: usize,
    input: usize,
    output: usize,
    register: usize,
)
    requires
        y < 5,
        x < 5,
        limb < 4,
        i == 20 * y + 4 * x + limb,
        i < 68,
        call_ensures(make_col_map, (), map),
        call_ensures(input_limb, (i,), input),
        call_ensures(output_limb, (i,), output),
        call_ensures(
            KeccakCols::<usize>::a_prime_prime_prime,
            (&map, y, x, limb),
            register,
        ),
    ensures
        input == map.preimage@[y as int]@[x as int]@[limb as int],
        output == register,
{
    let k = 20 * y + 4 * x + limb;
    assert(k / 20 == y && (k / 4) % 5 == x && k % 4 == limb);
    assert(map.row()[25 + k] == map.cell(25 + k));
    assert(map.row()[25 + k] == 25 + k);
    assert(map.row()[2465 + k] == map.cell(2465 + k));
    assert(map.row()[2465 + k] == 2465 + k);
    assert(map.row()[2629 + limb] == map.cell(2629 + limb));
    assert(map.row()[2629 + limb] == 2629 + limb);
}

/// The rate of the permutation can be read off the last row of its trace: the column
/// of an input limb holds that limb of the preimage, and the column of an output limb
/// that limb of its image.
pub proof fn rate_columns_hold_preimage_and_image<T: PrimeFieldModel>(
    rows: Seq<Seq<T>>,
    i: usize,
    input: usize,
    output: usize,
)
    requires
        has_limbs::<T>(),
        permutation_satisfied(rows),
        i < 68,
        call_ensures(input_limb, (i,), input),
        call_ensures(output_limb, (i,), output),
    ensures
        input == 25 + i,
        i < 4 ==> output == 2629 + i,
        i >= 4 ==> output == 2465 + i,
        exists|s: Seq<bool>|
            s.len() == 1600 && #[trigger] holds_limbs(rows[23], COL_PREIMAGE as int, s)
                && rows[23][input as int].value() == bits_value(s.subrange(16 * i, 16 * i + 16))
                && rows[23][output as int].value() == bits_value(
                keccak_f(s).subrange(16 * i, 16 * i + 16),
            ),
{
    rate_limbs_of_permutation(rows, i as int);
}

/// The bits of a round constant are those of its binary expansion.
pub proof fn round_constant_bits_are_binary(round: usize, bit_index: usize, r: u8)
    requires
        round < 24,
        bit_index < 64,
        call_ensures(rc_value_bit, (round, bit_index), r),
    ensures
        r as nat == (RC@[round as int] as nat / pow2(bit_index as nat)) % 2,
{
    let word = RC@[round as int];
    let shift = bit_index as u64;
    lemma_u64_shr_is_div(word, shift);
    let t = word >> shift;
    assert(t & 1 == t % 2) by (bit_vector);
}

/// The full AIR asserts what it declares: as many values as its number of constraints,
/// on top of what was asserted before, of a degree that it bounds, from rows of as
/// many columns as it has, and with the next row of every column. They are zero
/// exactly on the steps of the permutation.
pub proof fn full_air_asserts_what_it_declares<EF, T: Ring + PrimeFieldModel>(
    air: &KeccakAir<EF>,
    builder: &mut RowBuilder<T>,
)
    requires
        call_ensures(KeccakAir::<EF>::eval::<T>, (air, builder), ()),
    ensures
        final(builder).up@ == old(builder).up@,
        final(builder).down@ == old(builder).down@,
        ({
            let shape = air.shape();
            let before = old(builder).asserted@;
            let after = final(builder).asserted@;
            let new = after.skip(before.len() as int);
            let (up, down) = (old(builder).up@, old(builder).down@);
            &&& after.len() == before.len() + shape.n_constraints
            &&& after.take(before.len() as int) == before
            &&& has_limbs::<T>() ==> (all_zero(new) <==> exists|round: int, s: Seq<bool>|
                #![trigger is_step(up, down, round, s)]
                is_step(up, down, round, s))
            &&& shape.n_columns_f == NUM_KECCAK_COLS
            &&& shape.n_columns_ef == 0
            &&& shape.down_ef.len() == 0
            &&& shape.down_f.len() == shape.n_columns_f
            &&& forall|i: int|
                #![trigger shape.down_f[i]]
                0 <= i < shape.down_f.len() ==> shape.down_f[i] == i
            &&& all_within(
                keccak_constraints(
                    variables(shape.n_columns_f as nat),
                    variables(shape.down_f.len()),
                    25,
                    125,
                ),
                shape.degree as nat,
            )
        }),
{
    let (up, down) = (old(builder).up@, old(builder).down@);
    let f = keccak_constraints(up, down, COL_PREIMAGE as int, COL_A as int);
    let before = old(builder).asserted@;
    let after = final(builder).asserted@;
    constraint_count(up, down, COL_PREIMAGE as int, COL_A as int);
    assert(after.take(before.len() as int) =~= before);
    assert(after.skip(before.len() as int) =~= f);
    keccak_degree(NUM_KECCAK_COLS as nat, 25, 125);
    if has_limbs::<T>() {
        if all_zero(f) {
            step_soundness(up, down);
        }
        if exists|round: int, s: Seq<bool>|
            #![trigger is_step(up, down, round, s)]
            is_step(up, down, round, s) {
            let (round, s) = choose|round: int, s: Seq<bool>|
                #![trigger is_step(up, down, round, s)]
                is_step(up, down, round, s);
            step_completeness(up, down, round, s);
        }
    }
}

/// The optimized AIR asserts what the full AIR does, given the columns of the next row
/// that it asks for, and has the same shape but for those.
pub proof fn optimized_air_asserts_the_same<EF, T: Ring>(
    full: &KeccakAir<EF>,
    optimized: &KeccakAirOptimizedDown<EF>,
    indices: Vec<usize>,
    builder: &mut RowBuilder<T>,
    other: &mut RowBuilder<T>,
)
    requires
        call_ensures(KeccakAirOptimizedDown::<EF>::down_indices, (), indices),
        old(builder).down@.len() == NUM_KECCAK_COLS,
        old(builder).asserted@ == old(other).asserted@,
        old(other).up@ == old(builder).up@,
        old(other).down@.len() == indices@.len(),
        forall|i: int|
            0 <= i < indices@.len() ==> #[trigger] old(other).down@[i]
                == old(builder).down@[indices@[i] as int],
        call_ensures(KeccakAir::<EF>::eval::<T>, (full, builder), ()),
        call_ensures(KeccakAirOptimizedDown::<EF>::eval::<T>, (optimized, other), ()),
    ensures
        final(other).asserted@ == final(builder).asserted@,
        final(other).up@ == old(other).up@,
        final(other).down@ == old(other).down@,
        optimized.shape().n_constraints == full.shape().n_constraints,
        optimized.shape().degree == full.shape().degree,
        optimized.shape().n_columns_f == full.shape().n_columns_f,
        optimized.shape().n_columns_ef == full.shape().n_columns_ef,
        optimized.shape().down_ef == full.shape().down_ef,
        optimized.shape().down_f == indices@,
{
    let next = old(builder).down@;
    assert forall|i: int| 0 <= i < indices@.len() implies old(other).down@[i] == down_values(
        next,
    )[i] by {
        assert(indices@[i] == down_index(i));
    }
    assert(old(other).down@ =~= down_values(next));
    optimized_down_agrees(old(builder).up@, next);
}

/// The optimized AIR asks for no column twice, and for exactly those of which some
/// next row can be told from another that differs there only.
pub proof fn optimized_air_asks_for_what_it_needs<EF, T: PrimeFieldModel>(
    indices: Vec<usize>,
    j: usize,
)
    requires
        call_ensures(KeccakAirOptimizedDown::<EF>::down_indices, (), indices),
        j < 2633,
    ensures
        forall|i: int, k: int|
            0 <= i < k < indices@.len() ==> #[trigger] indices@[i] < #[trigger] indices@[k],
        indices@.contains(j) <==> exists|up: Seq<T>, down: Seq<T>, other: Seq<T>| #[trigger]
            tells_apart(up, down, other, j as int),
{
    asked_columns_are_needed::<T>(j as int);
    if asks_for(j as int) {
        let i = choose|i: int| 0 <= i < 224 && #[trigger] down_index(i) == j;
        assert(indices@[i] == j);
    }
    if indices@.contains(j) {
        let i = choose|i: int| 0 <= i < indices@.len() && indices@[i] == j;
        assert(down_index(i) == j);
    }
}

/// The next-row values are read in the order in which they are asked for.
pub proof fn next_row_registers_are_those_asked_for<EF, T: Copy>(
    indices: Vec<usize>,
    cols: KeccakCols<T>,
    down: &[T],
    next: KeccakDownCols<T>,
)
    requires
        call_ensures(KeccakAirOptimizedDown::<EF>::down_indices, (), indices),
        down@.len() == indices@.len(),
        forall|i: int|
            0 <= i < down@.len() ==> #[trigger] down@[i] == cols.row()[indices@[i] as int],
        call_ensures(KeccakDownCols::<T>::from_row, (down,), next),
    ensures
        next.step_flags@ == cols.step_flags@,
        forall|y: int, x: int, l: int|
            #![trigger next.preimage@[y]@[x]@[l]]
            0 <= y < 5 && 0 <= x < 5 && 0 <= l < 4 ==> next.preimage@[y]@[x]@[l]
                == cols.preimage@[y]@[x]@[l],
        forall|y: int, x: int, l: int|
            #![trigger next.a@[y]@[x]@[l]]
            0 <= y < 5 && 0 <= x < 5 && 0 <= l < 4 ==> next.a@[y]@[x]@[l] == cols.a@[y]@[x]@[l],
{
    assert forall|i: int| 0 <= i < 224 implies #[trigger] next.row()[i] == cols.cell(
        down_index(i),
    ) by {
        assert(down@[i] == cols.row()[indices@[i] as int]);
        assert(cols.row()[down_index(i)] == cols.cell(down_index(i)));
    }
    assert forall|i: int| 0 <= i < 24 implies next.step_flags@[i] == cols.step_flags@[i] by {
        assert(next.row()[i] == cols.cell(i));
    }
    assert(next.step_flags@ =~= cols.step_flags@);
    assert forall|y: int, x: int, l: int|
        #![trigger next.preimage@[y]@[x]@[l]]
        0 <= y < 5 && 0 <= x < 5 && 0 <= l < 4 implies next.preimage@[y]@[x]@[l]
        == cols.preimage@[y]@[x]@[l] by {
        let k = 20 * y + 4 * x + l;
        assert(k / 20 == y && (k / 4) % 5 == x && k % 4 == l);
        assert(next.row()[24 + k] == cols.cell(25 + k));
    }
    assert forall|y: int, x: int, l: int|
        #![trigger next.a@[y]@[x]@[l]]
        0 <= y < 5 && 0 <= x < 5 && 0 <= l < 4 implies next.a@[y]@[x]@[l]
        == cols.a@[y]@[x]@[l] by {
        let k = 20 * y + 4 * x + l;
        assert(k / 20 == y && (k / 4) % 5 == x && k % 4 == l);
        assert(next.row()[124 + k] == cols.cell(125 + k));
    }
}

} // verus!

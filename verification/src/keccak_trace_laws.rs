//! What the Keccak-f AIR means over consecutive rows: the constraints of a row
//! and its successor vanish exactly when the pair is a step of the permutation,
//! and twenty-four steps carry the preimage to its image under Keccak-f.

use crate::bits::{
    all_zero, bits_value, is_bit, lemma_all_zero_concat, lemma_bits_value_injective,
    lemma_bool_check, lemma_diff_zero, lemma_prod_zero,
};
use crate::field::{bool_elem, RingModel};
use crate::keccak::{iota, keccak_f, keccak_mix, keccak_round, keccak_rounds, lane_bit};
use crate::keccak_air::{
    down_index, export_constraints, flag_constraints, input_column, keccak_constraints,
    not_final_of, one_hot_constraint, output_at, output_column, output_constraints,
    preimage_constraints, preimage_next_constraints, rotation_constraints, round_constraints,
    schedule_constraints, COL_A, COL_A_PRIME_PRIME, COL_A_PRIME_PRIME_PRIME_0_0_LIMBS, COL_EXPORT,
    COL_PREIMAGE, NUM_KECCAK_COLS, NUM_KECCAK_DOWN_COLS, RATE_LIMBS,
};
use crate::keccak_laws::{
    cell, flags_are, holds_limbs, input_of, is_round_row, round_completeness, round_of,
    round_soundness, row_satisfied,
};
use crate::prime_field::{
    has_limbs, lemma_diff_value, lemma_elem_value, lemma_prod_value, lemma_sum_value,
    lemma_value_range, PrimeFieldModel,
};
use vstd::prelude::*;

verus! {

broadcast use {
    lemma_value_range,
    lemma_elem_value,
    lemma_sum_value,
    lemma_diff_value,
    lemma_prod_value,
};

/// Every constraint of `up` is zero when `down` is the next row.
pub open spec fn step_satisfied<T: PrimeFieldModel>(up: Seq<T>, down: Seq<T>) -> bool {
    all_zero(keccak_constraints(up, down, COL_PREIMAGE as int, COL_A as int))
}

/// The export flag is a bit, and is set on the final round only.
pub open spec fn export_allowed<T: PrimeFieldModel>(row: Seq<T>, round: int) -> bool {
    &&& is_bit(row[COL_EXPORT as int])
    &&& round != 23 ==> row[COL_EXPORT as int].value() == 0
}

/// The preimage of `down` is the preimage of `up`.
pub open spec fn same_preimage<T: PrimeFieldModel>(up: Seq<T>, down: Seq<T>) -> bool {
    forall|k: int|
        0 <= k < 100 ==> (#[trigger] cell(down, COL_PREIMAGE as int, k)).value() == cell(
            up,
            COL_PREIMAGE as int,
            k,
        ).value()
}

/// The output limbs of the row are those of the state.
pub open spec fn outputs_limbs<T: PrimeFieldModel>(row: Seq<T>, s: Seq<bool>) -> bool {
    forall|k: int|
        0 <= k < 100 ==> (#[trigger] output_at(row, k)).value() == bits_value(
            s.subrange(16 * k, 16 * k + 16),
        )
}

/// `up` describes round `round` on state `s`, and `down` follows it: it carries
/// the flag of the next round and, unless a permutation ends here, the same
/// preimage and the round output.
pub open spec fn is_step<T: PrimeFieldModel>(
    up: Seq<T>,
    down: Seq<T>,
    round: int,
    s: Seq<bool>,
) -> bool {
    &&& is_round_row(up, round, s)
    &&& flags_are(down, (round + 1) % 24)
    &&& export_allowed(up, round)
    &&& round == 0 ==> holds_limbs(up, COL_PREIMAGE as int, s)
    &&& round != 23 ==> same_preimage(up, down)
    &&& round != 23 ==> holds_limbs(down, COL_A as int, keccak_round(s, round))
}

/// The constraints of a row split into blocks.
proof fn lemma_step_blocks<T: PrimeFieldModel>(up: Seq<T>, down: Seq<T>)
    ensures
        step_satisfied(up, down) <==> {
            &&& row_satisfied(up)
            &&& all_zero(rotation_constraints(up, down))
            &&& all_zero(export_constraints(up))
            &&& all_zero(preimage_constraints(up))
            &&& all_zero(preimage_next_constraints(up, down, COL_PREIMAGE as int))
            &&& all_zero(output_constraints(up, down, COL_A as int))
        },
{
    let b1 = flag_constraints(up);
    let b2 = b1 + one_hot_constraint(up);
    let b3 = b2 + rotation_constraints(up, down);
    let b4 = b3 + export_constraints(up);
    let b5 = b4 + preimage_constraints(up);
    let b6 = b5 + preimage_next_constraints(up, down, COL_PREIMAGE as int);
    let b7 = b6 + round_constraints(up);
    lemma_all_zero_concat(b1, one_hot_constraint(up));
    lemma_all_zero_concat(b2, rotation_constraints(up, down));
    lemma_all_zero_concat(b3, export_constraints(up));
    lemma_all_zero_concat(b4, preimage_constraints(up));
    lemma_all_zero_concat(b5, preimage_next_constraints(up, down, COL_PREIMAGE as int));
    lemma_all_zero_concat(b6, round_constraints(up));
    lemma_all_zero_concat(b7, output_constraints(up, down, COL_A as int));
    assert(b6 == schedule_constraints(up, down, COL_PREIMAGE as int));
}

/// A factor that is one keeps a constraint, a factor that is zero drops it.
proof fn lemma_gated<T: PrimeFieldModel>(flag: T, on: bool, d: T)
    requires
        flag.value() == (if on {
            1int
        } else {
            0int
        }),
    ensures
        T::prod_of(flag, d).value() == 0 <==> (on ==> d.value() == 0),
{
    lemma_prod_zero(flag, d);
}

/// `1 - flag[23]` is one exactly before the final round.
proof fn lemma_not_final<T: PrimeFieldModel>(up: Seq<T>, round: int)
    requires
        has_limbs::<T>(),
        flags_are(up, round),
    ensures
        not_final_of(up).value() == (if round != 23 {
            1int
        } else {
            0int
        }),
{
    assert(up[23].value() == (if round == 23 {
        1int
    } else {
        0int
    }));
}

proof fn lemma_rotation_block<T: PrimeFieldModel>(up: Seq<T>, down: Seq<T>, round: int)
    requires
        flags_are(up, round),
    ensures
        all_zero(rotation_constraints(up, down)) <==> flags_are(down, (round + 1) % 24),
{
    let f = rotation_constraints(up, down);
    let next = (round + 1) % 24;
    if all_zero(f) {
        assert forall|j: int| 0 <= j < 24 implies (#[trigger] down[j]).value() == (if j == next {
            1int
        } else {
            0int
        }) by {
            let i = (j + 23) % 24;
            assert((i + 1) % 24 == j);
            assert(f[i].value() == 0);
            lemma_diff_zero(up[i], down[j]);
            assert(i == round <==> j == next);
        }
    }
    if flags_are(down, next) {
        assert forall|i: int| 0 <= i < f.len() implies (#[trigger] f[i]).value() == 0 by {
            let j = (i + 1) % 24;
            assert(i == round <==> j == next);
            assert(up[i].value() == down[j].value());
            lemma_diff_zero(up[i], down[j]);
        }
    }
}

proof fn lemma_export_block<T: PrimeFieldModel>(up: Seq<T>, round: int)
    requires
        has_limbs::<T>(),
        flags_are(up, round),
    ensures
        all_zero(export_constraints(up)) <==> export_allowed(up, round),
{
    let f = export_constraints(up);
    lemma_bool_check(up[COL_EXPORT as int]);
    lemma_not_final(up, round);
    lemma_gated(not_final_of(up), round != 23, up[COL_EXPORT as int]);
    if all_zero(f) {
        assert(f[0].value() == 0 && f[1].value() == 0);
    }
}

proof fn lemma_preimage_block<T: PrimeFieldModel>(up: Seq<T>, round: int, s: Seq<bool>)
    requires
        flags_are(up, round),
        holds_limbs(up, COL_A as int, s),
    ensures
        all_zero(preimage_constraints(up)) <==> (round == 0 ==> holds_limbs(
            up,
            COL_PREIMAGE as int,
            s,
        )),
{
    let f = preimage_constraints(up);
    assert(up[0].value() == (if round == 0 {
        1int
    } else {
        0int
    }));
    assert forall|k: int| 0 <= k < 100
        implies ((#[trigger] f[k]).value() == 0 <==> (round == 0 ==> cell(
        up,
        COL_PREIMAGE as int,
        k,
    ).value() == cell(up, COL_A as int, k).value())) by {
        lemma_gated(up[0], round == 0, T::diff_of(up[COL_PREIMAGE + k], up[COL_A + k]));
        lemma_diff_zero(up[COL_PREIMAGE + k], up[COL_A + k]);
    }
    if all_zero(f) && round == 0 {
        assert forall|k: int| 0 <= k < 100
            implies (#[trigger] cell(up, COL_PREIMAGE as int, k)).value()
            == bits_value(s.subrange(16 * k, 16 * k + 16)) by {
            assert(f[k].value() == 0);
        }
    }
}

proof fn lemma_preimage_next_block<T: PrimeFieldModel>(up: Seq<T>, down: Seq<T>, round: int)
    requires
        has_limbs::<T>(),
        flags_are(up, round),
    ensures
        all_zero(preimage_next_constraints(up, down, COL_PREIMAGE as int)) <==> (round != 23
            ==> same_preimage(up, down)),
{
    let f = preimage_next_constraints(up, down, COL_PREIMAGE as int);
    lemma_not_final(up, round);
    assert forall|k: int| 0 <= k < 100
        implies ((#[trigger] f[k]).value() == 0 <==> (round != 23 ==> cell(
        up,
        COL_PREIMAGE as int,
        k,
    ).value() == cell(down, COL_PREIMAGE as int, k).value())) by {
        lemma_gated(
            not_final_of(up),
            round != 23,
            T::diff_of(up[COL_PREIMAGE + k], down[COL_PREIMAGE + k]),
        );
        lemma_diff_zero(up[COL_PREIMAGE + k], down[COL_PREIMAGE + k]);
    }
    if all_zero(f) && round != 23 {
        assert forall|k: int| 0 <= k < 100
            implies (#[trigger] cell(down, COL_PREIMAGE as int, k)).value()
            == cell(up, COL_PREIMAGE as int, k).value() by {
            assert(f[k].value() == 0);
        }
    }
}

/// Past the first lane, adding the round constant changes nothing.
proof fn lemma_iota_rest(s: Seq<bool>, round: int, k: int)
    requires
        s.len() == 1600,
        4 <= k < 100,
    ensures
        iota(s, round).subrange(16 * k, 16 * k + 16) == s.subrange(16 * k, 16 * k + 16),
{
    let t = iota(s, round);
    assert forall|j: int| 16 * k <= j < 16 * k + 16 implies #[trigger] t[j] == s[j] by {
        assert(64 * (5 * (j / 320) + (j / 64) % 5) + j % 64 == j);
        assert(j / 64 >= 1);
        assert(!((j / 64) % 5 == 0 && j / 320 == 0));
        assert(lane_bit(s, (j / 64) % 5, j / 320, j % 64) == s[j]);
    }
    assert(t.subrange(16 * k, 16 * k + 16) =~= s.subrange(16 * k, 16 * k + 16));
}

/// A row that describes a round holds its output.
pub proof fn round_output<T: PrimeFieldModel>(row: Seq<T>, round: int, s: Seq<bool>)
    requires
        is_round_row(row, round, s),
    ensures
        outputs_limbs(row, keccak_round(s, round)),
{
    let t = keccak_round(s, round);
    assert forall|k: int| 0 <= k < 100 implies (#[trigger] output_at(row, k)).value() == bits_value(
        t.subrange(16 * k, 16 * k + 16),
    ) by {
        if k < 4 {
            assert(cell(row, COL_A_PRIME_PRIME_PRIME_0_0_LIMBS as int, k).value() == bits_value(
                t.subrange(16 * k, 16 * k + 16),
            ));
        } else {
            lemma_iota_rest(keccak_mix(s), round, k);
            assert(cell(row, COL_A_PRIME_PRIME as int, k).value() == bits_value(
                keccak_mix(s).subrange(16 * k, 16 * k + 16),
            ));
        }
    }
}

proof fn lemma_output_block<T: PrimeFieldModel>(up: Seq<T>, down: Seq<T>, round: int, t: Seq<bool>)
    requires
        has_limbs::<T>(),
        flags_are(up, round),
        outputs_limbs(up, t),
    ensures
        all_zero(output_constraints(up, down, COL_A as int)) <==> (round != 23 ==> holds_limbs(
            down,
            COL_A as int,
            t,
        )),
{
    let f = output_constraints(up, down, COL_A as int);
    lemma_not_final(up, round);
    assert forall|k: int| 0 <= k < 100
        implies ((#[trigger] f[k]).value() == 0 <==> (round != 23 ==> cell(
        down,
        COL_A as int,
        k,
    ).value() == bits_value(t.subrange(16 * k, 16 * k + 16)))) by {
        lemma_gated(
            not_final_of(up),
            round != 23,
            T::diff_of(output_at(up, k), down[COL_A + k]),
        );
        lemma_diff_zero(output_at(up, k), down[COL_A + k]);
    }
    if all_zero(f) && round != 23 {
        assert forall|k: int| 0 <= k < 100 implies (#[trigger] cell(down, COL_A as int, k)).value()
            == bits_value(t.subrange(16 * k, 16 * k + 16)) by {
            assert(f[k].value() == 0);
        }
    }
}

/// Two consecutive rows whose constraints are zero are a step of the
/// permutation, in the round that the flags name and on the input that the
/// first row holds.
pub proof fn step_soundness<T: PrimeFieldModel>(up: Seq<T>, down: Seq<T>)
    requires
        has_limbs::<T>(),
        step_satisfied(up, down),
    ensures
        is_step(up, down, round_of(up), input_of(up)),
{
    let round = round_of(up);
    let s = input_of(up);
    lemma_step_blocks(up, down);
    round_soundness(up);
    round_output(up, round, s);
    lemma_rotation_block(up, down, round);
    lemma_export_block(up, round);
    lemma_preimage_block(up, round, s);
    lemma_preimage_next_block(up, down, round);
    lemma_output_block(up, down, round, keccak_round(s, round));
}

/// The constraints are zero on two consecutive rows that are a step of the
/// permutation.
pub proof fn step_completeness<T: PrimeFieldModel>(
    up: Seq<T>,
    down: Seq<T>,
    round: int,
    s: Seq<bool>,
)
    requires
        has_limbs::<T>(),
        is_step(up, down, round, s),
    ensures
        step_satisfied(up, down),
{
    round_completeness(up, round, s);
    round_output(up, round, s);
    lemma_rotation_block(up, down, round);
    lemma_export_block(up, round);
    lemma_preimage_block(up, round, s);
    lemma_preimage_next_block(up, down, round);
    lemma_output_block(up, down, round, keccak_round(s, round));
    lemma_step_blocks(up, down);
}

/// The limbs of a state determine it.
pub proof fn limbs_determine_state<T: PrimeFieldModel>(
    row: Seq<T>,
    base: int,
    s: Seq<bool>,
    t: Seq<bool>,
)
    requires
        s.len() == 1600,
        t.len() == 1600,
        holds_limbs(row, base, s),
        holds_limbs(row, base, t),
    ensures
        s == t,
{
    assert forall|i: int| 0 <= i < 1600 implies s[i] == t[i] by {
        let k = i / 16;
        let a = s.subrange(16 * k, 16 * k + 16);
        let b = t.subrange(16 * k, 16 * k + 16);
        assert(cell(row, base, k).value() == bits_value(a));
        lemma_bits_value_injective(a, b);
        assert(a[i - 16 * k] == s[i] && b[i - 16 * k] == t[i]);
    }
    assert(s =~= t);
}

/// One-hot flags name one round only.
proof fn lemma_round_unique<T: PrimeFieldModel>(row: Seq<T>, a: int, b: int)
    requires
        flags_are(row, a),
        flags_are(row, b),
    ensures
        a == b,
{
    assert(row[a].value() == 1);
}

/// Row `i` satisfies every constraint with the row after it.
pub open spec fn step_at<T: PrimeFieldModel>(rows: Seq<Seq<T>>, i: int) -> bool {
    step_satisfied(rows[i], rows[i + 1])
}

/// The rows of one permutation: the first has the flag of round zero, each row
/// satisfies every constraint with the next one, and the last row satisfies the
/// constraints on itself.
pub open spec fn permutation_satisfied<T: PrimeFieldModel>(rows: Seq<Seq<T>>) -> bool {
    &&& rows.len() == 24
    &&& rows[0][0].value() == 1
    &&& forall|i: int| 0 <= i < 23 ==> #[trigger] step_at(rows, i)
    &&& row_satisfied(rows[23])
}

/// A satisfied row that holds the limbs of `s` and the flag of `round`
/// describes that round on `s`.
proof fn lemma_row_is_round<T: PrimeFieldModel>(row: Seq<T>, round: int, s: Seq<bool>)
    requires
        has_limbs::<T>(),
        row_satisfied(row),
        flags_are(row, round),
        s.len() == 1600,
        holds_limbs(row, COL_A as int, s),
    ensures
        is_round_row(row, round, s),
{
    round_soundness(row);
    lemma_round_unique(row, round, round_of(row));
    limbs_determine_state(row, COL_A as int, s, input_of(row));
}

/// A step leads from a round to the next one.
proof fn lemma_step_is_next<T: PrimeFieldModel>(up: Seq<T>, down: Seq<T>, round: int, s: Seq<bool>)
    requires
        has_limbs::<T>(),
        step_satisfied(up, down),
        is_round_row(up, round, s),
    ensures
        is_step(up, down, round, s),
{
    step_soundness(up, down);
    lemma_round_unique(up, round, round_of(up));
    limbs_determine_state(up, COL_A as int, s, input_of(up));
}

proof fn lemma_preimage_kept<T: PrimeFieldModel>(up: Seq<T>, down: Seq<T>, s: Seq<bool>)
    requires
        same_preimage(up, down),
        holds_limbs(up, COL_PREIMAGE as int, s),
    ensures
        holds_limbs(down, COL_PREIMAGE as int, s),
{
    assert forall|k: int| 0 <= k < 100
        implies (#[trigger] cell(down, COL_PREIMAGE as int, k)).value()
        == bits_value(s.subrange(16 * k, 16 * k + 16)) by {
        assert(cell(up, COL_PREIMAGE as int, k).value()
            == bits_value(s.subrange(16 * k, 16 * k + 16)));
    }
}

proof fn lemma_permutation_rows_satisfied<T: PrimeFieldModel>(rows: Seq<Seq<T>>, i: int)
    requires
        permutation_satisfied(rows),
        0 <= i < 24,
    ensures
        row_satisfied(rows[i]),
{
    if i < 23 {
        assert(step_at(rows, i));
        lemma_step_blocks(rows[i], rows[i + 1]);
    }
}

/// The first row of a satisfied permutation describes the first round on its input,
/// which is its preimage.
#[verifier::spinoff_prover]
proof fn lemma_permutation_first_row<T: PrimeFieldModel>(rows: Seq<Seq<T>>)
    requires
        has_limbs::<T>(),
        permutation_satisfied(rows),
    ensures
        is_round_row(rows[0], 0, input_of(rows[0])),
        holds_limbs(rows[0], COL_PREIMAGE as int, input_of(rows[0])),
{
    let s = input_of(rows[0]);
    lemma_permutation_rows_satisfied(rows, 0);
    assert(step_at(rows, 0));
    round_soundness(rows[0]);
    assert(round_of(rows[0]) == 0);
    lemma_row_is_round(rows[0], 0, s);
    lemma_step_is_next(rows[0], rows[1], 0, s);
}

/// If a row of a satisfied permutation describes a round, the next row describes the
/// next round on its output and carries the same preimage.
#[verifier::spinoff_prover]
proof fn lemma_permutation_next_row<T: PrimeFieldModel>(
    rows: Seq<Seq<T>>,
    i: int,
    before: Seq<bool>,
    s: Seq<bool>,
)
    requires
        has_limbs::<T>(),
        permutation_satisfied(rows),
        0 <= i < 23,
        is_round_row(rows[i], i, before),
        holds_limbs(rows[i], COL_PREIMAGE as int, s),
    ensures
        is_round_row(rows[i + 1], i + 1, keccak_round(before, i)),
        holds_limbs(rows[i + 1], COL_PREIMAGE as int, s),
{
    lemma_permutation_rows_satisfied(rows, i + 1);
    assert(step_at(rows, i));
    lemma_step_is_next(rows[i], rows[i + 1], i, before);
    lemma_row_is_round(rows[i + 1], i + 1, keccak_round(before, i));
    lemma_preimage_kept(rows[i], rows[i + 1], s);
}

/// Row `i` of a satisfied permutation describes round `i` on what the rounds
/// before it make of the first input, and carries the preimage of the first row.
#[verifier::spinoff_prover]
proof fn lemma_permutation_row<T: PrimeFieldModel>(rows: Seq<Seq<T>>, i: int)
    requires
        has_limbs::<T>(),
        permutation_satisfied(rows),
        0 <= i < 24,
    ensures
        is_round_row(rows[i], i, keccak_rounds(input_of(rows[0]), i)),
        holds_limbs(rows[i], COL_PREIMAGE as int, input_of(rows[0])),
    decreases i,
{
    let s = input_of(rows[0]);
    if i == 0 {
        lemma_permutation_first_row(rows);
    } else {
        lemma_permutation_row(rows, i - 1);
        lemma_permutation_next_row(rows, i - 1, keccak_rounds(s, i - 1), s);
    }
}

/// The rows of a permutation whose constraints are zero compute Keccak-f: the
/// last row has the flag of the final round, its preimage is the input of the first
/// row, and its output is the image of that preimage.
pub proof fn permutation_soundness<T: PrimeFieldModel>(rows: Seq<Seq<T>>)
    requires
        has_limbs::<T>(),
        permutation_satisfied(rows),
    ensures
        flags_are(rows[23], 23),
        exists|s: Seq<bool>|
            s.len() == 1600 && #[trigger] holds_limbs(rows[23], COL_PREIMAGE as int, s)
                && holds_limbs(rows[0], COL_A as int, s) && outputs_limbs(rows[23], keccak_f(s)),
{
    let s = input_of(rows[0]);
    lemma_permutation_row(rows, 0);
    lemma_permutation_row(rows, 23);
    round_output(rows[23], 23, keccak_rounds(s, 23));
    assert(keccak_f(s) == keccak_round(keccak_rounds(s, 23), 23));
    assert(holds_limbs(rows[23], COL_PREIMAGE as int, s));
}

/// The limb columns of the rate lead from a limb of the permutation's input to
/// the same limb of its output.
pub proof fn rate_limbs_of_permutation<T: PrimeFieldModel>(rows: Seq<Seq<T>>, i: int)
    requires
        has_limbs::<T>(),
        permutation_satisfied(rows),
        0 <= i < RATE_LIMBS,
    ensures
        exists|s: Seq<bool>|
            s.len() == 1600 && #[trigger] holds_limbs(rows[23], COL_PREIMAGE as int, s)
                && rows[23][input_column(i)].value() == bits_value(s.subrange(16 * i, 16 * i + 16))
                && rows[23][output_column(i)].value() == bits_value(
                keccak_f(s).subrange(16 * i, 16 * i + 16),
            ),
{
    permutation_soundness(rows);
    let s = choose|s: Seq<bool>|
        s.len() == 1600 && #[trigger] holds_limbs(rows[23], COL_PREIMAGE as int, s)
            && outputs_limbs(rows[23], keccak_f(s));
    assert(cell(rows[23], COL_PREIMAGE as int, i).value()
        == bits_value(s.subrange(16 * i, 16 * i + 16)));
    assert(output_at(rows[23], i).value() == bits_value(keccak_f(s).subrange(16 * i, 16 * i + 16)));
}

/// Rows that describe the rounds of Keccak-f on one state, all with that state
/// as their preimage and none of them exported before the last, satisfy every
/// constraint.
pub proof fn permutation_completeness<T: PrimeFieldModel>(rows: Seq<Seq<T>>, s: Seq<bool>)
    requires
        has_limbs::<T>(),
        rows.len() == 24,
        s.len() == 1600,
        forall|i: int|
            0 <= i < 24 ==> {
                &&& is_round_row(#[trigger] rows[i], i, keccak_rounds(s, i))
                &&& holds_limbs(rows[i], COL_PREIMAGE as int, s)
                &&& export_allowed(rows[i], i)
            },
    ensures
        permutation_satisfied(rows),
{
    assert forall|i: int| 0 <= i < 23 implies #[trigger] step_at(rows, i) by {
        let up = rows[i];
        let down = rows[i + 1];
        assert(is_round_row(rows[i + 1], i + 1, keccak_rounds(s, i + 1)));
        assert(keccak_rounds(s, i + 1) == keccak_round(keccak_rounds(s, i), i));
        assert(same_preimage(up, down)) by {
            assert forall|k: int| 0 <= k < 100 implies (#[trigger] cell(
                down,
                COL_PREIMAGE as int,
                k,
            )).value() == cell(up, COL_PREIMAGE as int, k).value() by {
                assert(cell(up, COL_PREIMAGE as int, k).value() == bits_value(
                    s.subrange(16 * k, 16 * k + 16),
                ));
            }
        }
        step_completeness(up, down, i, keccak_rounds(s, i));
    }
    assert(is_round_row(rows[23], 23, keccak_rounds(s, 23)));
    round_completeness(rows[23], 23, keccak_rounds(s, 23));
    assert(is_round_row(rows[0], 0, keccak_rounds(s, 0)));
}

/// The next-row values that the optimized AIR asks for.
pub open spec fn down_values<T>(next: Seq<T>) -> Seq<T> {
    Seq::new(NUM_KECCAK_DOWN_COLS as nat, |i: int| next[down_index(i)])
}

/// Given the next-row columns that it asks for, the optimized AIR asserts the
/// same values as the AIR that shifts every column.
pub proof fn optimized_down_agrees<T: RingModel>(up: Seq<T>, next: Seq<T>)
    requires
        next.len() == NUM_KECCAK_COLS,
    ensures
        keccak_constraints(up, down_values(next), 24, 124) == keccak_constraints(
            up,
            next,
            COL_PREIMAGE as int,
            COL_A as int,
        ),
{
    let d = down_values(next);
    assert(rotation_constraints(up, d) =~= rotation_constraints(up, next));
    assert(preimage_next_constraints(up, d, 24) =~= preimage_next_constraints(
        up,
        next,
        COL_PREIMAGE as int,
    ));
    assert(output_constraints(up, d, 124) =~= output_constraints(up, next, COL_A as int));
}

/// The next rows `down` and `other` differ in column `j` at most, and what is
/// asserted of `up` tells them apart.
pub open spec fn tells_apart<T: RingModel>(
    up: Seq<T>,
    down: Seq<T>,
    other: Seq<T>,
    j: int,
) -> bool {
    &&& up.len() == NUM_KECCAK_COLS
    &&& down.len() == NUM_KECCAK_COLS
    &&& other.len() == NUM_KECCAK_COLS
    &&& forall|k: int| 0 <= k < NUM_KECCAK_COLS && k != j ==> down[k] == other[k]
    &&& keccak_constraints(up, down, COL_PREIMAGE as int, COL_A as int) != keccak_constraints(
        up,
        other,
        COL_PREIMAGE as int,
        COL_A as int,
    )
}

/// The optimized AIR asks for the next-row column `j`.
pub open spec fn asks_for(j: int) -> bool {
    exists|i: int| 0 <= i < NUM_KECCAK_DOWN_COLS && #[trigger] down_index(i) == j
}

/// Where two next rows are told apart, one of the columns that are asked for
/// differs.
proof fn lemma_asked_for<T: RingModel>(up: Seq<T>, down: Seq<T>, other: Seq<T>, j: int)
    requires
        tells_apart(up, down, other, j),
        0 <= j < NUM_KECCAK_COLS,
    ensures
        asks_for(j),
{
    if !asks_for(j) {
        optimized_down_agrees(up, down);
        optimized_down_agrees(up, other);
        assert forall|i: int| 0 <= i < NUM_KECCAK_DOWN_COLS implies down_values(down)[i]
            == down_values(other)[i] by {
            assert(down_index(i) != j);
        }
        assert(down_values(down) =~= down_values(other));
    }
}

/// A row of zeros, with one at `j`.
spec fn single<T: RingModel>(j: int) -> Seq<T> {
    Seq::new(NUM_KECCAK_COLS as nat, |k: int| bool_elem::<T>(k == j))
}

/// A column that is asked for is read: next to a row of zeros, a next row of zeros
/// and one with a one in that column are told apart.
proof fn lemma_read<T: PrimeFieldModel>(j: int)
    requires
        0 <= j < NUM_KECCAK_COLS,
        asks_for(j),
    ensures
        tells_apart(single::<T>(-1), single::<T>(-1), single::<T>(j), j),
{
    T::order_is_prime(2);
    let up = single::<T>(-1);
    let other = single::<T>(j);
    let (pre, a) = (COL_PREIMAGE as int, COL_A as int);
    let f = keccak_constraints(up, up, pre, a);
    let g = keccak_constraints(up, other, pre, a);
    assert(not_final_of(up).value() == 1);
    let i = choose|i: int| 0 <= i < NUM_KECCAK_DOWN_COLS && #[trigger] down_index(i) == j;
    let (at, d, e) = if j < 24 {
        let k = (j + 23) % 24;
        assert((k + 1) % 24 == j);
        (25 + k, rotation_constraints(up, up)[k], rotation_constraints(up, other)[k])
    } else if j < COL_A {
        let k = j - COL_PREIMAGE;
        (
            151 + k,
            preimage_next_constraints(up, up, pre)[k],
            preimage_next_constraints(up, other, pre)[k],
        )
    } else {
        let k = j - COL_A;
        (
            3083 + k,
            output_constraints(up, up, a)[k],
            output_constraints(up, other, a)[k],
        )
    };
    assert(d.value() == 0);
    assert(e.value() != 0);
    assert(f[at] == d && g[at] == e);
}

/// The optimized AIR asks for exactly the next-row columns that matter: a column is
/// asked for where some row and two next rows that differ in that column only are
/// told apart by what is asserted.
pub proof fn asked_columns_are_needed<T: PrimeFieldModel>(j: int)
    requires
        0 <= j < NUM_KECCAK_COLS,
    ensures
        asks_for(j) <==> exists|up: Seq<T>, down: Seq<T>, other: Seq<T>| #[trigger]
            tells_apart(up, down, other, j),
{
    if asks_for(j) {
        lemma_read::<T>(j);
    }
    if exists|up: Seq<T>, down: Seq<T>, other: Seq<T>| #[trigger] tells_apart(up, down, other, j) {
        let (up, down, other) = choose|up: Seq<T>, down: Seq<T>, other: Seq<T>| #[trigger]
            tells_apart(up, down, other, j);
        lemma_asked_for(up, down, other, j);
    }
}

/// The AIR asserts as many values as it declares.
pub proof fn constraint_count<T: RingModel>(up: Seq<T>, down: Seq<T>, pre_at: int, a_at: int)
    ensures
        keccak_constraints(up, down, pre_at, a_at).len() == 3183,
{
}

} // verus!

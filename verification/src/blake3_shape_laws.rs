//! The number and the degree of the constraints of the BLAKE3 table.

use crate::blake3::{schedule, MSG_PERMUTATION};
use crate::blake3_air::{
    add2_claims, add3_claims, bits_at, bits_claims, carry2, carry3, column_at, column_claims,
    columns_claims, core_claims, core_of, diagonal_at, diagonal_claims, diagonals_claims,
    first_outputs_claims, gate, half_claims, helpers_claims, input_claims, join_of, limbs_claims,
    message, output_claims, packed, pair_at, round_at, round_claims, round_state, rounds_claims,
    second_output_claims, second_outputs_claims, state_before, state_cells, table_claims, two_32,
    xor_shift_claims, xored, BLAKE3_COL_INPUT_LIMBS, BLAKE3_COL_OUTPUT_LIMBS, CORE_CELLS,
    HELPERS_AT, OUTPUTS_AT, ROW1_AT, ROW2_AT, ROW3_AT, STATE_CELLS, TABLE_CELLS,
};
use crate::degree::{all_within, lemma_within_concat, lemma_within_pack, variables, Degree};
use crate::field::{bool_check_of, RingModel};
use vstd::prelude::*;

verus! {

/// A quadruple of groups of the sizes of a state's words.
pub open spec fn sized<T>(q: (Seq<T>, Seq<T>, Seq<T>, Seq<T>)) -> bool {
    q.0.len() == 2 && q.1.len() == 32 && q.2.len() == 2 && q.3.len() == 32
}

proof fn lemma_half_len<T: RingModel>(
    g: T,
    from: (Seq<T>, Seq<T>, Seq<T>, Seq<T>),
    m: Seq<T>,
    to: (Seq<T>, Seq<T>, Seq<T>, Seq<T>),
    second: bool,
)
    requires
        sized(to),
    ensures
        half_claims(g, from, m, to, second).len() == 72,
{
    reveal(half_claims);
}

proof fn lemma_round_len<T: RingModel>(g: T, input: Seq<T>, round: Seq<T>, m: Seq<Seq<T>>, n: int)
    requires
        round.len() == 1088,
        0 <= n <= 4,
    ensures
        columns_claims(g, input, round, m, n).len() == 144 * n,
        diagonals_claims(g, round, m, n).len() == 144 * n,
    decreases n,
{
    if n > 0 {
        let i = n - 1;
        lemma_round_len(g, input, round, m, i);
        let (s0, s1) = (round_state(round, 0), round_state(round, 1));
        let (s2, s3) = (round_state(round, 2), round_state(round, 3));
        reveal(column_claims);
        reveal(diagonal_claims);
        lemma_half_len(g, column_at(input, i), m[2 * i], column_at(s0, i), false);
        lemma_half_len(g, column_at(s0, i), m[2 * i + 1], column_at(s1, i), true);
        lemma_half_len(g, diagonal_at(s1, i), m[8 + 2 * i], diagonal_at(s2, i), false);
        lemma_half_len(g, diagonal_at(s2, i), m[9 + 2 * i], diagonal_at(s3, i), true);
    }
}

proof fn lemma_rounds_len<T: RingModel>(g: T, core: Seq<T>, n: int)
    requires
        core.len() == CORE_CELLS,
        0 <= n <= 7,
    ensures
        rounds_claims(g, core, n).len() == 1152 * n,
    decreases n,
{
    if n > 0 {
        lemma_rounds_len(g, core, n - 1);
        round_constraint_count(
            g,
            state_before(core, n - 1),
            round_at(core, n - 1),
            schedule(message(core), n - 1),
        );
    }
}

proof fn lemma_tail_len<T: RingModel>(g: T, core: Seq<T>, n: int)
    requires
        core.len() == CORE_CELLS,
        0 <= n <= 4,
    ensures
        helpers_claims(g, core, n).len() == 34 * n,
        first_outputs_claims(g, core, n).len() == 66 * n,
        second_outputs_claims(g, core, n).len() == 32 * n,
    decreases n,
{
    if n > 0 {
        lemma_tail_len(g, core, n - 1);
    }
}

proof fn lemma_input_len<T: RingModel>(flat: Seq<T>, n: int)
    requires
        flat.len() == TABLE_CELLS,
        0 <= n <= 16,
    ensures
        input_claims(flat, n).len() == 34 * n,
    decreases n,
{
    if n > 0 {
        lemma_input_len(flat, n - 1);
    }
}

proof fn lemma_output_len<T: RingModel>(flat: Seq<T>, n: int)
    requires
        0 <= n <= 8,
    ensures
        output_claims(flat, n).len() == 2 * n,
    decreases n,
{
    if n > 0 {
        lemma_output_len(flat, n - 1);
    }
}

/// A round asserts 1152 values.
pub proof fn round_constraint_count<T: RingModel>(
    g: T,
    input: Seq<T>,
    round: Seq<T>,
    m: Seq<Seq<T>>,
)
    requires
        round.len() == 1088,
    ensures
        round_claims(g, input, round, m).len() == 1152,
{
    reveal(round_claims);
    lemma_round_len(g, input, round, m, 4);
}

/// Between input bits and output bits, seven rounds are asserted, and what combines
/// the last state into the output.
pub proof fn core_constraint_count<T: RingModel>(g: T, core: Seq<T>)
    requires
        core.len() == CORE_CELLS,
    ensures
        core_claims(g, core).len() == 7 * 1152 + 528,
{
    lemma_rounds_len(g, core, 7);
    lemma_tail_len(g, core, 4);
}

/// A row asserts as many values as the table declares, without the two of the
/// virtual bus column.
pub proof fn table_constraint_count<T: RingModel>(flat: Seq<T>)
    requires
        flat.len() == TABLE_CELLS,
    ensures
        table_claims(flat).len() == 9153,
{
    lemma_input_len(flat, 16);
    core_constraint_count(flat[0], core_of(flat));
    lemma_output_len(flat, 8);
}

proof fn lemma_packed_degree(bits: Seq<Degree>, d: nat)
    requires
        bits.len() == 32,
        all_within(bits, d),
    ensures
        all_within(packed(bits), d),
{
    assert(all_within(bits.subrange(0, 16), d));
    assert(all_within(bits.subrange(16, 32), d));
    lemma_within_pack(bits.subrange(0, 16), d);
    lemma_within_pack(bits.subrange(16, 32), d);
}

proof fn lemma_bits_degree(g: Degree, bits: Seq<Degree>)
    requires
        g.bound <= 1,
        all_within(bits, 1),
    ensures
        all_within(bits_claims(g, bits), 4),
{
    reveal(gate);
    let f = bits_claims(g, bits);
    assert forall|i: int| 0 <= i < f.len() implies (#[trigger] f[i]).bound <= 4 by {
        assert(bits[i].bound <= 1);
    }
}

proof fn lemma_limbs_degree(g: Degree, x: Seq<Degree>, y: Seq<Degree>)
    requires
        g.bound <= 1,
        x.len() == 2,
        y.len() == 2,
        all_within(x, 2),
        all_within(y, 2),
    ensures
        all_within(limbs_claims(g, x, y), 4),
{
    reveal(gate);
    assert(x[0].bound <= 2 && x[1].bound <= 2 && y[0].bound <= 2 && y[1].bound <= 2);
}

proof fn lemma_add_degree(
    g: Degree,
    a: Seq<Degree>,
    b: Seq<Degree>,
    c: Seq<Degree>,
    d: Seq<Degree>,
)
    requires
        g.bound <= 1,
        a.len() == 2,
        b.len() == 2,
        c.len() == 2,
        d.len() == 2,
        all_within(a, 1),
        all_within(b, 1),
        all_within(c, 1),
        all_within(d, 1),
    ensures
        all_within(add3_claims(g, a, b, c, d), 4),
        all_within(add2_claims(g, a, b, c), 4),
{
    reveal(gate);
    reveal(carry3);
    reveal(carry2);
    reveal(join_of);
    reveal(two_32);
    assert(a[0].bound <= 1 && b[0].bound <= 1 && c[0].bound <= 1 && d[0].bound <= 1);
    assert(a[1].bound <= 1 && b[1].bound <= 1 && c[1].bound <= 1 && d[1].bound <= 1);
}

proof fn lemma_xor_shift_degree(
    g: Degree,
    a: Seq<Degree>,
    b: Seq<Degree>,
    c: Seq<Degree>,
    shift: int,
)
    requires
        g.bound <= 1,
        a.len() == 2,
        b.len() == 32,
        c.len() == 32,
        all_within(a, 1),
        all_within(b, 1),
        all_within(c, 1),
    ensures
        all_within(xor_shift_claims(g, a, b, c, shift), 4),
{
    let x = xored(b, c, shift);
    assert forall|i: int| 0 <= i < x.len() implies (#[trigger] x[i]).bound <= 2 by {
        assert(b[i].bound <= 1);
        assert(c[(i + 32 - shift) % 32].bound <= 1);
    }
    lemma_packed_degree(x, 2);
    lemma_bits_degree(g, c);
    assert(all_within(a, 2));
    lemma_limbs_degree(g, a, packed(x));
    lemma_within_concat(bits_claims(g, c), limbs_claims(g, a, packed(x)), 4);
}

/// Words of a state whose values have degree one at most.
spec fn linear(q: (Seq<Degree>, Seq<Degree>, Seq<Degree>, Seq<Degree>)) -> bool {
    &&& sized(q)
    &&& all_within(q.0, 1)
    &&& all_within(q.1, 1)
    &&& all_within(q.2, 1)
    &&& all_within(q.3, 1)
}

proof fn lemma_half_degree(
    g: Degree,
    from: (Seq<Degree>, Seq<Degree>, Seq<Degree>, Seq<Degree>),
    m: Seq<Degree>,
    to: (Seq<Degree>, Seq<Degree>, Seq<Degree>, Seq<Degree>),
    second: bool,
)
    requires
        g.bound <= 1,
        linear(from),
        linear(to),
        m.len() == 2,
        all_within(m, 1),
    ensures
        all_within(half_claims(g, from, m, to, second), 4),
{
    reveal(half_claims);
    let (rot_1, rot_2) = if second {
        (8int, 7int)
    } else {
        (16int, 12int)
    };
    let b1 = add3_claims(g, to.0, from.0, packed(from.1), m);
    let b2 = xor_shift_claims(g, to.0, from.3, to.3, rot_1);
    let b3 = add2_claims(g, to.2, from.2, packed(to.3));
    let b4 = xor_shift_claims(g, to.2, from.1, to.1, rot_2);
    lemma_packed_degree(from.1, 1);
    lemma_packed_degree(to.3, 1);
    lemma_add_degree(g, to.0, from.0, packed(from.1), m);
    lemma_xor_shift_degree(g, to.0, from.3, to.3, rot_1);
    lemma_add_degree(g, to.2, from.2, packed(to.3), m);
    lemma_xor_shift_degree(g, to.2, from.1, to.1, rot_2);
    lemma_within_concat(b1, b2, 4);
    lemma_within_concat(b1 + b2, b3, 4);
    lemma_within_concat(b1 + b2 + b3, b4, 4);
}

proof fn lemma_linear_state(st: Seq<Degree>, i: int)
    requires
        st.len() == STATE_CELLS,
        all_within(st, 1),
        0 <= i < 4,
    ensures
        linear(column_at(st, i)),
        linear(diagonal_at(st, i)),
{
}

/// Message limbs of degree one at most.
spec fn linear_message(m: Seq<Seq<Degree>>) -> bool {
    &&& m.len() == 16
    &&& forall|i: int| 0 <= i < 16 ==> (#[trigger] m[i]).len() == 2 && all_within(m[i], 1)
}

proof fn lemma_columns_degree(
    g: Degree,
    input: Seq<Degree>,
    round: Seq<Degree>,
    m: Seq<Seq<Degree>>,
    n: int,
)
    requires
        g.bound <= 1,
        input.len() == STATE_CELLS,
        all_within(input, 1),
        round.len() == 1088,
        all_within(round, 1),
        linear_message(m),
        0 <= n <= 4,
    ensures
        all_within(columns_claims(g, input, round, m, n), 4),
        all_within(diagonals_claims(g, round, m, n), 4),
    decreases n,
{
    if n > 0 {
        let i = n - 1;
        lemma_columns_degree(g, input, round, m, i);
        let (s0, s1) = (round_state(round, 0), round_state(round, 1));
        let (s2, s3) = (round_state(round, 2), round_state(round, 3));
        lemma_linear_state(input, i);
        lemma_linear_state(s0, i);
        lemma_linear_state(s1, i);
        lemma_linear_state(s2, i);
        lemma_linear_state(s3, i);
        assert(m[2 * i].len() == 2 && m[2 * i + 1].len() == 2);
        assert(m[8 + 2 * i].len() == 2 && m[9 + 2 * i].len() == 2);
        reveal(column_claims);
        reveal(diagonal_claims);
        let h1 = half_claims(g, column_at(input, i), m[2 * i], column_at(s0, i), false);
        let h2 = half_claims(g, column_at(s0, i), m[2 * i + 1], column_at(s1, i), true);
        let h3 = half_claims(g, diagonal_at(s1, i), m[8 + 2 * i], diagonal_at(s2, i), false);
        let h4 = half_claims(g, diagonal_at(s2, i), m[9 + 2 * i], diagonal_at(s3, i), true);
        lemma_half_degree(g, column_at(input, i), m[2 * i], column_at(s0, i), false);
        lemma_half_degree(g, column_at(s0, i), m[2 * i + 1], column_at(s1, i), true);
        lemma_half_degree(g, diagonal_at(s1, i), m[8 + 2 * i], diagonal_at(s2, i), false);
        lemma_half_degree(g, diagonal_at(s2, i), m[9 + 2 * i], diagonal_at(s3, i), true);
        lemma_within_concat(h1, h2, 4);
        lemma_within_concat(h3, h4, 4);
        lemma_within_concat(columns_claims(g, input, round, m, i), h1 + h2, 4);
        lemma_within_concat(diagonals_claims(g, round, m, i), h3 + h4, 4);
    }
}

proof fn lemma_message_degree(m: Seq<Seq<Degree>>, n: int)
    requires
        linear_message(m),
        0 <= n,
    ensures
        linear_message(schedule(m, n)),
    decreases n,
{
    if n > 0 {
        lemma_message_degree(m, n - 1);
        let a = schedule(m, n - 1);
        assert forall|i: int| 0 <= i < 16 implies (#[trigger] schedule(m, n)[i]).len() == 2
            && all_within(schedule(m, n)[i], 1) by {
            let j = MSG_PERMUTATION@[i] as int;
            assert(0 <= j < 16);
            assert(a[j].len() == 2 && all_within(a[j], 1));
        }
    }
}

proof fn lemma_state_degree(core: Seq<Degree>, n: int)
    requires
        core == variables(CORE_CELLS as nat),
        0 <= n <= 7,
    ensures
        state_before(core, n).len() == STATE_CELLS,
        all_within(state_before(core, n), 1),
{
    reveal(state_cells);
}

proof fn lemma_rounds_degree(g: Degree, core: Seq<Degree>, n: int)
    requires
        g.bound <= 1,
        core == variables(CORE_CELLS as nat),
        0 <= n <= 7,
    ensures
        all_within(rounds_claims(g, core, n), 4),
    decreases n,
{
    if n > 0 {
        lemma_rounds_degree(g, core, n - 1);
        let m0 = message(core);
        assert forall|i: int| 0 <= i < 16 implies (#[trigger] m0[i]).len() == 2 && all_within(
            m0[i],
            1,
        ) by {
            lemma_packed_degree(bits_at(core, 0, i), 1);
        }
        lemma_message_degree(m0, n - 1);
        let input = state_before(core, n - 1);
        let round = round_at(core, n - 1);
        let m = schedule(m0, n - 1);
        lemma_state_degree(core, n - 1);
        reveal(round_claims);
        lemma_columns_degree(g, input, round, m, 4);
        lemma_within_concat(
            columns_claims(g, input, round, m, 4),
            diagonals_claims(g, round, m, 4),
            4,
        );
        lemma_within_concat(rounds_claims(g, core, n - 1), round_claims(g, input, round, m), 4);
    }
}

proof fn lemma_tail_degree(g: Degree, core: Seq<Degree>, n: int)
    requires
        g.bound <= 1,
        core == variables(CORE_CELLS as nat),
        0 <= n <= 4,
    ensures
        all_within(helpers_claims(g, core, n), 4),
        all_within(first_outputs_claims(g, core, n), 4),
        all_within(second_outputs_claims(g, core, n), 4),
    decreases n,
{
    if n > 0 {
        let i = n - 1;
        lemma_tail_degree(g, core, i);
        lemma_state_degree(core, 7);
        let last = state_before(core, 7);
        let helper = bits_at(core, HELPERS_AT as int, i);
        let out = bits_at(core, OUTPUTS_AT as int, i);
        let row2 = pair_at(last, ROW2_AT as int, i);
        let row0 = pair_at(last, 0, i);
        lemma_bits_degree(g, helper);
        lemma_packed_degree(helper, 2);
        lemma_limbs_degree(g, packed(helper), row2);
        lemma_within_concat(bits_claims(g, helper), limbs_claims(g, packed(helper), row2), 4);
        lemma_within_concat(
            helpers_claims(g, core, i),
            bits_claims(g, helper) + limbs_claims(g, packed(helper), row2),
            4,
        );
        lemma_bits_degree(g, out);
        lemma_xor_shift_degree(g, row0, out, helper, 0);
        lemma_within_concat(bits_claims(g, out), xor_shift_claims(g, row0, out, helper, 0), 4);
        lemma_within_concat(
            first_outputs_claims(g, core, i),
            bits_claims(g, out) + xor_shift_claims(g, row0, out, helper, 0),
            4,
        );
        assert(all_within(second_output_claims(g, core, i), 4)) by {
            reveal(gate);
            let f = second_output_claims(g, core, i);
            let row1 = bits_at(last, ROW1_AT as int, i);
            let row3 = bits_at(last, ROW3_AT as int, i);
            assert forall|j: int| 0 <= j < 32 implies (#[trigger] f[j]).bound <= 4 by {
                assert(row1[j] == last[ROW1_AT + 32 * i + j]);
                assert(row3[j] == last[ROW3_AT + 32 * i + j]);
                assert(row1[j].bound <= 1 && row3[j].bound <= 1);
            }
        }
        lemma_within_concat(
            second_outputs_claims(g, core, i),
            second_output_claims(g, core, i),
            4,
        );
    }
}

proof fn lemma_ends_degree(flat: Seq<Degree>, n: int)
    requires
        flat == variables(TABLE_CELLS as nat),
        0 <= n <= 16,
    ensures
        all_within(input_claims(flat, n), 4),
        n <= 8 ==> all_within(output_claims(flat, n), 4),
    decreases n,
{
    if n > 0 {
        let g = flat[0];
        lemma_ends_degree(flat, n - 1);
        let bits = bits_at(core_of(flat), 0, n - 1);
        let pair = pair_at(flat, BLAKE3_COL_INPUT_LIMBS as int, n - 1);
        lemma_bits_degree(g, bits);
        lemma_packed_degree(bits, 2);
        lemma_limbs_degree(g, pair, packed(bits));
        lemma_within_concat(bits_claims(g, bits), limbs_claims(g, pair, packed(bits)), 4);
        lemma_within_concat(
            input_claims(flat, n - 1),
            bits_claims(g, bits) + limbs_claims(g, pair, packed(bits)),
            4,
        );
        if n <= 8 {
            let out = bits_at(core_of(flat), OUTPUTS_AT as int, n - 1);
            let out_pair = pair_at(flat, BLAKE3_COL_OUTPUT_LIMBS as int, n - 1);
            lemma_packed_degree(out, 2);
            lemma_limbs_degree(g, out_pair, packed(out));
            lemma_within_concat(
                output_claims(flat, n - 1),
                limbs_claims(g, out_pair, packed(out)),
                4,
            );
        }
    }
}

/// Every constraint of the BLAKE3 table has a degree of at most four, the degree
/// that the table declares.
pub proof fn table_degree()
    ensures
        all_within(table_claims(variables(TABLE_CELLS as nat)), 4),
{
    let flat = variables(TABLE_CELLS as nat);
    let g = flat[0];
    let core = core_of(flat);
    assert(core =~= variables(CORE_CELLS as nat));
    lemma_ends_degree(flat, 16);
    lemma_ends_degree(flat, 8);
    lemma_rounds_degree(g, core, 7);
    lemma_tail_degree(g, core, 4);
    let b1 = rounds_claims(g, core, 7);
    let b2 = helpers_claims(g, core, 4);
    let b3 = first_outputs_claims(g, core, 4);
    let b4 = second_outputs_claims(g, core, 4);
    lemma_within_concat(b1, b2, 4);
    lemma_within_concat(b1 + b2, b3, 4);
    lemma_within_concat(b1 + b2 + b3, b4, 4);
    let c1 = seq![bool_check_of(g)];
    let c2 = input_claims(flat, 16);
    let c3 = core_claims(g, core);
    lemma_within_concat(c1, c2, 4);
    lemma_within_concat(c1 + c2, c3, 4);
    lemma_within_concat(c1 + c2 + c3, output_claims(flat, 8), 4);
}

} // verus!

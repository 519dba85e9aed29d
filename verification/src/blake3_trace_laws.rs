//! What the columns of a BLAKE3 computation hold, of every call that reads, writes or
//! checks them.

use crate::air::TableBuilder;
use crate::bits::all_zero;
use crate::blake3::{compress, grid, round, state_after, INPUT_WORDS, OUTPUT_WORDS};
use crate::blake3_air::{
    bits_at, column_at, core_claims, round_claims, Blake3Cols, Blake3State, FullRound,
};
use crate::blake3_eval::{
    eval_blake3, lemma_cols_parts, lemma_round_states, lemma_state_words, limb_views, verify_round,
};
use crate::blake3_gadget_laws::new_claims;
use crate::blake3_gadgets::quad_is;
use crate::blake3_laws::{
    column_words, core_meaning, lemma_state_cells, message_is, output_is, round_meaning, state_is,
};
use crate::blake3_row_laws::{
    generated_columns_satisfy, lemma_hash_cells, lemma_message_bits, lemma_round_cells,
};
use crate::blake3_trace::{
    generate_trace_row_for_round, generate_trace_rows_for_hash, save_state_to_trace,
};
use crate::field::Ring;
use crate::prime_field::{has_limb_sums, PrimeFieldModel};
use crate::words::{bits_are, limbs_are};
use vstd::prelude::*;

verus! {

/// The values of a state stand row by row, rows 0 and 2 as limbs and rows 1 and 3 as
/// bits, and are read from where they stand.
pub proof fn state_values_stand_in_order<T: Copy>(
    row: &[T],
    at: usize,
    state: Blake3State<T>,
    k: usize,
    r: T,
)
    requires
        k < 272,
        call_ensures(Blake3State::<T>::read, (row, at), state),
        call_ensures(Blake3State::<T>::value, (&state, k), r),
    ensures
        r == row@[at + k],
        forall|i: int, l: int|
            #![trigger state.row0@[i]@[l]]
            0 <= i < 4 && 0 <= l < 2 && k == 2 * i + l ==> r == state.row0@[i]@[l],
        forall|i: int, j: int|
            #![trigger state.row1@[i]@[j]]
            0 <= i < 4 && 0 <= j < 32 && k == 8 + 32 * i + j ==> r == state.row1@[i]@[j],
        forall|i: int, l: int|
            #![trigger state.row2@[i]@[l]]
            0 <= i < 4 && 0 <= l < 2 && k == 136 + 2 * i + l ==> r == state.row2@[i]@[l],
        forall|i: int, j: int|
            #![trigger state.row3@[i]@[j]]
            0 <= i < 4 && 0 <= j < 32 && k == 144 + 32 * i + j ==> r == state.row3@[i]@[j],
{
}

/// The values of a round stand state by state, and are read from where they stand.
pub proof fn round_values_stand_in_order<T: Copy>(
    row: &[T],
    at: usize,
    data: FullRound<T>,
    k: usize,
    r: T,
    j: usize,
    first: T,
    second: T,
    third: T,
    fourth: T,
)
    requires
        k < 1088,
        j < 272,
        call_ensures(FullRound::<T>::read, (row, at), data),
        call_ensures(FullRound::<T>::value, (&data, k), r),
        call_ensures(Blake3State::<T>::value, (&data.state_prime, j), first),
        call_ensures(Blake3State::<T>::value, (&data.state_middle, j), second),
        call_ensures(Blake3State::<T>::value, (&data.state_middle_prime, j), third),
        call_ensures(Blake3State::<T>::value, (&data.state_output, j), fourth),
    ensures
        r == row@[at + k],
        k == j ==> r == first,
        k == 272 + j ==> r == second,
        k == 544 + j ==> r == third,
        k == 816 + j ==> r == fourth,
{
}

/// The values of a hash stand as the input bits, the rounds, the helpers and the output
/// bits, and are read from where they stand.
pub proof fn hash_values_stand_in_order<T: Copy>(
    row: &[T],
    at: usize,
    cols: Blake3Cols<T>,
    k: usize,
    r: T,
    n: int,
    j: usize,
    in_round: T,
)
    requires
        k < 8512,
        0 <= n < 7,
        j < 1088,
        at + 8512 <= row@.len(),
        call_ensures(Blake3Cols::<T>::read, (row, at), cols),
        call_ensures(Blake3Cols::<T>::value, (&cols, k), r),
        call_ensures(FullRound::<T>::value, (&cols.full_rounds@[n], j), in_round),
    ensures
        r == row@[at + k],
        forall|w: int, z: int|
            #![trigger cols.inputs@[w]@[z]]
            0 <= w < 16 && 0 <= z < 32 && k == 32 * w + z ==> r == cols.inputs@[w]@[z],
        k == 512 + 1088 * n + j ==> r == in_round,
        forall|i: int, z: int|
            #![trigger cols.final_round_helpers@[i]@[z]]
            0 <= i < 4 && 0 <= z < 32 && k == 8128 + 32 * i + z ==> r
                == cols.final_round_helpers@[i]@[z],
        forall|h: int, i: int, z: int|
            #![trigger cols.outputs@[h]@[i]@[z]]
            0 <= h < 2 && 0 <= i < 4 && 0 <= z < 32 && k == 8256 + 128 * h + 32 * i + z ==> r
                == cols.outputs@[h]@[i]@[z],
{
    if k == 512 + 1088 * n + j {
        assert((k - 512) / 1088 == n && (k - 512) % 1088 == j);
    }
}

/// A saved state holds the words of the state: rows 0 and 2 their limbs, rows 1 and 3
/// their bits.
pub proof fn saved_states_hold_their_words<T: Ring + Copy + PrimeFieldModel>(
    trace: &mut Blake3State<T>,
    state: &[[u32; 4]; 4],
    i: int,
)
    requires
        call_ensures(save_state_to_trace::<T>, (trace, state), ()),
        0 <= i < 4,
    ensures
        limbs_are(final(trace).row0@[i]@, state@[0]@[i]),
        bits_are(final(trace).row1@[i]@, state@[1]@[i]),
        limbs_are(final(trace).row2@[i]@, state@[2]@[i]),
        bits_are(final(trace).row3@[i]@, state@[3]@[i]),
{
    let v = grid(*state);
    lemma_state_cells::<T>(v);
    lemma_state_words(*final(trace), i);
    assert(quad_is(column_at(final(trace).row(), i), column_words(v, i)));
}

/// Writing a round takes the state to where a round takes it, the last state that is
/// written holds it, and the claims of the round hold of what is written.
pub proof fn written_rounds_are_verified<T: Ring + Copy + PrimeFieldModel>(
    data: &mut FullRound<T>,
    state: &mut [[u32; 4]; 4],
    same: &mut [[u32; 4]; 4],
    m: &[u32; INPUT_WORDS],
    builder: &mut TableBuilder<T>,
    g: T,
    input: Blake3State<T>,
    limbs: &[[T; 2]; INPUT_WORDS],
)
    requires
        call_ensures(generate_trace_row_for_round::<T>, (data, state, m), ()),
        *old(same) == *old(state),
        call_ensures(round, (same, m), ()),
        state_is(input.row(), grid(*old(state))),
        message_is(limb_views(limbs@), m@),
        g.value() == 1,
        call_ensures(verify_round::<T>, (builder, &g, &input, final(data), limbs), ()),
    ensures
        grid(*final(state)) == grid(*final(same)),
        state_is(final(data).state_output.row(), grid(*final(state))),
        all_zero(new_claims(*old(builder), *final(builder))),
{
    let v = grid(*old(state));
    lemma_round_cells::<T>(v, m@);
    lemma_round_states(*final(data));
    round_meaning(g, input.row(), final(data).row(), limb_views(limbs@), v, m@);
    assert(new_claims(*old(builder), *final(builder)) =~= round_claims(
        g,
        input.row(),
        final(data).row(),
        limb_views(limbs@),
    ));
}

/// Where the claims of a round hold, its last state is where the round leads.
pub proof fn verified_rounds_are_rounds<T: Ring + Copy + PrimeFieldModel>(
    builder: &mut TableBuilder<T>,
    g: T,
    input: Blake3State<T>,
    data: FullRound<T>,
    limbs: &[[T; 2]; INPUT_WORDS],
    state: &mut [[u32; 4]; 4],
    m: &[u32; INPUT_WORDS],
)
    requires
        has_limb_sums::<T>(),
        g.value() == 1,
        state_is(input.row(), grid(*old(state))),
        message_is(limb_views(limbs@), m@),
        call_ensures(verify_round::<T>, (builder, &g, &input, &data, limbs), ()),
        all_zero(new_claims(*old(builder), *final(builder))),
        call_ensures(round, (state, m), ()),
    ensures
        state_is(data.state_output.row(), grid(*final(state))),
{
    lemma_round_states(data);
    round_meaning(g, input.row(), data.row(), limb_views(limbs@), grid(*old(state)), m@);
    assert(new_claims(*old(builder), *final(builder)) =~= round_claims(
        g,
        input.row(),
        data.row(),
        limb_views(limbs@),
    ));
}

/// The columns that are written for a message hold its bits and those of its hash, and
/// every claim on them holds, at every multiplicity.
pub proof fn written_hashes_are_accepted<T: Ring + Copy + PrimeFieldModel>(
    cols: &mut Blake3Cols<T>,
    message: [u32; INPUT_WORDS],
    hash: [u32; OUTPUT_WORDS],
    builder: &mut TableBuilder<T>,
    g: T,
    w: int,
    i: int,
)
    requires
        call_ensures(generate_trace_rows_for_hash::<T>, (cols, message), ()),
        call_ensures(compress, (message,), hash),
        call_ensures(eval_blake3::<T>, (builder, &g, final(cols)), ()),
        0 <= w < 16,
        0 <= i < 8,
    ensures
        bits_are(final(cols).inputs@[w]@, message@[w]),
        bits_are(final(cols).outputs@[i / 4]@[i % 4]@, hash@[i]),
        all_zero(new_claims(*old(builder), *final(builder))),
{
    let core = final(cols).row();
    lemma_cols_parts(*final(cols));
    lemma_hash_cells::<T>(message@);
    generated_columns_satisfy(g, message@);
    assert(bits_at(core, 0, w) == final(cols).inputs@[w]@);
    assert(bits_at(core, 8256, i) == final(cols).outputs@[i / 4]@[i % 4]@);
    assert(new_claims(*old(builder), *final(builder)) =~= core_claims(g, core));
}

/// Where the input columns hold the bits of a message and every claim holds, the output
/// columns hold the bits of its hash.
pub proof fn accepted_hashes_are_hashes<T: Ring + Copy + PrimeFieldModel>(
    builder: &mut TableBuilder<T>,
    g: T,
    cols: Blake3Cols<T>,
    message: [u32; INPUT_WORDS],
    hash: [u32; OUTPUT_WORDS],
    i: int,
)
    requires
        has_limb_sums::<T>(),
        g.value() == 1,
        forall|w: int| 0 <= w < 16 ==> bits_are(#[trigger] cols.inputs@[w]@, message@[w]),
        call_ensures(eval_blake3::<T>, (builder, &g, &cols), ()),
        all_zero(new_claims(*old(builder), *final(builder))),
        call_ensures(compress, (message,), hash),
        0 <= i < 8,
    ensures
        bits_are(cols.outputs@[i / 4]@[i % 4]@, hash@[i]),
{
    let core = cols.row();
    lemma_cols_parts(cols);
    assert forall|w: int| 0 <= w < 16 implies bits_are(
        #[trigger] bits_at(core, 0, w),
        message@[w],
    ) by {
        assert(bits_at(core, 0, w) == cols.inputs@[w]@);
    }
    lemma_message_bits(core, message@);
    core_meaning(g, core, message@);
    assert(new_claims(*old(builder), *final(builder)) =~= core_claims(g, core));
    assert(output_is(core, state_after(message@, 7), i));
    assert(bits_at(core, 8256, i) == cols.outputs@[i / 4]@[i % 4]@);
}

} // verus!

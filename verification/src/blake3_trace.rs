//! Generation of the rows of the BLAKE3 table.

use crate::blake3::{
    blake3_hash_64_u16, blake3_of, columns_half, diagonals_half, first_output_words, grid,
    half_columns, half_diagonals, initial_state, output_of, permute, round_of, schedule,
    state_after, word_limb, FULL_ROUNDS, INPUT_LIMBS, INPUT_WORDS, OUTPUT_LIMBS,
};
use crate::blake3_air::{
    const_bits, const_limbs, num_cols_blake3, state_cells, Blake3Cols, Blake3State, FullRound,
    BLAKE3_COL_INPUT_LIMBS, BLAKE3_COL_OUTPUT_LIMBS, BLAKE3_COL_P3_START, CORE_CELLS, HELPERS_AT,
    OUTPUTS_AT, ROUNDS_AT, ROUND_CELLS, ROW1_AT, ROW2_AT, ROW3_AT, STATE_CELLS, TABLE_CELLS,
};
use crate::blake3_eval::{u32_bits_if, u32_limbs_if};
use crate::field::{Felt, Ring, RingModel};
use crate::prime_field::PrimeFieldModel;
use vstd::prelude::*;

verus! {

/// The limbs of a word.
pub fn u32_to_limbs<T: Ring>(value: u32) -> (r: [T; 2])
    ensures
        r@ == const_limbs::<T>(value),
{
    u32_limbs_if(value)
}

/// The bits of a word.
pub fn u32_to_bits_le<T: Ring + Copy>(value: u32) -> (r: [T; 32])
    ensures
        r@ == const_bits::<T>(value),
{
    u32_bits_if(value)
}

/// Write a state to its columns.
pub fn save_state_to_trace<T: Ring + Copy>(trace: &mut Blake3State<T>, state: &[[u32; 4]; 4])
    ensures
        final(trace).row() == state_cells::<T>(grid(*state)),
{
    let ghost v = grid(*state);
    let mut i: usize = 0;
    while i < 4
        invariant
            i <= 4,
            v == grid(*state),
            forall|j: int|
                0 <= j < i ==> (#[trigger] trace.row0@[j])@ == const_limbs::<T>(v[j]),
            forall|j: int|
                0 <= j < i ==> (#[trigger] trace.row1@[j])@ == const_bits::<T>(v[4 + j]),
            forall|j: int|
                0 <= j < i ==> (#[trigger] trace.row2@[j])@ == const_limbs::<T>(v[8 + j]),
            forall|j: int|
                0 <= j < i ==> (#[trigger] trace.row3@[j])@ == const_bits::<T>(v[12 + j]),
        decreases 4 - i,
    {
        assert(v[i as int] == state@[0]@[i as int]);
        assert(v[4 + i as int] == state@[1]@[i as int]);
        assert(v[8 + i as int] == state@[2]@[i as int]);
        assert(v[12 + i as int] == state@[3]@[i as int]);
        trace.row0[i] = u32_to_limbs::<T>(state[0][i]);
        trace.row1[i] = u32_to_bits_le::<T>(state[1][i]);
        trace.row2[i] = u32_to_limbs::<T>(state[2][i]);
        trace.row3[i] = u32_to_bits_le::<T>(state[3][i]);
        i = i + 1;
    }
    proof {
        reveal(state_cells);
        assert forall|k: int| 0 <= k < STATE_CELLS implies trace.cell(k) == state_cells::<T>(
            v,
        )[k] by {
            if k < ROW1_AT {
                assert(trace.row0@[k / 2]@ == const_limbs::<T>(v[k / 2]));
            } else if k < ROW2_AT {
                let j = (k - ROW1_AT) / 32;
                assert(trace.row1@[j]@ == const_bits::<T>(v[4 + j]));
            } else if k < ROW3_AT {
                let j = (k - ROW2_AT) / 2;
                assert(trace.row2@[j]@ == const_limbs::<T>(v[8 + j]));
            } else {
                let j = (k - ROW3_AT) / 32;
                assert(trace.row3@[j]@ == const_bits::<T>(v[12 + j]));
            }
        }
        assert(trace.row() =~= state_cells::<T>(v));
    }
}

/// State `j` of the four states that a round from `v` with message `m` passes
/// through.
pub open spec fn state_in_round(v: Seq<u32>, m: Seq<u32>, j: int) -> Seq<u32> {
    let c1 = columns_half(v, m, false);
    let c2 = columns_half(c1, m, true);
    let d1 = diagonals_half(c2, m, false);
    if j == 0 {
        c1
    } else if j == 1 {
        c2
    } else if j == 2 {
        d1
    } else {
        diagonals_half(d1, m, true)
    }
}

/// The last of the states that are written is the outcome of the round.
pub proof fn traced_round_ends_in_round(v: Seq<u32>, m: Seq<u32>)
    ensures
        state_in_round(v, m, 3) == round_of(v, m),
{
    reveal(round_of);
}

/// The values that a round from `v` with message `m` writes.
#[verifier::opaque]
pub open spec fn round_cells<T: RingModel>(v: Seq<u32>, m: Seq<u32>) -> Seq<T> {
    Seq::new(
        ROUND_CELLS as nat,
        |k: int| state_cells::<T>(state_in_round(v, m, k / 272))[k % 272],
    )
}

/// Apply a round to the state, and write the states that it passes through.
pub fn generate_trace_row_for_round<T: Ring + Copy>(
    round_data: &mut FullRound<T>,
    state: &mut [[u32; 4]; 4],
    m_vec: &[u32; INPUT_WORDS],
)
    ensures
        final(round_data).row() == round_cells::<T>(grid(*old(state)), m_vec@),
        grid(*final(state)) == round_of(grid(*old(state)), m_vec@),
{
    let ghost v = grid(*state);
    let ghost m = m_vec@;
    half_columns(state, m_vec, false);
    save_state_to_trace(&mut round_data.state_prime, state);
    half_columns(state, m_vec, true);
    save_state_to_trace(&mut round_data.state_middle, state);
    half_diagonals(state, m_vec, false);
    save_state_to_trace(&mut round_data.state_middle_prime, state);
    half_diagonals(state, m_vec, true);
    save_state_to_trace(&mut round_data.state_output, state);
    proof {
        reveal(round_of);
        reveal(round_cells);
        assert(round_data.state_prime.row() == state_cells::<T>(state_in_round(v, m, 0)));
        assert(round_data.state_middle.row() == state_cells::<T>(state_in_round(v, m, 1)));
        assert(round_data.state_middle_prime.row() == state_cells::<T>(state_in_round(v, m, 2)));
        assert(round_data.state_output.row() == state_cells::<T>(state_in_round(v, m, 3)));
        assert forall|k: int| 0 <= k < ROUND_CELLS implies round_data.row()[k] == round_cells::<T>(
            v,
            m,
        )[k] by {
            let j = k / 272;
            assert(j == 0 || j == 1 || j == 2 || j == 3);
            assert(k % 272 == k - 272 * j);
            if j == 0 {
                assert(round_data.state_prime.row()[k] == round_data.state_prime.cell(k));
            } else if j == 1 {
                assert(round_data.state_middle.row()[k - 272] == round_data.state_middle.cell(
                    k - 272,
                ));
            } else if j == 2 {
                assert(round_data.state_middle_prime.row()[k - 544]
                    == round_data.state_middle_prime.cell(k - 544));
            } else {
                assert(round_data.state_output.row()[k - 816] == round_data.state_output.cell(
                    k - 816,
                ));
            }
        }
        assert(round_data.row() =~= round_cells::<T>(v, m));
    }
}

/// The values that the hash of message `m` writes.
pub open spec fn hash_cells<T: RingModel>(m: Seq<u32>) -> Seq<T> {
    Seq::new(
        CORE_CELLS as nat,
        |k: int|
            if k < ROUNDS_AT {
                const_bits::<T>(m[k / 32])[k % 32]
            } else if k < HELPERS_AT {
                let n = (k - ROUNDS_AT) / 1088;
                round_cells::<T>(state_after(m, n), schedule(m, n))[(k - ROUNDS_AT) % 1088]
            } else if k < OUTPUTS_AT {
                const_bits::<T>(state_after(m, 7)[8 + (k - HELPERS_AT) / 32])[(k - HELPERS_AT) % 32]
            } else {
                const_bits::<T>(blake3_of(m)[(k - OUTPUTS_AT) / 32])[(k - OUTPUTS_AT) % 32]
            },
    )
}

/// Write the bits of the message words.
fn write_inputs<T: Ring + Copy>(row: &mut Blake3Cols<T>, input: &[u32; INPUT_WORDS])
    ensures
        forall|w: int| 0 <= w < 16 ==> (#[trigger] final(row).inputs@[w])@ == const_bits::<T>(
            input@[w],
        ),
{
    let mut w: usize = 0;
    while w < INPUT_WORDS
        invariant
            w <= 16,
            forall|j: int|
                0 <= j < w ==> (#[trigger] row.inputs@[j])@ == const_bits::<T>(input@[j]),
        decreases 16 - w,
    {
        row.inputs[w] = u32_to_bits_le::<T>(input[w]);
        w = w + 1;
    }
}

/// Apply the seven rounds, and write the states that they pass through.
fn write_rounds<T: Ring + Copy>(row: &mut Blake3Cols<T>, input: &[u32; INPUT_WORDS]) -> (state: [[
    u32;
    4]; 4])
    ensures
        final(row).inputs == old(row).inputs,
        forall|n: int|
            0 <= n < 7 ==> (#[trigger] final(row).full_rounds@[n]).row() == round_cells::<T>(
                state_after(input@, n),
                schedule(input@, n),
            ),
        grid(state) == state_after(input@, 7),
{
    let mut m_vec = *input;
    let mut state = initial_state();
    let mut n: usize = 0;
    while n < FULL_ROUNDS
        invariant
            n <= 7,
            row.inputs == old(row).inputs,
            m_vec@ == schedule(input@, n as int),
            grid(state) == state_after(input@, n as int),
            forall|j: int|
                0 <= j < n ==> (#[trigger] row.full_rounds@[j]).row() == round_cells::<T>(
                    state_after(input@, j),
                    schedule(input@, j),
                ),
        decreases 7 - n,
    {
        let mut data = row.full_rounds[n];
        generate_trace_row_for_round(&mut data, &mut state, &m_vec);
        row.full_rounds[n] = data;
        permute(&mut m_vec);
        n = n + 1;
    }
    state
}

/// Write the bits of the output and of the row that it is taken from.
fn write_outputs<T: Ring + Copy>(row: &mut Blake3Cols<T>, state: &[[u32; 4]; 4])
    ensures
        final(row).inputs == old(row).inputs,
        final(row).full_rounds == old(row).full_rounds,
        forall|i: int|
            0 <= i < 4 ==> (#[trigger] final(row).final_round_helpers@[i])@ == const_bits::<T>(
                grid(*state)[8 + i],
            ),
        forall|i: int|
            0 <= i < 4 ==> (#[trigger] final(row).outputs@[0]@[i])@ == const_bits::<T>(
                output_of(grid(*state))[i],
            ),
        forall|i: int|
            0 <= i < 4 ==> (#[trigger] final(row).outputs@[1]@[i])@ == const_bits::<T>(
                output_of(grid(*state))[4 + i],
            ),
{
    let output = first_output_words(state);
    let mut i: usize = 0;
    while i < 4
        invariant
            i <= 4,
            output@ == output_of(grid(*state)),
            row.inputs == old(row).inputs,
            row.full_rounds == old(row).full_rounds,
            forall|j: int|
                0 <= j < i ==> (#[trigger] row.final_round_helpers@[j])@ == const_bits::<T>(
                    grid(*state)[8 + j],
                ),
            forall|j: int|
                0 <= j < i ==> (#[trigger] row.outputs@[0]@[j])@ == const_bits::<T>(output@[j]),
            forall|j: int|
                0 <= j < i ==> (#[trigger] row.outputs@[1]@[j])@ == const_bits::<T>(output@[4 + j]),
        decreases 4 - i,
    {
        assert(grid(*state)[8 + i as int] == state@[2]@[i as int]);
        row.final_round_helpers[i] = u32_to_bits_le::<T>(state[2][i]);
        row.outputs[0][i] = u32_to_bits_le::<T>(output[i]);
        row.outputs[1][i] = u32_to_bits_le::<T>(output[4 + i]);
        i = i + 1;
    }
}

/// Write the columns of the hash of a message.
pub fn generate_trace_rows_for_hash<T: Ring + Copy>(
    row: &mut Blake3Cols<T>,
    input: [u32; INPUT_WORDS],
)
    ensures
        final(row).row() == hash_cells::<T>(input@),
{
    write_inputs(row, &input);
    let state = write_rounds(row, &input);
    write_outputs(row, &state);
    proof {
        let m = input@;
        assert forall|k: int| 0 <= k < CORE_CELLS implies row.cell(k) == hash_cells::<T>(m)[k] by {
            if k < ROUNDS_AT {
                assert(row.inputs@[k / 32]@ == const_bits::<T>(m[k / 32]));
            } else if k < HELPERS_AT {
                let n = (k - ROUNDS_AT) / 1088;
                let j = (k - ROUNDS_AT) % 1088;
                assert(row.full_rounds@[n].row()[j] == row.full_rounds@[n].cell(j));
            } else if k < OUTPUTS_AT {
                let i = (k - HELPERS_AT) / 32;
                assert(row.final_round_helpers@[i]@ == const_bits::<T>(
                    state_after(m, 7)[8 + i],
                ));
            } else {
                let j = k - OUTPUTS_AT;
                let i = j / 32;
                if i < 4 {
                    assert(j / 128 == 0 && (j / 32) % 4 == i);
                    assert(row.outputs@[0]@[i]@ == const_bits::<T>(blake3_of(m)[i]));
                } else {
                    assert(j / 128 == 1 && (j / 32) % 4 == i - 4);
                    assert(row.outputs@[1]@[i - 4]@ == const_bits::<T>(blake3_of(m)[4 + (i - 4)]));
                }
            }
        }
        assert(row.row() =~= hash_cells::<T>(m));
    }
}

/// The word that two limbs stand for: the canonical representatives, the second
/// shifted by a limb. It is the intended word where both are limbs.
pub open spec fn joined_word<T: PrimeFieldModel>(low: T, high: T) -> u32 {
    (low.value() as u32) | ((high.value() as u32) << 16)
}

/// The message words that thirty-two limbs stand for.
pub open spec fn words_of<T: PrimeFieldModel>(limbs: Seq<T>) -> Seq<u32> {
    Seq::new(16, |w: int| joined_word(limbs[2 * w], limbs[2 * w + 1]))
}

/// The limbs of the hash of a message.
pub open spec fn hash_limbs<T: RingModel>(m: Seq<u32>) -> Seq<T> {
    Seq::new(16, |k: int| T::elem(word_limb(blake3_of(m), k) as nat))
}

/// The message words that thirty-two limbs stand for.
pub fn join_words(limbs: &[Felt; INPUT_LIMBS]) -> (r: [u32; INPUT_WORDS])
    ensures
        r@ == words_of(limbs@),
{
    let mut words = [0u32; INPUT_WORDS];
    let mut w: usize = 0;
    while w < INPUT_WORDS
        invariant
            w <= 16,
            forall|j: int| 0 <= j < w ==> #[trigger] words@[j] == words_of(limbs@)[j],
        decreases 16 - w,
    {
        let low: u32 = limbs[2 * w].as_canonical_u32();
        let high: u32 = limbs[2 * w + 1].as_canonical_u32();
        words[w] = low | (high << 16);
        w = w + 1;
    }
    assert(words@ =~= words_of(limbs@));
    words
}

/// The limbs of the hash of a message, as field elements.
pub fn hash_fields(words: [u32; INPUT_WORDS]) -> (r: [Felt; OUTPUT_LIMBS])
    ensures
        r@ == hash_limbs::<Felt>(words@),
{
    let limbs = blake3_hash_64_u16(words);
    let mut r = [Felt::zero(); OUTPUT_LIMBS];
    let mut k: usize = 0;
    while k < OUTPUT_LIMBS
        invariant
            k <= 16,
            limbs@ == Seq::new(16, |i: int| word_limb(blake3_of(words@), i)),
            forall|j: int| 0 <= j < k ==> #[trigger] r@[j] == hash_limbs::<Felt>(words@)[j],
        decreases 16 - k,
    {
        r[k] = Felt::from_u16(limbs[k]);
        k = k + 1;
    }
    assert(r@ =~= hash_limbs::<Felt>(words@));
    r
}

/// The length of the longest of the first `k` columns.
pub open spec fn longest(trace: Seq<Vec<Felt>>, k: int) -> nat
    decreases k,
{
    if k <= 0 {
        0
    } else if longest(trace, k - 1) < trace[k - 1]@.len() {
        trace[k - 1]@.len()
    } else {
        longest(trace, k - 1)
    }
}

/// Entry `r` of a column that is continued with zeros.
pub open spec fn padded(column: Seq<Felt>, r: int) -> Felt {
    if r < column.len() {
        column[r]
    } else {
        Felt::elem(0)
    }
}

/// The input limbs of row `r`.
pub open spec fn row_limbs(trace: Seq<Vec<Felt>>, r: int) -> Seq<Felt> {
    Seq::new(32, |i: int| padded(trace[BLAKE3_COL_INPUT_LIMBS + i]@, r))
}

/// Entry `r` of column `c` of a filled trace: the output and the computation are
/// those of the input limbs of the row, the other columns stay.
pub open spec fn filled(trace: Seq<Vec<Felt>>, c: int, r: int) -> Felt {
    if BLAKE3_COL_OUTPUT_LIMBS <= c < BLAKE3_COL_P3_START {
        hash_limbs::<Felt>(words_of(row_limbs(trace, r)))[c - BLAKE3_COL_OUTPUT_LIMBS]
    } else if BLAKE3_COL_P3_START <= c < TABLE_CELLS {
        hash_cells::<Felt>(words_of(row_limbs(trace, r)))[c - BLAKE3_COL_P3_START]
    } else {
        padded(trace[c]@, r)
    }
}

/// No column is longer than the longest.
pub proof fn lemma_longest(trace: Seq<Vec<Felt>>, k: int, c: int)
    requires
        0 <= c < k <= trace.len(),
    ensures
        trace[c]@.len() <= longest(trace, k),
    decreases k,
{
    if c < k - 1 {
        lemma_longest(trace, k - 1, c);
    }
}

/// Some column is as long as the longest.
pub proof fn lemma_longest_is_attained(trace: Seq<Vec<Felt>>, k: int)
    requires
        0 < k <= trace.len(),
    ensures
        exists|c: int| 0 <= c < k && (#[trigger] trace[c])@.len() == longest(trace, k),
    decreases k,
{
    assert(longest(trace, 0) == 0);
    if k > 1 {
        lemma_longest_is_attained(trace, k - 1);
    }
    if longest(trace, k - 1) < trace[k - 1]@.len() || k == 1 {
        assert(trace[k - 1]@.len() == longest(trace, k));
    } else {
        let c = choose|c: int|
            0 <= c < k - 1 && (#[trigger] trace[c])@.len() == longest(trace, k - 1);
        assert(trace[c]@.len() == longest(trace, k));
    }
}

/// The length of the longest column.
fn longest_column(trace: &Vec<Vec<Felt>>) -> (n: usize)
    ensures
        n == longest(trace@, trace@.len() as int),
{
    let mut n: usize = 0;
    let mut k: usize = 0;
    while k < trace.len()
        invariant
            k <= trace@.len(),
            n == longest(trace@, k as int),
        decreases trace@.len() - k,
    {
        let len: usize = trace[k].len();
        if n < len {
            n = len;
        }
        k = k + 1;
    }
    n
}

/// Continue a column with zeros.
fn pad_column(column: &mut Vec<Felt>, n: usize)
    requires
        old(column)@.len() <= n,
    ensures
        final(column)@ == Seq::new(n as nat, |r: int| padded(old(column)@, r)),
{
    let zero = Felt::zero();
    while column.len() < n
        invariant
            zero == Felt::elem(0),
            old(column)@.len() <= column@.len() <= n,
            column@ =~= Seq::new(column@.len(), |r: int| padded(old(column)@, r)),
        decreases n - column@.len(),
    {
        column.push(zero);
    }
}

/// Write the output limbs and the computation of row `r`.
fn fill_row(trace: &mut Vec<Vec<Felt>>, r: usize, Ghost(n): Ghost<nat>)
    requires
        r < n,
        old(trace)@.len() >= TABLE_CELLS,
        forall|c: int| 0 <= c < old(trace)@.len() ==> (#[trigger] old(trace)@[c])@.len() == n,
    ensures
        final(trace)@.len() == old(trace)@.len(),
        forall|c: int|
            0 <= c < old(trace)@.len() ==> (#[trigger] final(trace)@[c])@ == old(
                trace,
            )@[c]@.update(r as int, filled(old(trace)@, c, r as int)),
{
    let mut input_limbs = [Felt::zero(); INPUT_LIMBS];
    let mut i: usize = 0;
    while i < INPUT_LIMBS
        invariant
            i <= 32,
            r < n,
            trace@.len() >= TABLE_CELLS,
            trace@ == old(trace)@,
            forall|c: int| 0 <= c < trace@.len() ==> (#[trigger] trace@[c])@.len() == n,
            forall|j: int|
                0 <= j < i ==> #[trigger] input_limbs@[j] == row_limbs(trace@, r as int)[j],
        decreases 32 - i,
    {
        assert(trace@[BLAKE3_COL_INPUT_LIMBS + i]@.len() == n);
        input_limbs[i] = trace[BLAKE3_COL_INPUT_LIMBS + i][r];
        i = i + 1;
    }
    assert(input_limbs@ =~= row_limbs(trace@, r as int));
    let words = join_words(&input_limbs);
    let output = hash_fields(words);
    let zero = Felt::zero();
    let blank_state = Blake3State {
        row0: [[zero; 2]; 4],
        row1: [[zero; 32]; 4],
        row2: [[zero; 2]; 4],
        row3: [[zero; 32]; 4],
    };
    let blank_round = FullRound {
        state_prime: blank_state,
        state_middle: blank_state,
        state_middle_prime: blank_state,
        state_output: blank_state,
    };
    let mut cols = Blake3Cols {
        inputs: [[zero; 32]; INPUT_WORDS],
        full_rounds: [blank_round; FULL_ROUNDS],
        final_round_helpers: [[zero; 32]; 4],
        outputs: [[[zero; 32]; 4]; 2],
    };
    generate_trace_rows_for_hash(&mut cols, words);
    let mut c: usize = BLAKE3_COL_OUTPUT_LIMBS;
    while c < num_cols_blake3()
        invariant
            BLAKE3_COL_OUTPUT_LIMBS <= c <= TABLE_CELLS,
            r < n,
            trace@.len() == old(trace)@.len(),
            trace@.len() >= TABLE_CELLS,
            forall|j: int| 0 <= j < trace@.len() ==> (#[trigger] old(trace)@[j])@.len() == n,
            words@ == words_of(row_limbs(old(trace)@, r as int)),
            output@ == hash_limbs::<Felt>(words@),
            cols.row() == hash_cells::<Felt>(words@),
            forall|j: int|
                0 <= j < trace@.len() ==> (#[trigger] trace@[j])@ == if BLAKE3_COL_OUTPUT_LIMBS
                    <= j < c {
                    old(trace)@[j]@.update(r as int, filled(old(trace)@, j, r as int))
                } else {
                    old(trace)@[j]@
                },
        decreases TABLE_CELLS - c,
    {
        let value = if c < BLAKE3_COL_P3_START {
            output[c - BLAKE3_COL_OUTPUT_LIMBS]
        } else {
            cols.value(c - BLAKE3_COL_P3_START)
        };
        assert(old(trace)@[c as int]@.len() == n);
        assert(trace@[c as int]@ == old(trace)@[c as int]@);
        trace[c][r] = value;
        c = c + 1;
    }
    assert forall|j: int| 0 <= j < old(trace)@.len() implies (#[trigger] trace@[j])@ == old(
        trace,
    )@[j]@.update(r as int, filled(old(trace)@, j, r as int)) by {
        assert(old(trace)@[j]@.len() == n);
        if !(BLAKE3_COL_OUTPUT_LIMBS <= j < TABLE_CELLS) {
            assert(trace@[j]@ =~= old(trace)@[j]@.update(r as int, old(trace)@[j]@[r as int]));
        }
    }
}

/// Continue every column with zeros.
fn pad_columns(trace: &mut Vec<Vec<Felt>>, n: usize)
    requires
        n == longest(old(trace)@, old(trace)@.len() as int),
    ensures
        final(trace)@.len() == old(trace)@.len(),
        forall|c: int|
            0 <= c < old(trace)@.len() ==> (#[trigger] final(trace)@[c])@ == Seq::new(
                n as nat,
                |r: int| padded(old(trace)@[c]@, r),
            ),
{
    let ghost before = trace@;
    let mut k: usize = 0;
    while k < trace.len()
        invariant
            k <= trace@.len(),
            trace@.len() == before.len(),
            before == old(trace)@,
            n == longest(before, before.len() as int),
            forall|c: int| k <= c < before.len() ==> #[trigger] trace@[c] == before[c],
            forall|c: int|
                0 <= c < k ==> (#[trigger] trace@[c])@ == Seq::new(
                    n as nat,
                    |r: int| padded(before[c]@, r),
                ),
        decreases before.len() - k,
    {
        proof {
            lemma_longest(before, before.len() as int, k as int);
        }
        assert(trace@[k as int] == before[k as int]);
        pad_column(&mut trace[k], n);
        k = k + 1;
    }
}

/// Fill the output and the computation of every row from its input limbs. The
/// shorter columns are continued with zeros first.
pub fn fill_trace_blake3(trace: &mut Vec<Vec<Felt>>)
    requires
        old(trace)@.len() > 0,
        longest(old(trace)@, old(trace)@.len() as int) > 0 ==> old(trace)@.len() >= TABLE_CELLS,
    ensures
        final(trace)@.len() == old(trace)@.len(),
        forall|c: int|
            0 <= c < old(trace)@.len() ==> (#[trigger] final(trace)@[c])@ == Seq::new(
                longest(old(trace)@, old(trace)@.len() as int),
                |r: int| filled(old(trace)@, c, r),
            ),
{
    let ghost before = trace@;
    let n: usize = longest_column(trace);
    pad_columns(trace, n);
    let mut r: usize = 0;
    while r < n
        invariant
            r <= n,
            before == old(trace)@,
            before.len() > 0,
            n > 0 ==> before.len() >= TABLE_CELLS,
            trace@.len() == before.len(),
            forall|c: int| 0 <= c < before.len() ==> (#[trigger] trace@[c])@.len() == n,
            forall|c: int, q: int|
                0 <= c < before.len() && 0 <= q < n ==> #[trigger] trace@[c]@[q] == if q < r {
                    filled(before, c, q)
                } else {
                    padded(before[c]@, q)
                },
        decreases n - r,
    {
        proof {
            assert forall|i: int| 0 <= i < 32 implies row_limbs(trace@, r as int)[i] == row_limbs(
                before,
                r as int,
            )[i] by {
                assert(trace@[BLAKE3_COL_INPUT_LIMBS + i]@[r as int] == padded(
                    before[BLAKE3_COL_INPUT_LIMBS + i]@,
                    r as int,
                ));
            }
            assert(row_limbs(trace@, r as int) =~= row_limbs(before, r as int));
            assert forall|c: int| 0 <= c < before.len() implies #[trigger] filled(
                trace@,
                c,
                r as int,
            ) == filled(before, c, r as int) by {
                assert(trace@[c]@[r as int] == padded(before[c]@, r as int));
            }
        }
        let ghost current = trace@;
        fill_row(trace, r, Ghost(n as nat));
        r = r + 1;
        assert forall|c: int, q: int|
            0 <= c < before.len() && 0 <= q < n implies #[trigger] trace@[c]@[q] == if q < r {
            filled(before, c, q)
        } else {
            padded(before[c]@, q)
        } by {
            assert(trace@[c]@ == current[c]@.update(r - 1, filled(current, c, r - 1)));
            assert(current[c]@.len() == n);
        }
    }
    assert forall|c: int| 0 <= c < before.len() implies (#[trigger] trace@[c])@ == Seq::new(
        longest(before, before.len() as int),
        |q: int| filled(before, c, q),
    ) by {
        assert(trace@[c]@ =~= Seq::new(
            longest(before, before.len() as int),
            |q: int| filled(before, c, q),
        ));
    }
}

} // verus!

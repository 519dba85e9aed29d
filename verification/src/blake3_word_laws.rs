//! What the steps of the BLAKE3 computation come down to on words, of every result that
//! a call can have.

use crate::blake3::{
    blake3_hash_64_u16, blake3_hash_64_words, column_half, compress, diagonal_half,
    diagonal_of_word, first_output_words, grid, half_columns, half_diagonals, half_round_of,
    high_limb, initial_state, low_limb, permute, round, round_of, schedule, state_after,
    verifiable_half_round, INPUT_WORDS, MSG_PERMUTATION, OUTPUT_LIMBS, OUTPUT_WORDS,
};
use crate::blake3_air::word_bit;
use crate::words::{lemma_rotated_bit, lemma_xor_bit};
use vstd::prelude::*;

verus! {

/// Half of G adds modulo `2^32`, combines and rotates to the right: by 16 and 12 bits
/// in the first half, by 8 and 7 in the second.
pub proof fn half_round_adds_and_rotates(
    a: u32,
    b: u32,
    c: u32,
    d: u32,
    m: u32,
    flag: bool,
    r: (u32, u32, u32, u32),
    j: int,
)
    requires
        call_ensures(verifiable_half_round, (a, b, c, d, m, flag), r),
        0 <= j < 32,
    ensures
        r.0 == (a + b + m) % 0x1_0000_0000,
        r.2 == (c + r.3) % 0x1_0000_0000,
        ({
            let (first, second) = if flag {
                (8int, 7int)
            } else {
                (16int, 12int)
            };
            &&& word_bit(r.3, j) == (word_bit(d, (j + first) % 32) != word_bit(
                r.0,
                (j + first) % 32,
            ))
            &&& word_bit(r.1, j) == (word_bit(b, (j + second) % 32) != word_bit(
                r.2,
                (j + second) % 32,
            ))
        }),
{
    reveal(half_round_of);
    let (first, second) = if flag {
        (8int, 7int)
    } else {
        (16int, 12int)
    };
    lemma_rotated_bit(d ^ r.0, first, j);
    lemma_rotated_bit(b ^ r.2, second, j);
    lemma_xor_bit(d, r.0, (j + first) % 32);
    lemma_xor_bit(b, r.2, (j + second) % 32);
}

/// Half of G on the columns takes each column of the state with its own message word.
pub proof fn columns_are_mixed_one_by_one(
    state: &mut [[u32; 4]; 4],
    m: &[u32; INPUT_WORDS],
    second: bool,
    i: int,
    r: (u32, u32, u32, u32),
)
    requires
        0 <= i < 4,
        call_ensures(half_columns, (state, m, second), ()),
        call_ensures(
            verifiable_half_round,
            (
                old(state)@[0]@[i],
                old(state)@[1]@[i],
                old(state)@[2]@[i],
                old(state)@[3]@[i],
                if second {
                    m@[2 * i + 1]
                } else {
                    m@[2 * i]
                },
                second,
            ),
            r,
        ),
    ensures
        final(state)@[0]@[i] == r.0,
        final(state)@[1]@[i] == r.1,
        final(state)@[2]@[i] == r.2,
        final(state)@[3]@[i] == r.3,
{
    let v = grid(*old(state));
    let w = grid(*final(state));
    assert(v[i] == old(state)@[0]@[i] && v[4 + i] == old(state)@[1]@[i] && v[8 + i] == old(
        state,
    )@[2]@[i] && v[12 + i] == old(state)@[3]@[i]);
    assert(r == column_half(v, m@, i, second));
    assert(w[i] == final(state)@[0]@[i]);
    assert(w[4 + i] == final(state)@[1]@[i]);
    assert(w[8 + i] == final(state)@[2]@[i]);
    assert(w[12 + i] == final(state)@[3]@[i]);
}

/// Half of G on the diagonals takes each diagonal of the state with its own message
/// word: a row is met one column further on than the row above.
pub proof fn diagonals_are_mixed_one_by_one(
    state: &mut [[u32; 4]; 4],
    m: &[u32; INPUT_WORDS],
    second: bool,
    i: int,
    r: (u32, u32, u32, u32),
)
    requires
        0 <= i < 4,
        call_ensures(half_diagonals, (state, m, second), ()),
        call_ensures(
            verifiable_half_round,
            (
                old(state)@[0]@[i],
                old(state)@[1]@[(i + 1) % 4],
                old(state)@[2]@[(i + 2) % 4],
                old(state)@[3]@[(i + 3) % 4],
                if second {
                    m@[9 + 2 * i]
                } else {
                    m@[8 + 2 * i]
                },
                second,
            ),
            r,
        ),
    ensures
        final(state)@[0]@[i] == r.0,
        final(state)@[1]@[(i + 1) % 4] == r.1,
        final(state)@[2]@[(i + 2) % 4] == r.2,
        final(state)@[3]@[(i + 3) % 4] == r.3,
{
    let v = grid(*old(state));
    let w = grid(*final(state));
    let (k1, k2, k3) = (4 + (i + 1) % 4, 8 + (i + 2) % 4, 12 + (i + 3) % 4);
    assert(v[i] == old(state)@[0]@[i] && v[k1] == old(state)@[1]@[(i + 1) % 4] && v[k2] == old(
        state,
    )@[2]@[(i + 2) % 4] && v[k3] == old(state)@[3]@[(i + 3) % 4]);
    assert(r == diagonal_half(v, m@, i, second));
    assert(diagonal_of_word(i) == i && diagonal_of_word(k1) == i && diagonal_of_word(k2) == i
        && diagonal_of_word(k3) == i);
    assert(w[i] == final(state)@[0]@[i]);
    assert(w[k1] == final(state)@[1]@[(i + 1) % 4]);
    assert(w[k2] == final(state)@[2]@[(i + 2) % 4]);
    assert(w[k3] == final(state)@[3]@[(i + 3) % 4]);
}

/// A round mixes the columns, both halves, and then the diagonals, both halves.
pub proof fn rounds_mix_columns_and_diagonals(
    state: &mut [[u32; 4]; 4],
    first: &mut [[u32; 4]; 4],
    second: &mut [[u32; 4]; 4],
    third: &mut [[u32; 4]; 4],
    fourth: &mut [[u32; 4]; 4],
    m: &[u32; INPUT_WORDS],
    i: int,
    j: int,
)
    requires
        call_ensures(round, (state, m), ()),
        *old(first) == *old(state),
        call_ensures(half_columns, (first, m, false), ()),
        *old(second) == *final(first),
        call_ensures(half_columns, (second, m, true), ()),
        *old(third) == *final(second),
        call_ensures(half_diagonals, (third, m, false), ()),
        *old(fourth) == *final(third),
        call_ensures(half_diagonals, (fourth, m, true), ()),
        0 <= i < 4,
        0 <= j < 4,
    ensures
        final(state)@[i]@[j] == final(fourth)@[i]@[j],
{
    reveal(round_of);
    let k = 4 * i + j;
    assert(k / 4 == i && k % 4 == j);
    assert(grid(*final(state))[k] == final(state)@[i]@[j]);
    assert(grid(*final(fourth))[k] == final(fourth)@[i]@[j]);
}

/// Rearranging the message words loses none of them and keeps none in place.
pub proof fn message_words_are_rearranged<T: Copy>(m: &mut [T; 16], other: &mut [T; 16], k: int)
    requires
        call_ensures(permute::<T>, (m,), ()),
        call_ensures(permute::<T>, (other,), ()),
        0 <= k < 16,
    ensures
        exists|i: int| 0 <= i < 16 && i != k && #[trigger] final(m)@[i] == old(m)@[k],
        final(m)@ == final(other)@ ==> old(m)@[k] == old(other)@[k],
{
    let at: Seq<int> = seq![5, 8, 0, 2, 6, 11, 1, 4, 15, 12, 3, 9, 10, 7, 13, 14];
    let i = at[k];
    assert(MSG_PERMUTATION@[i] == k);
    assert(final(m)@[i] == old(m)@[k]);
    assert(final(other)@[i] == old(other)@[k]);
}

/// What a state puts out combines its upper half with its lower half.
pub proof fn outputs_combine_halves(
    state: &[[u32; 4]; 4],
    out: [u32; OUTPUT_WORDS],
    i: int,
    j: int,
    b: int,
)
    requires
        call_ensures(first_output_words, (state,), out),
        0 <= i < 2,
        0 <= j < 4,
        0 <= b < 32,
    ensures
        word_bit(out@[4 * i + j], b) == (word_bit(state@[i]@[j], b) != word_bit(
            state@[i + 2]@[j],
            b,
        )),
{
    let k = 4 * i + j;
    assert(k / 4 == i && k % 4 == j && (8 + k) / 4 == i + 2 && (8 + k) % 4 == j);
    lemma_xor_bit(state@[i]@[j], state@[i + 2]@[j], b);
}

/// Seven rounds lead from the first state to the hash, with the message words
/// rearranged after each.
pub proof fn hashing_takes_seven_rounds(
    input: [u32; INPUT_WORDS],
    states: Seq<[[u32; 4]; 4]>,
    messages: Seq<[u32; INPUT_WORDS]>,
    first: [[u32; 4]; 4],
    out: [u32; OUTPUT_WORDS],
    hash: [u32; OUTPUT_WORDS],
)
    requires
        call_ensures(initial_state, (), first),
        states.len() == 8,
        messages.len() == 8,
        states[0] == first,
        messages[0] == input,
        forall|n: int|
            #![trigger states[n]]
            0 <= n < 7 ==> exists|state: &mut [[u32; 4]; 4]|
                *state == states[n] && *final(state) == states[n + 1] && #[trigger] call_ensures(
                    round,
                    (state, &messages[n]),
                    (),
                ),
        forall|n: int|
            #![trigger messages[n]]
            0 <= n < 7 ==> exists|m: &mut [u32; INPUT_WORDS]|
                *m == messages[n] && *final(m) == messages[n + 1] && #[trigger] call_ensures(
                    permute::<u32>,
                    (m,),
                    (),
                ),
        call_ensures(first_output_words, (&states[7],), out),
        call_ensures(compress, (input,), hash),
    ensures
        hash@ == out@,
{
    lemma_states(input, states, messages, 7);
}

proof fn lemma_states(
    input: [u32; INPUT_WORDS],
    states: Seq<[[u32; 4]; 4]>,
    messages: Seq<[u32; INPUT_WORDS]>,
    n: int,
)
    requires
        0 <= n <= 7,
        states.len() == 8,
        messages.len() == 8,
        grid(states[0]) == state_after(input@, 0),
        messages[0] == input,
        forall|k: int|
            #![trigger states[k]]
            0 <= k < 7 ==> exists|state: &mut [[u32; 4]; 4]|
                *state == states[k] && *final(state) == states[k + 1] && #[trigger] call_ensures(
                    round,
                    (state, &messages[k]),
                    (),
                ),
        forall|k: int|
            #![trigger messages[k]]
            0 <= k < 7 ==> exists|m: &mut [u32; INPUT_WORDS]|
                *m == messages[k] && *final(m) == messages[k + 1] && #[trigger] call_ensures(
                    permute::<u32>,
                    (m,),
                    (),
                ),
    ensures
        grid(states[n]) == state_after(input@, n),
        messages[n]@ == schedule(input@, n),
    decreases n,
{
    if n > 0 {
        lemma_states(input, states, messages, n - 1);
        let (state, m) = (states[n - 1], messages[n - 1]);
    }
}

/// The hash is the same as words and as limbs, low half first.
pub proof fn hash_is_the_same_in_words_and_limbs(
    input: [u32; INPUT_WORDS],
    hash: [u32; OUTPUT_WORDS],
    words: [u32; OUTPUT_WORDS],
    limbs: [u16; OUTPUT_LIMBS],
    i: int,
    low: u16,
    high: u16,
)
    requires
        call_ensures(compress, (input,), hash),
        call_ensures(blake3_hash_64_words, (input,), words),
        call_ensures(blake3_hash_64_u16, (input,), limbs),
        0 <= i < 8,
        call_ensures(low_limb, (words@[i],), low),
        call_ensures(high_limb, (words@[i],), high),
    ensures
        words@ == hash@,
        words@[i] == low + 0x1_0000 * high,
        limbs@[2 * i] == low,
        limbs@[2 * i + 1] == high,
{
    assert((2 * i) / 2 == i && (2 * i + 1) / 2 == i);
}

} // verus!

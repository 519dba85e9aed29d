//! What the BLAKE3 table means: on a row of multiplicity one its constraints
//! vanish exactly when the row holds a hash computation, and on a row of
//! multiplicity zero they vanish always.

use crate::bits::{
    all_zero, bit_value, lemma_all_zero_concat, lemma_diff_zero, lemma_xor_bits, truths,
};
use crate::blake3::{
    column_half, columns_half, diagonal_half, diagonal_of_word, diagonals_half, first_state,
    permuted, round_of, schedule, state_after, MSG_PERMUTATION,
};
use crate::blake3_air::{
    bits_at, bits_claims, column_at, column_claims, columns_claims, const_bits, const_limbs,
    core_claims, diagonal_at, diagonal_claims, diagonals_claims, first_outputs_claims, half_claims,
    helpers_claims, limbs_claims, message, packed, pair_at, round_at, round_claims, round_state,
    rounds_claims, second_output_claims, second_outputs_claims, state_before, state_cells, word_bit,
    xor_shift_claims, CORE_CELLS, HELPERS_AT, OUTPUTS_AT, ROW1_AT, ROW2_AT, ROW3_AT, STATE_CELLS,
};
use crate::blake3_gadgets::{
    lemma_bits_claims, lemma_bits_claims_hold, lemma_gate_open, lemma_half_complete,
    lemma_half_sound, lemma_limbs_claims, lemma_xor_shift_complete, lemma_xor_shift_sound, quad_is,
};
use crate::field::{xor_of, RingModel};
use crate::prime_field::{
    has_limb_sums, has_limbs, lemma_elem_value, lemma_is_number, PrimeFieldModel,
};
use crate::words::{
    bits_are, lemma_limbs_unique, lemma_packed_limbs, lemma_word_unique, lemma_xor_bit, limbs_are,
    word_of,
};
use vstd::prelude::*;

verus! {

broadcast use lemma_elem_value;

/// Column `i` of a state.
pub open spec fn column_words(v: Seq<u32>, i: int) -> (u32, u32, u32, u32) {
    (v[i], v[4 + i], v[8 + i], v[12 + i])
}

/// Diagonal `i` of a state.
pub open spec fn diagonal_words(v: Seq<u32>, i: int) -> (u32, u32, u32, u32) {
    (v[i], v[4 + (i + 1) % 4], v[8 + (i + 2) % 4], v[12 + (i + 3) % 4])
}

/// The values hold the state.
pub open spec fn state_is<T: PrimeFieldModel>(st: Seq<T>, v: Seq<u32>) -> bool {
    &&& st.len() == STATE_CELLS
    &&& forall|i: int| 0 <= i < 4 ==> #[trigger] quad_is(column_at(st, i), column_words(v, i))
}

/// The limbs hold the message words.
pub open spec fn message_is<T: PrimeFieldModel>(m: Seq<Seq<T>>, w: Seq<u32>) -> bool {
    &&& m.len() == 16
    &&& w.len() == 16
    &&& forall|i: int| 0 <= i < 16 ==> limbs_are(#[trigger] m[i], w[i])
}

/// The values hold the four states that a round from `v` with message `w` passes
/// through.
pub open spec fn round_is<T: PrimeFieldModel>(round: Seq<T>, v: Seq<u32>, w: Seq<u32>) -> bool {
    let c1 = columns_half(v, w, false);
    let c2 = columns_half(c1, w, true);
    let d1 = diagonals_half(c2, w, false);
    let d2 = diagonals_half(d1, w, true);
    &&& round.len() == 1088
    &&& state_is(round_state(round, 0), c1)
    &&& state_is(round_state(round, 1), c2)
    &&& state_is(round_state(round, 2), d1)
    &&& state_is(round_state(round, 3), d2)
}

/// A state held in columns is held in diagonals.
proof fn lemma_diagonals_hold<T: PrimeFieldModel>(st: Seq<T>, v: Seq<u32>, i: int)
    requires
        state_is(st, v),
        0 <= i < 4,
    ensures
        quad_is(diagonal_at(st, i), diagonal_words(v, i)),
{
    assert(quad_is(column_at(st, i), column_words(v, i)));
    assert(quad_is(column_at(st, (i + 1) % 4), column_words(v, (i + 1) % 4)));
    assert(quad_is(column_at(st, (i + 2) % 4), column_words(v, (i + 2) % 4)));
    assert(quad_is(column_at(st, (i + 3) % 4), column_words(v, (i + 3) % 4)));
}

/// A state held in diagonals is held in columns.
proof fn lemma_columns_hold<T: PrimeFieldModel>(st: Seq<T>, v: Seq<u32>)
    requires
        st.len() == STATE_CELLS,
        forall|i: int| 0 <= i < 4 ==> #[trigger] quad_is(diagonal_at(st, i), diagonal_words(v, i)),
    ensures
        state_is(st, v),
{
    assert forall|j: int| 0 <= j < 4 implies #[trigger] quad_is(
        column_at(st, j),
        column_words(v, j),
    ) by {
        let (i1, i2, i3) = ((j + 3) % 4, (j + 2) % 4, (j + 1) % 4);
        assert((i1 + 1) % 4 == j && (i2 + 2) % 4 == j && (i3 + 3) % 4 == j);
        assert(quad_is(diagonal_at(st, j), diagonal_words(v, j)));
        assert(quad_is(diagonal_at(st, i1), diagonal_words(v, i1)));
        assert(quad_is(diagonal_at(st, i2), diagonal_words(v, i2)));
        assert(quad_is(diagonal_at(st, i3), diagonal_words(v, i3)));
    }
}

/// Half of G on the four columns, column by column.
proof fn lemma_columns_half(v: Seq<u32>, w: Seq<u32>, i: int, second: bool)
    requires
        0 <= i < 4,
    ensures
        column_words(columns_half(v, w, second), i) == column_half(v, w, i, second),
{
    let x = columns_half(v, w, second);
    assert(i / 4 == 0 && (4 + i) / 4 == 1 && (8 + i) / 4 == 2 && (12 + i) / 4 == 3);
    assert(i % 4 == i && (4 + i) % 4 == i && (8 + i) % 4 == i && (12 + i) % 4 == i);
}

/// Half of G on the four diagonals, diagonal by diagonal.
proof fn lemma_diagonals_half(v: Seq<u32>, w: Seq<u32>, i: int, second: bool)
    requires
        0 <= i < 4,
    ensures
        diagonal_words(diagonals_half(v, w, second), i) == diagonal_half(v, w, i, second),
{
    let x = diagonals_half(v, w, second);
    let (k1, k2, k3) = (4 + (i + 1) % 4, 8 + (i + 2) % 4, 12 + (i + 3) % 4);
    assert(i / 4 == 0 && k1 / 4 == 1 && k2 / 4 == 2 && k3 / 4 == 3);
    assert(diagonal_of_word(i) == i);
    assert(diagonal_of_word(k1) == i);
    assert(diagonal_of_word(k2) == i);
    assert(diagonal_of_word(k3) == i);
}

/// The claims on the columns hold exactly where those on each column do.
proof fn lemma_columns_each<T: PrimeFieldModel>(
    g: T,
    input: Seq<T>,
    round: Seq<T>,
    m: Seq<Seq<T>>,
    n: int,
)
    requires
        0 <= n <= 4,
    ensures
        all_zero(columns_claims(g, input, round, m, n)) <==> forall|i: int|
            0 <= i < n ==> all_zero(#[trigger] column_claims(g, input, round, m, i)),
    decreases n,
{
    if n > 0 {
        lemma_columns_each(g, input, round, m, n - 1);
        lemma_all_zero_concat(
            columns_claims(g, input, round, m, n - 1),
            column_claims(g, input, round, m, n - 1),
        );
        if all_zero(columns_claims(g, input, round, m, n)) {
            assert forall|i: int| 0 <= i < n implies all_zero(
                #[trigger] column_claims(g, input, round, m, i),
            ) by {
                if i < n - 1 {
                    assert(all_zero(column_claims(g, input, round, m, i)));
                }
            }
        }
    }
}

/// The claims on the diagonals hold exactly where those on each diagonal do.
proof fn lemma_diagonals_each<T: PrimeFieldModel>(g: T, round: Seq<T>, m: Seq<Seq<T>>, n: int)
    requires
        0 <= n <= 4,
    ensures
        all_zero(diagonals_claims(g, round, m, n)) <==> forall|i: int|
            0 <= i < n ==> all_zero(#[trigger] diagonal_claims(g, round, m, i)),
    decreases n,
{
    if n > 0 {
        lemma_diagonals_each(g, round, m, n - 1);
        lemma_all_zero_concat(
            diagonals_claims(g, round, m, n - 1),
            diagonal_claims(g, round, m, n - 1),
        );
        if all_zero(diagonals_claims(g, round, m, n)) {
            assert forall|i: int| 0 <= i < n implies all_zero(
                #[trigger] diagonal_claims(g, round, m, i),
            ) by {
                if i < n - 1 {
                    assert(all_zero(diagonal_claims(g, round, m, i)));
                }
            }
        }
    }
}

/// Where its claims hold, G on column `i` is computed.
proof fn lemma_column_sound<T: PrimeFieldModel>(
    g: T,
    input: Seq<T>,
    round: Seq<T>,
    m: Seq<Seq<T>>,
    i: int,
    v: Seq<u32>,
    w: Seq<u32>,
)
    requires
        has_limb_sums::<T>(),
        g.value() == 1,
        round.len() == 1088,
        0 <= i < 4,
        state_is(input, v),
        message_is(m, w),
        all_zero(column_claims(g, input, round, m, i)),
    ensures
        quad_is(
            column_at(round_state(round, 0), i),
            column_words(columns_half(v, w, false), i),
        ),
        quad_is(
            column_at(round_state(round, 1), i),
            column_words(columns_half(columns_half(v, w, false), w, true), i),
        ),
{
    reveal(column_claims);
    let (s0, s1) = (round_state(round, 0), round_state(round, 1));
    let c1 = columns_half(v, w, false);
    lemma_all_zero_concat(
        half_claims(g, column_at(input, i), m[2 * i], column_at(s0, i), false),
        half_claims(g, column_at(s0, i), m[2 * i + 1], column_at(s1, i), true),
    );
    assert(quad_is(column_at(input, i), column_words(v, i)));
    assert(limbs_are(m[2 * i], w[2 * i]));
    assert(limbs_are(m[2 * i + 1], w[2 * i + 1]));
    lemma_half_sound(
        g,
        column_at(input, i),
        m[2 * i],
        column_at(s0, i),
        false,
        column_words(v, i),
        w[2 * i],
    );
    lemma_columns_half(v, w, i, false);
    lemma_half_sound(
        g,
        column_at(s0, i),
        m[2 * i + 1],
        column_at(s1, i),
        true,
        column_words(c1, i),
        w[2 * i + 1],
    );
    lemma_columns_half(c1, w, i, true);
}

/// The claims of G on column `i` hold on what it computes.
proof fn lemma_column_complete<T: PrimeFieldModel>(
    g: T,
    input: Seq<T>,
    round: Seq<T>,
    m: Seq<Seq<T>>,
    i: int,
    v: Seq<u32>,
    w: Seq<u32>,
)
    requires
        g.value() == 1,
        0 <= i < 4,
        state_is(input, v),
        message_is(m, w),
        round_is(round, v, w),
    ensures
        all_zero(column_claims(g, input, round, m, i)),
{
    reveal(column_claims);
    let (s0, s1) = (round_state(round, 0), round_state(round, 1));
    let c1 = columns_half(v, w, false);
    let c2 = columns_half(c1, w, true);
    assert(quad_is(column_at(input, i), column_words(v, i)));
    assert(quad_is(column_at(s0, i), column_words(c1, i)));
    assert(quad_is(column_at(s1, i), column_words(c2, i)));
    assert(limbs_are(m[2 * i], w[2 * i]));
    assert(limbs_are(m[2 * i + 1], w[2 * i + 1]));
    lemma_columns_half(v, w, i, false);
    lemma_columns_half(c1, w, i, true);
    lemma_half_complete(
        g,
        column_at(input, i),
        m[2 * i],
        column_at(s0, i),
        false,
        column_words(v, i),
        w[2 * i],
    );
    lemma_half_complete(
        g,
        column_at(s0, i),
        m[2 * i + 1],
        column_at(s1, i),
        true,
        column_words(c1, i),
        w[2 * i + 1],
    );
    lemma_all_zero_concat(
        half_claims(g, column_at(input, i), m[2 * i], column_at(s0, i), false),
        half_claims(g, column_at(s0, i), m[2 * i + 1], column_at(s1, i), true),
    );
}

/// Where its claims hold, G on diagonal `i` is computed.
proof fn lemma_diagonal_sound<T: PrimeFieldModel>(
    g: T,
    round: Seq<T>,
    m: Seq<Seq<T>>,
    i: int,
    v: Seq<u32>,
    w: Seq<u32>,
)
    requires
        has_limb_sums::<T>(),
        g.value() == 1,
        round.len() == 1088,
        0 <= i < 4,
        state_is(round_state(round, 1), v),
        message_is(m, w),
        all_zero(diagonal_claims(g, round, m, i)),
    ensures
        quad_is(
            diagonal_at(round_state(round, 2), i),
            diagonal_words(diagonals_half(v, w, false), i),
        ),
        quad_is(
            diagonal_at(round_state(round, 3), i),
            diagonal_words(diagonals_half(diagonals_half(v, w, false), w, true), i),
        ),
{
    reveal(diagonal_claims);
    let (s1, s2, s3) = (round_state(round, 1), round_state(round, 2), round_state(round, 3));
    let d1 = diagonals_half(v, w, false);
    lemma_all_zero_concat(
        half_claims(g, diagonal_at(s1, i), m[8 + 2 * i], diagonal_at(s2, i), false),
        half_claims(g, diagonal_at(s2, i), m[9 + 2 * i], diagonal_at(s3, i), true),
    );
    lemma_diagonals_hold(s1, v, i);
    assert(limbs_are(m[8 + 2 * i], w[8 + 2 * i]));
    assert(limbs_are(m[9 + 2 * i], w[9 + 2 * i]));
    lemma_half_sound(
        g,
        diagonal_at(s1, i),
        m[8 + 2 * i],
        diagonal_at(s2, i),
        false,
        diagonal_words(v, i),
        w[8 + 2 * i],
    );
    lemma_diagonals_half(v, w, i, false);
    lemma_half_sound(
        g,
        diagonal_at(s2, i),
        m[9 + 2 * i],
        diagonal_at(s3, i),
        true,
        diagonal_words(d1, i),
        w[9 + 2 * i],
    );
    lemma_diagonals_half(d1, w, i, true);
}

/// The claims of G on diagonal `i` hold on what it computes.
proof fn lemma_diagonal_complete<T: PrimeFieldModel>(
    g: T,
    round: Seq<T>,
    m: Seq<Seq<T>>,
    i: int,
    v: Seq<u32>,
    w: Seq<u32>,
)
    requires
        g.value() == 1,
        0 <= i < 4,
        message_is(m, w),
        round.len() == 1088,
        state_is(round_state(round, 1), v),
        state_is(round_state(round, 2), diagonals_half(v, w, false)),
        state_is(round_state(round, 3), diagonals_half(diagonals_half(v, w, false), w, true)),
    ensures
        all_zero(diagonal_claims(g, round, m, i)),
{
    reveal(diagonal_claims);
    let (s1, s2, s3) = (round_state(round, 1), round_state(round, 2), round_state(round, 3));
    let d1 = diagonals_half(v, w, false);
    let d2 = diagonals_half(d1, w, true);
    lemma_diagonals_hold(s1, v, i);
    lemma_diagonals_hold(s2, d1, i);
    lemma_diagonals_hold(s3, d2, i);
    assert(limbs_are(m[8 + 2 * i], w[8 + 2 * i]));
    assert(limbs_are(m[9 + 2 * i], w[9 + 2 * i]));
    lemma_diagonals_half(v, w, i, false);
    lemma_diagonals_half(d1, w, i, true);
    lemma_half_complete(
        g,
        diagonal_at(s1, i),
        m[8 + 2 * i],
        diagonal_at(s2, i),
        false,
        diagonal_words(v, i),
        w[8 + 2 * i],
    );
    lemma_half_complete(
        g,
        diagonal_at(s2, i),
        m[9 + 2 * i],
        diagonal_at(s3, i),
        true,
        diagonal_words(d1, i),
        w[9 + 2 * i],
    );
    lemma_all_zero_concat(
        half_claims(g, diagonal_at(s1, i), m[8 + 2 * i], diagonal_at(s2, i), false),
        half_claims(g, diagonal_at(s2, i), m[9 + 2 * i], diagonal_at(s3, i), true),
    );
}

/// The claims of a round hold where its states are those that the round passes
/// through, and, in a field with room for sums of limbs, nowhere else.
pub proof fn round_meaning<T: PrimeFieldModel>(
    g: T,
    input: Seq<T>,
    round: Seq<T>,
    m: Seq<Seq<T>>,
    v: Seq<u32>,
    w: Seq<u32>,
)
    requires
        g.value() == 1,
        round.len() == 1088,
        state_is(input, v),
        message_is(m, w),
    ensures
        round_is(round, v, w) ==> all_zero(round_claims(g, input, round, m)),
        has_limb_sums::<T>() ==> (all_zero(round_claims(g, input, round, m)) <==> round_is(
            round,
            v,
            w,
        )),
        round_is(round, v, w) ==> state_is(round_state(round, 3), round_of(v, w)),
{
    reveal(round_claims);
    reveal(round_of);
    lemma_all_zero_concat(
        columns_claims(g, input, round, m, 4),
        diagonals_claims(g, round, m, 4),
    );
    lemma_columns_each(g, input, round, m, 4);
    lemma_diagonals_each(g, round, m, 4);
    let c1 = columns_half(v, w, false);
    let c2 = columns_half(c1, w, true);
    let d1 = diagonals_half(c2, w, false);
    let d2 = diagonals_half(d1, w, true);
    if has_limb_sums::<T>() && all_zero(round_claims(g, input, round, m)) {
        assert forall|i: int| 0 <= i < 4 implies #[trigger] quad_is(
            column_at(round_state(round, 0), i),
            column_words(c1, i),
        ) by {
            assert(all_zero(column_claims(g, input, round, m, i)));
            lemma_column_sound(g, input, round, m, i, v, w);
        }
        assert forall|i: int| 0 <= i < 4 implies #[trigger] quad_is(
            column_at(round_state(round, 1), i),
            column_words(c2, i),
        ) by {
            assert(all_zero(column_claims(g, input, round, m, i)));
            lemma_column_sound(g, input, round, m, i, v, w);
        }
        assert(state_is(round_state(round, 1), c2));
        assert forall|i: int| 0 <= i < 4 implies #[trigger] quad_is(
            diagonal_at(round_state(round, 2), i),
            diagonal_words(d1, i),
        ) by {
            assert(all_zero(diagonal_claims(g, round, m, i)));
            lemma_diagonal_sound(g, round, m, i, c2, w);
        }
        assert forall|i: int| 0 <= i < 4 implies #[trigger] quad_is(
            diagonal_at(round_state(round, 3), i),
            diagonal_words(d2, i),
        ) by {
            assert(all_zero(diagonal_claims(g, round, m, i)));
            lemma_diagonal_sound(g, round, m, i, c2, w);
        }
        lemma_columns_hold(round_state(round, 2), d1);
        lemma_columns_hold(round_state(round, 3), d2);
    }
    if round_is(round, v, w) {
        assert forall|i: int| 0 <= i < 4 implies all_zero(
            #[trigger] column_claims(g, input, round, m, i),
        ) by {
            lemma_column_complete(g, input, round, m, i, v, w);
        }
        assert forall|i: int| 0 <= i < 4 implies all_zero(
            #[trigger] diagonal_claims(g, round, m, i),
        ) by {
            lemma_diagonal_complete(g, round, m, i, c2, w);
        }
    }
}

/// The constants of a state hold it.
pub proof fn lemma_state_cells<T: PrimeFieldModel>(v: Seq<u32>)
    requires
        v.len() == 16,
    ensures
        state_is(state_cells::<T>(v), v),
{
    reveal(state_cells);
    let st = state_cells::<T>(v);
    assert forall|i: int| 0 <= i < 4 implies #[trigger] quad_is(
        column_at(st, i),
        column_words(v, i),
    ) by {
        lemma_const_limbs(pair_at(st, 0, i), v[i]);
        lemma_const_bits(bits_at(st, ROW1_AT as int, i), v[4 + i]);
        lemma_const_limbs(pair_at(st, ROW2_AT as int, i), v[8 + i]);
        lemma_const_bits(bits_at(st, ROW3_AT as int, i), v[12 + i]);
    }
}

/// The limbs of a constant hold it.
pub proof fn lemma_const_limbs<T: PrimeFieldModel>(limbs: Seq<T>, w: u32)
    requires
        limbs =~= const_limbs::<T>(w),
    ensures
        limbs_are(limbs, w),
{
    let (low, high) = ((w % 0x1_0000) as nat, (w / 0x1_0000) as nat);
    T::elem_value(low);
    T::elem_value(high);
    lemma_is_number(T::elem(low), low);
    lemma_is_number(T::elem(high), high);
}

/// The bits of a constant hold it.
pub proof fn lemma_const_bits<T: PrimeFieldModel>(bits: Seq<T>, w: u32)
    requires
        bits =~= const_bits::<T>(w),
    ensures
        bits_are(bits, w),
{
    T::order_is_prime(2);
    assert forall|j: int| 0 <= j < 32 implies (#[trigger] bits[j]).value() == bit_value(
        word_bit(w, j),
    ) by {
        assert(bits[j] == const_bits::<T>(w)[j]);
    }
}

/// Rearranged limbs hold the rearranged words.
proof fn lemma_message_schedule<T: PrimeFieldModel>(m: Seq<Seq<T>>, w: Seq<u32>, n: int)
    requires
        message_is(m, w),
        0 <= n,
    ensures
        message_is(schedule(m, n), schedule(w, n)),
    decreases n,
{
    if n > 0 {
        lemma_message_schedule(m, w, n - 1);
        let (a, b) = (schedule(m, n - 1), schedule(w, n - 1));
        assert forall|i: int| 0 <= i < 16 implies limbs_are(
            #[trigger] permuted(a)[i],
            permuted(b)[i],
        ) by {
            let j = MSG_PERMUTATION@[i] as int;
            assert(0 <= j < 16);
            assert(limbs_are(a[j], b[j]));
        }
    }
}

/// Round `i` of the columns is round `i` of the hash of `w`.
#[verifier::opaque]
pub open spec fn round_at_is<T: PrimeFieldModel>(core: Seq<T>, w: Seq<u32>, i: int) -> bool {
    round_is(round_at(core, i), state_after(w, i), schedule(w, i))
}

/// The first `n` rounds of the columns are those of the hash of `w`.
pub open spec fn rounds_are<T: PrimeFieldModel>(core: Seq<T>, w: Seq<u32>, n: int) -> bool {
    forall|i: int| 0 <= i < n ==> #[trigger] round_at_is(core, w, i)
}

/// What is claimed of round `n`.
pub open spec fn nth_round_claims<T: PrimeFieldModel>(g: T, core: Seq<T>, n: int) -> Seq<T> {
    round_claims(g, state_before(core, n), round_at(core, n), schedule(message(core), n))
}

/// The state that the first round starts from.
proof fn lemma_first_state<T: PrimeFieldModel>(core: Seq<T>, w: Seq<u32>)
    ensures
        state_is(state_before(core, 0), state_after(w, 0)),
{
    lemma_state_cells::<T>(first_state());
}

/// The claims of round `n` hold where it is that of the hash of `w`, as long as it
/// starts from the state of the hash, and nowhere else where sums of limbs have
/// room.
proof fn lemma_next_round<T: PrimeFieldModel>(g: T, core: Seq<T>, w: Seq<u32>, n: int)
    requires
        g.value() == 1,
        core.len() == CORE_CELLS,
        message_is(message(core), w),
        0 <= n < 7,
        state_is(state_before(core, n), state_after(w, n)),
    ensures
        round_at_is(core, w, n) ==> all_zero(nth_round_claims(g, core, n)),
        has_limb_sums::<T>() && all_zero(nth_round_claims(g, core, n)) ==> round_at_is(core, w, n),
        round_at_is(core, w, n) ==> state_is(state_before(core, n + 1), state_after(w, n + 1)),
{
    reveal(round_at_is);
    lemma_message_schedule(message(core), w, n);
    round_meaning(
        g,
        state_before(core, n),
        round_at(core, n),
        schedule(message(core), n),
        state_after(w, n),
        schedule(w, n),
    );
}

/// The claims of the first `n` rounds hold where they are those of the hash of `w`,
/// and nowhere else where sums of limbs have room; the state after them is that of
/// the hash.
proof fn lemma_rounds<T: PrimeFieldModel>(g: T, core: Seq<T>, w: Seq<u32>, n: int)
    requires
        g.value() == 1,
        core.len() == CORE_CELLS,
        message_is(message(core), w),
        0 <= n <= 7,
    ensures
        rounds_are(core, w, n) ==> all_zero(rounds_claims(g, core, n)),
        rounds_are(core, w, n) ==> state_is(state_before(core, n), state_after(w, n)),
        has_limb_sums::<T>() && all_zero(rounds_claims(g, core, n)) ==> rounds_are(core, w, n),
    decreases n,
{
    if n == 0 {
        lemma_first_state(core, w);
    } else {
        lemma_rounds(g, core, w, n - 1);
        lemma_all_zero_concat(
            rounds_claims(g, core, n - 1),
            nth_round_claims(g, core, n - 1),
        );
        if rounds_are(core, w, n - 1) {
            lemma_next_round(g, core, w, n - 1);
        }
        if rounds_are(core, w, n) {
            assert(rounds_are(core, w, n - 1));
            assert(round_at_is(core, w, n - 1));
        }
        if has_limb_sums::<T>() && all_zero(rounds_claims(g, core, n)) {
            assert(rounds_are(core, w, n - 1));
            assert forall|i: int| 0 <= i < n implies #[trigger] round_at_is(core, w, i) by {
                if i < n - 1 {
                    assert(round_at_is(core, w, i));
                }
            }
        }
    }
}

/// Bits hold one word only.
pub proof fn lemma_bits_unique<T: PrimeFieldModel>(bits: Seq<T>, x: u32, y: u32)
    requires
        bits_are(bits, x),
        bits_are(bits, y),
    ensures
        x == y,
{
    assert forall|j: int| 0 <= j < 32 implies #[trigger] word_bit(x, j) == word_bit(y, j) by {
        assert(bits[j].value() == bit_value(word_bit(x, j)));
        assert(bits[j].value() == bit_value(word_bit(y, j)));
    }
    lemma_word_unique(x, y);
}

/// Word `i` of row 2 of the last state, as bits.
pub open spec fn helper_is<T: PrimeFieldModel>(core: Seq<T>, v: Seq<u32>, i: int) -> bool {
    bits_are(bits_at(core, HELPERS_AT as int, i), v[8 + i])
}

/// The first `n` words of row 2 of the last state, as bits.
pub open spec fn helpers_are<T: PrimeFieldModel>(core: Seq<T>, v: Seq<u32>, n: int) -> bool {
    forall|i: int| 0 <= i < n ==> #[trigger] helper_is(core, v, i)
}

/// Word `i` of the output, as bits.
pub open spec fn output_is<T: PrimeFieldModel>(core: Seq<T>, v: Seq<u32>, i: int) -> bool {
    bits_are(bits_at(core, OUTPUTS_AT as int, i), v[i] ^ v[8 + i])
}

/// Words `from` to `to` of the output, as bits.
pub open spec fn outputs_are<T: PrimeFieldModel>(
    core: Seq<T>,
    v: Seq<u32>,
    from: int,
    to: int,
) -> bool {
    forall|i: int| from <= i < to ==> #[trigger] output_is(core, v, i)
}

proof fn lemma_helper<T: PrimeFieldModel>(g: T, bits: Seq<T>, pair: Seq<T>, w: u32)
    requires
        g.value() == 1,
        bits.len() == 32,
        limbs_are(pair, w),
    ensures
        bits_are(bits, w) ==> all_zero(
            bits_claims(g, bits) + limbs_claims(g, packed(bits), pair),
        ),
        has_limbs::<T>() && all_zero(bits_claims(g, bits) + limbs_claims(g, packed(bits), pair))
            ==> bits_are(bits, w),
{
    lemma_all_zero_concat(bits_claims(g, bits), limbs_claims(g, packed(bits), pair));
    lemma_limbs_claims(g, packed(bits), pair, w);
    lemma_bits_claims(g, bits);
    if all_zero(bits_claims(g, bits)) {
        let x = word_of(truths(bits));
        lemma_packed_limbs(bits, x);
        if has_limbs::<T>() && limbs_are(packed(bits), w) {
            lemma_limbs_unique(packed(bits), x, w);
        }
    }
    if bits_are(bits, w) {
        lemma_bits_claims_hold(g, bits, w);
        lemma_packed_limbs(bits, w);
    }
}

/// The claims on the bits of row 2 of the last state.
proof fn lemma_helpers<T: PrimeFieldModel>(g: T, core: Seq<T>, v: Seq<u32>, n: int)
    requires
        g.value() == 1,
        core.len() == CORE_CELLS,
        state_is(state_before(core, 7), v),
        0 <= n <= 4,
    ensures
        helpers_are(core, v, n) ==> all_zero(helpers_claims(g, core, n)),
        has_limbs::<T>() && all_zero(helpers_claims(g, core, n)) ==> helpers_are(core, v, n),
    decreases n,
{
    if n > 0 {
        lemma_helpers(g, core, v, n - 1);
        let bits = bits_at(core, HELPERS_AT as int, n - 1);
        let pair = pair_at(state_before(core, 7), ROW2_AT as int, n - 1);
        assert(quad_is(column_at(state_before(core, 7), n - 1), column_words(v, n - 1)));
        lemma_helper(g, bits, pair, v[8 + (n - 1)]);
        lemma_all_zero_concat(
            helpers_claims(g, core, n - 1),
            bits_claims(g, bits) + limbs_claims(g, packed(bits), pair),
        );
        if has_limbs::<T>() && all_zero(helpers_claims(g, core, n)) {
            assert(helpers_are(core, v, n - 1));
            assert forall|i: int| 0 <= i < n implies #[trigger] helper_is(core, v, i) by {
                if i < n - 1 {
                    assert(helper_is(core, v, i));
                }
            }
        }
        if helpers_are(core, v, n) {
            assert(helpers_are(core, v, n - 1));
            assert(helper_is(core, v, n - 1));
        }
    }
}

proof fn lemma_first_output<T: PrimeFieldModel>(
    g: T,
    pair: Seq<T>,
    out: Seq<T>,
    helper: Seq<T>,
    x: u32,
    y: u32,
)
    requires
        g.value() == 1,
        out.len() == 32,
        limbs_are(pair, x),
        bits_are(helper, y),
    ensures
        bits_are(out, x ^ y) ==> all_zero(
            bits_claims(g, out) + xor_shift_claims(g, pair, out, helper, 0),
        ),
        has_limbs::<T>() && all_zero(
            bits_claims(g, out) + xor_shift_claims(g, pair, out, helper, 0),
        ) ==> bits_are(out, x ^ y),
{
    lemma_all_zero_concat(bits_claims(g, out), xor_shift_claims(g, pair, out, helper, 0));
    if has_limbs::<T>() && all_zero(
        bits_claims(g, out) + xor_shift_claims(g, pair, out, helper, 0),
    ) {
        lemma_bits_claims(g, out);
        let w = word_of(truths(out));
        let x2 = lemma_xor_shift_sound(g, pair, out, helper, 0, w);
        lemma_limbs_unique(pair, x, x2);
        lemma_bits_unique(helper, y, w ^ x);
        assert(x ^ y == w) by (bit_vector)
            requires
                y == w ^ x,
        ;
    }
    if bits_are(out, x ^ y) {
        lemma_bits_claims_hold(g, out, x ^ y);
        assert((x ^ y) ^ x == y) by (bit_vector);
        lemma_xor_shift_complete(g, pair, out, helper, 0, x, x ^ y);
    }
}

/// The claims on the first half of the output.
proof fn lemma_first_outputs<T: PrimeFieldModel>(g: T, core: Seq<T>, v: Seq<u32>, n: int)
    requires
        g.value() == 1,
        core.len() == CORE_CELLS,
        state_is(state_before(core, 7), v),
        helpers_are(core, v, 4),
        0 <= n <= 4,
    ensures
        outputs_are(core, v, 0, n) ==> all_zero(first_outputs_claims(g, core, n)),
        has_limbs::<T>() && all_zero(first_outputs_claims(g, core, n)) ==> outputs_are(
            core,
            v,
            0,
            n,
        ),
    decreases n,
{
    if n > 0 {
        lemma_first_outputs(g, core, v, n - 1);
        let out = bits_at(core, OUTPUTS_AT as int, n - 1);
        let helper = bits_at(core, HELPERS_AT as int, n - 1);
        let pair = pair_at(state_before(core, 7), 0, n - 1);
        assert(quad_is(column_at(state_before(core, 7), n - 1), column_words(v, n - 1)));
        assert(helper_is(core, v, n - 1));
        lemma_first_output(g, pair, out, helper, v[n - 1], v[8 + (n - 1)]);
        lemma_all_zero_concat(
            first_outputs_claims(g, core, n - 1),
            bits_claims(g, out) + xor_shift_claims(g, pair, out, helper, 0),
        );
        if has_limbs::<T>() && all_zero(first_outputs_claims(g, core, n)) {
            assert(outputs_are(core, v, 0, n - 1));
            assert forall|i: int| 0 <= i < n implies #[trigger] output_is(core, v, i) by {
                if i < n - 1 {
                    assert(output_is(core, v, i));
                }
            }
        }
        if outputs_are(core, v, 0, n) {
            assert(outputs_are(core, v, 0, n - 1));
            assert(output_is(core, v, n - 1));
        }
    }
}

proof fn lemma_second_output<T: PrimeFieldModel>(g: T, core: Seq<T>, v: Seq<u32>, i: int)
    requires
        g.value() == 1,
        core.len() == CORE_CELLS,
        state_is(state_before(core, 7), v),
        0 <= i < 4,
    ensures
        all_zero(second_output_claims(g, core, i)) <==> output_is(core, v, 4 + i),
{
    let f = second_output_claims(g, core, i);
    let out = bits_at(core, OUTPUTS_AT as int, 4 + i);
    let row1 = bits_at(state_before(core, 7), ROW1_AT as int, i);
    let row3 = bits_at(state_before(core, 7), ROW3_AT as int, i);
    let w = v[4 + i] ^ v[12 + i];
    assert(quad_is(column_at(state_before(core, 7), i), column_words(v, i)));
    assert forall|j: int| 0 <= j < 32
        implies ((#[trigger] f[j]).value() == 0 <==> out[j].value() == bit_value(
        word_bit(w, j),
    )) by {
        assert(row1[j].value() == bit_value(word_bit(v[4 + i], j)));
        assert(row3[j].value() == bit_value(word_bit(v[12 + i], j)));
        lemma_xor_bits(row1[j], row3[j]);
        lemma_xor_bit(v[4 + i], v[12 + i], j);
        lemma_gate_open(g, T::diff_of(out[j], xor_of(row1[j], row3[j])));
        lemma_diff_zero(out[j], xor_of(row1[j], row3[j]));
    }
    if all_zero(f) {
        assert forall|j: int| 0 <= j < 32 implies (#[trigger] out[j]).value() == bit_value(
            word_bit(w, j),
        ) by {
            assert(f[j].value() == 0);
        }
    }
}

/// The claims on the second half of the output.
proof fn lemma_second_outputs<T: PrimeFieldModel>(g: T, core: Seq<T>, v: Seq<u32>, n: int)
    requires
        g.value() == 1,
        core.len() == CORE_CELLS,
        state_is(state_before(core, 7), v),
        0 <= n <= 4,
    ensures
        all_zero(second_outputs_claims(g, core, n)) <==> outputs_are(core, v, 4, 4 + n),
    decreases n,
{
    if n > 0 {
        lemma_second_outputs(g, core, v, n - 1);
        lemma_second_output(g, core, v, n - 1);
        lemma_all_zero_concat(
            second_outputs_claims(g, core, n - 1),
            second_output_claims(g, core, n - 1),
        );
        if all_zero(second_outputs_claims(g, core, n)) {
            assert forall|i: int| 4 <= i < 4 + n implies #[trigger] output_is(core, v, i) by {
                if i < 4 + n - 1 {
                    assert(output_is(core, v, i));
                }
            }
        }
        if outputs_are(core, v, 4, 4 + n) {
            assert(outputs_are(core, v, 4, 4 + n - 1));
            assert(output_is(core, v, 4 + (n - 1)));
        }
    }
}

/// The columns hold the computation of the hash of `w`, from the first round to
/// the output.
pub open spec fn core_is<T: PrimeFieldModel>(core: Seq<T>, w: Seq<u32>) -> bool {
    &&& rounds_are(core, w, 7)
    &&& helpers_are(core, state_after(w, 7), 4)
    &&& outputs_are(core, state_after(w, 7), 0, 8)
}

/// The claims between input bits and output bits hold where the columns hold the
/// computation of the hash, and, in a field with room for sums of limbs, nowhere
/// else.
pub proof fn core_meaning<T: PrimeFieldModel>(g: T, core: Seq<T>, w: Seq<u32>)
    requires
        g.value() == 1,
        core.len() == CORE_CELLS,
        message_is(message(core), w),
    ensures
        core_is(core, w) ==> all_zero(core_claims(g, core)),
        has_limb_sums::<T>() ==> (all_zero(core_claims(g, core)) <==> core_is(core, w)),
{
    let v = state_after(w, 7);
    let b1 = rounds_claims(g, core, 7);
    let b2 = helpers_claims(g, core, 4);
    let b3 = first_outputs_claims(g, core, 4);
    let b4 = second_outputs_claims(g, core, 4);
    lemma_all_zero_concat(b1, b2);
    lemma_all_zero_concat(b1 + b2, b3);
    lemma_all_zero_concat(b1 + b2 + b3, b4);
    lemma_rounds(g, core, w, 7);
    if rounds_are(core, w, 7) {
        lemma_helpers(g, core, v, 4);
        lemma_second_outputs(g, core, v, 4);
        if helpers_are(core, v, 4) {
            lemma_first_outputs(g, core, v, 4);
        }
    }
    if core_is(core, w) {
        assert(outputs_are(core, v, 0, 4));
        assert(outputs_are(core, v, 4, 8));
    }
}

} // verus!

//! Evaluation of the constraints of a BLAKE3 row.

use crate::air::{table_asserts, TableBuilder};
use crate::bits::pack_of;
use crate::blake3::{
    first_state, high_limb, low_limb, permute, permuted, schedule, BLOCK_LEN, FLAGS, FULL_ROUNDS,
    INPUT_WORDS, IV, U32_LIMBS,
};
use crate::blake3_air::{
    add2_claims, add3_claims, bits_at, bits_claims, carry2, carry3, column_claims, columns_claims,
    const_bits, const_limbs, core_claims, diagonal_at, diagonal_claims, diagonals_claims, eq_gate,
    first_outputs_claims, gate, half_claims, helpers_claims, join_of, limbs_claims, message, packed,
    pair_at, round_at, round_claims, round_state, rounds_claims, second_output_claims,
    second_outputs_claims, state_before, state_cells, two_32, xor_shift_claims, xored, Blake3Cols,
    Blake3State, FullRound, HELPERS_AT, OUTPUTS_AT, ROUNDS_AT, ROW1_AT, ROW2_AT, ROW3_AT,
    STATE_CELLS,
};
use crate::field::{xor_of, Ring, RingModel};
use vstd::array::array_as_slice;
use vstd::prelude::*;
use vstd::slice::slice_subrange;

verus! {

/// Number of bits in each limb.
pub const BITS_PER_LIMB: usize = 16;

/// Pack little-endian bits into one ring element.
pub fn pack_bits_le<T: Ring>(bits: &[T]) -> (r: T)
    ensures
        r == pack_of(bits@),
{
    let mut output = T::zero();
    let mut i: usize = bits.len();
    assert(bits@.subrange(i as int, bits@.len() as int) =~= Seq::empty());
    while i > 0
        invariant
            i <= bits@.len(),
            output == pack_of(bits@.subrange(i as int, bits@.len() as int)),
        decreases i,
    {
        i = i - 1;
        output = output.double().plus(&bits[i]);
        let ghost tail = bits@.subrange(i as int, bits@.len() as int);
        assert(tail.drop_first() =~= bits@.subrange(i + 1, bits@.len() as int));
    }
    assert(bits@.subrange(0, bits@.len() as int) =~= bits@);
    output
}

/// The two limbs that thirty-two bits pack into.
pub fn pack_word<T: Ring>(bits: &[T; 32]) -> (r: [T; 2])
    ensures
        r@ == packed(bits@),
{
    let all = array_as_slice(bits);
    let low = pack_bits_le(slice_subrange(all, 0, BITS_PER_LIMB));
    let high = pack_bits_le(slice_subrange(all, BITS_PER_LIMB, 32));
    let r = [low, high];
    assert(r@ =~= packed(bits@));
    r
}

/// The arithmetic form of `xor`.
pub fn xor<T: Ring>(x: &T, y: &T) -> (r: T)
    ensures
        r == xor_of(*x, *y),
{
    x.plus(y).minus(&x.times(&y.double()))
}

/// Claim that `x` is zero where the multiplicity is one.
pub fn assert_zero_gated<T: Ring>(builder: &mut TableBuilder<T>, multiplicity: &T, x: &T)
    ensures
        table_asserts(*old(builder), *final(builder), seq![gate(*multiplicity, *x)]),
{
    reveal(gate);
    builder.assert_zero(multiplicity.times(x));
}

/// Claim that `x` equals `y` where the multiplicity is one.
pub fn assert_eq_gated<T: Ring>(builder: &mut TableBuilder<T>, multiplicity: &T, x: &T, y: &T)
    ensures
        table_asserts(*old(builder), *final(builder), seq![eq_gate(*multiplicity, *x, *y)]),
{
    assert_zero_gated(builder, multiplicity, &x.minus(y));
}

/// Claim that every value is a bit.
pub fn assert_bits_gated<T: Ring>(builder: &mut TableBuilder<T>, multiplicity: &T, bits: &[T; 32])
    ensures
        table_asserts(*old(builder), *final(builder), bits_claims(*multiplicity, bits@)),
{
    let mut i: usize = 0;
    while i < 32
        invariant
            i <= 32,
            table_asserts(
                *old(builder),
                *builder,
                bits_claims(*multiplicity, bits@).take(i as int),
            ),
        decreases 32 - i,
    {
        assert_zero_gated(builder, multiplicity, &bits[i].bool_check());
        i = i + 1;
        assert(builder.asserted@ =~= old(builder).asserted@ + bits_claims(
            *multiplicity,
            bits@,
        ).take(i as int));
    }
    assert(bits_claims(*multiplicity, bits@).take(32) =~= bits_claims(*multiplicity, bits@));
}

/// Claim that two words have the same limbs.
pub fn assert_limbs_gated<T: Ring>(
    builder: &mut TableBuilder<T>,
    multiplicity: &T,
    x: &[T; 2],
    y: &[T; 2],
)
    ensures
        table_asserts(*old(builder), *final(builder), limbs_claims(*multiplicity, x@, y@)),
{
    assert_eq_gated(builder, multiplicity, &x[0], &y[0]);
    assert_eq_gated(builder, multiplicity, &x[1], &y[1]);
    assert(builder.asserted@ =~= old(builder).asserted@ + limbs_claims(*multiplicity, x@, y@));
}

/// Claim that `a = b + c + d` modulo `2^32`.
pub fn add3<T: Ring>(
    builder: &mut TableBuilder<T>,
    multiplicity: &T,
    a: &[T; 2],
    b: &[T; 2],
    c: &[T; 2],
    d: &[T; 2],
)
    ensures
        table_asserts(*old(builder), *final(builder), add3_claims(*multiplicity, a@, b@, c@, d@)),
{
    proof {
        reveal(carry3);
        reveal(join_of);
        reveal(two_32);
    }
    let two_16 = T::from_u32(0x1_0000);
    let two_32 = two_16.square();
    let acc_16 = a[0].minus(&b[0]).minus(&c[0]).minus(&d[0]);
    let acc_32 = a[1].minus(&b[1]).minus(&c[1]).minus(&d[1]);
    let acc = acc_16.plus(&two_16.times(&acc_32));
    assert_zero_gated(
        builder,
        multiplicity,
        &acc.times(&acc.plus(&two_32)).times(&acc.plus(&two_32.double())),
    );
    assert_zero_gated(
        builder,
        multiplicity,
        &acc_16.times(&acc_16.plus(&two_16)).times(&acc_16.plus(&two_16.double())),
    );
    assert(builder.asserted@ =~= old(builder).asserted@ + add3_claims(
        *multiplicity,
        a@,
        b@,
        c@,
        d@,
    ));
}

/// Claim that `a = b + c` modulo `2^32`.
pub fn add2<T: Ring>(
    builder: &mut TableBuilder<T>,
    multiplicity: &T,
    a: &[T; 2],
    b: &[T; 2],
    c: &[T; 2],
)
    ensures
        table_asserts(*old(builder), *final(builder), add2_claims(*multiplicity, a@, b@, c@)),
{
    proof {
        reveal(carry2);
        reveal(join_of);
        reveal(two_32);
    }
    let two_16 = T::from_u32(0x1_0000);
    let two_32 = two_16.square();
    let acc_16 = a[0].minus(&b[0]).minus(&c[0]);
    let acc_32 = a[1].minus(&b[1]).minus(&c[1]);
    let acc = acc_16.plus(&two_16.times(&acc_32));
    assert_zero_gated(builder, multiplicity, &acc.times(&acc.plus(&two_32)));
    assert_zero_gated(builder, multiplicity, &acc_16.times(&acc_16.plus(&two_16)));
    assert(builder.asserted@ =~= old(builder).asserted@ + add2_claims(*multiplicity, a@, b@, c@));
}

/// Claim that `c` holds bits, and that `a` is `b XOR (c <<< shift)`.
pub fn xor_32_shift<T: Ring + Copy>(
    builder: &mut TableBuilder<T>,
    multiplicity: &T,
    a: &[T; 2],
    b: &[T; 32],
    c: &[T; 32],
    shift: usize,
)
    requires
        shift <= 32,
    ensures
        table_asserts(
            *old(builder),
            *final(builder),
            xor_shift_claims(*multiplicity, a@, b@, c@, shift as int),
        ),
{
    assert_bits_gated(builder, multiplicity, c);
    let mut mixed = [b[0]; 32];
    let mut i: usize = 0;
    while i < 32
        invariant
            i <= 32,
            shift <= 32,
            forall|j: int|
                0 <= j < i ==> #[trigger] mixed@[j] == xored(b@, c@, shift as int)[j],
        decreases 32 - i,
    {
        mixed[i] = xor(&b[i], &c[(i + 32 - shift) % 32]);
        i = i + 1;
    }
    assert(mixed@ =~= xored(b@, c@, shift as int));
    assert_limbs_gated(builder, multiplicity, a, &pack_word(&mixed));
    assert(builder.asserted@ =~= old(builder).asserted@ + xor_shift_claims(
        *multiplicity,
        a@,
        b@,
        c@,
        shift as int,
    ));
}

/// The limbs of a constant.
pub fn u32_limbs_if<T: Ring>(value: u32) -> (r: [T; 2])
    ensures
        r@ == const_limbs::<T>(value),
{
    let r = [T::from_u16(low_limb(value)), T::from_u16(high_limb(value))];
    assert(r@ =~= const_limbs::<T>(value));
    r
}

/// The bits of a constant.
pub fn u32_bits_if<T: Ring + Copy>(value: u32) -> (r: [T; 32])
    ensures
        r@ == const_bits::<T>(value),
{
    let mut r = [T::zero(); 32];
    let mut i: usize = 0;
    while i < 32
        invariant
            i <= 32,
            forall|j: int| 0 <= j < i ==> #[trigger] r@[j] == const_bits::<T>(value)[j],
        decreases 32 - i,
    {
        r[i] = T::from_bool((value >> (i as u32)) & 1 == 1);
        i = i + 1;
    }
    assert(r@ =~= const_bits::<T>(value));
    r
}

/// The states around one application of G, and the message words it takes.
pub struct QuarterRound<T> {
    pub a: [T; U32_LIMBS],
    pub b: [T; 32],
    pub c: [T; U32_LIMBS],
    pub d: [T; 32],
    pub m_two_i: [T; U32_LIMBS],
    pub a_prime: [T; U32_LIMBS],
    pub b_prime: [T; 32],
    pub c_prime: [T; U32_LIMBS],
    pub d_prime: [T; 32],
    pub m_two_i_plus_one: [T; U32_LIMBS],
    pub a_output: [T; U32_LIMBS],
    pub b_output: [T; 32],
    pub c_output: [T; U32_LIMBS],
    pub d_output: [T; 32],
}

/// What one application of G claims: its two halves.
pub open spec fn quarter_claims<T: RingModel>(g: T, q: QuarterRound<T>) -> Seq<T> {
    half_claims(
        g,
        (q.a@, q.b@, q.c@, q.d@),
        q.m_two_i@,
        (q.a_prime@, q.b_prime@, q.c_prime@, q.d_prime@),
        false,
    ) + half_claims(
        g,
        (q.a_prime@, q.b_prime@, q.c_prime@, q.d_prime@),
        q.m_two_i_plus_one@,
        (q.a_output@, q.b_output@, q.c_output@, q.d_output@),
        true,
    )
}

/// Claim that G takes the first state to the last one, through the state between
/// its halves.
pub fn quarter_round_function<T: Ring + Copy>(
    builder: &mut TableBuilder<T>,
    multiplicity: &T,
    trace: &QuarterRound<T>,
)
    ensures
        table_asserts(*old(builder), *final(builder), quarter_claims(*multiplicity, *trace)),
{
    reveal(half_claims);
    let ghost start = builder.asserted@;
    add3(
        builder,
        multiplicity,
        &trace.a_prime,
        &trace.a,
        &pack_word(&trace.b),
        &trace.m_two_i,
    );
    xor_32_shift(builder, multiplicity, &trace.a_prime, &trace.d, &trace.d_prime, 16);
    add2(builder, multiplicity, &trace.c_prime, &trace.c, &pack_word(&trace.d_prime));
    xor_32_shift(builder, multiplicity, &trace.c_prime, &trace.b, &trace.b_prime, 12);
    let ghost first = half_claims(
        *multiplicity,
        (trace.a@, trace.b@, trace.c@, trace.d@),
        trace.m_two_i@,
        (trace.a_prime@, trace.b_prime@, trace.c_prime@, trace.d_prime@),
        false,
    );
    assert(builder.asserted@ =~= start + first);
    add3(
        builder,
        multiplicity,
        &trace.a_output,
        &trace.a_prime,
        &pack_word(&trace.b_prime),
        &trace.m_two_i_plus_one,
    );
    xor_32_shift(builder, multiplicity, &trace.a_output, &trace.d_prime, &trace.d_output, 8);
    add2(builder, multiplicity, &trace.c_output, &trace.c_prime, &pack_word(&trace.d_output));
    xor_32_shift(builder, multiplicity, &trace.c_output, &trace.b_prime, &trace.b_output, 7);
    assert(builder.asserted@ =~= start + quarter_claims(*multiplicity, *trace));
}

/// The words of a state among its values.
pub proof fn lemma_state_words<T>(st: Blake3State<T>, i: int)
    requires
        0 <= i < 4,
    ensures
        pair_at(st.row(), 0, i) == st.row0@[i]@,
        bits_at(st.row(), ROW1_AT as int, i) == st.row1@[i]@,
        pair_at(st.row(), ROW2_AT as int, i) == st.row2@[i]@,
        bits_at(st.row(), ROW3_AT as int, i) == st.row3@[i]@,
{
    assert(pair_at(st.row(), 0, i) =~= st.row0@[i]@);
    assert(bits_at(st.row(), ROW1_AT as int, i) =~= st.row1@[i]@);
    assert(pair_at(st.row(), ROW2_AT as int, i) =~= st.row2@[i]@);
    assert(bits_at(st.row(), ROW3_AT as int, i) =~= st.row3@[i]@);
}

/// The states of a round among its values.
pub proof fn lemma_round_states<T>(round: FullRound<T>)
    ensures
        round_state(round.row(), 0) == round.state_prime.row(),
        round_state(round.row(), 1) == round.state_middle.row(),
        round_state(round.row(), 2) == round.state_middle_prime.row(),
        round_state(round.row(), 3) == round.state_output.row(),
{
    assert(round_state(round.row(), 0) =~= round.state_prime.row());
    assert(round_state(round.row(), 1) =~= round.state_middle.row());
    assert(round_state(round.row(), 2) =~= round.state_middle_prime.row());
    assert(round_state(round.row(), 3) =~= round.state_output.row());
}

/// The limbs of message words.
pub open spec fn limb_views<T>(m: Seq<[T; 2]>) -> Seq<Seq<T>> {
    Seq::new(m.len(), |i: int| m[i]@)
}

/// Claim that a round takes `input` through the states of `round_data`.
pub fn verify_round<T: Ring + Copy>(
    builder: &mut TableBuilder<T>,
    multiplicity: &T,
    input: &Blake3State<T>,
    round_data: &FullRound<T>,
    m_vector: &[[T; 2]; INPUT_WORDS],
)
    ensures
        table_asserts(
            *old(builder),
            *final(builder),
            round_claims(*multiplicity, input.row(), round_data.row(), limb_views(m_vector@)),
        ),
{
    let ghost g = *multiplicity;
    let ghost m = limb_views(m_vector@);
    let ghost st = input.row();
    let ghost rd = round_data.row();
    let ghost start = builder.asserted@;
    proof {
        lemma_round_states(*round_data);
    }
    let mut i: usize = 0;
    while i < 4
        invariant
            i <= 4,
            g == *multiplicity,
            m == limb_views(m_vector@),
            st == input.row(),
            rd == round_data.row(),
            start == old(builder).asserted@,
            round_state(rd, 0) == round_data.state_prime.row(),
            round_state(rd, 1) == round_data.state_middle.row(),
            table_asserts(*old(builder), *builder, columns_claims(g, st, rd, m, i as int)),
        decreases 4 - i,
    {
        let q = QuarterRound {
            a: input.row0[i],
            b: input.row1[i],
            c: input.row2[i],
            d: input.row3[i],
            m_two_i: m_vector[2 * i],
            a_prime: round_data.state_prime.row0[i],
            b_prime: round_data.state_prime.row1[i],
            c_prime: round_data.state_prime.row2[i],
            d_prime: round_data.state_prime.row3[i],
            m_two_i_plus_one: m_vector[2 * i + 1],
            a_output: round_data.state_middle.row0[i],
            b_output: round_data.state_middle.row1[i],
            c_output: round_data.state_middle.row2[i],
            d_output: round_data.state_middle.row3[i],
        };
        proof {
            lemma_state_words(*input, i as int);
            lemma_state_words(round_data.state_prime, i as int);
            lemma_state_words(round_data.state_middle, i as int);
            reveal(column_claims);
            assert(quarter_claims(g, q) == column_claims(g, st, rd, m, i as int));
        }
        quarter_round_function(builder, multiplicity, &q);
        i = i + 1;
        assert(builder.asserted@ =~= start + columns_claims(g, st, rd, m, i as int));
    }
    let ghost middle = builder.asserted@;
    i = 0;
    while i < 4
        invariant
            i <= 4,
            g == *multiplicity,
            m == limb_views(m_vector@),
            rd == round_data.row(),
            round_state(rd, 1) == round_data.state_middle.row(),
            round_state(rd, 2) == round_data.state_middle_prime.row(),
            round_state(rd, 3) == round_data.state_output.row(),
            builder.flat == old(builder).flat,
            builder.declared == old(builder).declared,
            builder.bus == old(builder).bus,
            builder.asserted@ == middle + diagonals_claims(g, rd, m, i as int),
        decreases 4 - i,
    {
        let q = QuarterRound {
            a: round_data.state_middle.row0[i],
            b: round_data.state_middle.row1[(i + 1) % 4],
            c: round_data.state_middle.row2[(i + 2) % 4],
            d: round_data.state_middle.row3[(i + 3) % 4],
            m_two_i: m_vector[8 + 2 * i],
            a_prime: round_data.state_middle_prime.row0[i],
            b_prime: round_data.state_middle_prime.row1[(i + 1) % 4],
            c_prime: round_data.state_middle_prime.row2[(i + 2) % 4],
            d_prime: round_data.state_middle_prime.row3[(i + 3) % 4],
            m_two_i_plus_one: m_vector[9 + 2 * i],
            a_output: round_data.state_output.row0[i],
            b_output: round_data.state_output.row1[(i + 1) % 4],
            c_output: round_data.state_output.row2[(i + 2) % 4],
            d_output: round_data.state_output.row3[(i + 3) % 4],
        };
        proof {
            lemma_diagonal_words(round_data.state_middle, i as int);
            lemma_diagonal_words(round_data.state_middle_prime, i as int);
            lemma_diagonal_words(round_data.state_output, i as int);
            reveal(diagonal_claims);
            assert(quarter_claims(g, q) == diagonal_claims(g, rd, m, i as int));
        }
        quarter_round_function(builder, multiplicity, &q);
        i = i + 1;
        assert(builder.asserted@ =~= middle + diagonals_claims(g, rd, m, i as int));
    }
    reveal(round_claims);
    assert(builder.asserted@ =~= start + round_claims(g, st, rd, m));
}

/// The words of a diagonal among the values of a state.
proof fn lemma_diagonal_words<T>(st: Blake3State<T>, i: int)
    requires
        0 <= i < 4,
    ensures
        diagonal_at(st.row(), i) == (
            st.row0@[i]@,
            st.row1@[(i + 1) % 4]@,
            st.row2@[(i + 2) % 4]@,
            st.row3@[(i + 3) % 4]@,
        ),
{
    lemma_state_words(st, i);
    lemma_state_words(st, (i + 1) % 4);
    lemma_state_words(st, (i + 2) % 4);
    lemma_state_words(st, (i + 3) % 4);
}

/// The parts of the columns among their values.
pub proof fn lemma_cols_parts<T>(cols: Blake3Cols<T>)
    ensures
        forall|w: int| 0 <= w < 16 ==> #[trigger] bits_at(cols.row(), 0, w) == cols.inputs@[w]@,
        forall|n: int| 0 <= n < 7 ==> #[trigger] round_at(cols.row(), n) == cols.full_rounds@[n].row(),
        forall|i: int|
            0 <= i < 4 ==> #[trigger] bits_at(cols.row(), HELPERS_AT as int, i)
                == cols.final_round_helpers@[i]@,
        forall|i: int|
            0 <= i < 8 ==> #[trigger] bits_at(cols.row(), OUTPUTS_AT as int, i) == cols.outputs@[i
                / 4]@[i % 4]@,
{
    let core = cols.row();
    assert forall|w: int| 0 <= w < 16 implies #[trigger] bits_at(core, 0, w) == cols.inputs@[w]@ by {
        assert(bits_at(core, 0, w) =~= cols.inputs@[w]@);
    }
    assert forall|n: int| 0 <= n < 7 implies #[trigger] round_at(core, n)
        == cols.full_rounds@[n].row() by {
        assert forall|k: int| 0 <= k < 1088 implies round_at(core, n)[k]
            == cols.full_rounds@[n].row()[k] by {
            let j = ROUNDS_AT + 1088 * n + k;
            assert((j - ROUNDS_AT) / 1088 == n && (j - ROUNDS_AT) % 1088 == k);
        }
        assert(round_at(core, n) =~= cols.full_rounds@[n].row());
    }
    assert forall|i: int| 0 <= i < 4 implies #[trigger] bits_at(core, HELPERS_AT as int, i)
        == cols.final_round_helpers@[i]@ by {
        assert(bits_at(core, HELPERS_AT as int, i) =~= cols.final_round_helpers@[i]@);
    }
    assert forall|i: int| 0 <= i < 8 implies #[trigger] bits_at(core, OUTPUTS_AT as int, i)
        == cols.outputs@[i / 4]@[i % 4]@ by {
        assert forall|j: int| 0 <= j < 32 implies bits_at(core, OUTPUTS_AT as int, i)[j]
            == cols.outputs@[i / 4]@[i % 4]@[j] by {
            let k = 32 * i + j;
            assert(k / 128 == i / 4 && (k / 32) % 4 == i % 4 && k % 32 == j);
        }
        assert(bits_at(core, OUTPUTS_AT as int, i) =~= cols.outputs@[i / 4]@[i % 4]@);
    }
}

/// The state before the first round, as constants.
fn initial_cells<T: Ring + Copy>() -> (r: Blake3State<T>)
    ensures
        r.row() == state_cells::<T>(first_state()),
{
    let r = Blake3State {
        row0: [
            u32_limbs_if::<T>(IV[0]),
            u32_limbs_if::<T>(IV[1]),
            u32_limbs_if::<T>(IV[2]),
            u32_limbs_if::<T>(IV[3]),
        ],
        row1: [
            u32_bits_if::<T>(IV[4]),
            u32_bits_if::<T>(IV[5]),
            u32_bits_if::<T>(IV[6]),
            u32_bits_if::<T>(IV[7]),
        ],
        row2: [
            u32_limbs_if::<T>(IV[0]),
            u32_limbs_if::<T>(IV[1]),
            u32_limbs_if::<T>(IV[2]),
            u32_limbs_if::<T>(IV[3]),
        ],
        row3: [
            u32_bits_if::<T>(0),
            u32_bits_if::<T>(0),
            u32_bits_if::<T>(BLOCK_LEN),
            u32_bits_if::<T>(FLAGS),
        ],
    };
    proof {
        reveal(state_cells);
        let v = first_state();
        assert forall|k: int| 0 <= k < STATE_CELLS implies r.cell(k) == state_cells::<T>(v)[k] by {
            if k < ROW1_AT {
                let i = k / 2;
                assert(i == 0 || i == 1 || i == 2 || i == 3);
            } else if k < ROW2_AT {
                let i = (k - ROW1_AT) / 32;
                assert(i == 0 || i == 1 || i == 2 || i == 3);
            } else if k < ROW3_AT {
                let i = (k - ROW2_AT) / 2;
                assert(i == 0 || i == 1 || i == 2 || i == 3);
            } else {
                let i = (k - ROW3_AT) / 32;
                assert(i == 0 || i == 1 || i == 2 || i == 3);
            }
        }
        assert(r.row() =~= state_cells::<T>(v));
    }
    r
}

/// The limbs of the message words.
fn message_limbs<T: Ring + Copy>(inputs: &[[T; 32]; INPUT_WORDS]) -> (r: [[T; 2]; INPUT_WORDS])
    ensures
        forall|w: int| 0 <= w < 16 ==> #[trigger] r@[w]@ == packed(inputs@[w]@),
{
    let mut r = [pack_word(&inputs[0]); INPUT_WORDS];
    let mut w: usize = 1;
    while w < INPUT_WORDS
        invariant
            1 <= w <= 16,
            forall|j: int| 0 <= j < w ==> #[trigger] r@[j]@ == packed(inputs@[j]@),
        decreases 16 - w,
    {
        r[w] = pack_word(&inputs[w]);
        w = w + 1;
    }
    r
}

/// Rearranging the limb pairs rearranges their views.
proof fn lemma_permuted_views<T>(m: Seq<[T; 2]>)
    requires
        m.len() == 16,
    ensures
        limb_views(permuted(m)) == permuted(limb_views(m)),
{
    assert(limb_views(permuted(m)) =~= permuted(limb_views(m)));
}

/// Claim the seven rounds.
fn eval_rounds<T: Ring + Copy>(
    builder: &mut TableBuilder<T>,
    multiplicity: &T,
    local: &Blake3Cols<T>,
)
    ensures
        table_asserts(
            *old(builder),
            *final(builder),
            rounds_claims(*multiplicity, local.row(), 7),
        ),
{
    let ghost g = *multiplicity;
    let ghost core = local.row();
    let ghost start = builder.asserted@;
    let mut m_values = message_limbs(&local.inputs);
    let mut state = initial_cells::<T>();
    proof {
        lemma_cols_parts(*local);
        assert forall|w: int| 0 <= w < 16 implies #[trigger] limb_views(m_values@)[w] == message(
            core,
        )[w] by {
            assert(bits_at(core, 0, w) == local.inputs@[w]@);
        }
        assert(limb_views(m_values@) =~= message(core));
    }
    let mut n: usize = 0;
    while n < FULL_ROUNDS
        invariant
            n <= 7,
            g == *multiplicity,
            core == local.row(),
            start == old(builder).asserted@,
            forall|i: int|
                0 <= i < 7 ==> #[trigger] round_at(core, i) == local.full_rounds@[i].row(),
            state.row() == state_before(core, n as int),
            limb_views(m_values@) == schedule(message(core), n as int),
            table_asserts(*old(builder), *builder, rounds_claims(g, core, n as int)),
        decreases 7 - n,
    {
        assert(round_at(core, n as int) == local.full_rounds@[n as int].row());
        verify_round(builder, multiplicity, &state, &local.full_rounds[n], &m_values);
        proof {
            lemma_round_states(local.full_rounds@[n as int]);
            lemma_permuted_views(m_values@);
        }
        state = local.full_rounds[n].state_output;
        permute(&mut m_values);
        n = n + 1;
        assert(builder.asserted@ =~= start + rounds_claims(g, core, n as int));
    }
}

/// The last state among the columns.
proof fn lemma_last_state<T: RingModel>(local: Blake3Cols<T>, i: int)
    requires
        0 <= i < 4,
    ensures
        ({
            let last = state_before(local.row(), 7);
            let st = local.full_rounds@[6].state_output;
            &&& pair_at(last, 0, i) == st.row0@[i]@
            &&& bits_at(last, ROW1_AT as int, i) == st.row1@[i]@
            &&& pair_at(last, ROW2_AT as int, i) == st.row2@[i]@
            &&& bits_at(last, ROW3_AT as int, i) == st.row3@[i]@
        }),
{
    lemma_cols_parts(local);
    assert(round_at(local.row(), 6) == local.full_rounds@[6].row());
    lemma_round_states(local.full_rounds@[6]);
    lemma_state_words(local.full_rounds@[6].state_output, i);
}

/// Claim the bits of row 2 of the last state.
fn eval_helpers<T: Ring + Copy>(
    builder: &mut TableBuilder<T>,
    multiplicity: &T,
    local: &Blake3Cols<T>,
)
    ensures
        table_asserts(
            *old(builder),
            *final(builder),
            helpers_claims(*multiplicity, local.row(), 4),
        ),
{
    let ghost g = *multiplicity;
    let ghost core = local.row();
    let ghost start = builder.asserted@;
    let mut i: usize = 0;
    while i < 4
        invariant
            i <= 4,
            g == *multiplicity,
            core == local.row(),
            start == old(builder).asserted@,
            table_asserts(*old(builder), *builder, helpers_claims(g, core, i as int)),
        decreases 4 - i,
    {
        let bits = local.final_round_helpers[i];
        let word = local.full_rounds[FULL_ROUNDS - 1].state_output.row2[i];
        proof {
            lemma_cols_parts(*local);
            lemma_last_state(*local, i as int);
            assert(bits_at(core, HELPERS_AT as int, i as int) == bits@);
        }
        assert_bits_gated(builder, multiplicity, &bits);
        assert_limbs_gated(builder, multiplicity, &pack_word(&bits), &word);
        i = i + 1;
        assert(builder.asserted@ =~= start + helpers_claims(g, core, i as int));
    }
}

/// Claim the first half of the output.
fn eval_first_outputs<T: Ring + Copy>(
    builder: &mut TableBuilder<T>,
    multiplicity: &T,
    local: &Blake3Cols<T>,
)
    ensures
        table_asserts(
            *old(builder),
            *final(builder),
            first_outputs_claims(*multiplicity, local.row(), 4),
        ),
{
    let ghost g = *multiplicity;
    let ghost core = local.row();
    let ghost start = builder.asserted@;
    let mut i: usize = 0;
    while i < 4
        invariant
            i <= 4,
            g == *multiplicity,
            core == local.row(),
            start == old(builder).asserted@,
            table_asserts(*old(builder), *builder, first_outputs_claims(g, core, i as int)),
        decreases 4 - i,
    {
        let out_bits = local.outputs[0][i];
        proof {
            lemma_cols_parts(*local);
            lemma_last_state(*local, i as int);
            assert(bits_at(core, HELPERS_AT as int, i as int) == local.final_round_helpers@[i as int]@);
            assert(bits_at(core, OUTPUTS_AT as int, i as int) == out_bits@);
        }
        assert_bits_gated(builder, multiplicity, &out_bits);
        xor_32_shift(
            builder,
            multiplicity,
            &local.full_rounds[FULL_ROUNDS - 1].state_output.row0[i],
            &out_bits,
            &local.final_round_helpers[i],
            0,
        );
        i = i + 1;
        assert(builder.asserted@ =~= start + first_outputs_claims(g, core, i as int));
    }
}

/// Claim output word `4 + i`.
fn eval_second_output<T: Ring + Copy>(
    builder: &mut TableBuilder<T>,
    multiplicity: &T,
    local: &Blake3Cols<T>,
    i: usize,
)
    requires
        i < 4,
    ensures
        table_asserts(
            *old(builder),
            *final(builder),
            second_output_claims(*multiplicity, local.row(), i as int),
        ),
{
    let ghost claims = second_output_claims(*multiplicity, local.row(), i as int);
    let ghost start = builder.asserted@;
    let out_bits = local.outputs[1][i];
    let row1 = local.full_rounds[FULL_ROUNDS - 1].state_output.row1[i];
    let row3 = local.full_rounds[FULL_ROUNDS - 1].state_output.row3[i];
    proof {
        lemma_cols_parts(*local);
        lemma_last_state(*local, i as int);
        assert(bits_at(local.row(), OUTPUTS_AT as int, 4 + i) == out_bits@);
    }
    let mut j: usize = 0;
    while j < 32
        invariant
            j <= 32,
            start == old(builder).asserted@,
            claims == Seq::new(
                32,
                |k: int| eq_gate(*multiplicity, out_bits@[k], xor_of(row1@[k], row3@[k])),
            ),
            table_asserts(*old(builder), *builder, claims.take(j as int)),
        decreases 32 - j,
    {
        assert_eq_gated(builder, multiplicity, &out_bits[j], &xor(&row1[j], &row3[j]));
        j = j + 1;
        assert(builder.asserted@ =~= start + claims.take(j as int));
    }
    assert(claims.take(32) =~= claims);
}

/// Claim the second half of the output.
fn eval_second_outputs<T: Ring + Copy>(
    builder: &mut TableBuilder<T>,
    multiplicity: &T,
    local: &Blake3Cols<T>,
)
    ensures
        table_asserts(
            *old(builder),
            *final(builder),
            second_outputs_claims(*multiplicity, local.row(), 4),
        ),
{
    let ghost g = *multiplicity;
    let ghost core = local.row();
    let ghost start = builder.asserted@;
    let mut i: usize = 0;
    while i < 4
        invariant
            i <= 4,
            g == *multiplicity,
            core == local.row(),
            start == old(builder).asserted@,
            table_asserts(*old(builder), *builder, second_outputs_claims(g, core, i as int)),
        decreases 4 - i,
    {
        eval_second_output(builder, multiplicity, local, i);
        i = i + 1;
        assert(builder.asserted@ =~= start + second_outputs_claims(g, core, i as int));
    }
}

/// Claim that the columns hold a hash computation, from the input bits to the
/// output bits.
pub fn eval_blake3<T: Ring + Copy>(
    builder: &mut TableBuilder<T>,
    multiplicity: &T,
    local: &Blake3Cols<T>,
)
    ensures
        table_asserts(*old(builder), *final(builder), core_claims(*multiplicity, local.row())),
{
    eval_rounds(builder, multiplicity, local);
    eval_helpers(builder, multiplicity, local);
    eval_first_outputs(builder, multiplicity, local);
    eval_second_outputs(builder, multiplicity, local);
    assert(builder.asserted@ =~= old(builder).asserted@ + core_claims(*multiplicity, local.row()));
}

} // verus!

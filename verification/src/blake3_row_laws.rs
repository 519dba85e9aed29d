//! What a row of the BLAKE3 table means, from its input limbs to its output
//! limbs.

use crate::bits::{all_zero, bit_value, is_bit, lemma_all_zero_concat, lemma_bool_check, truths};
use crate::blake3::{blake3_of, schedule, state_after, word_limb};
use crate::blake3_air::{
    bits_at, bits_claims, const_bits, core_claims, core_of, input_claims, limbs_claims, message,
    output_claims, packed, pair_at, round_at, round_state, state_cells, table_claims, word_bit,
    BLAKE3_COL_INPUT_LIMBS, BLAKE3_COL_OUTPUT_LIMBS, BLAKE3_COL_P3_START, CORE_CELLS, HELPERS_AT,
    OUTPUTS_AT, TABLE_CELLS,
};
use crate::blake3_execution::executed_row;
use crate::blake3_gadgets::{lemma_bits_claims, lemma_limbs_claims};
use crate::blake3_gate_laws::{core_at_any_multiplicity, lemma_closed};
use crate::blake3_laws::{
    core_is, core_meaning, helper_is, lemma_bits_unique, lemma_const_bits, lemma_state_cells,
    message_is, output_is, round_at_is, round_is, state_is,
};
use crate::blake3_shape_laws::core_constraint_count;
use crate::blake3_trace::{
    filled, hash_cells, hash_limbs, joined_word, padded, round_cells, row_limbs, state_in_round,
    words_of,
};
use crate::field::{bool_check_of, Felt, RingModel};
use crate::prime_field::{
    has_limb_sums, lemma_diff_value, lemma_elem_value, lemma_is_number, lemma_prod_value,
    lemma_sum_value, lemma_value_range, PrimeFieldModel,
};
use crate::words::{bits_are, lemma_bits_hold_word, lemma_packed_limbs, limbs_are, word_of};
use vstd::prelude::*;

verus! {

broadcast use {
    lemma_value_range,
    lemma_elem_value,
    lemma_sum_value,
    lemma_diff_value,
    lemma_prod_value,
};

/// The words that the input bits of a row stand for.
pub open spec fn input_words<T: PrimeFieldModel>(flat: Seq<T>) -> Seq<u32> {
    Seq::new(16, |i: int| word_of(truths(bits_at(core_of(flat), 0, i))))
}

/// Input word `i` of a row is `w`, in bits and in limbs.
pub open spec fn input_is<T: PrimeFieldModel>(flat: Seq<T>, w: Seq<u32>, i: int) -> bool {
    &&& bits_are(bits_at(core_of(flat), 0, i), w[i])
    &&& limbs_are(pair_at(flat, BLAKE3_COL_INPUT_LIMBS as int, i), w[i])
}

/// The limbs of output word `i` of a row hold word `i` of the hash of `w`.
pub open spec fn output_limbs_are<T: PrimeFieldModel>(flat: Seq<T>, w: Seq<u32>, i: int) -> bool {
    limbs_are(pair_at(flat, BLAKE3_COL_OUTPUT_LIMBS as int, i), blake3_of(w)[i])
}

/// The row holds the hash of `w`: its input, its computation and its output.
pub open spec fn row_is_hash<T: PrimeFieldModel>(flat: Seq<T>, w: Seq<u32>) -> bool {
    &&& flat.len() == TABLE_CELLS
    &&& w.len() == 16
    &&& forall|i: int| 0 <= i < 16 ==> #[trigger] input_is(flat, w, i)
    &&& core_is(core_of(flat), w)
    &&& forall|i: int| 0 <= i < 8 ==> #[trigger] output_limbs_are(flat, w, i)
}

proof fn lemma_input<T: PrimeFieldModel>(g: T, bits: Seq<T>, pair: Seq<T>)
    requires
        g.value() == 1,
        bits.len() == 32,
        pair.len() == 2,
    ensures
        all_zero(bits_claims(g, bits) + limbs_claims(g, pair, packed(bits))) <==> (bits_are(
            bits,
            word_of(truths(bits)),
        ) && limbs_are(pair, word_of(truths(bits)))),
{
    let w = word_of(truths(bits));
    lemma_all_zero_concat(bits_claims(g, bits), limbs_claims(g, pair, packed(bits)));
    lemma_bits_claims(g, bits);
    if bits_are(bits, w) {
        lemma_packed_limbs(bits, w);
        lemma_limbs_claims(g, pair, packed(bits), w);
    }
}

/// The claims on the input hold exactly where its limbs and bits agree.
proof fn lemma_inputs<T: PrimeFieldModel>(flat: Seq<T>, n: int)
    requires
        flat.len() == TABLE_CELLS,
        flat[0].value() == 1,
        0 <= n <= 16,
    ensures
        all_zero(input_claims(flat, n)) <==> forall|i: int|
            0 <= i < n ==> #[trigger] input_is(flat, input_words(flat), i),
    decreases n,
{
    if n > 0 {
        let w = input_words(flat);
        lemma_inputs(flat, n - 1);
        let bits = bits_at(core_of(flat), 0, n - 1);
        let pair = pair_at(flat, BLAKE3_COL_INPUT_LIMBS as int, n - 1);
        lemma_input(flat[0], bits, pair);
        lemma_all_zero_concat(
            input_claims(flat, n - 1),
            bits_claims(flat[0], bits) + limbs_claims(flat[0], pair, packed(bits)),
        );
        assert(w[n - 1] == word_of(truths(bits)));
        if all_zero(input_claims(flat, n)) {
            assert forall|i: int| 0 <= i < n implies #[trigger] input_is(flat, w, i) by {
                if i < n - 1 {
                    assert(input_is(flat, w, i));
                }
            }
        }
        if forall|i: int| 0 <= i < n ==> #[trigger] input_is(flat, w, i) {
            assert(input_is(flat, w, n - 1));
        }
    }
}

/// The claims on the output hold exactly where its limbs hold the hash.
proof fn lemma_outputs<T: PrimeFieldModel>(flat: Seq<T>, w: Seq<u32>, n: int)
    requires
        flat.len() == TABLE_CELLS,
        flat[0].value() == 1,
        core_is(core_of(flat), w),
        0 <= n <= 8,
    ensures
        all_zero(output_claims(flat, n)) <==> forall|i: int|
            0 <= i < n ==> #[trigger] output_limbs_are(flat, w, i),
    decreases n,
{
    if n > 0 {
        lemma_outputs(flat, w, n - 1);
        let bits = bits_at(core_of(flat), OUTPUTS_AT as int, n - 1);
        let pair = pair_at(flat, BLAKE3_COL_OUTPUT_LIMBS as int, n - 1);
        assert(output_is(core_of(flat), state_after(w, 7), n - 1));
        assert(bits_are(bits, blake3_of(w)[n - 1]));
        lemma_packed_limbs(bits, blake3_of(w)[n - 1]);
        lemma_limbs_claims(flat[0], pair, packed(bits), blake3_of(w)[n - 1]);
        lemma_all_zero_concat(
            output_claims(flat, n - 1),
            limbs_claims(flat[0], pair, packed(bits)),
        );
        if all_zero(output_claims(flat, n)) {
            assert forall|i: int| 0 <= i < n implies #[trigger] output_limbs_are(flat, w, i) by {
                if i < n - 1 {
                    assert(output_limbs_are(flat, w, i));
                }
            }
        }
        if forall|i: int| 0 <= i < n ==> #[trigger] output_limbs_are(flat, w, i) {
            assert(output_limbs_are(flat, w, n - 1));
        }
    }
}

/// The claims of a row, block by block.
proof fn lemma_row_blocks<T: PrimeFieldModel>(flat: Seq<T>)
    ensures
        all_zero(table_claims(flat)) <==> {
            &&& is_bit(flat[0])
            &&& all_zero(input_claims(flat, 16))
            &&& all_zero(core_claims(flat[0], core_of(flat)))
            &&& all_zero(output_claims(flat, 8))
        },
{
    let b1 = seq![bool_check_of(flat[0])];
    let b2 = input_claims(flat, 16);
    let b3 = core_claims(flat[0], core_of(flat));
    lemma_all_zero_concat(b1, b2);
    lemma_all_zero_concat(b1 + b2, b3);
    lemma_all_zero_concat(b1 + b2 + b3, output_claims(flat, 8));
    lemma_bool_check(flat[0]);
    if all_zero(b1) {
        assert(b1[0].value() == 0);
    }
}

/// The input bits hold the message.
pub proof fn lemma_message_bits<T: PrimeFieldModel>(core: Seq<T>, w: Seq<u32>)
    requires
        w.len() == 16,
        forall|i: int| 0 <= i < 16 ==> bits_are(#[trigger] bits_at(core, 0, i), w[i]),
    ensures
        message_is(message(core), w),
{
    assert forall|i: int| 0 <= i < 16 implies limbs_are(#[trigger] message(core)[i], w[i]) by {
        lemma_packed_limbs(bits_at(core, 0, i), w[i]);
    }
}

/// The input bits of a row hold its message.
proof fn lemma_message<T: PrimeFieldModel>(flat: Seq<T>, w: Seq<u32>)
    requires
        w.len() == 16,
        forall|i: int| 0 <= i < 16 ==> #[trigger] input_is(flat, w, i),
    ensures
        message_is(message(core_of(flat)), w),
{
    assert forall|i: int| 0 <= i < 16 implies bits_are(
        #[trigger] bits_at(core_of(flat), 0, i),
        w[i],
    ) by {
        assert(input_is(flat, w, i));
    }
    lemma_message_bits(core_of(flat), w);
}

/// A row of multiplicity one whose constraints are zero holds the hash of the
/// words that its input bits stand for.
pub proof fn hash_soundness<T: PrimeFieldModel>(flat: Seq<T>)
    requires
        has_limb_sums::<T>(),
        flat.len() == TABLE_CELLS,
        flat[0].value() == 1,
        all_zero(table_claims(flat)),
    ensures
        row_is_hash(flat, input_words(flat)),
{
    let w = input_words(flat);
    lemma_row_blocks(flat);
    lemma_inputs(flat, 16);
    lemma_message(flat, w);
    core_meaning(flat[0], core_of(flat), w);
    lemma_outputs(flat, w, 8);
}

/// The bits of the input determine its words.
proof fn lemma_input_words<T: PrimeFieldModel>(flat: Seq<T>, w: Seq<u32>)
    requires
        row_is_hash(flat, w),
    ensures
        input_words(flat) == w,
{
    assert forall|i: int| 0 <= i < 16 implies input_words(flat)[i] == w[i] by {
        assert(input_is(flat, w, i));
        let bits = bits_at(core_of(flat), 0, i);
        assert forall|j: int| 0 <= j < 32 implies is_bit(#[trigger] bits[j]) by {
            assert(bits[j].value() == bit_value(word_bit(w[i], j)));
        }
        lemma_bits_hold_word(bits);
        lemma_bits_unique(bits, word_of(truths(bits)), w[i]);
    }
    assert(input_words(flat) =~= w);
}

/// Every constraint is zero on a row of multiplicity one that holds a hash.
pub proof fn hash_completeness<T: PrimeFieldModel>(flat: Seq<T>, w: Seq<u32>)
    requires
        flat[0].value() == 1,
        row_is_hash(flat, w),
    ensures
        all_zero(table_claims(flat)),
{
    lemma_input_words(flat, w);
    lemma_inputs(flat, 16);
    lemma_message(flat, w);
    core_meaning(flat[0], core_of(flat), w);
    lemma_outputs(flat, w, 8);
    lemma_row_blocks(flat);
}

/// Limbs of a word join to the word.
pub proof fn lemma_joined_limbs<T: PrimeFieldModel>(low: T, high: T, w: u32)
    requires
        low.value() == w % 0x1_0000,
        high.value() == w / 0x1_0000,
    ensures
        joined_word(low, high) == w,
{
    let a = low.value() as u32;
    let b = high.value() as u32;
    assert(a | (b << 16) == w) by (bit_vector)
        requires
            a == w % 0x1_0000,
            b == w / 0x1_0000,
    ;
}

/// Any two limbs are the limbs of the word that they join to.
pub proof fn lemma_limbs_of_joined<T: PrimeFieldModel>(low: T, high: T)
    requires
        low.value() < 0x1_0000,
        high.value() < 0x1_0000,
    ensures
        low.value() == joined_word(low, high) % 0x1_0000,
        high.value() == joined_word(low, high) / 0x1_0000,
{
    let a = low.value() as u32;
    let b = high.value() as u32;
    let w = joined_word(low, high);
    assert(a == w % 0x1_0000 && b == w / 0x1_0000) by (bit_vector)
        requires
            a < 0x1_0000,
            b < 0x1_0000,
            w == a | (b << 16),
    ;
}

/// The input limbs of a row.
pub open spec fn input_limbs<T: PrimeFieldModel>(flat: Seq<T>) -> Seq<T> {
    flat.subrange(BLAKE3_COL_INPUT_LIMBS as int, BLAKE3_COL_OUTPUT_LIMBS as int)
}

/// The input limbs of a row that holds a hash are sixteen-bit numbers, and join
/// to the words that are hashed.
proof fn lemma_row_words<T: PrimeFieldModel>(flat: Seq<T>, w: Seq<u32>)
    requires
        has_limb_sums::<T>(),
        row_is_hash(flat, w),
    ensures
        words_of(input_limbs(flat)) == w,
        forall|k: int| 0 <= k < 32 ==> (#[trigger] input_limbs(flat)[k]).value() < 0x1_0000,
{
    let limbs = input_limbs(flat);
    assert forall|i: int| 0 <= i < 16 implies words_of(limbs)[i] == w[i] by {
        assert(input_is(flat, w, i));
        let pair = pair_at(flat, BLAKE3_COL_INPUT_LIMBS as int, i);
        assert(pair[0] == limbs[2 * i] && pair[1] == limbs[2 * i + 1]);
        lemma_joined_limbs(limbs[2 * i], limbs[2 * i + 1], w[i]);
    }
    assert(words_of(limbs) =~= w);
    assert forall|k: int| 0 <= k < 32 implies (#[trigger] limbs[k]).value() < 0x1_0000 by {
        let i = k / 2;
        assert(input_is(flat, w, i));
        let pair = pair_at(flat, BLAKE3_COL_INPUT_LIMBS as int, i);
        assert(k == 2 * i || k == 2 * i + 1);
        assert(pair[0] == limbs[2 * i] && pair[1] == limbs[2 * i + 1]);
    }
}

/// An output limb of a row whose output limbs hold the words `h`.
proof fn lemma_output_limb<T: PrimeFieldModel>(flat: Seq<T>, h: Seq<u32>, k: int)
    requires
        flat.len() == TABLE_CELLS,
        0 <= k < 16,
        limbs_are(pair_at(flat, BLAKE3_COL_OUTPUT_LIMBS as int, k / 2), h[k / 2]),
    ensures
        flat[BLAKE3_COL_OUTPUT_LIMBS + k].value() == T::elem(word_limb(h, k) as nat).value(),
{
    let i = k / 2;
    T::elem_value(word_limb(h, k) as nat);
    lemma_is_number(T::elem(word_limb(h, k) as nat), word_limb(h, k) as nat);
    let pair = pair_at(flat, BLAKE3_COL_OUTPUT_LIMBS as int, i);
    assert(k == 2 * i || k == 2 * i + 1);
    assert(pair[0] == flat[BLAKE3_COL_OUTPUT_LIMBS + 2 * i]);
    assert(pair[1] == flat[BLAKE3_COL_OUTPUT_LIMBS + 2 * i + 1]);
}

/// A row of multiplicity one whose constraints are zero maps its input limbs to
/// their hash: its inputs are sixteen-bit limbs, and its outputs are the limbs of
/// the hash of the words that they join to.
pub proof fn limbs_soundness<T: PrimeFieldModel>(flat: Seq<T>)
    requires
        has_limb_sums::<T>(),
        flat.len() == TABLE_CELLS,
        flat[0].value() == 1,
        all_zero(table_claims(flat)),
    ensures
        forall|k: int| 0 <= k < 32 ==> (#[trigger] input_limbs(flat)[k]).value() < 0x1_0000,
        forall|k: int|
            0 <= k < 16 ==> (#[trigger] flat[BLAKE3_COL_OUTPUT_LIMBS + k]).value()
                == hash_limbs::<T>(words_of(input_limbs(flat)))[k].value(),
{
    let w = input_words(flat);
    hash_soundness(flat);
    lemma_row_words(flat, w);
    assert forall|k: int| 0 <= k < 16 implies (#[trigger] flat[BLAKE3_COL_OUTPUT_LIMBS + k]).value()
        == hash_limbs::<T>(w)[k].value() by {
        assert(output_limbs_are(flat, w, k / 2));
        lemma_output_limb(flat, blake3_of(w), k);
    }
}

/// A generated round holds the states that it passes through.
pub proof fn lemma_round_cells<T: PrimeFieldModel>(v: Seq<u32>, m: Seq<u32>)
    ensures
        round_is(round_cells::<T>(v, m), v, m),
{
    let round = round_cells::<T>(v, m);
    lemma_round_cells_state::<T>(v, m, 0);
    lemma_round_cells_state::<T>(v, m, 1);
    lemma_round_cells_state::<T>(v, m, 2);
    lemma_round_cells_state::<T>(v, m, 3);
    reveal(round_cells);
    assert(round.len() == 1088);
}

proof fn lemma_round_cells_state<T: PrimeFieldModel>(v: Seq<u32>, m: Seq<u32>, j: int)
    requires
        0 <= j < 4,
    ensures
        state_is(round_state(round_cells::<T>(v, m), j), state_in_round(v, m, j)),
{
    reveal(round_cells);
    let st = round_state(round_cells::<T>(v, m), j);
    let x = state_in_round(v, m, j);
    assert(x.len() == 16);
    lemma_state_cells::<T>(x);
    assert(state_cells::<T>(x).len() == 272);
    assert forall|k: int| 0 <= k < 272 implies st[k] == state_cells::<T>(x)[k] by {
        assert((272 * j + k) / 272 == j && (272 * j + k) % 272 == k);
    }
    assert(st =~= state_cells::<T>(x));
}

/// The generated columns hold the computation that they are generated from.
pub proof fn lemma_hash_cells<T: PrimeFieldModel>(w: Seq<u32>)
    requires
        w.len() == 16,
    ensures
        core_is(hash_cells::<T>(w), w),
        forall|i: int| 0 <= i < 16 ==> bits_are(#[trigger] bits_at(hash_cells::<T>(w), 0, i), w[i]),
{
    let core = hash_cells::<T>(w);
    assert forall|i: int| 0 <= i < 16 implies bits_are(#[trigger] bits_at(core, 0, i), w[i]) by {
        assert(bits_at(core, 0, i) =~= const_bits::<T>(w[i]));
        lemma_const_bits(bits_at(core, 0, i), w[i]);
    }
    assert forall|n: int| 0 <= n < 7 implies #[trigger] round_at_is(core, w, n) by {
        reveal(round_at_is);
        let (v, m) = (state_after(w, n), schedule(w, n));
        lemma_round_cells::<T>(v, m);
        assert forall|k: int| 0 <= k < 1088 implies round_at(core, n)[k] == round_cells::<T>(
            v,
            m,
        )[k] by {
            let j = 1088 * n + k;
            assert(j / 1088 == n && j % 1088 == k);
        }
        assert(round_at(core, n) =~= round_cells::<T>(v, m));
    }
    let last = state_after(w, 7);
    assert forall|i: int| 0 <= i < 4 implies #[trigger] helper_is(core, last, i) by {
        let bits = bits_at(core, HELPERS_AT as int, i);
        assert(bits =~= const_bits::<T>(last[8 + i]));
        lemma_const_bits(bits, last[8 + i]);
    }
    assert forall|i: int| 0 <= i < 8 implies #[trigger] output_is(core, last, i) by {
        let bits = bits_at(core, OUTPUTS_AT as int, i);
        assert(bits =~= const_bits::<T>(blake3_of(w)[i]));
        lemma_const_bits(bits, blake3_of(w)[i]);
    }
}

/// The output limbs that are written hold the hash.
proof fn lemma_written_limbs<T: PrimeFieldModel>(flat: Seq<T>, h: Seq<u32>, w: Seq<u32>, i: int)
    requires
        flat.len() == TABLE_CELLS,
        h == blake3_of(w),
        0 <= i < 8,
        flat[BLAKE3_COL_OUTPUT_LIMBS + 2 * i].value() == hash_limbs::<T>(w)[2 * i].value(),
        flat[BLAKE3_COL_OUTPUT_LIMBS + 2 * i + 1].value() == hash_limbs::<T>(w)[2 * i + 1].value(),
    ensures
        limbs_are(pair_at(flat, BLAKE3_COL_OUTPUT_LIMBS as int, i), h[i]),
{
    let (low, high) = (word_limb(h, 2 * i) as nat, word_limb(h, 2 * i + 1) as nat);
    T::elem_value(low);
    T::elem_value(high);
    lemma_is_number(T::elem(low), low);
    lemma_is_number(T::elem(high), high);
    let pair = pair_at(flat, BLAKE3_COL_OUTPUT_LIMBS as int, i);
    assert(pair[0].value() == T::elem(word_limb(h, 2 * i) as nat).value());
    assert(pair[1].value() == T::elem(word_limb(h, 2 * i + 1) as nat).value());
    assert((2 * i) / 2 == i && (2 * i + 1) / 2 == i);
}

/// Every constraint is zero on a row of multiplicity one whose input limbs are
/// sixteen-bit numbers, whose output limbs are those of the hash of the words that
/// they join to, and whose columns are generated from those words.
pub proof fn limbs_completeness<T: PrimeFieldModel>(flat: Seq<T>)
    requires
        flat.len() == TABLE_CELLS,
        flat[0].value() == 1,
        forall|k: int| 0 <= k < 32 ==> (#[trigger] input_limbs(flat)[k]).value() < 0x1_0000,
        forall|k: int|
            0 <= k < 16 ==> (#[trigger] flat[BLAKE3_COL_OUTPUT_LIMBS + k]).value()
                == hash_limbs::<T>(words_of(input_limbs(flat)))[k].value(),
        core_of(flat) == hash_cells::<T>(words_of(input_limbs(flat))),
    ensures
        all_zero(table_claims(flat)),
{
    let limbs = input_limbs(flat);
    let w = words_of(limbs);
    lemma_hash_cells::<T>(w);
    assert forall|i: int| 0 <= i < 16 implies #[trigger] input_is(flat, w, i) by {
        let pair = pair_at(flat, BLAKE3_COL_INPUT_LIMBS as int, i);
        assert(pair[0] == limbs[2 * i] && pair[1] == limbs[2 * i + 1]);
        lemma_limbs_of_joined(limbs[2 * i], limbs[2 * i + 1]);
        assert(bits_are(bits_at(hash_cells::<T>(w), 0, i), w[i]));
    }
    assert forall|i: int| 0 <= i < 8 implies #[trigger] output_limbs_are(flat, w, i) by {
        assert(flat[BLAKE3_COL_OUTPUT_LIMBS + (2 * i)].value() == hash_limbs::<T>(w)[2
            * i].value());
        assert(flat[BLAKE3_COL_OUTPUT_LIMBS + (2 * i + 1)].value() == hash_limbs::<T>(w)[2 * i
            + 1].value());
        lemma_written_limbs(flat, blake3_of(w), w, i);
    }
    hash_completeness(flat, w);
}

/// The limbs at the head of a row map a message to its hash.
pub open spec fn head_is_hash<T: PrimeFieldModel>(head: Seq<T>) -> bool {
    let limbs = input_limbs(head);
    &&& forall|k: int| 0 <= k < 32 ==> (#[trigger] limbs[k]).value() < 0x1_0000
    &&& forall|k: int|
        0 <= k < 16 ==> (#[trigger] head[BLAKE3_COL_OUTPUT_LIMBS + k]).value() == hash_limbs::<T>(
            words_of(limbs),
        )[k].value()
}

/// A row of multiplicity one computes the hash, and nothing else: its columns can
/// be chosen so that every constraint is zero exactly where its inputs are
/// sixteen-bit limbs and its outputs are the limbs of the hash of the words that
/// they join to.
pub proof fn row_computes_hash<T: PrimeFieldModel>(head: Seq<T>)
    requires
        has_limb_sums::<T>(),
        head.len() == BLAKE3_COL_P3_START,
        head[0].value() == 1,
    ensures
        (exists|core: Seq<T>|
            core.len() == CORE_CELLS && all_zero(#[trigger] table_claims(head + core)))
            <==> head_is_hash(head),
{
    if exists|core: Seq<T>|
        core.len() == CORE_CELLS && all_zero(#[trigger] table_claims(head + core)) {
        let core = choose|core: Seq<T>|
            core.len() == CORE_CELLS && all_zero(#[trigger] table_claims(head + core));
        let flat = head + core;
        assert(input_limbs(flat) =~= input_limbs(head));
        limbs_soundness(flat);
        assert forall|k: int| 0 <= k < 16 implies (#[trigger] head[BLAKE3_COL_OUTPUT_LIMBS
            + k]).value() == hash_limbs::<T>(words_of(input_limbs(head)))[k].value() by {
            assert(flat[BLAKE3_COL_OUTPUT_LIMBS + k] == head[BLAKE3_COL_OUTPUT_LIMBS + k]);
        }
    }
    if head_is_hash(head) {
        let core = hash_cells::<T>(words_of(input_limbs(head)));
        let flat = head + core;
        assert(input_limbs(flat) =~= input_limbs(head));
        assert(core_of(flat) =~= core);
        assert forall|k: int| 0 <= k < 16 implies (#[trigger] flat[BLAKE3_COL_OUTPUT_LIMBS
            + k]).value() == hash_limbs::<T>(words_of(input_limbs(flat)))[k].value() by {
            assert(flat[BLAKE3_COL_OUTPUT_LIMBS + k] == head[BLAKE3_COL_OUTPUT_LIMBS + k]);
        }
        limbs_completeness(flat);
    }
}

/// The claims on generated columns are zero at every multiplicity, over every prime
/// field, and the output columns hold the bits of the hash.
pub proof fn generated_columns_satisfy<T: PrimeFieldModel>(g: T, w: Seq<u32>)
    requires
        w.len() == 16,
    ensures
        core_claims(g, hash_cells::<T>(w)).len() == 8592,
        all_zero(core_claims(g, hash_cells::<T>(w))),
        forall|i: int|
            0 <= i < 8 ==> bits_are(
                #[trigger] bits_at(hash_cells::<T>(w), OUTPUTS_AT as int, i),
                blake3_of(w)[i],
            ),
{
    let core = hash_cells::<T>(w);
    core_constraint_count(g, core);
    lemma_hash_cells::<T>(w);
    lemma_message_bits(core, w);
    T::order_is_prime(2);
    core_meaning(T::elem(1), core, w);
    core_at_any_multiplicity(T::elem(1), g, core);
    assert forall|i: int| 0 <= i < 8 implies bits_are(
        #[trigger] bits_at(core, OUTPUTS_AT as int, i),
        blake3_of(w)[i],
    ) by {
        assert(output_is(core, state_after(w, 7), i));
    }
}

/// Row `r` of a filled trace.
pub open spec fn filled_row(trace: Seq<Vec<Felt>>, r: int) -> Seq<Felt> {
    Seq::new(TABLE_CELLS as nat, |c: int| filled(trace, c, r))
}

/// Every constraint is zero on a filled row whose multiplicity is one, as long as
/// its input limbs are sixteen-bit numbers.
proof fn lemma_filled_row(trace: Seq<Vec<Felt>>, r: int)
    requires
        trace.len() >= TABLE_CELLS,
        filled_row(trace, r)[0]@ == 1,
        forall|k: int| 0 <= k < 32 ==> (#[trigger] row_limbs(trace, r)[k])@ < 0x1_0000,
    ensures
        all_zero(table_claims(filled_row(trace, r))),
{
    let flat = filled_row(trace, r);
    assert(input_limbs(flat) =~= row_limbs(trace, r));
    assert(core_of(flat) =~= hash_cells::<Felt>(words_of(row_limbs(trace, r))));
    limbs_completeness(flat);
}

/// Nothing is claimed of the ends of a row of multiplicity zero.
proof fn lemma_ends_closed<T: PrimeFieldModel>(flat: Seq<T>, n: int)
    requires
        flat[0].value() == 0,
    ensures
        all_zero(input_claims(flat, n)),
        all_zero(output_claims(flat, n)),
    decreases n,
{
    if n > 0 {
        let g = flat[0];
        lemma_ends_closed(flat, n - 1);
        let bits = bits_at(core_of(flat), 0, n - 1);
        let pair = pair_at(flat, BLAKE3_COL_INPUT_LIMBS as int, n - 1);
        lemma_closed(g, bits, pair, packed(bits));
        lemma_all_zero_concat(bits_claims(g, bits), limbs_claims(g, pair, packed(bits)));
        lemma_all_zero_concat(
            input_claims(flat, n - 1),
            bits_claims(g, bits) + limbs_claims(g, pair, packed(bits)),
        );
        let out = packed(bits_at(core_of(flat), OUTPUTS_AT as int, n - 1));
        let out_pair = pair_at(flat, BLAKE3_COL_OUTPUT_LIMBS as int, n - 1);
        lemma_closed(g, bits, out_pair, out);
        lemma_all_zero_concat(output_claims(flat, n - 1), limbs_claims(g, out_pair, out));
    }
}

/// Every constraint is zero on a row of multiplicity zero, whatever else it
/// holds: padding rows need no hash.
pub proof fn padding_satisfies<T: PrimeFieldModel>(flat: Seq<T>)
    requires
        flat[0].value() == 0,
    ensures
        all_zero(table_claims(flat)),
{
    lemma_ends_closed(flat, 16);
    lemma_ends_closed(flat, 8);
    core_at_any_multiplicity(flat[0], flat[0], core_of(flat));
    lemma_row_blocks(flat);
}

/// The multiplicity of a row whose constraints are zero is zero or one.
pub proof fn multiplicity_is_bit<T: PrimeFieldModel>(flat: Seq<T>)
    requires
        all_zero(table_claims(flat)),
    ensures
        is_bit(flat[0]),
{
    lemma_row_blocks(flat);
}

/// Every constraint is zero on a filled row whose multiplicity is a bit, as long
/// as the input limbs of a row that counts are sixteen-bit numbers.
pub proof fn filled_row_satisfies(trace: Seq<Vec<Felt>>, r: int)
    requires
        trace.len() >= TABLE_CELLS,
        is_bit(filled_row(trace, r)[0]),
        filled_row(trace, r)[0]@ == 1 ==> forall|k: int|
            0 <= k < 32 ==> (#[trigger] row_limbs(trace, r)[k])@ < 0x1_0000,
    ensures
        all_zero(table_claims(filled_row(trace, r))),
{
    if filled_row(trace, r)[0]@ == 1 {
        lemma_filled_row(trace, r);
    } else {
        padding_satisfies(filled_row(trace, r));
    }
}

/// A call records the output that filling its row computes.
pub proof fn execution_agrees_with_filling(
    arg_a: Felt,
    arg_b: Felt,
    arg_c: Felt,
    input: Seq<Felt>,
    trace: Seq<Vec<Felt>>,
    r: int,
)
    requires
        input.len() == 32,
        trace.len() >= TABLE_CELLS,
        forall|c: int|
            0 <= c < TABLE_CELLS ==> padded(#[trigger] trace[c]@, r) == executed_row(
                arg_a,
                arg_b,
                arg_c,
                input,
            )[c],
    ensures
        forall|c: int|
            0 <= c < BLAKE3_COL_P3_START ==> #[trigger] filled_row(trace, r)[c] == executed_row(
                arg_a,
                arg_b,
                arg_c,
                input,
            )[c],
{
    assert forall|i: int| 0 <= i < 32 implies row_limbs(trace, r)[i] == input[i] by {
        assert(padded(trace[BLAKE3_COL_INPUT_LIMBS + i]@, r) == input[i]);
    }
    assert(row_limbs(trace, r) =~= input);
    assert forall|c: int| 0 <= c < BLAKE3_COL_P3_START implies #[trigger] filled_row(trace, r)[c]
        == executed_row(arg_a, arg_b, arg_c, input)[c] by {
        assert(padded(trace[c]@, r) == executed_row(arg_a, arg_b, arg_c, input)[c]);
    }
}

} // verus!

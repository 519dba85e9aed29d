//! How the claims of the BLAKE3 table depend on the multiplicity of a row: each is
//! a value that does not depend on it, times the multiplicity.

use crate::bits::all_zero;
use crate::blake3::schedule;
use crate::blake3_air::{
    add2_claims, add3_claims, bits_at, bits_claims, carry2, carry3, column_at, column_claims,
    columns_claims, core_claims, diagonal_at, diagonal_claims, diagonals_claims,
    first_outputs_claims, gate, half_claims, helpers_claims, join_of, limbs_claims, message, packed,
    pair_at, round_at, round_claims, round_state, rounds_claims, second_output_claims,
    second_outputs_claims, state_before, two_32, xor_shift_claims, xored, HELPERS_AT, OUTPUTS_AT,
    ROW1_AT, ROW2_AT, ROW3_AT,
};
use crate::blake3_gadgets::{lemma_gate_closed, lemma_gate_open};
use crate::field::{bool_check_of, xor_of, RingModel};
use crate::prime_field::{lemma_prod_value, PrimeFieldModel};
use vstd::prelude::*;

verus! {

/// The same value, gated by `g` and by `h`.
pub open spec fn gated_pair<T: RingModel>(g: T, h: T, u: T, v: T) -> bool {
    exists|x: T| u == #[trigger] gate(g, x) && v == gate(h, x)
}

/// The same values, gated by `g` in `a` and by `h` in `b`.
#[verifier::opaque]
pub open spec fn same_gated<T: RingModel>(g: T, h: T, a: Seq<T>, b: Seq<T>) -> bool {
    &&& a.len() == b.len()
    &&& forall|i: int| 0 <= i < b.len() ==> gated_pair(g, h, a[i], #[trigger] b[i])
}

/// A multiplicity of zero makes every claim zero; claims that are zero at
/// multiplicity one are zero at every multiplicity.
proof fn lemma_same_gated<T: PrimeFieldModel>(g: T, h: T, a: Seq<T>, b: Seq<T>)
    requires
        same_gated(g, h, a, b),
    ensures
        h.value() == 0 ==> all_zero(b),
        g.value() == 1 && all_zero(a) ==> all_zero(b),
{
    reveal(same_gated);
    if h.value() == 0 {
        assert forall|i: int| 0 <= i < b.len() implies (#[trigger] b[i]).value() == 0 by {
            assert(gated_pair(g, h, a[i], b[i]));
            let x = choose|x: T| a[i] == #[trigger] gate(g, x) && b[i] == gate(h, x);
            lemma_gate_closed(h, x);
        }
    }
    if g.value() == 1 && all_zero(a) {
        assert forall|i: int| 0 <= i < b.len() implies (#[trigger] b[i]).value() == 0 by {
            assert(gated_pair(g, h, a[i], b[i]));
            let x = choose|x: T| a[i] == #[trigger] gate(g, x) && b[i] == gate(h, x);
            assert(a[i].value() == 0);
            lemma_gate_open(g, x);
            reveal(gate);
            lemma_prod_value(h, x);
        }
    }
}

proof fn lemma_concat<T: RingModel>(g: T, h: T, a: Seq<T>, b: Seq<T>, c: Seq<T>, d: Seq<T>)
    requires
        same_gated(g, h, a, b),
        same_gated(g, h, c, d),
    ensures
        same_gated(g, h, a + c, b + d),
{
    reveal(same_gated);
    assert forall|i: int| 0 <= i < (b + d).len() implies gated_pair(
        g,
        h,
        (a + c)[i],
        #[trigger] (b + d)[i],
    ) by {
        if i < b.len() {
            assert(gated_pair(g, h, a[i], b[i]));
        } else {
            assert(gated_pair(g, h, c[i - b.len()], d[i - b.len()]));
        }
    }
}

proof fn lemma_empty<T: RingModel>(g: T, h: T)
    ensures
        same_gated(g, h, Seq::<T>::empty(), Seq::<T>::empty()),
{
    reveal(same_gated);
}

proof fn lemma_bits<T: RingModel>(g: T, h: T, bits: Seq<T>)
    ensures
        same_gated(g, h, bits_claims(g, bits), bits_claims(h, bits)),
{
    reveal(same_gated);
    let (a, b) = (bits_claims(g, bits), bits_claims(h, bits));
    assert forall|i: int| 0 <= i < b.len() implies gated_pair(g, h, a[i], #[trigger] b[i]) by {
        assert(a[i] == gate(g, bool_check_of(bits[i])));
    }
}

proof fn lemma_two<T: RingModel>(g: T, h: T, x: T, y: T)
    ensures
        same_gated(g, h, seq![gate(g, x), gate(g, y)], seq![gate(h, x), gate(h, y)]),
{
    reveal(same_gated);
    assert(gated_pair(g, h, gate(g, x), gate(h, x)));
    assert(gated_pair(g, h, gate(g, y), gate(h, y)));
}

proof fn lemma_limbs<T: RingModel>(g: T, h: T, x: Seq<T>, y: Seq<T>)
    ensures
        same_gated(g, h, limbs_claims(g, x, y), limbs_claims(h, x, y)),
{
    lemma_two(g, h, T::diff_of(x[0], y[0]), T::diff_of(x[1], y[1]));
}

proof fn lemma_add3<T: RingModel>(g: T, h: T, a: Seq<T>, b: Seq<T>, c: Seq<T>, d: Seq<T>)
    ensures
        same_gated(g, h, add3_claims(g, a, b, c, d), add3_claims(h, a, b, c, d)),
{
    let x = T::diff_of(T::diff_of(T::diff_of(a[0], b[0]), c[0]), d[0]);
    let y = T::diff_of(T::diff_of(T::diff_of(a[1], b[1]), c[1]), d[1]);
    lemma_two(g, h, carry3(join_of(x, y), two_32::<T>()), carry3(x, T::elem(0x1_0000)));
}

proof fn lemma_add2<T: RingModel>(g: T, h: T, a: Seq<T>, b: Seq<T>, c: Seq<T>)
    ensures
        same_gated(g, h, add2_claims(g, a, b, c), add2_claims(h, a, b, c)),
{
    let x = T::diff_of(T::diff_of(a[0], b[0]), c[0]);
    let y = T::diff_of(T::diff_of(a[1], b[1]), c[1]);
    lemma_two(g, h, carry2(join_of(x, y), two_32::<T>()), carry2(x, T::elem(0x1_0000)));
}

proof fn lemma_xor_shift<T: RingModel>(g: T, h: T, a: Seq<T>, b: Seq<T>, c: Seq<T>, shift: int)
    ensures
        same_gated(
            g,
            h,
            xor_shift_claims(g, a, b, c, shift),
            xor_shift_claims(h, a, b, c, shift),
        ),
{
    let y = packed(xored(b, c, shift));
    lemma_bits(g, h, c);
    lemma_limbs(g, h, a, y);
    lemma_concat(
        g,
        h,
        bits_claims(g, c),
        bits_claims(h, c),
        limbs_claims(g, a, y),
        limbs_claims(h, a, y),
    );
}

proof fn lemma_half<T: RingModel>(
    g: T,
    h: T,
    from: (Seq<T>, Seq<T>, Seq<T>, Seq<T>),
    m: Seq<T>,
    to: (Seq<T>, Seq<T>, Seq<T>, Seq<T>),
    second: bool,
)
    ensures
        same_gated(
            g,
            h,
            half_claims(g, from, m, to, second),
            half_claims(h, from, m, to, second),
        ),
{
    reveal(half_claims);
    let (rot_1, rot_2) = if second {
        (8int, 7int)
    } else {
        (16int, 12int)
    };
    let b1 = add3_claims(g, to.0, from.0, packed(from.1), m);
    let b2 = xor_shift_claims(g, to.0, from.3, to.3, rot_1);
    let b3 = add2_claims(g, to.2, from.2, packed(to.3));
    let b4 = xor_shift_claims(g, to.2, from.1, to.1, rot_2);
    let c1 = add3_claims(h, to.0, from.0, packed(from.1), m);
    let c2 = xor_shift_claims(h, to.0, from.3, to.3, rot_1);
    let c3 = add2_claims(h, to.2, from.2, packed(to.3));
    let c4 = xor_shift_claims(h, to.2, from.1, to.1, rot_2);
    lemma_add3(g, h, to.0, from.0, packed(from.1), m);
    lemma_xor_shift(g, h, to.0, from.3, to.3, rot_1);
    lemma_add2(g, h, to.2, from.2, packed(to.3));
    lemma_xor_shift(g, h, to.2, from.1, to.1, rot_2);
    lemma_concat(g, h, b1, c1, b2, c2);
    lemma_concat(g, h, b1 + b2, c1 + c2, b3, c3);
    lemma_concat(g, h, b1 + b2 + b3, c1 + c2 + c3, b4, c4);
}

proof fn lemma_column<T: RingModel>(
    g: T,
    h: T,
    input: Seq<T>,
    round: Seq<T>,
    m: Seq<Seq<T>>,
    i: int,
)
    ensures
        same_gated(
            g,
            h,
            column_claims(g, input, round, m, i),
            column_claims(h, input, round, m, i),
        ),
{
    reveal(column_claims);
    let (s0, s1) = (round_state(round, 0), round_state(round, 1));
    lemma_half(g, h, column_at(input, i), m[2 * i], column_at(s0, i), false);
    lemma_half(g, h, column_at(s0, i), m[2 * i + 1], column_at(s1, i), true);
    lemma_concat(
        g,
        h,
        half_claims(g, column_at(input, i), m[2 * i], column_at(s0, i), false),
        half_claims(h, column_at(input, i), m[2 * i], column_at(s0, i), false),
        half_claims(g, column_at(s0, i), m[2 * i + 1], column_at(s1, i), true),
        half_claims(h, column_at(s0, i), m[2 * i + 1], column_at(s1, i), true),
    );
}

proof fn lemma_diagonal<T: RingModel>(g: T, h: T, round: Seq<T>, m: Seq<Seq<T>>, i: int)
    ensures
        same_gated(g, h, diagonal_claims(g, round, m, i), diagonal_claims(h, round, m, i)),
{
    reveal(diagonal_claims);
    let (s1, s2, s3) = (round_state(round, 1), round_state(round, 2), round_state(round, 3));
    lemma_half(g, h, diagonal_at(s1, i), m[8 + 2 * i], diagonal_at(s2, i), false);
    lemma_half(g, h, diagonal_at(s2, i), m[9 + 2 * i], diagonal_at(s3, i), true);
    lemma_concat(
        g,
        h,
        half_claims(g, diagonal_at(s1, i), m[8 + 2 * i], diagonal_at(s2, i), false),
        half_claims(h, diagonal_at(s1, i), m[8 + 2 * i], diagonal_at(s2, i), false),
        half_claims(g, diagonal_at(s2, i), m[9 + 2 * i], diagonal_at(s3, i), true),
        half_claims(h, diagonal_at(s2, i), m[9 + 2 * i], diagonal_at(s3, i), true),
    );
}

proof fn lemma_columns<T: RingModel>(
    g: T,
    h: T,
    input: Seq<T>,
    round: Seq<T>,
    m: Seq<Seq<T>>,
    n: int,
)
    ensures
        same_gated(
            g,
            h,
            columns_claims(g, input, round, m, n),
            columns_claims(h, input, round, m, n),
        ),
        same_gated(g, h, diagonals_claims(g, round, m, n), diagonals_claims(h, round, m, n)),
    decreases n,
{
    if n <= 0 {
        lemma_empty(g, h);
    } else {
        let i = n - 1;
        lemma_columns(g, h, input, round, m, i);
        lemma_column(g, h, input, round, m, i);
        lemma_diagonal(g, h, round, m, i);
        lemma_concat(
            g,
            h,
            columns_claims(g, input, round, m, i),
            columns_claims(h, input, round, m, i),
            column_claims(g, input, round, m, i),
            column_claims(h, input, round, m, i),
        );
        lemma_concat(
            g,
            h,
            diagonals_claims(g, round, m, i),
            diagonals_claims(h, round, m, i),
            diagonal_claims(g, round, m, i),
            diagonal_claims(h, round, m, i),
        );
    }
}

proof fn lemma_round<T: RingModel>(g: T, h: T, input: Seq<T>, round: Seq<T>, m: Seq<Seq<T>>)
    ensures
        same_gated(g, h, round_claims(g, input, round, m), round_claims(h, input, round, m)),
{
    reveal(round_claims);
    lemma_columns(g, h, input, round, m, 4);
    lemma_concat(
        g,
        h,
        columns_claims(g, input, round, m, 4),
        columns_claims(h, input, round, m, 4),
        diagonals_claims(g, round, m, 4),
        diagonals_claims(h, round, m, 4),
    );
}

proof fn lemma_rounds<T: RingModel>(g: T, h: T, core: Seq<T>, n: int)
    ensures
        same_gated(g, h, rounds_claims(g, core, n), rounds_claims(h, core, n)),
    decreases n,
{
    if n <= 0 {
        lemma_empty(g, h);
    } else {
        lemma_rounds(g, h, core, n - 1);
        let input = state_before(core, n - 1);
        let round = round_at(core, n - 1);
        let m = schedule(message(core), n - 1);
        lemma_round(g, h, input, round, m);
        lemma_concat(
            g,
            h,
            rounds_claims(g, core, n - 1),
            rounds_claims(h, core, n - 1),
            round_claims(g, input, round, m),
            round_claims(h, input, round, m),
        );
    }
}

proof fn lemma_helpers<T: RingModel>(g: T, h: T, core: Seq<T>, n: int)
    ensures
        same_gated(g, h, helpers_claims(g, core, n), helpers_claims(h, core, n)),
    decreases n,
{
    if n <= 0 {
        lemma_empty(g, h);
    } else {
        let i = n - 1;
        lemma_helpers(g, h, core, i);
        let bits = bits_at(core, HELPERS_AT as int, i);
        let row2 = pair_at(state_before(core, 7), ROW2_AT as int, i);
        lemma_bits(g, h, bits);
        lemma_limbs(g, h, packed(bits), row2);
        let (b1, b2) = (bits_claims(g, bits), limbs_claims(g, packed(bits), row2));
        let (c1, c2) = (bits_claims(h, bits), limbs_claims(h, packed(bits), row2));
        lemma_concat(g, h, b1, c1, b2, c2);
        lemma_concat(
            g,
            h,
            helpers_claims(g, core, i),
            helpers_claims(h, core, i),
            b1 + b2,
            c1 + c2,
        );
    }
}

proof fn lemma_first_outputs<T: RingModel>(g: T, h: T, core: Seq<T>, n: int)
    ensures
        same_gated(g, h, first_outputs_claims(g, core, n), first_outputs_claims(h, core, n)),
    decreases n,
{
    if n <= 0 {
        lemma_empty(g, h);
    } else {
        let i = n - 1;
        lemma_first_outputs(g, h, core, i);
        let helper = bits_at(core, HELPERS_AT as int, i);
        let out = bits_at(core, OUTPUTS_AT as int, i);
        let row0 = pair_at(state_before(core, 7), 0, i);
        lemma_bits(g, h, out);
        lemma_xor_shift(g, h, row0, out, helper, 0);
        let (b1, b2) = (bits_claims(g, out), xor_shift_claims(g, row0, out, helper, 0));
        let (c1, c2) = (bits_claims(h, out), xor_shift_claims(h, row0, out, helper, 0));
        lemma_concat(g, h, b1, c1, b2, c2);
        lemma_concat(
            g,
            h,
            first_outputs_claims(g, core, i),
            first_outputs_claims(h, core, i),
            b1 + b2,
            c1 + c2,
        );
    }
}

proof fn lemma_second_output<T: RingModel>(g: T, h: T, core: Seq<T>, i: int)
    ensures
        same_gated(g, h, second_output_claims(g, core, i), second_output_claims(h, core, i)),
{
    reveal(same_gated);
    let (a, b) = (second_output_claims(g, core, i), second_output_claims(h, core, i));
    let last = state_before(core, 7);
    assert forall|j: int| 0 <= j < b.len() implies gated_pair(g, h, a[j], #[trigger] b[j]) by {
        let x = T::diff_of(
            bits_at(core, OUTPUTS_AT as int, 4 + i)[j],
            xor_of(
                bits_at(last, ROW1_AT as int, i)[j],
                bits_at(last, ROW3_AT as int, i)[j],
            ),
        );
        assert(a[j] == gate(g, x) && b[j] == gate(h, x));
    }
}

proof fn lemma_second_outputs<T: RingModel>(g: T, h: T, core: Seq<T>, n: int)
    ensures
        same_gated(g, h, second_outputs_claims(g, core, n), second_outputs_claims(h, core, n)),
    decreases n,
{
    if n <= 0 {
        lemma_empty(g, h);
    } else {
        lemma_second_outputs(g, h, core, n - 1);
        lemma_second_output(g, h, core, n - 1);
        lemma_concat(
            g,
            h,
            second_outputs_claims(g, core, n - 1),
            second_outputs_claims(h, core, n - 1),
            second_output_claims(g, core, n - 1),
            second_output_claims(h, core, n - 1),
        );
    }
}

/// The claims between input bits and output bits gate the same values, whatever
/// the multiplicity.
proof fn lemma_core<T: RingModel>(g: T, h: T, core: Seq<T>)
    ensures
        same_gated(g, h, core_claims(g, core), core_claims(h, core)),
{
    let (b1, c1) = (rounds_claims(g, core, 7), rounds_claims(h, core, 7));
    let (b2, c2) = (helpers_claims(g, core, 4), helpers_claims(h, core, 4));
    let (b3, c3) = (first_outputs_claims(g, core, 4), first_outputs_claims(h, core, 4));
    let (b4, c4) = (second_outputs_claims(g, core, 4), second_outputs_claims(h, core, 4));
    lemma_rounds(g, h, core, 7);
    lemma_helpers(g, h, core, 4);
    lemma_first_outputs(g, h, core, 4);
    lemma_second_outputs(g, h, core, 4);
    lemma_concat(g, h, b1, c1, b2, c2);
    lemma_concat(g, h, b1 + b2, c1 + c2, b3, c3);
    lemma_concat(g, h, b1 + b2 + b3, c1 + c2 + c3, b4, c4);
}

/// Claims that hold at multiplicity one hold at every multiplicity, and at
/// multiplicity zero they hold of any columns.
pub proof fn core_at_any_multiplicity<T: PrimeFieldModel>(g: T, h: T, core: Seq<T>)
    ensures
        g.value() == 1 && all_zero(core_claims(g, core)) ==> all_zero(core_claims(h, core)),
        h.value() == 0 ==> all_zero(core_claims(h, core)),
{
    lemma_core(g, h, core);
    lemma_same_gated(g, h, core_claims(g, core), core_claims(h, core));
}

/// Limbs and bits are claimed of no row of multiplicity zero.
pub proof fn lemma_closed<T: PrimeFieldModel>(g: T, bits: Seq<T>, x: Seq<T>, y: Seq<T>)
    requires
        g.value() == 0,
    ensures
        all_zero(bits_claims(g, bits)),
        all_zero(limbs_claims(g, x, y)),
{
    lemma_bits(g, g, bits);
    lemma_limbs(g, g, x, y);
    lemma_same_gated(g, g, bits_claims(g, bits), bits_claims(g, bits));
    lemma_same_gated(g, g, limbs_claims(g, x, y), limbs_claims(g, x, y));
}

} // verus!

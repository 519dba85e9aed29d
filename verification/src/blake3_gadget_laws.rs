//! What the claims of the BLAKE3 gadgets come down to, of every call that makes them:
//! where the multiplicity is one they hold exactly where the words are right, and where
//! it is zero they hold of anything.

use crate::air::TableBuilder;
use crate::bits::{
    all_zero, is_bit, lemma_all_zero_concat, lemma_bool_check, lemma_diff_zero, lemma_prod_zero,
    lemma_xor_bits, truth,
};
use crate::blake3::verifiable_half_round;
use crate::blake3_air::{
    add2_claims, add3_claims, bits_claims, eq_gate, gate, half_claims, limbs_claims, word_bit,
    xor_shift_claims, xored,
};
use crate::blake3_eval::{
    add2, add3, assert_bits_gated, assert_eq_gated, assert_limbs_gated, assert_zero_gated,
    pack_bits_le, pack_word, quarter_round_function, u32_bits_if, u32_limbs_if, xor, xor_32_shift,
    QuarterRound,
};
use crate::blake3_gadgets::{
    lemma_add2, lemma_add3, lemma_half_complete, lemma_half_sound, lemma_xor_shift_complete,
    lemma_xor_shift_sound, quad_is,
};
use crate::blake3_laws::{lemma_const_bits, lemma_const_limbs};
use crate::blake3_trace::{u32_to_bits_le, u32_to_limbs};
use crate::field::{bool_check_of, double_of, Ring};
use crate::prime_field::{
    has_limb_sums, has_limbs, lemma_stands_for_diff, lemma_stands_for_prod, lemma_stands_for_sum,
    lemma_stands_for_value, PrimeFieldModel,
};
use crate::words::{
    bits_are, lemma_limbs_unique, lemma_packed_limbs, lemma_rotated_bit, lemma_word_unique,
    lemma_xor_bit, limbs_are, rotated,
};
use vstd::prelude::*;

verus! {

/// Nothing changes but what is asserted, and `n` values are added to that.
pub open spec fn adds_claims<T>(before: TableBuilder<T>, after: TableBuilder<T>, n: nat) -> bool {
    &&& after.flat == before.flat
    &&& after.declared == before.declared
    &&& after.bus == before.bus
    &&& after.asserted@.len() == before.asserted@.len() + n
    &&& after.asserted@.take(before.asserted@.len() as int) == before.asserted@
}

/// What was asserted since.
pub open spec fn new_claims<T>(before: TableBuilder<T>, after: TableBuilder<T>) -> Seq<T> {
    after.asserted@.skip(before.asserted@.len() as int)
}

proof fn lemma_new_claims<T>(before: TableBuilder<T>, after: TableBuilder<T>, claims: Seq<T>)
    requires
        after.flat == before.flat,
        after.declared == before.declared,
        after.bus == before.bus,
        after.asserted@ == before.asserted@ + claims,
    ensures
        adds_claims(before, after, claims.len()),
        new_claims(before, after) == claims,
{
    assert(after.asserted@.take(before.asserted@.len() as int) =~= before.asserted@);
    assert(after.asserted@.skip(before.asserted@.len() as int) =~= claims);
}

/// Bits are packed by place value: no bits make zero, and a bit before others makes
/// itself and twice what they make.
pub proof fn packing_is_positional<T: Ring>(
    none: &[T],
    bits: &[T],
    more: &[T],
    zero: T,
    r: T,
    next: T,
    twice: T,
    sum: T,
)
    requires
        none@.len() == 0,
        more@.len() > 0,
        more@.drop_first() == bits@,
        call_ensures(pack_bits_le::<T>, (none,), zero),
        call_ensures(pack_bits_le::<T>, (bits,), r),
        call_ensures(pack_bits_le::<T>, (more,), next),
        call_ensures(T::plus, (&r, &r), twice),
        call_ensures(T::plus, (&twice, &more@[0]), sum),
    ensures
        zero == T::elem(0),
        next == sum,
{
}

/// The bits of a word are packed into its limbs, and constants are taken apart into
/// both.
pub proof fn words_are_taken_apart<T: Ring + Copy + PrimeFieldModel>(
    w: u32,
    limbs: [T; 2],
    bits: [T; 32],
    same_limbs: [T; 2],
    same_bits: [T; 32],
    packed_bits: [T; 2],
    j: int,
)
    requires
        call_ensures(u32_limbs_if::<T>, (w,), limbs),
        call_ensures(u32_bits_if::<T>, (w,), bits),
        call_ensures(u32_to_limbs::<T>, (w,), same_limbs),
        call_ensures(u32_to_bits_le::<T>, (w,), same_bits),
        call_ensures(pack_word::<T>, (&bits,), packed_bits),
        0 <= j < 32,
    ensures
        same_limbs@ == limbs@,
        same_bits@ == bits@,
        bits@[j].value() == if (w >> (j as u32)) & 1 == 1 {
            1int
        } else {
            0
        },
        has_limbs::<T>() ==> limbs@[0].value() == w % 0x1_0000 && limbs@[1].value() == w
            / 0x1_0000,
        has_limbs::<T>() ==> packed_bits@[0].value() == limbs@[0].value() && packed_bits@[1].value()
            == limbs@[1].value(),
{
    lemma_const_limbs(limbs@, w);
    lemma_const_bits(bits@, w);
    lemma_packed_limbs(bits@, w);
}

/// `xor` is `x + y - 2xy`, and exclusive or on bits.
pub proof fn xor_extends_exclusive_or<T: Ring + PrimeFieldModel>(x: T, y: T, r: T)
    requires
        call_ensures(xor::<T>, (&x, &y), r),
    ensures
        r.value() == (x.value() + y.value() - 2 * (x.value() * y.value())) % T::order(),
        is_bit(x) && is_bit(y) ==> is_bit(r) && (truth(r) <==> truth(x) != truth(y)),
{
    lemma_stands_for_value(x);
    lemma_stands_for_value(y);
    let (a, b) = (x.value(), y.value());
    lemma_stands_for_sum(x, y, a, b);
    lemma_stands_for_sum(y, y, b, b);
    lemma_stands_for_prod(x, double_of(y), a, b + b);
    lemma_stands_for_diff(T::sum_of(x, y), T::prod_of(x, double_of(y)), a + b, a * (b + b));
    assert(a + b - a * (b + b) == a + b - 2 * (a * b)) by (nonlinear_arith);
    if is_bit(x) && is_bit(y) {
        lemma_xor_bits(x, y);
    }
}

/// A gated claim holds exactly where the multiplicity or the value is zero; a claim of
/// equality exactly where the multiplicity is zero or the values are the same.
pub proof fn gated_claims_hold_where_closed_or_true<T: Ring + PrimeFieldModel>(
    zero: &mut TableBuilder<T>,
    equal: &mut TableBuilder<T>,
    limbs: &mut TableBuilder<T>,
    g: T,
    x: [T; 2],
    y: [T; 2],
)
    requires
        call_ensures(assert_zero_gated::<T>, (zero, &g, &x@[0]), ()),
        call_ensures(assert_eq_gated::<T>, (equal, &g, &x@[0], &y@[0]), ()),
        call_ensures(assert_limbs_gated::<T>, (limbs, &g, &x, &y), ()),
    ensures
        adds_claims(*old(zero), *final(zero), 1),
        adds_claims(*old(equal), *final(equal), 1),
        adds_claims(*old(limbs), *final(limbs), 2),
        all_zero(new_claims(*old(zero), *final(zero))) <==> g.value() == 0 || x@[0].value() == 0,
        all_zero(new_claims(*old(equal), *final(equal))) <==> g.value() == 0 || x@[0].value()
            == y@[0].value(),
        all_zero(new_claims(*old(limbs), *final(limbs))) <==> g.value() == 0 || (x@[0].value()
            == y@[0].value() && x@[1].value() == y@[1].value()),
{
    reveal(gate);
    let c = seq![gate(g, x@[0])];
    lemma_new_claims(*old(zero), *final(zero), c);
    assert(all_zero(c) <==> c[0].value() == 0);
    lemma_prod_zero(g, x@[0]);
    let e = seq![eq_gate(g, x@[0], y@[0])];
    lemma_new_claims(*old(equal), *final(equal), e);
    assert(all_zero(e) <==> e[0].value() == 0);
    lemma_prod_zero(g, T::diff_of(x@[0], y@[0]));
    lemma_diff_zero(x@[0], y@[0]);
    let l = limbs_claims(g, x@, y@);
    lemma_new_claims(*old(limbs), *final(limbs), l);
    assert(all_zero(l) <==> l[0].value() == 0 && l[1].value() == 0);
    lemma_prod_zero(g, T::diff_of(x@[1], y@[1]));
    lemma_diff_zero(x@[1], y@[1]);
}

/// The claim of bits holds exactly where the multiplicity is zero or every value is
/// zero or one.
pub proof fn bits_are_claimed_one_by_one<T: Ring + PrimeFieldModel>(
    builder: &mut TableBuilder<T>,
    g: T,
    bits: [T; 32],
)
    requires
        call_ensures(assert_bits_gated::<T>, (builder, &g, &bits), ()),
    ensures
        adds_claims(*old(builder), *final(builder), 32),
        all_zero(new_claims(*old(builder), *final(builder))) <==> g.value() == 0 || forall|i: int|
            0 <= i < 32 ==> is_bit(#[trigger] bits@[i]),
{
    reveal(gate);
    let f = bits_claims(g, bits@);
    lemma_new_claims(*old(builder), *final(builder), f);
    assert forall|i: int| 0 <= i < 32 implies ((#[trigger] f[i]).value() == 0 <==> g.value() == 0
        || is_bit(bits@[i])) by {
        lemma_prod_zero(g, bool_check_of(bits@[i]));
        lemma_bool_check(bits@[i]);
    }
    if all_zero(f) && g.value() != 0 {
        assert forall|i: int| 0 <= i < 32 implies is_bit(#[trigger] bits@[i]) by {
            assert(f[i].value() == 0);
        }
    }
}

/// The claims of the additions hold exactly where the words add up modulo `2^32`.
pub proof fn additions_are_claimed<T: Ring + PrimeFieldModel>(
    three: &mut TableBuilder<T>,
    two: &mut TableBuilder<T>,
    g: T,
    a: [T; 2],
    b: [T; 2],
    c: [T; 2],
    d: [T; 2],
    wa: u32,
    wb: u32,
    wc: u32,
    wd: u32,
)
    requires
        has_limb_sums::<T>(),
        g.value() == 1,
        limbs_are(a@, wa),
        limbs_are(b@, wb),
        limbs_are(c@, wc),
        limbs_are(d@, wd),
        call_ensures(add3::<T>, (three, &g, &a, &b, &c, &d), ()),
        call_ensures(add2::<T>, (two, &g, &a, &b, &c), ()),
    ensures
        adds_claims(*old(three), *final(three), 2),
        adds_claims(*old(two), *final(two), 2),
        all_zero(new_claims(*old(three), *final(three))) <==> wa == (wb + wc + wd)
            % 0x1_0000_0000,
        all_zero(new_claims(*old(two), *final(two))) <==> wa == (wb + wc) % 0x1_0000_0000,
{
    lemma_new_claims(*old(three), *final(three), add3_claims(g, a@, b@, c@, d@));
    lemma_new_claims(*old(two), *final(two), add2_claims(g, a@, b@, c@));
    lemma_add3(g, a@, b@, c@, d@, wa, wb, wc, wd);
    lemma_add2(g, a@, b@, c@, wa, wb, wc);
}

/// The claims of an exclusive or with rotation hold exactly where `c` holds a word whose
/// rotation to the left, combined with `b`, is `a`.
pub proof fn rotated_exclusive_or_is_claimed<T: Ring + Copy + PrimeFieldModel>(
    builder: &mut TableBuilder<T>,
    g: T,
    a: [T; 2],
    b: [T; 32],
    c: [T; 32],
    shift: usize,
    wa: u32,
    wb: u32,
)
    requires
        has_limbs::<T>(),
        shift <= 32,
        g.value() == 1,
        limbs_are(a@, wa),
        bits_are(b@, wb),
        call_ensures(xor_32_shift::<T>, (builder, &g, &a, &b, &c, shift), ()),
    ensures
        adds_claims(*old(builder), *final(builder), 34),
        all_zero(new_claims(*old(builder), *final(builder))) <==> exists|wc: u32| #[trigger]
            bits_are(c@, wc) && forall|i: int|
                0 <= i < 32 ==> #[trigger] word_bit(wa, i) == (word_bit(wb, i) != word_bit(
                    wc,
                    (i + 32 - shift) % 32,
                )),
{
    let f = xor_shift_claims(g, a@, b@, c@, shift as int);
    lemma_new_claims(*old(builder), *final(builder), f);
    let s: int = if shift == 32 {
        0
    } else {
        shift as int
    };
    assert(xored(b@, c@, shift as int) =~= xored(b@, c@, s));
    assert(f == xor_shift_claims(g, a@, b@, c@, s));
    let back = rotated(wb ^ wa, s);
    if all_zero(f) {
        let same = lemma_xor_shift_sound(g, a@, b@, c@, s, wb);
        lemma_limbs_unique(a@, wa, same);
        assert(bits_are(c@, back));
        assert forall|i: int| 0 <= i < 32 implies #[trigger] word_bit(wa, i) == (word_bit(wb, i)
            != word_bit(back, (i + 32 - shift) % 32)) by {
            let j = (i + 32 - s) % 32;
            assert((j + s) % 32 == i);
            lemma_rotated_bit(wb ^ wa, s, j);
            lemma_xor_bit(wb, wa, i);
        }
    }
    if exists|wc: u32| #[trigger]
        bits_are(c@, wc) && forall|i: int|
            0 <= i < 32 ==> #[trigger] word_bit(wa, i) == (word_bit(wb, i) != word_bit(
                wc,
                (i + 32 - shift) % 32,
            )) {
        let wc = choose|wc: u32| #[trigger]
            bits_are(c@, wc) && forall|i: int|
                0 <= i < 32 ==> #[trigger] word_bit(wa, i) == (word_bit(wb, i) != word_bit(
                    wc,
                    (i + 32 - shift) % 32,
                ));
        assert forall|j: int| 0 <= j < 32 implies #[trigger] word_bit(back, j) == word_bit(
            wc,
            j,
        ) by {
            let i = (j + s) % 32;
            lemma_rotated_bit(wb ^ wa, s, j);
            lemma_xor_bit(wb, wa, i);
            assert((i + 32 - shift) % 32 == j);
            assert(word_bit(wa, i) == (word_bit(wb, i) != word_bit(wc, (i + 32 - shift) % 32)));
        }
        lemma_word_unique(back, wc);
        lemma_xor_shift_complete(g, a@, b@, c@, s, wa, wb);
    }
}

/// The claims of G hold exactly where its first half takes the first state to the one
/// between, and its second half that one to the last.
pub proof fn both_halves_of_g_are_claimed<T: Ring + Copy + PrimeFieldModel>(
    builder: &mut TableBuilder<T>,
    g: T,
    q: QuarterRound<T>,
    w: (u32, u32, u32, u32),
    m: u32,
    n: u32,
    middle: (u32, u32, u32, u32),
    end: (u32, u32, u32, u32),
)
    requires
        has_limb_sums::<T>(),
        g.value() == 1,
        quad_is((q.a@, q.b@, q.c@, q.d@), w),
        limbs_are(q.m_two_i@, m),
        limbs_are(q.m_two_i_plus_one@, n),
        call_ensures(verifiable_half_round, (w.0, w.1, w.2, w.3, m, false), middle),
        call_ensures(
            verifiable_half_round,
            (middle.0, middle.1, middle.2, middle.3, n, true),
            end,
        ),
        call_ensures(quarter_round_function::<T>, (builder, &g, &q), ()),
    ensures
        all_zero(new_claims(*old(builder), *final(builder))) <==> quad_is(
            (q.a_prime@, q.b_prime@, q.c_prime@, q.d_prime@),
            middle,
        ) && quad_is((q.a_output@, q.b_output@, q.c_output@, q.d_output@), end),
{
    let from = (q.a@, q.b@, q.c@, q.d@);
    let mid = (q.a_prime@, q.b_prime@, q.c_prime@, q.d_prime@);
    let to = (q.a_output@, q.b_output@, q.c_output@, q.d_output@);
    let first = half_claims(g, from, q.m_two_i@, mid, false);
    let second = half_claims(g, mid, q.m_two_i_plus_one@, to, true);
    lemma_new_claims(*old(builder), *final(builder), first + second);
    lemma_all_zero_concat(first, second);
    if all_zero(first) {
        lemma_half_sound(g, from, q.m_two_i@, mid, false, w, m);
        if all_zero(second) {
            lemma_half_sound(g, mid, q.m_two_i_plus_one@, to, true, middle, n);
        }
    }
    if quad_is(mid, middle) {
        lemma_half_complete(g, from, q.m_two_i@, mid, false, w, m);
        if quad_is(to, end) {
            lemma_half_complete(g, mid, q.m_two_i_plus_one@, to, true, middle, n);
        }
    }
}

} // verus!

//! What the gadgets of the BLAKE3 table mean on a row of multiplicity one:
//! additions modulo `2^32` on limbs, and exclusive or with rotation on bits.

use crate::bits::{
    all_zero, bit_value, is_bit, lemma_all_zero_concat, lemma_bool_check, lemma_diff_zero,
    lemma_prod_zero, lemma_xor_bits, truths,
};
use crate::blake3::{add_words, half_round_of};
use crate::blake3_air::{
    add2_claims, add3_claims, bits_claims, carry2, carry3, gate, half_claims, join_of, limbs_claims,
    packed, two_32, word_bit, xor_shift_claims, xored,
};
use crate::field::{bool_check_of, double_of, RingModel};
use crate::prime_field::{
    has_limb_sums, lemma_diff_value, lemma_elem_value, lemma_is_number, lemma_near_zero,
    lemma_no_zero_divisors, lemma_prod_value, lemma_stands_for_diff, lemma_stands_for_prod,
    lemma_stands_for_sum, lemma_stands_for_value, lemma_sum_value, lemma_value_range, stands_for,
    PrimeFieldModel,
};
use crate::words::{
    bits_are, lemma_bits_hold_word, lemma_packed_limbs, lemma_rotated_bit, lemma_word_of,
    lemma_word_unique, lemma_xor_bit, limbs_are, rotated, word_bits, word_of,
};
use vstd::prelude::*;

verus! {

broadcast use {
    lemma_value_range,
    lemma_elem_value,
    lemma_sum_value,
    lemma_diff_value,
    lemma_prod_value,
};

/// On a row of multiplicity one, a gated value is zero exactly where the value
/// is.
pub proof fn lemma_gate_open<T: PrimeFieldModel>(g: T, x: T)
    requires
        g.value() == 1,
    ensures
        gate(g, x).value() == 0 <==> x.value() == 0,
{
    reveal(gate);
    lemma_prod_zero(g, x);
}

/// On a row of multiplicity zero, every gated value is zero.
pub proof fn lemma_gate_closed<T: PrimeFieldModel>(g: T, x: T)
    requires
        g.value() == 0,
    ensures
        gate(g, x).value() == 0,
{
    reveal(gate);
    lemma_prod_zero(g, x);
}

/// The bit checks hold exactly on the bits of a word.
pub proof fn lemma_bits_claims<T: PrimeFieldModel>(g: T, bits: Seq<T>)
    requires
        g.value() == 1,
        bits.len() == 32,
    ensures
        all_zero(bits_claims(g, bits)) <==> bits_are(bits, word_of(truths(bits))),
{
    let f = bits_claims(g, bits);
    if all_zero(f) {
        assert forall|j: int| 0 <= j < 32 implies is_bit(#[trigger] bits[j]) by {
            assert(f[j].value() == 0);
            lemma_gate_open(g, bool_check_of(bits[j]));
            lemma_bool_check(bits[j]);
        }
        lemma_bits_hold_word(bits);
    }
    if bits_are(bits, word_of(truths(bits))) {
        lemma_bits_claims_hold(g, bits, word_of(truths(bits)));
    }
}

/// The bits of a word pass the bit checks.
pub proof fn lemma_bits_claims_hold<T: PrimeFieldModel>(g: T, bits: Seq<T>, w: u32)
    requires
        g.value() == 1,
        bits_are(bits, w),
    ensures
        all_zero(bits_claims(g, bits)),
{
    let f = bits_claims(g, bits);
    assert forall|j: int| 0 <= j < f.len() implies (#[trigger] f[j]).value() == 0 by {
        assert(bits[j].value() == bit_value(word_bit(w, j)));
        lemma_bool_check(bits[j]);
        lemma_gate_open(g, bool_check_of(bits[j]));
    }
}

/// Limbs are claimed equal exactly where they hold the same word.
pub proof fn lemma_limbs_claims<T: PrimeFieldModel>(g: T, x: Seq<T>, y: Seq<T>, w: u32)
    requires
        g.value() == 1,
        x.len() == 2,
        limbs_are(y, w),
    ensures
        all_zero(limbs_claims(g, x, y)) <==> limbs_are(x, w),
{
    let f = limbs_claims(g, x, y);
    lemma_gate_open(g, T::diff_of(x[0], y[0]));
    lemma_gate_open(g, T::diff_of(x[1], y[1]));
    lemma_diff_zero(x[0], y[0]);
    lemma_diff_zero(x[1], y[1]);
    if all_zero(f) {
        assert(f[0].value() == 0 && f[1].value() == 0);
    }
}

/// A multiple of `2^16` is zero only where the factor is.
proof fn lemma_scaled_zero<T: PrimeFieldModel>(t: int)
    requires
        has_limb_sums::<T>(),
        -T::order() < t < T::order(),
    ensures
        (0x1_0000 * t) % T::order() == 0 <==> t == 0,
{
    if (0x1_0000 * t) % T::order() == 0 {
        lemma_no_zero_divisors::<T>(0x1_0000, t);
        lemma_near_zero(0x1_0000, T::order());
        lemma_near_zero(t, T::order());
    }
    lemma_near_zero(0, T::order());
}

/// A carry of up to two is allowed.
proof fn lemma_carry3<T: PrimeFieldModel>(x: T, n: T, a: int, c: int)
    requires
        stands_for(x, a),
        stands_for(n, c),
    ensures
        carry3(x, n).value() == 0 <==> (a % T::order() == 0 || (a + c) % T::order() == 0 || (a + 2
            * c) % T::order() == 0),
{
    reveal(carry3);
    lemma_prod_zero(T::prod_of(x, T::sum_of(x, n)), T::sum_of(x, double_of(n)));
    lemma_prod_zero(x, T::sum_of(x, n));
    lemma_stands_for_sum(x, n, a, c);
    lemma_stands_for_sum(n, n, c, c);
    lemma_stands_for_sum(x, double_of(n), a, c + c);
}

/// A carry of up to one is allowed.
proof fn lemma_carry2<T: PrimeFieldModel>(x: T, n: T, a: int, c: int)
    requires
        stands_for(x, a),
        stands_for(n, c),
    ensures
        carry2(x, n).value() == 0 <==> (a % T::order() == 0 || (a + c) % T::order() == 0),
{
    reveal(carry2);
    lemma_prod_zero(x, T::sum_of(x, n));
    lemma_stands_for_sum(x, n, a, c);
}

/// The joined accumulator, and the carry out of a word.
proof fn lemma_joined<T: PrimeFieldModel>(low: T, high: T, l: int, h: int)
    requires
        stands_for(low, l),
        stands_for(high, h),
    ensures
        stands_for(join_of(low, high), l + 0x1_0000 * h),
        stands_for(two_32::<T>(), 0x1_0000_0000),
{
    reveal(join_of);
    reveal(two_32);
    let limb = T::elem(0x1_0000);
    T::elem_value(0x1_0000);
    lemma_stands_for_prod(limb, limb, 0x1_0000, 0x1_0000);
    lemma_stands_for_prod(limb, high, 0x1_0000, h);
    lemma_stands_for_sum(low, T::prod_of(limb, high), l, 0x1_0000 * h);
}

/// Whether a sum `s` of limbs may leave the limb `a` with `k` carries.
spec fn low_fits(a: int, s: int, k: int) -> bool {
    s == a + 0x1_0000 * k
}

/// The low claim of `add3` holds exactly where a carry of up to two fits.
proof fn lemma_low3<T: PrimeFieldModel>(x: T, a: int, s: int)
    requires
        has_limb_sums::<T>(),
        stands_for(x, a - s),
        0 <= a < 0x1_0000,
        0 <= s < 0x3_0000,
    ensures
        carry3(x, T::elem(0x1_0000)).value() == 0 <==> (low_fits(a, s, 0) || low_fits(a, s, 1)
            || low_fits(a, s, 2)),
{
    T::elem_value(0x1_0000);
    lemma_carry3(x, T::elem(0x1_0000), a - s, 0x1_0000);
    lemma_near_zero(a - s, T::order());
    lemma_near_zero(a - s + 0x1_0000, T::order());
    lemma_near_zero(a - s + 0x2_0000, T::order());
}

/// The low claim of `add2` holds exactly where a carry of up to one fits.
proof fn lemma_low2<T: PrimeFieldModel>(x: T, a: int, s: int)
    requires
        has_limb_sums::<T>(),
        stands_for(x, a - s),
        0 <= a < 0x1_0000,
        0 <= s < 0x2_0000,
    ensures
        carry2(x, T::elem(0x1_0000)).value() == 0 <==> (low_fits(a, s, 0) || low_fits(a, s, 1)),
{
    T::elem_value(0x1_0000);
    lemma_carry2(x, T::elem(0x1_0000), a - s, 0x1_0000);
    lemma_near_zero(a - s, T::order());
    lemma_near_zero(a - s + 0x1_0000, T::order());
}

/// Limb sums `s0, s1` leave the limbs `a0, a1` with `k` carries into the high limb
/// and `j` carries out of the word.
spec fn carries(a0: int, a1: int, s0: int, s1: int, k: int, j: int) -> bool {
    s0 == a0 + 0x1_0000 * k && s1 + k == a1 + 0x1_0000 * j
}

/// The limb sums leave the limbs with at most `n` carries each.
spec fn sum_fits(a0: int, a1: int, s0: int, s1: int, n: int) -> bool {
    exists|k: int, j: int| 0 <= k <= n && 0 <= j <= n && #[trigger] carries(a0, a1, s0, s1, k, j)
}

/// Limb sums leave the limbs of their total modulo `2^32`.
proof fn lemma_sum_fits(a0: int, a1: int, s0: int, s1: int, n: int)
    requires
        0 <= a0 < 0x1_0000,
        0 <= a1 < 0x1_0000,
        0 <= s0 <= (n + 1) * 0xFFFF,
        0 <= s1 <= (n + 1) * 0xFFFF,
        n == 1 || n == 2,
    ensures
        sum_fits(a0, a1, s0, s1, n) <==> a0 + 0x1_0000 * a1 == (s0 + 0x1_0000 * s1)
            % 0x1_0000_0000,
{
    let total = s0 + 0x1_0000 * s1;
    let w = a0 + 0x1_0000 * a1;
    if sum_fits(a0, a1, s0, s1, n) {
        let (k, j) = choose|k: int, j: int|
            0 <= k <= n && 0 <= j <= n && #[trigger] carries(a0, a1, s0, s1, k, j);
        assert(total == w + 0x1_0000_0000 * j);
    }
    if w == total % 0x1_0000_0000 {
        let k = s0 / 0x1_0000;
        let j = total / 0x1_0000_0000;
        assert(total == w + 0x1_0000_0000 * j);
        assert(s0 == a0 + 0x1_0000 * k);
        assert(carries(a0, a1, s0, s1, k, j));
    }
}

/// The accumulators of `add3` allow exactly the sums that fit.
proof fn lemma_accumulated3<T: PrimeFieldModel>(x: T, y: T, a0: int, a1: int, s0: int, s1: int)
    requires
        has_limb_sums::<T>(),
        stands_for(x, a0 - s0),
        stands_for(y, a1 - s1),
        0 <= a0 < 0x1_0000,
        0 <= a1 < 0x1_0000,
        0 <= s0 < 0x3_0000,
        0 <= s1 < 0x3_0000,
    ensures
        carry3(join_of(x, y), two_32::<T>()).value() == 0
            && carry3(x, T::elem(0x1_0000)).value() == 0
            <==> sum_fits(a0, a1, s0, s1, 2),
{
    let low = carry3(x, T::elem(0x1_0000));
    let high = carry3(join_of(x, y), two_32::<T>());
    lemma_low3(x, a0, s0);
    if low.value() == 0 {
        let k = if low_fits(a0, s0, 0) {
            0int
        } else if low_fits(a0, s0, 1) {
            1int
        } else {
            2int
        };
        assert(a0 - s0 == -0x1_0000 * k);
        lemma_high3(x, y, a1, s1, k);
        if high.value() == 0 {
            assert(carries(a0, a1, s0, s1, k, 0) || carries(a0, a1, s0, s1, k, 1) || carries(
                a0,
                a1,
                s0,
                s1,
                k,
                2,
            ));
        }
        if sum_fits(a0, a1, s0, s1, 2) {
            let (k2, j) = choose|k2: int, j: int|
                0 <= k2 <= 2 && 0 <= j <= 2 && #[trigger] carries(a0, a1, s0, s1, k2, j);
            assert(k2 == k);
        }
    } else if sum_fits(a0, a1, s0, s1, 2) {
        let (k, j) = choose|k: int, j: int|
            0 <= k <= 2 && 0 <= j <= 2 && #[trigger] carries(a0, a1, s0, s1, k, j);
        assert(low_fits(a0, s0, k));
    }
}

/// A difference of three elements stands for the difference.
proof fn lemma_two_off<T: PrimeFieldModel>(a: T, b: T, c: T, na: int, nb: int, nc: int)
    requires
        stands_for(a, na),
        stands_for(b, nb),
        stands_for(c, nc),
    ensures
        stands_for(T::diff_of(T::diff_of(a, b), c), na - (nb + nc)),
{
    lemma_stands_for_diff(a, b, na, nb);
    lemma_stands_for_diff(T::diff_of(a, b), c, na - nb, nc);
}

/// A difference of four elements stands for the difference.
proof fn lemma_three_off<T: PrimeFieldModel>(
    a: T,
    b: T,
    c: T,
    d: T,
    na: int,
    nb: int,
    nc: int,
    nd: int,
)
    requires
        stands_for(a, na),
        stands_for(b, nb),
        stands_for(c, nc),
        stands_for(d, nd),
    ensures
        stands_for(T::diff_of(T::diff_of(T::diff_of(a, b), c), d), na - (nb + nc + nd)),
{
    lemma_two_off(a, b, c, na, nb, nc);
    lemma_stands_for_diff(T::diff_of(T::diff_of(a, b), c), d, na - (nb + nc), nd);
}

/// The limbs of a word stand for its limbs.
proof fn lemma_limbs_stand_for<T: PrimeFieldModel>(limbs: Seq<T>, w: u32)
    requires
        limbs_are(limbs, w),
    ensures
        stands_for(limbs[0], w as int % 0x1_0000),
        stands_for(limbs[1], w as int / 0x1_0000),
{
    lemma_is_number(limbs[0], (w % 0x1_0000) as nat);
    lemma_is_number(limbs[1], (w / 0x1_0000) as nat);
}

/// The accumulators of limb sums that leave the limbs with `k` and `j` carries.
proof fn lemma_carried<T: PrimeFieldModel>(
    x: T,
    y: T,
    a0: int,
    a1: int,
    s0: int,
    s1: int,
    k: int,
    j: int,
)
    requires
        stands_for(x, a0 - s0),
        stands_for(y, a1 - s1),
        carries(a0, a1, s0, s1, k, j),
        0 <= k <= 2,
        0 <= j <= 2,
    ensures
        carry3(x, T::elem(0x1_0000)).value() == 0,
        carry3(join_of(x, y), two_32::<T>()).value() == 0,
        k <= 1 ==> carry2(x, T::elem(0x1_0000)).value() == 0,
        j <= 1 ==> carry2(join_of(x, y), two_32::<T>()).value() == 0,
{
    let limb = T::elem(0x1_0000);
    let (low, high) = (a0 - s0, a0 - s0 + 0x1_0000 * (a1 - s1));
    T::order_is_prime(2);
    lemma_near_zero(0, T::order());
    T::elem_value(0x1_0000);
    lemma_joined(x, y, low, a1 - s1);
    lemma_carry3(x, limb, low, 0x1_0000);
    lemma_carry2(x, limb, low, 0x1_0000);
    lemma_carry3(join_of(x, y), two_32::<T>(), high, 0x1_0000_0000);
    lemma_carry2(join_of(x, y), two_32::<T>(), high, 0x1_0000_0000);
    assert(low + k * 0x1_0000 == 0);
    assert(high + j * 0x1_0000_0000 == 0);
}

/// The accumulators stand for differences of representatives.
proof fn lemma_off_values<T: PrimeFieldModel>(a: Seq<T>, b: Seq<T>, c: Seq<T>, d: Seq<T>, i: int)
    ensures
        stands_for(
            T::diff_of(T::diff_of(a[i], b[i]), c[i]),
            a[i].value() - (b[i].value() + c[i].value()),
        ),
        stands_for(
            T::diff_of(T::diff_of(T::diff_of(a[i], b[i]), c[i]), d[i]),
            a[i].value() - (b[i].value() + c[i].value() + d[i].value()),
        ),
{
    let (va, vb, vc, vd) = (a[i].value(), b[i].value(), c[i].value(), d[i].value());
    lemma_stands_for_value(a[i]);
    lemma_stands_for_value(b[i]);
    lemma_stands_for_value(c[i]);
    lemma_stands_for_value(d[i]);
    lemma_two_off(a[i], b[i], c[i], va, vb, vc);
    lemma_three_off(a[i], b[i], c[i], d[i], va, vb, vc, vd);
}

/// The claims of `add3` hold exactly where the limb sums fit.
proof fn lemma_add3_fits<T: PrimeFieldModel>(g: T, a: Seq<T>, b: Seq<T>, c: Seq<T>, d: Seq<T>)
    requires
        has_limb_sums::<T>(),
        g.value() == 1,
        0 <= a[0].value() < 0x1_0000,
        0 <= a[1].value() < 0x1_0000,
        b[0].value() + c[0].value() + d[0].value() < 0x3_0000,
        b[1].value() + c[1].value() + d[1].value() < 0x3_0000,
    ensures
        all_zero(add3_claims(g, a, b, c, d)) <==> sum_fits(
            a[0].value(),
            a[1].value(),
            b[0].value() + c[0].value() + d[0].value(),
            b[1].value() + c[1].value() + d[1].value(),
            2,
        ),
{
    let f = add3_claims(g, a, b, c, d);
    let x = T::diff_of(T::diff_of(T::diff_of(a[0], b[0]), c[0]), d[0]);
    let y = T::diff_of(T::diff_of(T::diff_of(a[1], b[1]), c[1]), d[1]);
    lemma_off_values(a, b, c, d, 0);
    lemma_off_values(a, b, c, d, 1);
    let low = carry3(x, T::elem(0x1_0000));
    let high = carry3(join_of(x, y), two_32::<T>());
    lemma_gate_open(g, high);
    lemma_gate_open(g, low);
    assert(f[0] == gate(g, high) && f[1] == gate(g, low));
    lemma_accumulated3(
        x,
        y,
        a[0].value(),
        a[1].value(),
        b[0].value() + c[0].value() + d[0].value(),
        b[1].value() + c[1].value() + d[1].value(),
    );
}

/// The high claim of `add3`, once the low limbs leave `k` carries.
proof fn lemma_high3<T: PrimeFieldModel>(low: T, high: T, a1: int, s1: int, k: int)
    requires
        has_limb_sums::<T>(),
        stands_for(low, -0x1_0000 * k),
        stands_for(high, a1 - s1),
        0 <= a1 < 0x1_0000,
        0 <= s1 < 0x3_0000,
        0 <= k <= 2,
    ensures
        carry3(join_of(low, high), two_32::<T>()).value() == 0 <==> (s1 + k == a1 || s1 + k == a1
            + 0x1_0000 || s1 + k == a1 + 0x2_0000),
{
    let a = -0x1_0000 * k + 0x1_0000 * (a1 - s1);
    lemma_joined(low, high, -0x1_0000 * k, a1 - s1);
    lemma_carry3(join_of(low, high), two_32::<T>(), a, 0x1_0000_0000);
    let t = a1 - s1 - k;
    assert(a == 0x1_0000 * t);
    assert(a + 0x1_0000_0000 == 0x1_0000 * (t + 0x1_0000));
    assert(a + 2 * 0x1_0000_0000 == 0x1_0000 * (t + 0x2_0000));
    lemma_scaled_zero::<T>(t);
    lemma_scaled_zero::<T>(t + 0x1_0000);
    lemma_scaled_zero::<T>(t + 0x2_0000);
}

/// A sum of three words modulo `2^32`.
proof fn lemma_three_words(x: u32, y: u32, z: u32)
    ensures
        add_words(add_words(x, y), z) == (x + y + z) % 0x1_0000_0000,
{
}

/// On limbs, `add3` is addition of three words.
pub proof fn lemma_add3<T: PrimeFieldModel>(
    g: T,
    a: Seq<T>,
    b: Seq<T>,
    c: Seq<T>,
    d: Seq<T>,
    wa: u32,
    wb: u32,
    wc: u32,
    wd: u32,
)
    requires
        has_limb_sums::<T>(),
        g.value() == 1,
        limbs_are(a, wa),
        limbs_are(b, wb),
        limbs_are(c, wc),
        limbs_are(d, wd),
    ensures
        all_zero(add3_claims(g, a, b, c, d)) <==> wa == add_words(add_words(wb, wc), wd),
{
    let s0 = b[0].value() + c[0].value() + d[0].value();
    let s1 = b[1].value() + c[1].value() + d[1].value();
    lemma_add3_fits(g, a, b, c, d);
    lemma_sum_fits(a[0].value(), a[1].value(), s0, s1, 2);
    assert(wb + wc + wd == s0 + 0x1_0000 * s1);
    assert(wa == a[0].value() + 0x1_0000 * a[1].value());
    lemma_three_words(wb, wc, wd);
}

/// The claims of `add3` hold of words that add up, over every prime field.
proof fn lemma_add3_complete<T: PrimeFieldModel>(
    g: T,
    a: Seq<T>,
    b: Seq<T>,
    c: Seq<T>,
    d: Seq<T>,
    wb: u32,
    wc: u32,
    wd: u32,
)
    requires
        g.value() == 1,
        limbs_are(a, add_words(add_words(wb, wc), wd)),
        limbs_are(b, wb),
        limbs_are(c, wc),
        limbs_are(d, wd),
    ensures
        all_zero(add3_claims(g, a, b, c, d)),
{
    let wa = add_words(add_words(wb, wc), wd);
    let (a0, a1) = (wa as int % 0x1_0000, wa as int / 0x1_0000);
    let (b0, b1) = (wb as int % 0x1_0000, wb as int / 0x1_0000);
    let (c0, c1) = (wc as int % 0x1_0000, wc as int / 0x1_0000);
    let (d0, d1) = (wd as int % 0x1_0000, wd as int / 0x1_0000);
    let (s0, s1) = (b0 + c0 + d0, b1 + c1 + d1);
    lemma_limbs_stand_for(a, wa);
    lemma_limbs_stand_for(b, wb);
    lemma_limbs_stand_for(c, wc);
    lemma_limbs_stand_for(d, wd);
    lemma_three_words(wb, wc, wd);
    lemma_sum_fits(a0, a1, s0, s1, 2);
    let (k, j) = choose|k: int, j: int|
        0 <= k <= 2 && 0 <= j <= 2 && #[trigger] carries(a0, a1, s0, s1, k, j);
    let x = T::diff_of(T::diff_of(T::diff_of(a[0], b[0]), c[0]), d[0]);
    let y = T::diff_of(T::diff_of(T::diff_of(a[1], b[1]), c[1]), d[1]);
    lemma_three_off(a[0], b[0], c[0], d[0], a0, b0, c0, d0);
    lemma_three_off(a[1], b[1], c[1], d[1], a1, b1, c1, d1);
    lemma_carried(x, y, a0, a1, s0, s1, k, j);
    lemma_gate_open(g, carry3(join_of(x, y), two_32::<T>()));
    lemma_gate_open(g, carry3(x, T::elem(0x1_0000)));
}

/// The claims of `add2` hold of words that add up, over every prime field.
proof fn lemma_add2_complete<T: PrimeFieldModel>(
    g: T,
    a: Seq<T>,
    b: Seq<T>,
    c: Seq<T>,
    wb: u32,
    wc: u32,
)
    requires
        g.value() == 1,
        limbs_are(a, add_words(wb, wc)),
        limbs_are(b, wb),
        limbs_are(c, wc),
    ensures
        all_zero(add2_claims(g, a, b, c)),
{
    let wa = add_words(wb, wc);
    let (a0, a1) = (wa as int % 0x1_0000, wa as int / 0x1_0000);
    let (b0, b1) = (wb as int % 0x1_0000, wb as int / 0x1_0000);
    let (c0, c1) = (wc as int % 0x1_0000, wc as int / 0x1_0000);
    let (s0, s1) = (b0 + c0, b1 + c1);
    lemma_limbs_stand_for(a, wa);
    lemma_limbs_stand_for(b, wb);
    lemma_limbs_stand_for(c, wc);
    lemma_sum_fits(a0, a1, s0, s1, 1);
    let (k, j) = choose|k: int, j: int|
        0 <= k <= 1 && 0 <= j <= 1 && #[trigger] carries(a0, a1, s0, s1, k, j);
    let x = T::diff_of(T::diff_of(a[0], b[0]), c[0]);
    let y = T::diff_of(T::diff_of(a[1], b[1]), c[1]);
    lemma_two_off(a[0], b[0], c[0], a0, b0, c0);
    lemma_two_off(a[1], b[1], c[1], a1, b1, c1);
    lemma_carried(x, y, a0, a1, s0, s1, k, j);
    lemma_gate_open(g, carry2(join_of(x, y), two_32::<T>()));
    lemma_gate_open(g, carry2(x, T::elem(0x1_0000)));
}

/// The claims of `add2` hold exactly where the limb sums fit.
proof fn lemma_add2_fits<T: PrimeFieldModel>(g: T, a: Seq<T>, b: Seq<T>, c: Seq<T>)
    requires
        has_limb_sums::<T>(),
        g.value() == 1,
        0 <= a[0].value() < 0x1_0000,
        0 <= a[1].value() < 0x1_0000,
        b[0].value() + c[0].value() < 0x2_0000,
        b[1].value() + c[1].value() < 0x2_0000,
    ensures
        all_zero(add2_claims(g, a, b, c)) <==> sum_fits(
            a[0].value(),
            a[1].value(),
            b[0].value() + c[0].value(),
            b[1].value() + c[1].value(),
            1,
        ),
{
    let f = add2_claims(g, a, b, c);
    let acc_16 = T::diff_of(T::diff_of(a[0], b[0]), c[0]);
    let acc_32 = T::diff_of(T::diff_of(a[1], b[1]), c[1]);
    let (a0, a1) = (a[0].value(), a[1].value());
    let s0 = b[0].value() + c[0].value();
    let s1 = b[1].value() + c[1].value();
    lemma_off_values(a, b, c, c, 0);
    lemma_off_values(a, b, c, c, 1);
    let low = carry2(acc_16, T::elem(0x1_0000));
    let high = carry2(join_of(acc_16, acc_32), two_32::<T>());
    lemma_gate_open(g, high);
    lemma_gate_open(g, low);
    assert(f[0] == gate(g, high) && f[1] == gate(g, low));
    assert(all_zero(f) <==> high.value() == 0 && low.value() == 0);
    lemma_low2(acc_16, a0, s0);
    if low.value() == 0 {
        let k = if low_fits(a0, s0, 0) {
            0int
        } else {
            1int
        };
        assert(a0 - s0 == -0x1_0000 * k);
        lemma_high2(acc_16, acc_32, a1, s1, k);
        if high.value() == 0 {
            assert(carries(a0, a1, s0, s1, k, 0) || carries(a0, a1, s0, s1, k, 1));
        }
        if sum_fits(a0, a1, s0, s1, 1) {
            let (k2, j) = choose|k2: int, j: int|
                0 <= k2 <= 1 && 0 <= j <= 1 && #[trigger] carries(a0, a1, s0, s1, k2, j);
            assert(k2 == k);
        }
    } else if sum_fits(a0, a1, s0, s1, 1) {
        let (k, j) = choose|k: int, j: int|
            0 <= k <= 1 && 0 <= j <= 1 && #[trigger] carries(a0, a1, s0, s1, k, j);
        assert(low_fits(a0, s0, k));
    }
}

/// The high claim of `add2`, once the low limbs leave `k` carries.
proof fn lemma_high2<T: PrimeFieldModel>(low: T, high: T, a1: int, s1: int, k: int)
    requires
        has_limb_sums::<T>(),
        stands_for(low, -0x1_0000 * k),
        stands_for(high, a1 - s1),
        0 <= a1 < 0x1_0000,
        0 <= s1 < 0x2_0000,
        0 <= k <= 1,
    ensures
        carry2(join_of(low, high), two_32::<T>()).value() == 0 <==> (s1 + k == a1 || s1 + k == a1
            + 0x1_0000),
{
    let a = -0x1_0000 * k + 0x1_0000 * (a1 - s1);
    lemma_joined(low, high, -0x1_0000 * k, a1 - s1);
    lemma_carry2(join_of(low, high), two_32::<T>(), a, 0x1_0000_0000);
    let t = a1 - s1 - k;
    assert(a == 0x1_0000 * t);
    assert(a + 0x1_0000_0000 == 0x1_0000 * (t + 0x1_0000));
    lemma_scaled_zero::<T>(t);
    lemma_scaled_zero::<T>(t + 0x1_0000);
}

/// On limbs, `add2` is addition of two words.
pub proof fn lemma_add2<T: PrimeFieldModel>(
    g: T,
    a: Seq<T>,
    b: Seq<T>,
    c: Seq<T>,
    wa: u32,
    wb: u32,
    wc: u32,
)
    requires
        has_limb_sums::<T>(),
        g.value() == 1,
        limbs_are(a, wa),
        limbs_are(b, wb),
        limbs_are(c, wc),
    ensures
        all_zero(add2_claims(g, a, b, c)) <==> wa == add_words(wb, wc),
{
    let s0 = b[0].value() + c[0].value();
    let s1 = b[1].value() + c[1].value();
    lemma_add2_fits(g, a, b, c);
    lemma_sum_fits(a[0].value(), a[1].value(), s0, s1, 1);
    assert(wb + wc == s0 + 0x1_0000 * s1);
    assert(wa == a[0].value() + 0x1_0000 * a[1].value());
}

/// The bits of `b XOR (c <<< shift)`.
proof fn lemma_xored_bits<T: PrimeFieldModel>(
    b: Seq<T>,
    c: Seq<T>,
    shift: int,
    wb: u32,
    wc: u32,
    wa: u32,
)
    requires
        bits_are(b, wb),
        bits_are(c, wc),
        0 <= shift < 32,
        forall|i: int|
            0 <= i < 32 ==> #[trigger] word_bit(wa, i) == (word_bit(wb, i) != word_bit(
                wc,
                (i + 32 - shift) % 32,
            )),
    ensures
        bits_are(xored(b, c, shift), wa),
{
    let x = xored(b, c, shift);
    assert forall|i: int| 0 <= i < 32 implies (#[trigger] x[i]).value() == bit_value(
        word_bit(wa, i),
    ) by {
        let j = (i + 32 - shift) % 32;
        assert(b[i].value() == bit_value(word_bit(wb, i)));
        assert(c[j].value() == bit_value(word_bit(wc, j)));
        lemma_xor_bits(b[i], c[j]);
    }
}

/// Where `a` is claimed to be `b XOR (c <<< shift)`, `a` holds a word, and `c`
/// holds what `b XOR a` gives when it is rotated back.
pub proof fn lemma_xor_shift_sound<T: PrimeFieldModel>(
    g: T,
    a: Seq<T>,
    b: Seq<T>,
    c: Seq<T>,
    shift: int,
    wb: u32,
) -> (wa: u32)
    requires
        g.value() == 1,
        a.len() == 2,
        c.len() == 32,
        bits_are(b, wb),
        0 <= shift < 32,
        all_zero(xor_shift_claims(g, a, b, c, shift)),
    ensures
        limbs_are(a, wa),
        bits_are(c, rotated(wb ^ wa, shift)),
{
    lemma_all_zero_concat(bits_claims(g, c), limbs_claims(g, a, packed(xored(b, c, shift))));
    lemma_bits_claims(g, c);
    let wc = word_of(truths(c));
    let mixed = Seq::new(
        32,
        |i: int| word_bit(wb, i) != word_bit(wc, (i + 32 - shift) % 32),
    );
    let wa = word_of(mixed);
    lemma_word_of(mixed);
    assert forall|i: int| 0 <= i < 32 implies #[trigger] word_bit(wa, i) == (word_bit(wb, i)
        != word_bit(wc, (i + 32 - shift) % 32)) by {
        assert(word_bits(wa, 32)[i] == mixed[i]);
    }
    lemma_xored_bits(b, c, shift, wb, wc, wa);
    lemma_packed_limbs(xored(b, c, shift), wa);
    lemma_limbs_claims(g, a, packed(xored(b, c, shift)), wa);
    let back = rotated(wb ^ wa, shift);
    assert forall|j: int| 0 <= j < 32 implies #[trigger] word_bit(back, j) == word_bit(wc, j) by {
        let i = (j + shift) % 32;
        lemma_rotated_bit(wb ^ wa, shift, j);
        lemma_xor_bit(wb, wa, i);
        assert((i + 32 - shift) % 32 == j);
        assert(word_bit(wa, i) == (word_bit(wb, i) != word_bit(wc, (i + 32 - shift) % 32)));
    }
    lemma_word_unique(back, wc);
    wa
}

/// The claims of an exclusive or with rotation hold on what it computes.
pub proof fn lemma_xor_shift_complete<T: PrimeFieldModel>(
    g: T,
    a: Seq<T>,
    b: Seq<T>,
    c: Seq<T>,
    shift: int,
    wa: u32,
    wb: u32,
)
    requires
        g.value() == 1,
        limbs_are(a, wa),
        bits_are(b, wb),
        bits_are(c, rotated(wb ^ wa, shift)),
        0 <= shift < 32,
    ensures
        all_zero(xor_shift_claims(g, a, b, c, shift)),
{
    let wc = rotated(wb ^ wa, shift);
    lemma_bits_claims_hold(g, c, wc);
    assert forall|i: int| 0 <= i < 32 implies #[trigger] word_bit(wa, i) == (word_bit(wb, i)
        != word_bit(wc, (i + 32 - shift) % 32)) by {
        let j = (i + 32 - shift) % 32;
        assert((j + shift) % 32 == i);
        lemma_rotated_bit(wb ^ wa, shift, j);
        lemma_xor_bit(wb, wa, i);
    }
    lemma_xored_bits(b, c, shift, wb, wc, wa);
    lemma_packed_limbs(xored(b, c, shift), wa);
    lemma_limbs_claims(g, a, packed(xored(b, c, shift)), wa);
    lemma_all_zero_concat(bits_claims(g, c), limbs_claims(g, a, packed(xored(b, c, shift))));
}

/// Four groups of values hold the words `a, b, c, d`: limbs and bits in turn.
pub open spec fn quad_is<T: PrimeFieldModel>(
    q: (Seq<T>, Seq<T>, Seq<T>, Seq<T>),
    w: (u32, u32, u32, u32),
) -> bool {
    &&& limbs_are(q.0, w.0)
    &&& bits_are(q.1, w.1)
    &&& limbs_are(q.2, w.2)
    &&& bits_are(q.3, w.3)
}

/// Four groups of values of the right sizes.
pub open spec fn quad_sized<T: PrimeFieldModel>(q: (Seq<T>, Seq<T>, Seq<T>, Seq<T>)) -> bool {
    q.0.len() == 2 && q.1.len() == 32 && q.2.len() == 2 && q.3.len() == 32
}

/// The claims of half of G, block by block.
proof fn lemma_half_blocks<T: PrimeFieldModel>(
    g: T,
    from: (Seq<T>, Seq<T>, Seq<T>, Seq<T>),
    m: Seq<T>,
    to: (Seq<T>, Seq<T>, Seq<T>, Seq<T>),
    second: bool,
)
    ensures
        ({
            let rot_1 = if second {
                8int
            } else {
                16int
            };
            let rot_2 = if second {
                7int
            } else {
                12int
            };
            all_zero(half_claims(g, from, m, to, second)) <==> {
                &&& all_zero(add3_claims(g, to.0, from.0, packed(from.1), m))
                &&& all_zero(xor_shift_claims(g, to.0, from.3, to.3, rot_1))
                &&& all_zero(add2_claims(g, to.2, from.2, packed(to.3)))
                &&& all_zero(xor_shift_claims(g, to.2, from.1, to.1, rot_2))
            }
        }),
{
    reveal(half_claims);
    let (rot_1, rot_2) = if second {
        (8int, 7int)
    } else {
        (16int, 12int)
    };
    let b1 = add3_claims(g, to.0, from.0, packed(from.1), m);
    let b2 = xor_shift_claims(g, to.0, from.3, to.3, rot_1);
    let b3 = add2_claims(g, to.2, from.2, packed(to.3));
    let b4 = xor_shift_claims(g, to.2, from.1, to.1, rot_2);
    lemma_all_zero_concat(b1, b2);
    lemma_all_zero_concat(b1 + b2, b3);
    lemma_all_zero_concat(b1 + b2 + b3, b4);
}

/// Where its claims hold, half of G is computed.
pub proof fn lemma_half_sound<T: PrimeFieldModel>(
    g: T,
    from: (Seq<T>, Seq<T>, Seq<T>, Seq<T>),
    m: Seq<T>,
    to: (Seq<T>, Seq<T>, Seq<T>, Seq<T>),
    second: bool,
    w: (u32, u32, u32, u32),
    wm: u32,
)
    requires
        has_limb_sums::<T>(),
        g.value() == 1,
        quad_is(from, w),
        limbs_are(m, wm),
        quad_sized(to),
        all_zero(half_claims(g, from, m, to, second)),
    ensures
        quad_is(to, half_round_of(w.0, w.1, w.2, w.3, wm, second)),
{
    reveal(half_round_of);
    lemma_half_blocks(g, from, m, to, second);
    let (rot_1, rot_2) = if second {
        (8int, 7int)
    } else {
        (16int, 12int)
    };
    let a2 = lemma_xor_shift_sound(g, to.0, from.3, to.3, rot_1, w.3);
    lemma_packed_limbs(from.1, w.1);
    lemma_add3(g, to.0, from.0, packed(from.1), m, a2, w.0, w.1, wm);
    let d2 = rotated(w.3 ^ a2, rot_1);
    let c2 = lemma_xor_shift_sound(g, to.2, from.1, to.1, rot_2, w.1);
    lemma_packed_limbs(to.3, d2);
    lemma_add2(g, to.2, from.2, packed(to.3), c2, w.2, d2);
}

/// The claims of half of G hold on what it computes.
pub proof fn lemma_half_complete<T: PrimeFieldModel>(
    g: T,
    from: (Seq<T>, Seq<T>, Seq<T>, Seq<T>),
    m: Seq<T>,
    to: (Seq<T>, Seq<T>, Seq<T>, Seq<T>),
    second: bool,
    w: (u32, u32, u32, u32),
    wm: u32,
)
    requires
        g.value() == 1,
        quad_is(from, w),
        limbs_are(m, wm),
        quad_is(to, half_round_of(w.0, w.1, w.2, w.3, wm, second)),
    ensures
        all_zero(half_claims(g, from, m, to, second)),
{
    reveal(half_round_of);
    let (rot_1, rot_2) = if second {
        (8int, 7int)
    } else {
        (16int, 12int)
    };
    let (a2, b2, c2, d2) = half_round_of(w.0, w.1, w.2, w.3, wm, second);
    lemma_packed_limbs(from.1, w.1);
    lemma_add3_complete(g, to.0, from.0, packed(from.1), m, w.0, w.1, wm);
    lemma_xor_shift_complete(g, to.0, from.3, to.3, rot_1, a2, w.3);
    lemma_packed_limbs(to.3, d2);
    lemma_add2_complete(g, to.2, from.2, packed(to.3), w.2, d2);
    lemma_xor_shift_complete(g, to.2, from.1, to.1, rot_2, c2, w.1);
    lemma_half_blocks(g, from, m, to, second);
}

} // verus!

//! Bits in a prime field: which elements are bits, what the boolean
//! polynomials do to them, and the numbers that packed bits stand for.

use crate::field::{andn_of, bool_check_of, double_of, xor3_of, xor_of, RingModel};
use crate::prime_field::{
    has_limbs, lemma_diff_value, lemma_elem_value, lemma_is_number, lemma_near_zero,
    lemma_no_zero_divisors, lemma_prod_value, lemma_stands_for_sum, lemma_stands_for_value,
    lemma_sum_value, lemma_value_range, stands_for, PrimeFieldModel,
};
use vstd::arithmetic::power2::{lemma2_to64, lemma_pow2_strictly_increases, lemma_pow2_unfold, pow2};
use vstd::prelude::*;

verus! {

broadcast use {
    lemma_value_range,
    lemma_elem_value,
    lemma_sum_value,
    lemma_diff_value,
    lemma_prod_value,
};

/// Little-endian bits packed into one ring element: `b0 + 2 (b1 + 2 (b2 + ..))`.
pub open spec fn pack_of<T: RingModel>(bits: Seq<T>) -> T
    decreases bits.len(),
{
    if bits.len() == 0 {
        T::elem(0)
    } else {
        T::sum_of(double_of(pack_of(bits.drop_first())), bits[0])
    }
}

/// Little-endian bits packed into a number.
pub open spec fn bits_value(bits: Seq<bool>) -> int
    decreases bits.len(),
{
    if bits.len() == 0 {
        0
    } else {
        bit_value(bits[0]) + 2 * bits_value(bits.drop_first())
    }
}

/// One for `true`, zero for `false`.
pub open spec fn bit_value(b: bool) -> int {
    if b {
        1
    } else {
        0
    }
}

/// The element is zero or one.
pub open spec fn is_bit<T: PrimeFieldModel>(x: T) -> bool {
    x.value() == 0 || x.value() == 1
}

/// The truth value that a bit stands for.
pub open spec fn truth<T: PrimeFieldModel>(x: T) -> bool {
    x.value() == 1
}

/// The truth values of a sequence of bits.
pub open spec fn truths<T: PrimeFieldModel>(s: Seq<T>) -> Seq<bool> {
    Seq::new(s.len(), |i: int| truth(s[i]))
}

/// Every element is zero.
pub open spec fn all_zero<T: PrimeFieldModel>(s: Seq<T>) -> bool {
    forall|i: int| 0 <= i < s.len() ==> (#[trigger] s[i]).value() == 0
}

/// A concatenation is zero exactly where both parts are.
pub proof fn lemma_all_zero_concat<T: PrimeFieldModel>(a: Seq<T>, b: Seq<T>)
    ensures
        all_zero(a + b) <==> all_zero(a) && all_zero(b),
{
    let ab = a + b;
    if all_zero(ab) {
        assert forall|i: int| 0 <= i < a.len() implies (#[trigger] a[i]).value() == 0 by {
            assert(ab[i].value() == 0);
        }
        assert forall|i: int| 0 <= i < b.len() implies (#[trigger] b[i]).value() == 0 by {
            assert(ab[a.len() + i].value() == 0);
        }
    }
}

/// A difference is zero exactly where its operands are equal.
pub proof fn lemma_diff_zero<T: PrimeFieldModel>(x: T, y: T)
    ensures
        T::diff_of(x, y).value() == 0 <==> x.value() == y.value(),
{
}

/// A product is zero exactly where a factor is.
pub proof fn lemma_prod_zero<T: PrimeFieldModel>(x: T, y: T)
    ensures
        T::prod_of(x, y).value() == 0 <==> x.value() == 0 || y.value() == 0,
{
    T::prod_value(x, y);
    if (x.value() * y.value()) % T::order() == 0 {
        lemma_no_zero_divisors::<T>(x.value(), y.value());
        lemma_near_zero(x.value(), T::order());
        lemma_near_zero(y.value(), T::order());
    }
}

/// The bit check is zero exactly on bits.
pub proof fn lemma_bool_check<T: PrimeFieldModel>(x: T)
    ensures
        bool_check_of(x).value() == 0 <==> is_bit(x),
{
    T::order_is_prime(2);
    lemma_prod_zero(x, T::diff_of(x, T::elem(1)));
    lemma_diff_zero(x, T::elem(1));
}

/// On bits, `xor` is exclusive or.
pub proof fn lemma_xor_bits<T: PrimeFieldModel>(x: T, y: T)
    requires
        is_bit(x),
        is_bit(y),
    ensures
        xor_of(x, y).value() == bit_value(truth(x) != truth(y)),
        is_bit(xor_of(x, y)),
        truth(xor_of(x, y)) == (truth(x) != truth(y)),
{
}

/// On bits, `xor3` is exclusive or of three.
pub proof fn lemma_xor3_bits<T: PrimeFieldModel>(x: T, y: T, z: T)
    requires
        is_bit(x),
        is_bit(y),
        is_bit(z),
    ensures
        xor3_of(x, y, z).value() == bit_value((truth(x) != truth(y)) != truth(z)),
        is_bit(xor3_of(x, y, z)),
        truth(xor3_of(x, y, z)) == ((truth(x) != truth(y)) != truth(z)),
{
    reveal(xor3_of);
    lemma_xor_bits(x, y);
    lemma_xor_bits(xor_of(x, y), z);
}

/// On bits, `andn` is "not the first, and the second".
pub proof fn lemma_andn_bits<T: PrimeFieldModel>(x: T, y: T)
    requires
        is_bit(x),
        is_bit(y),
    ensures
        is_bit(andn_of(x, y)),
        truth(andn_of(x, y)) == (!truth(x) && truth(y)),
{
}

/// Packed bits are below the power of two of their number.
pub proof fn lemma_bits_value_range(b: Seq<bool>)
    ensures
        0 <= bits_value(b) < pow2(b.len()),
    decreases b.len(),
{
    if b.len() == 0 {
        lemma2_to64();
    } else {
        lemma_bits_value_range(b.drop_first());
        lemma_pow2_unfold(b.len());
    }
}

/// Packed bits determine the bits.
pub proof fn lemma_bits_value_injective(a: Seq<bool>, b: Seq<bool>)
    requires
        a.len() == b.len(),
        bits_value(a) == bits_value(b),
    ensures
        a == b,
    decreases a.len(),
{
    if a.len() > 0 {
        assert(bits_value(a) == bit_value(a[0]) + 2 * bits_value(a.drop_first()));
        assert(bits_value(b) == bit_value(b[0]) + 2 * bits_value(b.drop_first()));
        lemma_bits_value_injective(a.drop_first(), b.drop_first());
        assert forall|i: int| 0 <= i < a.len() implies a[i] == b[i] by {
            if i > 0 {
                assert(a.drop_first()[i - 1] == b.drop_first()[i - 1]);
            }
        }
    }
    assert(a =~= b);
}

/// Packing bits in the field gives an element that stands for their number.
pub proof fn lemma_pack_stands_for<T: PrimeFieldModel>(s: Seq<T>)
    requires
        forall|i: int| 0 <= i < s.len() ==> is_bit(#[trigger] s[i]),
    ensures
        stands_for(pack_of(s), bits_value(truths(s))),
    decreases s.len(),
{
    if s.len() == 0 {
        T::elem_value(0);
    } else {
        let t = s.drop_first();
        assert forall|i: int| 0 <= i < t.len() implies is_bit(#[trigger] t[i]) by {
            assert(is_bit(s[i + 1]));
        }
        lemma_pack_stands_for(t);
        assert(truths(s).drop_first() =~= truths(t));
        assert(is_bit(s[0]));
        let n = bits_value(truths(t));
        lemma_stands_for_value(s[0]);
        lemma_stands_for_sum(pack_of(t), pack_of(t), n, n);
        lemma_stands_for_sum(double_of(pack_of(t)), s[0], n + n, s[0].value());
        assert(s[0].value() == bit_value(truths(s)[0]));
    }
}

/// Packing bits in the field gives the number that they stand for, as long as
/// it fits.
pub proof fn lemma_pack_bits<T: PrimeFieldModel>(s: Seq<T>)
    requires
        has_limbs::<T>(),
        s.len() <= 16,
        forall|i: int| 0 <= i < s.len() ==> is_bit(#[trigger] s[i]),
    ensures
        pack_of(s).value() == bits_value(truths(s)),
{
    lemma_pack_stands_for(s);
    lemma_bits_value_range(truths(s));
    lemma2_to64();
    if s.len() < 16 {
        lemma_pow2_strictly_increases(s.len(), 16);
    }
    lemma_is_number(pack_of(s), bits_value(truths(s)) as nat);
}

} // verus!

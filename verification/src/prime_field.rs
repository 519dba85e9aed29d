//! The integers modulo a prime, as rings in which constraints are evaluated.

use crate::field::{lemma_felt_range, lemma_of_int, lemma_prime, Felt, RingModel, KOALA_BEAR_PRIME};
use vstd::arithmetic::div_mod::{
    lemma_add_mod_noop, lemma_fundamental_div_mod, lemma_fundamental_div_mod_converse_mod,
    lemma_mod_bound, lemma_mod_multiples_basic, lemma_mul_mod_noop_general, lemma_small_mod,
    lemma_sub_mod_noop,
};
use vstd::prelude::*;

verus! {

/// A ring whose elements are the integers modulo a prime. Every element has a
/// representative, and the operations are those of the representatives.
pub trait PrimeFieldModel: RingModel {
    /// The number of elements.
    spec fn order() -> int;

    /// The representative, from zero to the order.
    spec fn value(self) -> int;

    /// The order is a prime.
    proof fn order_is_prime(d: int)
        ensures
            Self::order() > 1,
            1 < d < Self::order() ==> Self::order() % d != 0,
    ;

    proof fn value_range(x: Self)
        ensures
            0 <= x.value() < Self::order(),
    ;

    proof fn elem_value(n: nat)
        ensures
            Self::elem(n).value() == n as int % Self::order(),
    ;

    proof fn sum_value(x: Self, y: Self)
        ensures
            Self::sum_of(x, y).value() == (x.value() + y.value()) % Self::order(),
    ;

    proof fn diff_value(x: Self, y: Self)
        ensures
            Self::diff_of(x, y).value() == (x.value() - y.value()) % Self::order(),
    ;

    proof fn prod_value(x: Self, y: Self)
        ensures
            Self::prod_of(x, y).value() == (x.value() * y.value()) % Self::order(),
    ;
}

impl PrimeFieldModel for Felt {
    open spec fn order() -> int {
        KOALA_BEAR_PRIME as int
    }

    open spec fn value(self) -> int {
        self@
    }

    proof fn order_is_prime(d: int) {
        if 1 < d < KOALA_BEAR_PRIME {
            lemma_prime(d);
        }
    }

    proof fn value_range(x: Felt) {
        lemma_felt_range(x);
    }

    proof fn elem_value(n: nat) {
        lemma_of_int(n as int);
    }

    proof fn sum_value(x: Felt, y: Felt) {
        lemma_of_int(x@ + y@);
    }

    proof fn diff_value(x: Felt, y: Felt) {
        lemma_of_int(x@ - y@);
    }

    proof fn prod_value(x: Felt, y: Felt) {
        lemma_of_int(x@ * y@);
    }
}

/// Limbs of sixteen bits are below the order of the field.
pub open spec fn has_limbs<T: PrimeFieldModel>() -> bool {
    T::order() > 0x1_0000
}

/// Sums of three limbs, less another limb and with carries added, are told apart
/// in the field.
pub open spec fn has_limb_sums<T: PrimeFieldModel>() -> bool {
    T::order() > 0x4_0000
}

/// The KoalaBear field has room for limbs and their sums.
pub proof fn koala_bear_has_limb_sums()
    ensures
        has_limbs::<Felt>(),
        has_limb_sums::<Felt>(),
{
}

/// Every representative is below the order.
pub broadcast proof fn lemma_value_range<T: PrimeFieldModel>(x: T)
    ensures
        0 <= #[trigger] x.value() < T::order(),
{
    T::value_range(x);
}

/// A number below the order represents itself.
pub broadcast proof fn lemma_elem_value<T: PrimeFieldModel>(n: nat)
    requires
        n < T::order(),
    ensures
        #[trigger] T::elem(n).value() == n,
{
    T::elem_value(n);
    lemma_small_mod(n, T::order() as nat);
}

/// A sum wraps around at most once.
pub broadcast proof fn lemma_sum_value<T: PrimeFieldModel>(x: T, y: T)
    ensures
        #[trigger] T::sum_of(x, y).value() == if x.value() + y.value() < T::order() {
            x.value() + y.value()
        } else {
            x.value() + y.value() - T::order()
        },
{
    let p = T::order();
    T::sum_value(x, y);
    T::value_range(x);
    T::value_range(y);
    let s = x.value() + y.value();
    if s < p {
        lemma_fundamental_div_mod_converse_mod(s, p, 0, s);
    } else {
        lemma_fundamental_div_mod_converse_mod(s, p, 1, s - p);
    }
}

/// A difference wraps around at most once.
pub broadcast proof fn lemma_diff_value<T: PrimeFieldModel>(x: T, y: T)
    ensures
        #[trigger] T::diff_of(x, y).value() == if x.value() >= y.value() {
            x.value() - y.value()
        } else {
            x.value() - y.value() + T::order()
        },
{
    let p = T::order();
    T::diff_value(x, y);
    T::value_range(x);
    T::value_range(y);
    let s = x.value() - y.value();
    if s >= 0 {
        lemma_fundamental_div_mod_converse_mod(s, p, 0, s);
    } else {
        lemma_fundamental_div_mod_converse_mod(s, p, -1, s + p);
    }
}

/// A product with zero is zero, and a product with one is the other factor.
pub broadcast proof fn lemma_prod_value<T: PrimeFieldModel>(x: T, y: T)
    ensures
        x.value() == 0 || y.value() == 0 ==> #[trigger] T::prod_of(x, y).value() == 0,
        x.value() == 1 ==> T::prod_of(x, y).value() == y.value(),
        y.value() == 1 ==> T::prod_of(x, y).value() == x.value(),
{
    let p = T::order();
    let (a, b) = (x.value(), y.value());
    T::prod_value(x, y);
    T::value_range(x);
    T::value_range(y);
    assert(a == 0 || b == 0 ==> a * b == 0) by (nonlinear_arith);
    assert(a == 1 ==> a * b == b) by (nonlinear_arith);
    assert(b == 1 ==> a * b == a) by (nonlinear_arith);
    lemma_small_mod(a as nat, p as nat);
    lemma_small_mod(b as nat, p as nat);
    lemma_small_mod(0, p as nat);
}

/// A multiple of the order among the products `x * y` with `0 < x < order` needs a
/// multiple of the order for `y`.
proof fn lemma_euclid<T: PrimeFieldModel>(x: int, y: int)
    requires
        0 < x < T::order(),
        (x * y) % T::order() == 0,
    ensures
        y % T::order() == 0,
    decreases x,
{
    let p = T::order();
    if x > 1 {
        T::order_is_prime(x);
        let q = p / x;
        let m = p % x;
        lemma_fundamental_div_mod(p, x);
        lemma_mod_bound(p, x);
        let k = (x * y) / p;
        lemma_fundamental_div_mod(x * y, p);
        assert(m * y == (y - q * k) * p) by (nonlinear_arith)
            requires
                p == x * q + m,
                x * y == p * k,
        ;
        lemma_mod_multiples_basic(y - q * k, p);
        lemma_euclid::<T>(m, y);
    }
}

/// A prime field has no zero divisors.
pub proof fn lemma_no_zero_divisors<T: PrimeFieldModel>(x: int, y: int)
    requires
        (x * y) % T::order() == 0,
    ensures
        x % T::order() == 0 || y % T::order() == 0,
{
    let p = T::order();
    T::order_is_prime(2);
    lemma_mod_bound(x, p);
    if x % p != 0 {
        lemma_mul_mod_noop_general(x, y, p);
        lemma_euclid::<T>(x % p, y);
    }
}

/// Near zero, zero is the one multiple of a number.
pub proof fn lemma_near_zero(n: int, p: int)
    requires
        -p < n < p,
    ensures
        n % p == 0 <==> n == 0,
{
    if n >= 0 {
        lemma_fundamental_div_mod_converse_mod(n, p, 0, n);
    } else {
        lemma_fundamental_div_mod_converse_mod(n, p, -1, n + p);
    }
}

/// The element that a number is congruent to.
pub open spec fn stands_for<T: PrimeFieldModel>(x: T, n: int) -> bool {
    x.value() == n % T::order()
}

/// The element that a number is, once it is reduced where the field is too small to
/// hold it.
pub open spec fn is_number<T: PrimeFieldModel>(x: T, n: nat) -> bool {
    x.value() == if n < T::order() {
        n as int
    } else {
        n as int % T::order()
    }
}

/// To be a number is to stand for it.
pub proof fn lemma_is_number<T: PrimeFieldModel>(x: T, n: nat)
    ensures
        is_number(x, n) <==> stands_for(x, n as int),
{
    if n < T::order() {
        lemma_small_mod(n, T::order() as nat);
    }
}

/// Every element stands for its representative.
pub proof fn lemma_stands_for_value<T: PrimeFieldModel>(x: T)
    ensures
        stands_for(x, x.value()),
{
    T::value_range(x);
    lemma_small_mod(x.value() as nat, T::order() as nat);
}

/// Sums stand for sums.
pub proof fn lemma_stands_for_sum<T: PrimeFieldModel>(x: T, y: T, a: int, b: int)
    requires
        stands_for(x, a),
        stands_for(y, b),
    ensures
        stands_for(T::sum_of(x, y), a + b),
{
    T::order_is_prime(2);
    T::sum_value(x, y);
    lemma_add_mod_noop(a, b, T::order());
}

/// Differences stand for differences.
pub proof fn lemma_stands_for_diff<T: PrimeFieldModel>(x: T, y: T, a: int, b: int)
    requires
        stands_for(x, a),
        stands_for(y, b),
    ensures
        stands_for(T::diff_of(x, y), a - b),
{
    T::order_is_prime(2);
    T::diff_value(x, y);
    lemma_sub_mod_noop(a, b, T::order());
}

/// Products stand for products.
pub proof fn lemma_stands_for_prod<T: PrimeFieldModel>(x: T, y: T, a: int, b: int)
    requires
        stands_for(x, a),
        stands_for(y, b),
    ensures
        stands_for(T::prod_of(x, y), a * b),
{
    T::order_is_prime(2);
    T::prod_value(x, y);
    lemma_mul_mod_noop_general(a, b, T::order());
}

} // verus!

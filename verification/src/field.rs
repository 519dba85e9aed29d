//! The rings that constraints are evaluated in, and the KoalaBear prime field.

use p3_field::{PrimeCharacteristicRing, PrimeField32};
use p3_koala_bear::KoalaBear;
use vstd::arithmetic::div_mod::{
    lemma_fundamental_div_mod, lemma_mod_multiples_vanish, lemma_mul_mod_noop_general,
    lemma_sub_mod_noop,
};
use vstd::arithmetic::mul::{lemma_mul_inequality, lemma_mul_is_commutative};
use vstd::prelude::*;

verus! {

/// The order of the KoalaBear field, `2^31 - 2^24 + 1`.
pub const KOALA_BEAR_PRIME: u32 = 0x7f00_0001;

/// The operations of a commutative ring with one.
pub trait RingModel: Sized {
    /// The sum of `n` ones.
    spec fn elem(n: nat) -> Self;

    /// The sum `x + y`.
    spec fn sum_of(x: Self, y: Self) -> Self;

    /// The difference `x - y`.
    spec fn diff_of(x: Self, y: Self) -> Self;

    /// The product `x * y`.
    spec fn prod_of(x: Self, y: Self) -> Self;
}

/// A ring in which constraints are evaluated: every operation returns exactly
/// the element that the model describes.
pub trait Ring: RingModel {
    fn zero() -> (r: Self)
        ensures
            r == Self::elem(0),
    ;

    fn one() -> (r: Self)
        ensures
            r == Self::elem(1),
    ;

    fn two() -> (r: Self)
        ensures
            r == Self::elem(2),
    ;

    fn from_bool(b: bool) -> (r: Self)
        ensures
            r == bool_elem::<Self>(b),
    ;

    fn from_u16(n: u16) -> (r: Self)
        ensures
            r == Self::elem(n as nat),
    ;

    fn from_u32(n: u32) -> (r: Self)
        ensures
            r == Self::elem(n as nat),
    ;

    fn from_usize(n: usize) -> (r: Self)
        ensures
            r == Self::elem(n as nat),
    ;

    fn dup(&self) -> (r: Self)
        ensures
            r == *self,
    ;

    fn plus(&self, y: &Self) -> (r: Self)
        ensures
            r == Self::sum_of(*self, *y),
    ;

    fn minus(&self, y: &Self) -> (r: Self)
        ensures
            r == Self::diff_of(*self, *y),
    ;

    fn times(&self, y: &Self) -> (r: Self)
        ensures
            r == Self::prod_of(*self, *y),
    ;

    fn double(&self) -> (r: Self)
        ensures
            r == double_of(*self),
    ;

    fn square(&self) -> (r: Self)
        ensures
            r == Self::prod_of(*self, *self),
    ;

    /// The arithmetic generalisation of boolean `xor`.
    fn xor(&self, y: &Self) -> (r: Self)
        ensures
            r == xor_of(*self, *y),
    ;

    /// The arithmetic generalisation of a triple `xor`.
    fn xor3(&self, y: &Self, z: &Self) -> (r: Self)
        ensures
            r == xor3_of(*self, *y, *z),
    ;

    /// The arithmetic generalisation of `!x & y`.
    fn andn(&self, y: &Self) -> (r: Self)
        ensures
            r == andn_of(*self, *y),
    ;

    /// The polynomial `x * (x - 1)`, which vanishes on zero and one.
    fn bool_check(&self) -> (r: Self)
        ensures
            r == bool_check_of(*self),
    ;
}

/// Zero for `false`, one for `true`.
pub open spec fn bool_elem<T: RingModel>(b: bool) -> T {
    if b {
        T::elem(1)
    } else {
        T::elem(0)
    }
}

/// `x + x`.
pub open spec fn double_of<T: RingModel>(x: T) -> T {
    T::sum_of(x, x)
}

/// `x + y - x * 2y`.
pub open spec fn xor_of<T: RingModel>(x: T, y: T) -> T {
    T::diff_of(T::sum_of(x, y), T::prod_of(x, double_of(y)))
}

/// `(x xor y) xor z`.
#[verifier::opaque]
pub open spec fn xor3_of<T: RingModel>(x: T, y: T, z: T) -> T {
    xor_of(xor_of(x, y), z)
}

/// `(1 - x) * y`.
pub open spec fn andn_of<T: RingModel>(x: T, y: T) -> T {
    T::prod_of(T::diff_of(T::elem(1), x), y)
}

/// `x * (x - 1)`.
pub open spec fn bool_check_of<T: RingModel>(x: T) -> T {
    T::prod_of(x, T::diff_of(x, T::elem(1)))
}

/// `p3_koala_bear::KoalaBear::new`: the class of any `u32`, read back with
/// `as_canonical_u32` as its representative below the prime.
#[verifier::external_body]
fn koala_new(n: u32) -> (r: u32)
    ensures
        r as int == n as int % KOALA_BEAR_PRIME as int,
{
    KoalaBear::new(n).as_canonical_u32()
}

/// `PrimeCharacteristicRing::from_bool` on KoalaBear: one for `true`, zero for
/// `false`.
#[verifier::external_body]
fn koala_from_bool(b: bool) -> (r: u32)
    ensures
        r == (if b { 1u32 } else { 0u32 }),
{
    KoalaBear::from_bool(b).as_canonical_u32()
}

/// `PrimeCharacteristicRing::from_u16` on KoalaBear: every `u16` is its own
/// representative.
#[verifier::external_body]
fn koala_from_u16(n: u16) -> (r: u32)
    ensures
        r == n,
{
    KoalaBear::from_u16(n).as_canonical_u32()
}

/// `PrimeCharacteristicRing::from_usize` on KoalaBear: the argument reduced by
/// the prime.
#[verifier::external_body]
fn koala_from_usize(n: usize) -> (r: u32)
    ensures
        r as int == n as int % KOALA_BEAR_PRIME as int,
{
    KoalaBear::from_usize(n).as_canonical_u32()
}

/// `Add` on KoalaBear: the sum modulo the prime.
#[verifier::external_body]
fn koala_add(x: u32, y: u32) -> (r: u32)
    ensures
        r as int == (x + y) % KOALA_BEAR_PRIME as int,
{
    (KoalaBear::new(x) + KoalaBear::new(y)).as_canonical_u32()
}

/// `Sub` on KoalaBear: the difference modulo the prime.
#[verifier::external_body]
fn koala_sub(x: u32, y: u32) -> (r: u32)
    ensures
        r as int == (x - y) % KOALA_BEAR_PRIME as int,
{
    (KoalaBear::new(x) - KoalaBear::new(y)).as_canonical_u32()
}

/// `Mul` on KoalaBear: the product modulo the prime.
#[verifier::external_body]
fn koala_mul(x: u32, y: u32) -> (r: u32)
    ensures
        r as int == (x * y) % KOALA_BEAR_PRIME as int,
{
    (KoalaBear::new(x) * KoalaBear::new(y)).as_canonical_u32()
}

/// `PrimeCharacteristicRing::double` on KoalaBear: `2x` modulo the prime.
#[verifier::external_body]
fn koala_double(x: u32) -> (r: u32)
    ensures
        r as int == (2 * x) % KOALA_BEAR_PRIME as int,
{
    KoalaBear::new(x).double().as_canonical_u32()
}

/// `PrimeCharacteristicRing::square` on KoalaBear: `x * x` modulo the prime.
#[verifier::external_body]
fn koala_square(x: u32) -> (r: u32)
    ensures
        r as int == (x * x) % KOALA_BEAR_PRIME as int,
{
    KoalaBear::new(x).square().as_canonical_u32()
}

/// `PrimeCharacteristicRing::xor` on KoalaBear: `x + y - 2xy` modulo the prime.
#[verifier::external_body]
fn koala_xor(x: u32, y: u32) -> (r: u32)
    ensures
        r as int == int_xor(x as int, y as int) % KOALA_BEAR_PRIME as int,
{
    KoalaBear::new(x).xor(&KoalaBear::new(y)).as_canonical_u32()
}

/// `PrimeCharacteristicRing::xor3` on KoalaBear: `xor` applied twice, from the
/// left.
#[verifier::external_body]
fn koala_xor3(x: u32, y: u32, z: u32) -> (r: u32)
    ensures
        r as int == int_xor(int_xor(x as int, y as int), z as int) % KOALA_BEAR_PRIME as int,
{
    KoalaBear::new(x).xor3(&KoalaBear::new(y), &KoalaBear::new(z)).as_canonical_u32()
}

/// `PrimeCharacteristicRing::andn` on KoalaBear: `(1 - x) * y` modulo the prime.
#[verifier::external_body]
fn koala_andn(x: u32, y: u32) -> (r: u32)
    ensures
        r as int == ((1 - x) * y) % KOALA_BEAR_PRIME as int,
{
    KoalaBear::new(x).andn(&KoalaBear::new(y)).as_canonical_u32()
}

/// `PrimeCharacteristicRing::bool_check` on KoalaBear: `x * (x - 1)` modulo the
/// prime.
#[verifier::external_body]
fn koala_bool_check(x: u32) -> (r: u32)
    ensures
        r as int == (x * (x - 1)) % KOALA_BEAR_PRIME as int,
{
    KoalaBear::new(x).bool_check().as_canonical_u32()
}

/// `x + y - 2xy` over the integers; on zeros and ones, exclusive or.
#[verifier::opaque]
pub open spec fn int_xor(x: int, y: int) -> int {
    x + y - 2 * (x * y)
}

/// An element of the KoalaBear field, held as its representative below the
/// prime.
#[derive(Debug, Clone, Copy, PartialEq, Eq, Structural)]
pub struct Felt {
    value: u32,
}

impl View for Felt {
    type V = int;

    /// The representative in `0..KOALA_BEAR_PRIME`.
    closed spec fn view(&self) -> int {
        self.value as int % KOALA_BEAR_PRIME as int
    }
}

impl Felt {
    #[verifier::type_invariant]
    spec fn reduced(self) -> bool {
        self.value < KOALA_BEAR_PRIME
    }

    /// The element whose representative is congruent to `n`.
    pub closed spec fn of_int(n: int) -> Felt {
        Felt { value: (n % KOALA_BEAR_PRIME as int) as u32 }
    }

    /// The element that any `u32` stands for.
    pub fn new(n: u32) -> (r: Felt)
        ensures
            r == Felt::of_int(n as int),
            r@ == n as int % KOALA_BEAR_PRIME as int,
    {
        Felt { value: koala_new(n) }
    }

    /// The representative below the prime.
    pub fn as_canonical_u32(&self) -> (r: u32)
        ensures
            r as int == self@,
            r < KOALA_BEAR_PRIME,
    {
        proof {
            use_type_invariant(self);
        }
        self.value
    }

    /// The representative below the prime, as an index.
    pub fn to_usize(&self) -> (r: usize)
        ensures
            r as int == self@,
    {
        self.as_canonical_u32() as usize
    }
}

/// Views determine what `of_int` builds.
pub broadcast proof fn lemma_of_int(n: int)
    ensures
        (#[trigger] Felt::of_int(n))@ == n % KOALA_BEAR_PRIME as int,
{
}

/// Every view is a representative below the prime.
pub broadcast proof fn lemma_felt_range(x: Felt)
    ensures
        0 <= #[trigger] x@ < KOALA_BEAR_PRIME,
{
}

impl RingModel for Felt {
    open spec fn elem(n: nat) -> Felt {
        Felt::of_int(n as int)
    }

    open spec fn sum_of(x: Felt, y: Felt) -> Felt {
        Felt::of_int(x@ + y@)
    }

    open spec fn diff_of(x: Felt, y: Felt) -> Felt {
        Felt::of_int(x@ - y@)
    }

    open spec fn prod_of(x: Felt, y: Felt) -> Felt {
        Felt::of_int(x@ * y@)
    }
}

impl Ring for Felt {
    fn zero() -> (r: Felt) {
        Felt::new(0)
    }

    fn one() -> (r: Felt) {
        Felt::new(1)
    }

    fn two() -> (r: Felt) {
        Felt::new(2)
    }

    fn from_bool(b: bool) -> (r: Felt) {
        Felt { value: koala_from_bool(b) }
    }

    fn from_u16(n: u16) -> (r: Felt) {
        Felt { value: koala_from_u16(n) }
    }

    fn from_u32(n: u32) -> (r: Felt) {
        Felt::new(n)
    }

    fn from_usize(n: usize) -> (r: Felt) {
        Felt { value: koala_from_usize(n) }
    }

    fn dup(&self) -> (r: Felt) {
        *self
    }

    fn plus(&self, y: &Felt) -> (r: Felt) {
        proof {
            use_type_invariant(self);
            use_type_invariant(y);
        }
        Felt { value: koala_add(self.value, y.value) }
    }

    fn minus(&self, y: &Felt) -> (r: Felt) {
        proof {
            use_type_invariant(self);
            use_type_invariant(y);
        }
        Felt { value: koala_sub(self.value, y.value) }
    }

    fn times(&self, y: &Felt) -> (r: Felt) {
        proof {
            use_type_invariant(self);
            use_type_invariant(y);
        }
        Felt { value: koala_mul(self.value, y.value) }
    }

    fn double(&self) -> (r: Felt) {
        proof {
            use_type_invariant(self);
        }
        Felt { value: koala_double(self.value) }
    }

    fn square(&self) -> (r: Felt) {
        proof {
            use_type_invariant(self);
        }
        Felt { value: koala_square(self.value) }
    }

    fn xor(&self, y: &Felt) -> (r: Felt) {
        proof {
            use_type_invariant(self);
            use_type_invariant(y);
            lemma_xor_value(*self, *y);
        }
        Felt { value: koala_xor(self.value, y.value) }
    }

    fn xor3(&self, y: &Felt, z: &Felt) -> (r: Felt) {
        proof {
            use_type_invariant(self);
            use_type_invariant(y);
            use_type_invariant(z);
            lemma_xor3_value(*self, *y, *z);
        }
        Felt { value: koala_xor3(self.value, y.value, z.value) }
    }

    fn andn(&self, y: &Felt) -> (r: Felt) {
        proof {
            use_type_invariant(self);
            use_type_invariant(y);
            lemma_mul_mod_noop_general(1 - self@, y@, KOALA_BEAR_PRIME as int);
        }
        Felt { value: koala_andn(self.value, y.value) }
    }

    fn bool_check(&self) -> (r: Felt) {
        proof {
            use_type_invariant(self);
            lemma_mul_mod_noop_general(self@, self@ - 1, KOALA_BEAR_PRIME as int);
        }
        Felt { value: koala_bool_check(self.value) }
    }
}

/// `xor` of a reduced first argument agrees with `xor` of the argument itself.
proof fn lemma_int_xor_mod(x: int, y: int)
    ensures
        int_xor(x % KOALA_BEAR_PRIME as int, y) % KOALA_BEAR_PRIME as int == int_xor(x, y)
            % KOALA_BEAR_PRIME as int,
{
    let p = KOALA_BEAR_PRIME as int;
    let q = x / p;
    lemma_fundamental_div_mod(x, p);
    let m = x % p;
    reveal(int_xor);
    assert(int_xor(x, y) == int_xor(m, y) + p * (q * (1 - 2 * y))) by (nonlinear_arith)
        requires
            x == p * q + m,
            int_xor(x, y) == x + y - 2 * (x * y),
            int_xor(m, y) == m + y - 2 * (m * y),
    ;
    lemma_mod_multiples_vanish(q * (1 - 2 * y), int_xor(m, y), p);
}

/// The value of `xor` on field elements.
pub proof fn lemma_xor_value(x: Felt, y: Felt)
    ensures
        xor_of(x, y) == Felt::of_int(int_xor(x@, y@)),
{
    let p = KOALA_BEAR_PRIME as int;
    reveal(int_xor);
    assert(((x@ + y@) % p - (x@ * ((y@ + y@) % p)) % p) % p == int_xor(x@, y@) % p) by {
        lemma_mul_mod_noop_general(x@, y@ + y@, p);
        lemma_sub_mod_noop(x@ + y@, x@ * (y@ + y@), p);
        assert(x@ * (y@ + y@) == 2 * (x@ * y@)) by (nonlinear_arith);
    }
}

/// The value of `xor3` on field elements.
pub proof fn lemma_xor3_value(x: Felt, y: Felt, z: Felt)
    ensures
        xor3_of(x, y, z) == Felt::of_int(int_xor(int_xor(x@, y@), z@)),
{
    reveal(xor3_of);
    let w = int_xor(x@, y@);
    lemma_xor_value(x, y);
    assert(xor_of(x, y)@ == w % KOALA_BEAR_PRIME as int);
    lemma_xor_value(xor_of(x, y), z);
    lemma_int_xor_mod(w, z@);
}

/// The prime has no divisor between one and itself.
pub proof fn lemma_prime(d: int)
    requires
        1 < d < KOALA_BEAR_PRIME,
    ensures
        KOALA_BEAR_PRIME as int % d != 0,
{
    let p = KOALA_BEAR_PRIME as int;
    if p % d == 0 {
        let e = p / d;
        lemma_fundamental_div_mod(p, d);
        assert(d * e == p);
        assert(1 < e < p) by (nonlinear_arith)
            requires
                d * e == p,
                1 < d < p,
                p == 0x7f00_0001,
        ;
        if d < 65536 {
            lemma_no_small_factor(d as u32, e as u32);
        } else {
            assert(e < 65536) by (nonlinear_arith)
                requires
                    d * e == 0x7f00_0001,
                    d >= 65536,
                    e > 0,
            ;
            lemma_mul_is_commutative(d, e);
            lemma_no_small_factor(e as u32, d as u32);
        }
    }
}

proof fn lemma_no_small_factor(d: u32, e: u32)
    requires
        1 < d < 65536,
        e < KOALA_BEAR_PRIME,
    ensures
        d * e != KOALA_BEAR_PRIME,
{
    if d < 4096 {
        assert(d * e != 0x7f00_0001) by (bit_vector)
            requires
                1 < d < 4096,
                e < 0x8000_0000,
        ;
    } else if d < 16384 {
        if e < 0x8_0000 {
            lemma_no_factor_14_bits(d, e);
        } else {
            lemma_mul_inequality(4096, d as int, e as int);
        }
    } else if d < 32768 {
        if e < 0x2_0000 {
            lemma_no_factor_15_bits(d, e);
        } else {
            lemma_mul_inequality(16384, d as int, e as int);
        }
    } else {
        if e < 0x1_0000 {
            lemma_no_factor_16_bits(d, e);
        } else {
            lemma_mul_inequality(32768, d as int, e as int);
        }
    }
}

#[verifier::rlimit(100)]
proof fn lemma_no_factor_14_bits(d: u32, e: u32)
    by (bit_vector)
    requires
        4096 <= d < 16384,
        e < 0x8_0000,
    ensures
        d * e != 0x7f00_0001,
{
}

#[verifier::rlimit(100)]
proof fn lemma_no_factor_15_bits(d: u32, e: u32)
    by (bit_vector)
    requires
        16384 <= d < 32768,
        e < 0x2_0000,
    ensures
        d * e != 0x7f00_0001,
{
}

#[verifier::rlimit(100)]
proof fn lemma_no_factor_16_bits(d: u32, e: u32)
    by (bit_vector)
    requires
        32768 <= d < 65536,
        e < 0x1_0000,
    ensures
        d * e != 0x7f00_0001,
{
}

} // verus!

//! What the operations of the field come down to on representatives, of every result
//! that a call can have.

use crate::bits::{is_bit, lemma_andn_bits, lemma_bool_check, lemma_xor3_bits};
use crate::field::{
    int_xor, lemma_of_int, lemma_xor3_value, lemma_xor_value, Felt, Ring, KOALA_BEAR_PRIME,
};
use vstd::arithmetic::div_mod::{lemma_mul_mod_noop_general, lemma_small_mod};
use vstd::prelude::*;

verus! {

broadcast use lemma_of_int;

/// Every number stands for its remainder, and the representative is read back.
pub proof fn numbers_are_reduced(
    b: bool,
    s: u16,
    n: u32,
    u: usize,
    from_bool: Felt,
    from_u16: Felt,
    from_u32: Felt,
    from_usize: Felt,
    new: Felt,
    canonical: u32,
    index: usize,
)
    requires
        call_ensures(Felt::from_bool, (b,), from_bool),
        call_ensures(Felt::from_u16, (s,), from_u16),
        call_ensures(Felt::from_u32, (n,), from_u32),
        call_ensures(Felt::from_usize, (u,), from_usize),
        call_ensures(Felt::new, (n,), new),
        call_ensures(Felt::as_canonical_u32, (&new,), canonical),
        call_ensures(Felt::to_usize, (&new,), index),
    ensures
        from_bool@ == if b {
            1int
        } else {
            0
        },
        from_u16@ == s,
        from_u32@ == n as int % 0x7f00_0001,
        from_usize@ == u as int % 0x7f00_0001,
        new@ == n as int % 0x7f00_0001,
        canonical as int == n as int % 0x7f00_0001,
        index as int == n as int % 0x7f00_0001,
{
    lemma_small_mod(s as nat, KOALA_BEAR_PRIME as nat);
}

/// The operations are those of the integers modulo the prime.
pub proof fn operations_are_modular(
    x: Felt,
    y: Felt,
    sum: Felt,
    difference: Felt,
    product: Felt,
    double: Felt,
    square: Felt,
    check: Felt,
)
    requires
        call_ensures(Felt::plus, (&x, &y), sum),
        call_ensures(Felt::minus, (&x, &y), difference),
        call_ensures(Felt::times, (&x, &y), product),
        call_ensures(Felt::double, (&x,), double),
        call_ensures(Felt::square, (&x,), square),
        call_ensures(Felt::bool_check, (&x,), check),
    ensures
        sum@ == (x@ + y@) % 0x7f00_0001,
        difference@ == (x@ - y@) % 0x7f00_0001,
        product@ == (x@ * y@) % 0x7f00_0001,
        double@ == (2 * x@) % 0x7f00_0001,
        square@ == (x@ * x@) % 0x7f00_0001,
        check@ == (x@ * (x@ - 1)) % 0x7f00_0001,
{
    lemma_mul_mod_noop_general(x@, x@ - 1, 0x7f00_0001);
}

/// The boolean polynomials are what they say on all elements, and the boolean
/// functions on zeros and ones.
pub proof fn boolean_polynomials_extend_boolean_functions(
    x: Felt,
    y: Felt,
    z: Felt,
    xor: Felt,
    xor3: Felt,
    andn: Felt,
    check: Felt,
)
    requires
        call_ensures(Felt::xor, (&x, &y), xor),
        call_ensures(Felt::xor3, (&x, &y, &z), xor3),
        call_ensures(Felt::andn, (&x, &y), andn),
        call_ensures(Felt::bool_check, (&x,), check),
    ensures
        xor@ == (x@ + y@ - 2 * (x@ * y@)) % 0x7f00_0001,
        ({
            let w = x@ + y@ - 2 * (x@ * y@);
            xor3@ == (w + z@ - 2 * (w * z@)) % 0x7f00_0001
        }),
        andn@ == ((1 - x@) * y@) % 0x7f00_0001,
        0 <= x@ <= 1 && 0 <= y@ <= 1 ==> xor@ == (x@ + y@) % 2,
        0 <= x@ <= 1 && 0 <= y@ <= 1 && 0 <= z@ <= 1 ==> xor3@ == (x@ + y@ + z@) % 2,
        0 <= x@ <= 1 && 0 <= y@ <= 1 ==> andn@ == if x@ == 0 && y@ == 1 {
            1int
        } else {
            0
        },
        check@ == 0 <==> x@ == 0 || x@ == 1,
{
    lemma_xor_value(x, y);
    lemma_xor3_value(x, y, z);
    reveal(int_xor);
    lemma_mul_mod_noop_general(1 - x@, y@, 0x7f00_0001);
    lemma_bool_check(x);
    if is_bit(x) && is_bit(y) {
        lemma_andn_bits(x, y);
        if is_bit(z) {
            lemma_xor3_bits(x, y, z);
        }
    }
}

} // verus!

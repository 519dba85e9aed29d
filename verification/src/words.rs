//! Words of thirty-two bits: their bits, and the field elements that hold them.

use crate::bits::{
    bit_value, bits_value, is_bit, lemma_bits_value_injective, lemma_bits_value_range,
    lemma_pack_stands_for, truth, truths,
};
use crate::blake3::rotr;
use crate::blake3_air::{packed, word_bit};
use crate::prime_field::{has_limbs, is_number, lemma_is_number, PrimeFieldModel};
use vstd::arithmetic::power2::{lemma2_to64, lemma_pow2_unfold, pow2};
use vstd::prelude::*;

verus! {

/// The low `n` bits of a word.
pub open spec fn word_bits(w: u32, n: nat) -> Seq<bool> {
    Seq::new(n, |j: int| word_bit(w, j))
}

/// The word that thirty-two bits stand for.
pub open spec fn word_of(bits: Seq<bool>) -> u32 {
    bits_value(bits) as u32
}

/// The two elements are the limbs of the word: their representatives are its limbs,
/// reduced where the field is too small to hold limbs.
pub open spec fn limbs_are<T: PrimeFieldModel>(limbs: Seq<T>, w: u32) -> bool {
    &&& limbs.len() == 2
    &&& is_number(limbs[0], (w % 0x1_0000) as nat)
    &&& is_number(limbs[1], (w / 0x1_0000) as nat)
}

/// The elements are the bits of the word.
pub open spec fn bits_are<T: PrimeFieldModel>(bits: Seq<T>, w: u32) -> bool {
    &&& bits.len() == 32
    &&& forall|j: int| 0 <= j < 32 ==> (#[trigger] bits[j]).value() == bit_value(word_bit(w, j))
}

/// Rotation to the right, by any number of bits below thirty-two.
pub open spec fn rotated(x: u32, n: int) -> u32 {
    if n == 0 {
        x
    } else {
        rotr(x, n as u32)
    }
}

/// The bits of a word, packed, are the word.
pub proof fn lemma_word_value(w: u32, n: nat)
    requires
        n <= 32,
        w < pow2(n),
    ensures
        bits_value(word_bits(w, n)) == w,
    decreases n,
{
    if n == 0 {
        lemma2_to64();
    } else {
        let half = w >> 1;
        assert(half == w / 2) by (bit_vector)
            requires
                half == w >> 1,
        ;
        lemma_pow2_unfold(n);
        lemma_word_value(half, (n - 1) as nat);
        assert((w >> 0) & 1 == w % 2) by (bit_vector);
        let bits = word_bits(w, n);
        assert forall|j: int| 0 <= j < n - 1 implies bits.drop_first()[j] == word_bits(
            half,
            (n - 1) as nat,
        )[j] by {
            let i = j as u32;
            let k = (j + 1) as u32;
            assert((w >> k) & 1 == (half >> i) & 1) by (bit_vector)
                requires
                    half == w >> 1,
                    i < 31,
                    k == i + 1,
            ;
        }
        assert(bits.drop_first() =~= word_bits(half, (n - 1) as nat));
        assert(bits[0] == word_bit(w, 0));
    }
}

/// The low sixteen bits are the low limb.
pub proof fn lemma_low_bits(w: u32)
    ensures
        bits_value(word_bits(w, 16)) == w % 0x1_0000,
{
    let low = w % 0x1_0000;
    lemma2_to64();
    lemma_word_value(low, 16);
    assert forall|j: int| 0 <= j < 16 implies word_bit(w, j) == word_bit(low, j) by {
        let i = j as u32;
        assert((w >> i) & 1 == (low >> i) & 1) by (bit_vector)
            requires
                low == w % 0x1_0000,
                i < 16,
        ;
    }
    assert(word_bits(w, 16) =~= word_bits(low, 16));
}

/// The high sixteen bits are the high limb.
pub proof fn lemma_high_bits(w: u32)
    ensures
        bits_value(Seq::new(16, |j: int| word_bit(w, 16 + j))) == w / 0x1_0000,
{
    let high = w / 0x1_0000;
    lemma2_to64();
    lemma_word_value(high, 16);
    let bits = Seq::new(16, |j: int| word_bit(w, 16 + j));
    assert forall|j: int| 0 <= j < 16 implies bits[j] == word_bit(high, j) by {
        let i = j as u32;
        let k = (16 + j) as u32;
        assert((w >> k) & 1 == (high >> i) & 1) by (bit_vector)
            requires
                high == w / 0x1_0000,
                i < 16,
                k == i + 16,
        ;
    }
    assert(bits =~= word_bits(high, 16));
}

/// Any thirty-two bits are the bits of a word.
pub proof fn lemma_word_of(bits: Seq<bool>)
    requires
        bits.len() == 32,
    ensures
        word_bits(word_of(bits), 32) == bits,
{
    lemma_bits_value_range(bits);
    lemma2_to64();
    lemma_word_value(word_of(bits), 32);
    lemma_bits_value_injective(word_bits(word_of(bits), 32), bits);
}

/// Words with the same bits are the same.
pub proof fn lemma_word_unique(x: u32, y: u32)
    requires
        forall|j: int| 0 <= j < 32 ==> #[trigger] word_bit(x, j) == word_bit(y, j),
    ensures
        x == y,
{
    lemma2_to64();
    lemma_word_value(x, 32);
    lemma_word_value(y, 32);
    assert(word_bits(x, 32) =~= word_bits(y, 32));
}

/// The bits of an exclusive or.
pub proof fn lemma_xor_bit(x: u32, y: u32, j: int)
    requires
        0 <= j < 32,
    ensures
        word_bit(x ^ y, j) == (word_bit(x, j) != word_bit(y, j)),
{
    let i = j as u32;
    assert((((x ^ y) >> i) & 1 == 1) == (((x >> i) & 1 == 1) != ((y >> i) & 1 == 1)))
        by (bit_vector)
        requires
            i < 32,
    ;
}

/// The bits of a rotated word.
pub proof fn lemma_rotated_bit(x: u32, n: int, j: int)
    requires
        0 <= n < 32,
        0 <= j < 32,
    ensures
        word_bit(rotated(x, n), j) == word_bit(x, (j + n) % 32),
{
    if n > 0 {
        let r = n as u32;
        let i = j as u32;
        let k = ((j + n) % 32) as u32;
        let back = (32 - n) as u32;
        let y = rotr(x, r);
        assert((y >> i) & 1 == (x >> k) & 1) by (bit_vector)
            requires
                y == (x >> r) | (x << back),
                0 < r < 32,
                back == 32 - r,
                i < 32,
                k == (i + r) % 32,
        ;
    }
}

/// Bits hold the word that they stand for.
pub proof fn lemma_bits_hold_word<T: PrimeFieldModel>(bits: Seq<T>)
    requires
        bits.len() == 32,
        forall|j: int| 0 <= j < 32 ==> is_bit(#[trigger] bits[j]),
    ensures
        bits_are(bits, word_of(truths(bits))),
{
    let w = word_of(truths(bits));
    lemma_word_of(truths(bits));
    assert forall|j: int| 0 <= j < 32 implies (#[trigger] bits[j]).value() == bit_value(
        word_bit(w, j),
    ) by {
        assert(word_bits(w, 32)[j] == truths(bits)[j]);
        assert(is_bit(bits[j]));
    }
}

/// The bits of a word pack into its limbs.
pub proof fn lemma_packed_limbs<T: PrimeFieldModel>(bits: Seq<T>, w: u32)
    requires
        bits_are(bits, w),
    ensures
        limbs_are(packed(bits), w),
{
    let low = bits.subrange(0, 16);
    let high = bits.subrange(16, 32);
    assert forall|i: int| 0 <= i < 16 implies is_bit(#[trigger] low[i]) && truth(low[i])
        == word_bit(w, i) by {
        assert(bits[i].value() == bit_value(word_bit(w, i)));
    }
    assert forall|i: int| 0 <= i < 16 implies is_bit(#[trigger] high[i]) && truth(high[i])
        == word_bit(w, 16 + i) by {
        assert(bits[16 + i].value() == bit_value(word_bit(w, 16 + i)));
    }
    lemma_pack_stands_for(low);
    lemma_pack_stands_for(high);
    assert(truths(low) =~= word_bits(w, 16));
    assert(truths(high) =~= Seq::new(16, |j: int| word_bit(w, 16 + j)));
    lemma_low_bits(w);
    lemma_high_bits(w);
    lemma_is_number(packed(bits)[0], (w % 0x1_0000) as nat);
    lemma_is_number(packed(bits)[1], (w / 0x1_0000) as nat);
}

/// Limbs hold one word only.
pub proof fn lemma_limbs_unique<T: PrimeFieldModel>(limbs: Seq<T>, x: u32, y: u32)
    requires
        has_limbs::<T>(),
        limbs_are(limbs, x),
        limbs_are(limbs, y),
    ensures
        x == y,
{
}

} // verus!

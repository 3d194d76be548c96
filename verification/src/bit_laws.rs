//! Packed bits and little-endian bytes as numbers.

use vstd::prelude::*;
use vstd::arithmetic::power2::pow2;

use crate::bits::{bit_of, byte_bit, bytes_for, spec_div_ceil, spec_saturating_mul, word_bit};
use crate::little_endian::{bytes16, le_bytes, word16, word32};

verus! {

/// Whether bit `index` of a number is set.
pub open spec fn number_bit(number: int, index: nat) -> bool {
    number / pow2(index) as int % 2 == 1
}

/// The number whose bytes, least significant first, are given.
pub open spec fn bytes_number(bytes: Seq<u8>) -> nat
    decreases bytes.len(),
{
    if bytes.len() == 0 {
        0
    } else {
        bytes[0] as nat + 256 * bytes_number(bytes.skip(1))
    }
}

proof fn lemma_low_bit_u8(byte: u8)
    by (bit_vector)
    ensures
        byte & 1u8 == byte % 2,
{
}

proof fn lemma_low_bit_u64(word: u64)
    by (bit_vector)
    ensures
        word & 1u64 == word % 2,
{
}

/// The bits of a byte are the binary digits of its value.
pub proof fn law_byte_has_binary_digits(byte: u8, index: int)
    requires
        0 <= index < 8,
    ensures
        byte_bit(byte, index) <==> number_bit(byte as int, index as nat),
{
    vstd::bits::lemma_u8_shr_is_div(byte, index as u8);
    lemma_low_bit_u8(byte >> (index as u8));
}

/// The bits of a word are the binary digits of its value.
pub proof fn law_word_has_binary_digits(word: u64, index: int)
    requires
        0 <= index < 64,
    ensures
        word_bit(word, index) <==> number_bit(word as int, index as nat),
{
    vstd::bits::lemma_u64_shr_is_div(word, index as u64);
    lemma_low_bit_u64(word >> (index as u64));
}

/// A multiple of a higher power of two does not change the lower binary digits.
pub proof fn lemma_higher_digits_do_not_matter(low: int, high: int, index: nat, place: nat)
    requires
        low >= 0,
        high >= 0,
        place < index,
    ensures
        number_bit(low + pow2(index) * high, place) == number_bit(low, place),
{
    let rest = (index - place - 1) as nat;
    vstd::arithmetic::power2::lemma_pow2_pos(place);
    vstd::arithmetic::power2::lemma_pow2_adds(place, (rest + 1) as nat);
    vstd::arithmetic::power2::lemma_pow2_unfold((rest + 1) as nat);
    let unit = pow2(place) as int;
    let step = pow2(rest) as int;
    let sum = low + pow2(index) * high;
    let quotient = low / unit;
    let shifted = quotient + 2 * (step * high);
    vstd::arithmetic::div_mod::lemma_fundamental_div_mod(low, unit);
    assert(sum == unit * shifted + low % unit) by (nonlinear_arith)
        requires
            sum == low + (unit * (2 * step)) * high,
            low == unit * quotient + low % unit,
            shifted == quotient + 2 * (step * high),
    ;
    vstd::arithmetic::div_mod::lemma_fundamental_div_mod_converse(sum, unit, shifted, low % unit);
    assert(shifted % 2 == quotient % 2);
}

/// Packed bits are the binary digits of the number that the bytes make, least significant first.
pub proof fn law_packed_bits_are_binary_digits(data: Seq<u8>, index: int)
    requires
        0 <= index < 8 * data.len(),
    ensures
        bit_of(data, index) <==> number_bit(bytes_number(data) as int, index as nat),
    decreases data.len(),
{
    vstd::arithmetic::power2::lemma2_to64();
    let rest = data.skip(1);
    let number = bytes_number(data) as int;
    let low = data[0] as int;
    let high = bytes_number(rest) as int;
    assert(number == low + 256 * high);
    if index < 8 {
        law_byte_has_binary_digits(data[0], index);
        lemma_higher_digits_do_not_matter(low, high, 8, index as nat);
    } else {
        law_packed_bits_are_binary_digits(rest, index - 8);
        assert(rest[(index - 8) / 8] == data[index / 8]);
        vstd::arithmetic::power2::lemma_pow2_adds(8, (index - 8) as nat);
        vstd::arithmetic::power2::lemma_pow2_pos((index - 8) as nat);
        vstd::arithmetic::div_mod::lemma_div_denominator(number, 256, pow2((index - 8) as nat) as int);
        assert(number / 256 == high);
    }
}

/// The number of bytes that hold some bits is the smallest that has room for them.
pub proof fn law_bytes_for_bits(bits: int)
    requires
        bits >= 0,
    ensures
        8 * bytes_for(bits) >= bits,
        8 * bytes_for(bits) < bits + 8,
{
}

/// The number of units that hold a value is the smallest that has room for it.
pub proof fn law_units_for_value(value: int, unit: int)
    requires
        value >= 0,
        unit > 0,
    ensures
        spec_div_ceil(value, unit) * unit >= value,
        (spec_div_ceil(value, unit) - 1) * unit < value,
{
    let q = spec_div_ceil(value, unit);
    vstd::arithmetic::div_mod::lemma_fundamental_div_mod(value + unit - 1, unit);
    assert(q * unit >= value && (q - 1) * unit < value) by (nonlinear_arith)
        requires
            value + unit - 1 == unit * q + (value + unit - 1) % unit,
            0 <= (value + unit - 1) % unit < unit,
    ;
}

/// A saturating product is the product where it fits and the largest number where it does not.
pub proof fn law_saturating_product(x: u64, y: u64)
    ensures
        x * y <= u64::MAX ==> spec_saturating_mul(x as int, y as int) == x * y,
        x * y > u64::MAX ==> spec_saturating_mul(x as int, y as int) == u64::MAX,
{
}

/// The number that two or four bytes stand for is the one that they make as digits of base 256.
pub proof fn law_words_are_numbers_of_bytes(data: Seq<u8>, offset: int)
    requires
        0 <= offset,
    ensures
        offset + 2 <= data.len() ==> word16(data, offset) == bytes_number(
            data.subrange(offset, offset + 2),
        ),
        offset + 4 <= data.len() ==> word32(data, offset) == bytes_number(
            data.subrange(offset, offset + 4),
        ),
{
    reveal_with_fuel(bytes_number, 5);
    if offset + 2 <= data.len() {
        let two = data.subrange(offset, offset + 2);
        assert(two.skip(1)[0] == data[offset + 1]);
        assert(two.skip(1).skip(1).len() == 0);
    }
    if offset + 4 <= data.len() {
        let four = data.subrange(offset, offset + 4);
        let a = four.skip(1);
        let b = a.skip(1);
        let c = b.skip(1);
        assert(a[0] == data[offset + 1] && b[0] == data[offset + 2] && c[0] == data[offset + 3]);
        assert(c.skip(1).len() == 0);
    }
}

/// The bytes of a number make that number again, as far as they reach, and are as many as asked for.
pub proof fn law_bytes_make_their_number(value: nat, count: nat)
    ensures
        le_bytes(value, count).len() == count,
        bytes_number(le_bytes(value, count)) == value % pow2(8 * count),
    decreases count,
{
    vstd::arithmetic::power2::lemma2_to64();
    if count > 0 {
        let less = (count - 1) as nat;
        law_bytes_make_their_number(value / 256, less);
        let bytes = le_bytes(value, count);
        assert(bytes.skip(1) =~= le_bytes(value / 256, less));
        vstd::arithmetic::power2::lemma_pow2_adds(8, 8 * less);
        vstd::arithmetic::power2::lemma_pow2_pos(8 * less);
        vstd::arithmetic::div_mod::lemma_breakdown(value as int, 256, pow2(8 * less) as int);
    }
}

/// The two bytes of a number are the same as its two lowest bytes.
pub proof fn law_two_bytes(value: u16)
    ensures
        bytes_number(bytes16(value)) == value,
        bytes16(value).len() == 2,
{
    reveal_with_fuel(bytes_number, 3);
    let bytes = bytes16(value);
    assert(bytes.skip(1)[0] == bytes[1]);
    assert(bytes.skip(1).skip(1).len() == 0);
}

/// The sum of the first `count` levels, each with its power of two as weight.
pub open spec fn level_sum(levels: spec_fn(int) -> bool, count: nat) -> nat
    decreases count,
{
    if count == 0 {
        0
    } else {
        level_sum(levels, (count - 1) as nat) + (if levels(count - 1) {
            pow2((count - 1) as nat)
        } else {
            0
        })
    }
}

/// Levels that are the binary digits of a number sum up to it, as far as they reach.
pub proof fn lemma_digits_sum_up(levels: spec_fn(int) -> bool, number: nat, count: nat)
    requires
        forall|i: int| 0 <= i < count ==> #[trigger] levels(i) == number_bit(number as int, i as nat),
    ensures
        level_sum(levels, count) == number % pow2(count),
    decreases count,
{
    vstd::arithmetic::power2::lemma2_to64();
    if count > 0 {
        let less = (count - 1) as nat;
        lemma_digits_sum_up(levels, number, less);
        vstd::arithmetic::power2::lemma_pow2_unfold(count);
        vstd::arithmetic::power2::lemma_pow2_pos(less);
        vstd::arithmetic::div_mod::lemma_breakdown(number as int, pow2(less) as int, 2);
        let digit = number as int / pow2(less) as int % 2;
        assert(pow2(less) * digit == if digit == 1 {
            pow2(less) as int
        } else {
            0
        }) by (nonlinear_arith)
            requires
                0 <= digit <= 1,
        ;
        assert(levels(count - 1) == number_bit(number as int, less));
        assert(pow2(count) == pow2(less) * 2);
    }
}

} // verus!

//! Least-significant-bit-first packed samples.

use vstd::prelude::*;

verus! {

/// Bit `index` of a packed byte string, least significant bit of each byte first.
pub open spec fn bit_of(data: Seq<u8>, index: int) -> bool {
    byte_bit(data[index / 8], index % 8)
}

/// Bit `index` of one byte.
pub open spec fn byte_bit(byte: u8, index: int) -> bool {
    (byte >> (index as u8)) & 1u8 == 1u8
}

/// Bit `index` of a 64-bit word.
pub open spec fn word_bit(word: u64, index: int) -> bool {
    (word >> (index as u64)) & 1u64 == 1u64
}

/// Number of bytes that hold `bits` packed bits.
pub open spec fn bytes_for(bits: int) -> int {
    (bits + 7) / 8
}

proof fn lemma_word_ops_bv(a: u64, b: u64, j: u64)
    by (bit_vector)
    requires
        j < 64,
    ensures
        (((a & b) >> j) & 1u64 == 1u64) == (((a >> j) & 1u64 == 1u64) && ((b >> j) & 1u64 == 1u64)),
        (((a | b) >> j) & 1u64 == 1u64) == (((a >> j) & 1u64 == 1u64) || ((b >> j) & 1u64 == 1u64)),
        (((a ^ b) >> j) & 1u64 == 1u64) == (((a >> j) & 1u64 == 1u64) != ((b >> j) & 1u64 == 1u64)),
        ((!a >> j) & 1u64 == 1u64) == !((a >> j) & 1u64 == 1u64),
        ((0u64 >> j) & 1u64 == 1u64) == false,
        (((a << 1u64) >> j) & 1u64 == 1u64) == (j > 0 && ((a >> ((j - 1) as u64)) & 1u64 == 1u64)),
{
}

/// The bitwise operators act on each bit alone.
pub proof fn lemma_word_ops(a: u64, b: u64, j: int)
    requires
        0 <= j < 64,
    ensures
        word_bit(a & b, j) == (word_bit(a, j) && word_bit(b, j)),
        word_bit(a | b, j) == (word_bit(a, j) || word_bit(b, j)),
        word_bit(a ^ b, j) == (word_bit(a, j) != word_bit(b, j)),
        word_bit(!a, j) == !word_bit(a, j),
        !word_bit(0u64, j),
        word_bit(a << 1u64, j) == (j > 0 && word_bit(a, j - 1)),
{
    lemma_word_ops_bv(a, b, j as u64);
}

proof fn lemma_single_bit_bv(k: u64, j: u64)
    by (bit_vector)
    requires
        j < 64,
        k < 64,
    ensures
        (((1u64 << k) >> j) & 1u64 == 1u64) == (j == k),
        (1u64 << k) >= 1u64,
        ((((1u64 << k) - 1) as u64 >> j) & 1u64 == 1u64) == (j < k),
        ((0xffff_ffff_ffff_ffffu64 >> j) & 1u64 == 1u64),
        ((1u64 >> j) & 1u64 == 1u64) == (j == 0),
{
}

/// A shifted one has exactly one bit set, and one less has exactly the bits below it.
pub proof fn lemma_single_bit(k: int, j: int)
    requires
        0 <= j < 64,
        0 <= k < 64,
    ensures
        word_bit(1u64 << (k as u64), j) == (j == k),
        (1u64 << (k as u64)) >= 1,
        word_bit(((1u64 << (k as u64)) - 1) as u64, j) == (j < k),
        word_bit(u64::MAX, j),
        word_bit(1u64, j) == (j == 0),
{
    lemma_single_bit_bv(k as u64, j as u64);
}

proof fn lemma_clear_lowest_bv(a: u64, z: u64, j: u64)
    by (bit_vector)
    requires
        z < 64,
        j < 64,
        (a >> z) & 1u64 == 1u64,
        a << ((64 - z) as u64) == 0,
    ensures
        a != 0,
        (((a & ((a - 1) as u64)) >> j) & 1u64 == 1u64) == (((a >> j) & 1u64 == 1u64) && j != z),
        ((a >> j) & 1u64 == 1u64) ==> j >= z,
{
}

/// `a & (a - 1)` clears the lowest set bit and no other.
pub proof fn lemma_clear_lowest(a: u64, j: int)
    requires
        a != 0,
        0 <= j < 64,
    ensures
        vstd::std_specs::bits::u64_trailing_zeros(a) < 64,
        word_bit(a, vstd::std_specs::bits::u64_trailing_zeros(a) as int),
        word_bit((a & ((a - 1) as u64)), j) == (word_bit(a, j) && j
            != vstd::std_specs::bits::u64_trailing_zeros(a)),
        word_bit(a, j) ==> j >= vstd::std_specs::bits::u64_trailing_zeros(a),
{
    let z = vstd::std_specs::bits::u64_trailing_zeros(a) as u64;
    vstd::std_specs::bits::axiom_u64_trailing_zeros(a);
    lemma_clear_lowest_bv(a, z, j as u64);
}

proof fn lemma_xor_zero_bv(a: u64, b: u64)
    by (bit_vector)
    ensures
        a ^ b == 0 ==> a == b,
{
}

/// Two words with the same bits are the same word.
pub proof fn lemma_same_bits(a: u64, b: u64)
    requires
        forall|j: int| 0 <= j < 64 ==> #[trigger] word_bit(a, j) == word_bit(b, j),
    ensures
        a == b,
{
    lemma_xor_zero_bv(a, b);
    if a ^ b != 0 {
        let z = vstd::std_specs::bits::u64_trailing_zeros(a ^ b) as int;
        lemma_clear_lowest(a ^ b, 0);
        lemma_word_ops(a, b, z);
        assert(word_bit(a, z) == word_bit(b, z));
    }
}

/// A word is non-zero exactly when one of its bits is set.
pub proof fn lemma_nonzero_has_bit(a: u64)
    ensures
        a != 0 <==> exists|j: int| 0 <= j < 64 && #[trigger] word_bit(a, j),
{
    if a != 0 {
        lemma_clear_lowest(a, 0);
        assert(word_bit(a, vstd::std_specs::bits::u64_trailing_zeros(a) as int));
    } else {
        assert forall|j: int| 0 <= j < 64 implies !#[trigger] word_bit(a, j) by {
            lemma_word_ops(a, a, j);
        }
    }
}

proof fn lemma_place_byte_bv(byte: u8, k: u64, j: u64)
    by (bit_vector)
    requires
        k < 8,
        j < 64,
    ensures
        (((byte as u64) << ((8 * k) as u64)) >> j) & 1u64 == 1u64 <==> (8 * k <= j && j < 8 * k + 8
            && (byte >> ((j - 8 * k) as u8)) & 1u8 == 1u8),
{
}

/// A byte shifted to byte place `k` of a word sets its own bits there and no other.
pub proof fn lemma_place_byte(byte: u8, k: int, j: int)
    requires
        0 <= k < 8,
        0 <= j < 64,
    ensures
        word_bit((byte as u64) << ((8 * k) as u64), j) == (8 * k <= j < 8 * k + 8 && byte_bit(
            byte,
            j - 8 * k,
        )),
{
    lemma_place_byte_bv(byte, k as u64, j as u64);
}

/// Reads one packed bit.
pub fn packed_bit(data: &[u8], local_position: usize) -> (result: bool)
    requires
        local_position < 8 * data@.len(),
    ensures
        result == bit_of(data@, local_position as int),
{
    let byte: u8 = data[local_position / 8];
    let offset: u8 = (local_position % 8) as u8;
    let value: u8 = (byte >> offset) & 1;
    assert((byte >> offset) & 1 == 0u8 || (byte >> offset) & 1 == 1u8) by (bit_vector);
    value != 0
}

/// Reads the 64 packed bits of word `word_index`; bits beyond the data read as zero.
pub fn packed_word(data: &[u8], word_index: usize) -> (result: u64)
    requires
        8 * word_index <= data@.len(),
    ensures
        forall|j: int|
            0 <= j < 64 ==> #[trigger] word_bit(result, j) == (64 * word_index + j < 8 * data@.len()
                && bit_of(data@, 64 * word_index + j)),
{
    let len: usize = data.len();
    let byte_index: usize = word_index * 8;
    let left: usize = len - byte_index;
    let available: usize = if left < 8 {
        left
    } else {
        8
    };
    let mut result: u64 = 0;
    let mut k: usize = 0;
    proof {
        assert forall|j: int| 0 <= j < 64 implies !#[trigger] word_bit(0u64, j) by {
            lemma_word_ops(0, 0, j);
        }
    }
    while k < available
        invariant
            byte_index == 8 * word_index,
            byte_index + available <= data@.len(),
            available <= 8,
            k <= available,
            forall|j: int|
                0 <= j < 64 ==> #[trigger] word_bit(result, j) == (j < 8 * k && bit_of(
                    data@,
                    64 * word_index + j,
                )),
        decreases available - k,
    {
        let byte: u8 = data[byte_index + k];
        let shift: u64 = (8 * k) as u64;
        let placed: u64 = (byte as u64) << shift;
        let next: u64 = result | placed;
        proof {
            assert forall|j: int| 0 <= j < 64 implies #[trigger] word_bit(next, j) == (j < 8 * (k + 1)
                && bit_of(data@, 64 * word_index + j)) by {
                lemma_word_ops(result, placed, j);
                lemma_place_byte_bv(byte, k as u64, j as u64);
                assert(word_bit(result, j) == (j < 8 * k && bit_of(data@, 64 * word_index + j)));
                if 8 * k <= j < 8 * k + 8 {
                    assert((64 * word_index + j) / 8 == byte_index + k);
                    assert((64 * word_index + j) % 8 == j - 8 * k);
                }
            }
        }
        result = next;
        k += 1;
    }
    result
}

/// The 64-bit mask whose set bits are exactly `start..end`.
pub fn bit_range_mask(start: usize, end: usize) -> (result: u64)
    requires
        start < end <= 64,
    ensures
        forall|j: int| 0 <= j < 64 ==> #[trigger] word_bit(result, j) == (start <= j < end),
{
    proof {
        lemma_single_bit(start as int, 0);
        if end < 64 {
            lemma_single_bit(end as int, 0);
        }
    }
    let below_end: u64 = if end == 64 {
        u64::MAX
    } else {
        (1u64 << (end as u64)) - 1
    };
    let below_start: u64 = (1u64 << (start as u64)) - 1;
    let result: u64 = below_end & !below_start;
    proof {
        assert forall|j: int| 0 <= j < 64 implies #[trigger] word_bit(result, j) == (start <= j
            < end) by {
            lemma_word_ops(below_end, !below_start, j);
            lemma_word_ops(below_start, 0, j);
            lemma_single_bit(start as int, j);
            if end < 64 {
                lemma_single_bit(end as int, j);
            }
        }
    }
    result
}

/// Returns the least-significant-bit-first value at `bit_index`, or `false` when the requested
/// bit lies beyond `data`.
pub fn get_packed_bit(data: &[u8], bit_index: usize) -> (result: bool)
    ensures
        result == (bit_index < 8 * data@.len() && bit_of(data@, bit_index as int)),
{
    if bit_index / 8 < data.len() {
        packed_bit(data, bit_index)
    } else {
        false
    }
}

/// Extracts a single bit from a byte string at the given bit index; `false` beyond its end.
pub fn get_bit(data: &[u8], bit_index: usize) -> (result: bool)
    ensures
        result == (bit_index < 8 * data@.len() && bit_of(data@, bit_index as int)),
{
    get_packed_bit(data, bit_index)
}

proof fn lemma_set_byte_bit_bv(byte: u8, k: u8, j: u8)
    by (bit_vector)
    requires
        k < 8,
        j < 8,
    ensures
        ((byte | (1u8 << k)) >> j) & 1u8 == 1u8 <==> ((byte >> j) & 1u8 == 1u8 || j == k),
        ((0u8 >> j) & 1u8 == 1u8) == false,
{
}

/// No bit of an all-zero byte string is set.
pub proof fn lemma_zero_bytes(data: Seq<u8>, index: int)
    requires
        0 <= index < 8 * data.len(),
        data[index / 8] == 0,
    ensures
        !bit_of(data, index),
{
    lemma_set_byte_bit_bv(0, 0, (index % 8) as u8);
}

/// Sets one packed bit and leaves every other as it was.
pub fn set_packed_bit(data: &mut Vec<u8>, index: usize)
    requires
        index < 8 * old(data)@.len(),
    ensures
        final(data)@.len() == old(data)@.len(),
        forall|j: int|
            0 <= j < 8 * old(data)@.len() ==> #[trigger] bit_of(final(data)@, j) == (bit_of(
                old(data)@,
                j,
            ) || j == index),
{
    let ghost before = data@;
    let byte: u8 = data[index / 8];
    let offset: u8 = (index % 8) as u8;
    let updated: u8 = byte | (1u8 << offset);
    data.set(index / 8, updated);
    proof {
        assert forall|j: int| 0 <= j < 8 * before.len() implies #[trigger] bit_of(data@, j) == (
        bit_of(before, j) || j == index) by {
            lemma_set_byte_bit_bv(byte, offset, (j % 8) as u8);
            if j / 8 == index as int / 8 {
                assert(j == 8 * (j / 8) + j % 8);
                assert(index == 8 * (index as int / 8) + index as int % 8);
            }
        }
    }
}

/// Smallest byte count that holds `bits` packed bits.
pub fn packed_len(bits: usize) -> (result: usize)
    ensures
        result == bytes_for(bits as int),
        8 * result >= bits,
        8 * result < bits + 8,
{
    let quotient: usize = bits / 8;
    if bits % 8 == 0 {
        quotient
    } else {
        quotient + 1
    }
}

/// A byte string of `len` zero bytes.
pub fn zero_bytes(len: usize) -> (result: Vec<u8>)
    ensures
        result@ == Seq::new(len as nat, |i: int| 0u8),
        forall|j: int| 0 <= j < 8 * len ==> !#[trigger] bit_of(result@, j),
{
    let result: Vec<u8> = vec![0u8; len];
    proof {
        assert(result@ =~= Seq::new(len as nat, |i: int| 0u8));
        assert forall|j: int| 0 <= j < 8 * len implies !#[trigger] bit_of(result@, j) by {
            lemma_zero_bytes(result@, j);
        }
    }
    result
}

/// Packs one level per sample, least significant bit first.
pub fn pack(samples: &[bool]) -> (result: Vec<u8>)
    ensures
        result@.len() == bytes_for(samples@.len() as int),
        forall|j: int| 0 <= j < samples@.len() ==> #[trigger] bit_of(result@, j) == samples@[j],
        forall|j: int| samples@.len() <= j < 8 * result@.len() ==> !#[trigger] bit_of(result@, j),
{
    let mut packed: Vec<u8> = zero_bytes(packed_len(samples.len()));
    let mut index: usize = 0;
    while index < samples.len()
        invariant
            index <= samples@.len(),
            packed@.len() == bytes_for(samples@.len() as int),
            samples@.len() <= 8 * packed@.len(),
            forall|j: int| 0 <= j < index ==> #[trigger] bit_of(packed@, j) == samples@[j],
            forall|j: int| index <= j < 8 * packed@.len() ==> !#[trigger] bit_of(packed@, j),
        decreases samples@.len() - index,
    {
        if samples[index] {
            set_packed_bit(&mut packed, index);
        }
        index += 1;
    }
    packed
}

/// Product that stops at `u64::MAX`.
pub open spec fn spec_saturating_mul(x: int, y: int) -> int {
    if x * y > u64::MAX {
        u64::MAX as int
    } else {
        x * y
    }
}

/// Product that stops at `u64::MAX` instead of overflowing.
pub fn saturating_mul(x: u64, y: u64) -> (result: u64)
    ensures
        result == spec_saturating_mul(x as int, y as int),
{
    match x.checked_mul(y) {
        Some(product) => product,
        None => u64::MAX,
    }
}

/// Quotient rounded up.
pub open spec fn spec_div_ceil(value: int, unit: int) -> int {
    (value + unit - 1) / unit
}

/// Smallest number of whole units of `unit` that hold `value`.
pub fn div_ceil(value: u64, unit: u64) -> (result: u64)
    requires
        unit > 0,
    ensures
        result == spec_div_ceil(value as int, unit as int),
{
    let quotient: u64 = value / unit;
    let remainder: u64 = value % unit;
    proof {
        let v = value as int;
        let u = unit as int;
        vstd::arithmetic::div_mod::lemma_fundamental_div_mod(v, u);
        assert((v + u - 1) / u == if v % u == 0 { v / u } else { v / u + 1 }) by (nonlinear_arith)
            requires
                u > 0,
                v >= 0,
                v == u * (v / u) + v % u,
                0 <= v % u < u,
        ;
        assert(v % u != 0 ==> quotient < u64::MAX) by (nonlinear_arith)
            requires
                v == u * (v / u) + v % u,
                u > 0,
                v <= u64::MAX,
                quotient == v / u,
        ;
    }
    if remainder == 0 {
        quotient
    } else {
        quotient + 1
    }
}

/// `p` lies at or after the rounded-up quotient exactly when `p` units cover `value`.
pub proof fn lemma_div_ceil_le(value: int, unit: int, p: int)
    requires
        unit > 0,
        value >= 0,
    ensures
        spec_div_ceil(value, unit) <= p <==> value <= p * unit,
        spec_div_ceil(value, unit) >= 0,
{
    let q = spec_div_ceil(value, unit);
    vstd::arithmetic::div_mod::lemma_fundamental_div_mod(value + unit - 1, unit);
    assert(q <= p <==> value <= p * unit) by (nonlinear_arith)
        requires
            unit > 0,
            value + unit - 1 == unit * q + (value + unit - 1) % unit,
            0 <= (value + unit - 1) % unit < unit,
    ;
    assert(q >= 0) by (nonlinear_arith)
        requires
            unit > 0,
            value >= 0,
            value + unit - 1 == unit * q + (value + unit - 1) % unit,
            0 <= (value + unit - 1) % unit < unit,
    ;
}

} // verus!

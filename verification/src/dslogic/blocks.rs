//! Channel-major device blocks and sample-major canonical data.

use vstd::prelude::*;

use crate::bits::{bit_of, lemma_place_byte, lemma_same_bits, lemma_word_ops, word_bit};
use crate::logic_analyzer::error::{protocol, ErrorView, LogicAnalyzerError};
use crate::text::{append_chars, decimal, decimal_chars, from_chars, to_chars};

verus! {

/// Samples in one device block: the device sends 64 samples of one channel, then 64 of the next.
pub const BLOCK_SAMPLES: usize = 64;

/// Where a device stream holds the level of a channel at a sample.
pub open spec fn cross_index(channels: int, sample: int, channel: int) -> int {
    (sample / 64) * (64 * channels) + 64 * channel + sample % 64
}

/// Bit `index` of the canonical form of a device stream.
pub open spec fn crossed_bit(data: Seq<u8>, channels: int, index: int) -> bool {
    bit_of(data, cross_index(channels, index / channels, index % channels))
}

/// Bytes of the whole blocks at the front of a device stream.
pub open spec fn complete_bytes(len: int, channels: int) -> int {
    len / (8 * channels) * (8 * channels)
}

/// Canonical data: the whole blocks of a device stream, sample by sample, one bit for each
/// channel.
pub open spec fn is_canonical(output: Seq<u8>, data: Seq<u8>, channels: int) -> bool {
    &&& output.len() == complete_bytes(data.len() as int, channels)
    &&& forall|index: int|
        0 <= index < 8 * output.len() ==> #[trigger] bit_of(output, index) == crossed_bit(
            data,
            channels,
            index,
        )
}

/// One bit of a matrix of eight rows of eight bits, row zero in the lowest byte.
pub open spec fn matrix_bit(matrix: u64, row: int, column: int) -> bool {
    word_bit(matrix, 8 * row + column)
}

proof fn lemma_transpose_bv(
    value: u64,
    swap1: u64,
    value1: u64,
    swap2: u64,
    value2: u64,
    swap3: u64,
    result: u64,
    row: u64,
    column: u64,
)
    by (bit_vector)
    requires
        row < 8,
        column < 8,
        swap1 == (value ^ (value >> 7)) & 0x00aa_00aa_00aa_00aa,
        value1 == value ^ (swap1 ^ (swap1 << 7)),
        swap2 == (value1 ^ (value1 >> 14)) & 0x0000_cccc_0000_cccc,
        value2 == value1 ^ (swap2 ^ (swap2 << 14)),
        swap3 == (value2 ^ (value2 >> 28)) & 0x0000_0000_f0f0_f0f0,
        result == value2 ^ swap3 ^ (swap3 << 28),
    ensures
        ((result >> ((8 * column + row) as u64)) & 1 == 1) == ((value >> ((8 * row + column) as u64))
            & 1 == 1),
{
}

/// Transposes a matrix of eight rows of eight bits.
pub fn transpose_8x8(value: u64) -> (result: u64)
    ensures
        forall|row: int, column: int|
            0 <= row < 8 && 0 <= column < 8 ==> #[trigger] matrix_bit(result, column, row)
                == matrix_bit(value, row, column),
{
    let swap1: u64 = (value ^ (value >> 7)) & 0x00aa_00aa_00aa_00aa;
    let value1: u64 = value ^ (swap1 ^ (swap1 << 7));
    let swap2: u64 = (value1 ^ (value1 >> 14)) & 0x0000_cccc_0000_cccc;
    let value2: u64 = value1 ^ (swap2 ^ (swap2 << 14));
    let swap3: u64 = (value2 ^ (value2 >> 28)) & 0x0000_0000_f0f0_f0f0;
    let result: u64 = value2 ^ swap3 ^ (swap3 << 28);
    proof {
        assert forall|row: int, column: int| 0 <= row < 8 && 0 <= column < 8 implies #[trigger] matrix_bit(
            result,
            column,
            row,
        ) == matrix_bit(value, row, column) by {
            lemma_transpose_bv(
                value,
                swap1,
                value1,
                swap2,
                value2,
                swap3,
                result,
                row as u64,
                column as u64,
            );
        }
    }
    result
}

/// Transposing twice gives back the matrix.
pub proof fn law_transpose_is_its_own_inverse(matrix: u64, once: u64, twice: u64)
    requires
        forall|row: int, column: int|
            0 <= row < 8 && 0 <= column < 8 ==> #[trigger] matrix_bit(once, column, row)
                == matrix_bit(matrix, row, column),
        forall|row: int, column: int|
            0 <= row < 8 && 0 <= column < 8 ==> #[trigger] matrix_bit(twice, column, row)
                == matrix_bit(once, row, column),
    ensures
        twice == matrix,
{
    assert forall|j: int| 0 <= j < 64 implies #[trigger] word_bit(twice, j) == word_bit(
        matrix,
        j,
    ) by {
        assert(j == 8 * (j / 8) + j % 8);
        assert(matrix_bit(twice, j / 8, j % 8) == matrix_bit(once, j % 8, j / 8));
        assert(matrix_bit(once, j % 8, j / 8) == matrix_bit(matrix, j / 8, j % 8));
    }
    lemma_same_bits(twice, matrix);
}

/// Bytes under construction, least significant bit first.
struct BitWriter {
    bytes: Vec<u8>,
    accumulator: u64,
    bits: u64,
}

proof fn lemma_append_bv(accumulator: u64, bits: u64, value: u64, width: u64, j: u64)
    by (bit_vector)
    requires
        bits < 8,
        1 <= width <= 8,
        value >> width == 0,
        accumulator >> bits == 0,
        j < 64,
    ensures
        (((accumulator | (value << bits)) >> j) & 1 == 1) == (if j < bits {
            (accumulator >> j) & 1 == 1
        } else {
            (value >> ((j - bits) as u64)) & 1 == 1
        }),
        (accumulator | (value << bits)) >> ((bits + width) as u64) == 0,
{
}

proof fn lemma_low_byte_bv(word: u64, j: u64)
    by (bit_vector)
    requires
        j < 56,
    ensures
        j < 8 ==> ((((word & 0xff) as u8) >> (j as u8)) & 1 == 1) == ((word >> j) & 1 == 1),
        (((word >> 8) >> j) & 1 == 1) == ((word >> ((j + 8) as u64)) & 1 == 1),
{
}

proof fn lemma_shift_rest_bv(word: u64, bits: u64)
    by (bit_vector)
    requires
        8 <= bits < 16,
        word >> bits == 0,
    ensures
        (word >> 8) >> ((bits - 8) as u64) == 0,
{
}

impl BitWriter {
    spec fn wf(self) -> bool {
        &&& self.bits < 8
        &&& self.accumulator >> self.bits == 0
    }

    spec fn len(self) -> int {
        8 * self.bytes@.len() + self.bits
    }

    spec fn bit(self, index: int) -> bool {
        if index < 8 * self.bytes@.len() {
            bit_of(self.bytes@, index)
        } else {
            word_bit(self.accumulator, index - 8 * self.bytes@.len())
        }
    }

    fn new() -> (result: Self)
        ensures
            result.wf(),
            result.len() == 0,
            result.bytes@.len() == 0,
            result.bits == 0,
    {
        assert(0u64 >> 0u64 == 0) by (bit_vector);
        BitWriter { bytes: Vec::new(), accumulator: 0, bits: 0 }
    }

    /// Appends the low `width` bits of `value`.
    fn append(&mut self, value: u64, width: u64)
        requires
            old(self).wf(),
            1 <= width <= 8,
            value >> width == 0,
        ensures
            final(self).wf(),
            final(self).len() == old(self).len() + width,
            forall|index: int|
                0 <= index < old(self).len() ==> #[trigger] final(self).bit(index) == old(self).bit(index),
            forall|index: int|
                old(self).len() <= index < old(self).len() + width ==> #[trigger] final(self).bit(
                    index,
                ) == word_bit(value, index - old(self).len()),
    {
        let ghost before = *self;
        let joined: u64 = self.accumulator | (value << self.bits);
        let total: u64 = self.bits + width;
        proof {
            lemma_append_bv(self.accumulator, self.bits, value, width, 0);
            assert forall|j: int| 0 <= j < 64 implies #[trigger] word_bit(joined, j) == (if j
                < before.bits {
                word_bit(before.accumulator, j)
            } else {
                word_bit(value, j - before.bits)
            }) by {
                lemma_append_bv(before.accumulator, before.bits, value, width, j as u64);
            }
        }
        if total >= 8 {
            let byte: u8 = (joined & 0xff) as u8;
            self.bytes.push(byte);
            self.accumulator = joined >> 8;
            self.bits = total - 8;
            proof {
                lemma_shift_rest_bv(joined, total);
                let filled = 8 * before.bytes@.len();
                assert forall|index: int| 0 <= index < before.len() + width implies #[trigger] self.bit(
                    index,
                ) == (if index < before.len() {
                    before.bit(index)
                } else {
                    word_bit(value, index - before.len())
                }) by {
                    if index < filled {
                        assert(self.bytes@[index / 8] == before.bytes@[index / 8]);
                    } else {
                        let j = index - filled;
                        assert(word_bit(joined, j) == (if j < before.bits {
                            word_bit(before.accumulator, j)
                        } else {
                            word_bit(value, j - before.bits)
                        }));
                        if j < 8 {
                            lemma_low_byte_bv(joined, j as u64);
                            assert(index / 8 == before.bytes@.len());
                            assert(index % 8 == j);
                            assert(self.bytes@[index / 8] == byte);
                            assert(self.bit(index) == word_bit(joined, j));
                        } else {
                            lemma_low_byte_bv(joined, (j - 8) as u64);
                            assert(self.bit(index) == word_bit(joined, j));
                        }
                    }
                }
            }
        } else {
            self.accumulator = joined;
            self.bits = total;
        }
    }
}

proof fn lemma_extract_bv(word: u64, sample: u64, width: u64, j: u64)
    by (bit_vector)
    requires
        sample < 8,
        1 <= width <= 8,
        j < 8,
    ensures
        (1u64 << width) >= 1,
        ((word >> ((8 * sample) as u64)) & (((1u64 << width) - 1) as u64)) >> width == 0,
        j < width ==> ((((word >> ((8 * sample) as u64)) & (((1u64 << width) - 1) as u64)) >> j) & 1
            == 1) == ((word >> ((8 * sample + j) as u64)) & 1 == 1),
{
}

/// One row of a transposed group, cut to the channels it holds.
fn row_bits(transposed: u64, sample: u64, width: u64) -> (result: u64)
    requires
        sample < 8,
        1 <= width <= 8,
    ensures
        result >> width == 0,
        forall|j: int|
            0 <= j < width ==> #[trigger] word_bit(result, j) == matrix_bit(
                transposed,
                sample as int,
                j,
            ),
{
    proof {
        lemma_extract_bv(transposed, sample, width, 0);
    }
    let result: u64 = (transposed >> (8 * sample)) & ((1u64 << width) - 1);
    proof {
        assert forall|j: int| 0 <= j < width implies #[trigger] word_bit(result, j) == matrix_bit(
            transposed,
            sample as int,
            j,
        ) by {
            lemma_extract_bv(transposed, sample, width, j as u64);
        }
    }
    result
}

/// Eight samples of up to eight channels, one row for each sample. `base` is the byte of the
/// first channel; the channels lie eight bytes apart.
fn gather(data: &Vec<u8>, base: usize, width: usize) -> (result: u64)
    requires
        1 <= width <= 8,
        base + 8 * (width - 1) < data@.len(),
    ensures
        forall|sample: int, row: int|
            0 <= sample < 8 && 0 <= row < width ==> #[trigger] matrix_bit(result, sample, row)
                == bit_of(data@, 8 * base + 64 * row + sample),
{
    let len: usize = data.len();
    let mut rows: u64 = 0;
    let mut row: usize = 0;
    proof {
        assert forall|j: int| 0 <= j < 64 implies !#[trigger] word_bit(0u64, j) by {
            lemma_word_ops(0, 0, j);
        }
    }
    while row < width
        invariant
            1 <= width <= 8,
            base + 8 * (width - 1) < len,
            len == data@.len(),
            row <= width,
            forall|j: int|
                0 <= j < 64 ==> #[trigger] word_bit(rows, j) == (j < 8 * row && bit_of(
                    data@,
                    8 * base + 64 * (j / 8) + j % 8,
                )),
        decreases width - row,
    {
        let byte: u8 = data[base + 8 * row];
        let shift: u64 = (8 * row) as u64;
        let placed: u64 = (byte as u64) << shift;
        let next: u64 = rows | placed;
        proof {
            assert forall|j: int| 0 <= j < 64 implies #[trigger] word_bit(next, j) == (j < 8 * (row
                + 1) && bit_of(data@, 8 * base + 64 * (j / 8) + j % 8)) by {
                lemma_word_ops(rows, placed, j);
                lemma_place_byte(byte, row as int, j);
                assert(word_bit(rows, j) == (j < 8 * row && bit_of(
                    data@,
                    8 * base + 64 * (j / 8) + j % 8,
                )));
                if 8 * row <= j < 8 * row + 8 {
                    assert(j / 8 == row);
                    assert((8 * base + 64 * row + j % 8) / 8 == base + 8 * row);
                    assert((8 * base + 64 * row + j % 8) % 8 == j % 8);
                }
            }
        }
        rows = next;
        row += 1;
    }
    let result: u64 = transpose_8x8(rows);
    proof {
        assert forall|sample: int, r: int| 0 <= sample < 8 && 0 <= r < width implies #[trigger] matrix_bit(
            result,
            sample,
            r,
        ) == bit_of(data@, 8 * base + 64 * r + sample) by {
            assert(matrix_bit(result, sample, r) == matrix_bit(rows, r, sample));
            assert((8 * r + sample) / 8 == r);
            assert((8 * r + sample) % 8 == sample);
        }
    }
    result
}

proof fn lemma_index(channels: int, sample: int, channel: int)
    requires
        0 <= channel < channels,
        0 <= sample,
    ensures
        (sample * channels + channel) / channels == sample,
        (sample * channels + channel) % channels == channel,
{
    assert(sample * channels + channel == channels * sample + channel) by (nonlinear_arith);
    vstd::arithmetic::div_mod::lemma_fundamental_div_mod_converse(
        sample * channels + channel,
        channels,
        sample,
        channel,
    );
}

impl BitWriter {
    /// Appends the channels of one group at one sample.
    fn append_row(
        &mut self,
        transposed: u64,
        row: u64,
        width: u64,
        Ghost(data): Ghost<Seq<u8>>,
        Ghost(channels): Ghost<int>,
        Ghost(sample): Ghost<int>,
        Ghost(first): Ghost<int>,
    )
        requires
            old(self).wf(),
            row < 8,
            1 <= width <= 8,
            0 <= sample,
            0 <= first,
            first + width <= channels,
            old(self).len() == sample * channels + first,
            forall|j: int|
                0 <= j < width ==> #[trigger] matrix_bit(transposed, row as int, j) == bit_of(
                    data,
                    cross_index(channels, sample, first + j),
                ),
            forall|index: int|
                0 <= index < old(self).len() ==> #[trigger] old(self).bit(index) == crossed_bit(
                    data,
                    channels,
                    index,
                ),
        ensures
            final(self).wf(),
            final(self).len() == sample * channels + first + width,
            forall|index: int|
                0 <= index < final(self).len() ==> #[trigger] final(self).bit(index)
                    == crossed_bit(data, channels, index),
    {
        let ghost before = *self;
        let value: u64 = row_bits(transposed, row, width);
        self.append(value, width);
        proof {
            assert forall|index: int| 0 <= index < self.len() implies #[trigger] self.bit(index)
                == crossed_bit(data, channels, index) by {
                if index < before.len() {
                    assert(self.bit(index) == before.bit(index));
                } else {
                    let j = index - before.len();
                    lemma_index(channels, sample, first + j);
                    assert(index == sample * channels + (first + j));
                    assert(word_bit(value, j) == matrix_bit(transposed, row as int, j));
                }
            }
        }
    }
}

/// Appends to a device stream and turns its whole blocks into canonical samples. What follows the
/// last whole block stays in `carry`.
pub fn canonicalize_cross_blocks(
    carry: &mut Vec<u8>,
    incoming: &[u8],
    channel_count: usize,
) -> (result: Result<Vec<u8>, LogicAnalyzerError>)
    ensures
        match result {
            Ok(output) => {
                let data = old(carry)@ + incoming@;
                &&& 1 <= channel_count <= 16
                &&& is_canonical(output@, data, channel_count as int)
                &&& final(carry)@ == data.skip(output@.len() as int)
            },
            Err(error) => {
                &&& channel_count == 0 || channel_count > 16
                &&& final(carry)@ == old(carry)@
                &&& error@ == ErrorView::Protocol(
                    if 8 * channel_count > usize::MAX {
                        "cross-data block size overflow"@
                    } else {
                        "invalid cross-data channel count "@ + decimal(channel_count as nat)
                    },
                )
            },
        },
{
    let block_bytes: usize = match channel_count.checked_mul(8) {
        Some(bytes) => bytes,
        None => return Err(protocol("cross-data block size overflow")),
    };
    if channel_count == 0 || channel_count > 16 {
        let mut message: Vec<char> = to_chars("invalid cross-data channel count ");
        append_chars(&mut message, decimal_chars(channel_count as u64).as_slice());
        return Err(LogicAnalyzerError::Protocol(from_chars(message.as_slice())));
    }
    let ghost before = carry@;
    carry.extend_from_slice(incoming);
    let ghost data = before + incoming@;
    assert(carry@ =~= data);
    let len: usize = carry.len();
    let blocks: usize = len / block_bytes;
    let ghost n = channel_count as int;
    proof {
        vstd::arithmetic::div_mod::lemma_fundamental_div_mod(len as int, block_bytes as int);
        assert(blocks * block_bytes == block_bytes * blocks) by (nonlinear_arith);
    }
    let complete: usize = blocks * block_bytes;
    let width0: u64 = if channel_count < 8 {
        channel_count as u64
    } else {
        8
    };
    let mut writer: BitWriter = BitWriter::new();
    let mut block: usize = 0;
    let mut base: usize = 0;
    assert((64 * block) * n == 0) by (nonlinear_arith)
        requires
            block == 0,
    ;
    while block < blocks
        invariant
            writer.wf(),
            1 <= channel_count <= 16,
            block_bytes == 8 * channel_count,
            n == channel_count,
            width0 == (if channel_count < 8 {
                channel_count as int
            } else {
                8
            }),
            carry@ == data,
            complete == blocks * block_bytes,
            complete <= len,
            len == data.len(),
            block <= blocks,
            base == block * block_bytes,
            writer.len() == (64 * block) * n,
            forall|index: int|
                0 <= index < writer.len() ==> #[trigger] writer.bit(index) == crossed_bit(
                    data,
                    n,
                    index,
                ),
        decreases blocks - block,
    {
        proof {
            assert((block + 1) * block_bytes <= blocks * block_bytes) by (nonlinear_arith)
                requires
                    block + 1 <= blocks,
            ;
            assert((block + 1) * block_bytes == block * block_bytes + block_bytes)
                by (nonlinear_arith);
            assert(8 * (block * block_bytes) == block * (64 * n)) by (nonlinear_arith)
                requires
                    block_bytes == 8 * n,
            ;
        }
        let mut sample_byte: usize = 0;
        while sample_byte < 8
            invariant
                writer.wf(),
                1 <= channel_count <= 16,
                block_bytes == 8 * channel_count,
                n == channel_count,
                width0 == (if channel_count < 8 {
                    channel_count as int
                } else {
                    8
                }),
                carry@ == data,
                base + block_bytes <= len,
                len == data.len(),
                8 * base == block * (64 * n),
                sample_byte <= 8,
                writer.len() == (64 * block + 8 * sample_byte) * n,
                forall|index: int|
                    0 <= index < writer.len() ==> #[trigger] writer.bit(index) == crossed_bit(
                        data,
                        n,
                        index,
                    ),
            decreases 8 - sample_byte,
        {
            let group0: u64 = gather(carry, base + sample_byte, width0 as usize);
            let group1: u64 = if channel_count > 8 {
                gather(carry, base + sample_byte + 64, channel_count - 8)
            } else {
                0
            };
            let mut row: u64 = 0;
            let ghost octet = 64 * block + 8 * sample_byte;
            while row < 8
                invariant
                    writer.wf(),
                    1 <= channel_count <= 16,
                    n == channel_count,
                    width0 == (if channel_count < 8 {
                        channel_count as int
                    } else {
                        8
                    }),
                    8 * base == block * (64 * n),
                    sample_byte < 8,
                    octet == 64 * block + 8 * sample_byte,
                    forall|sample: int, r: int|
                        0 <= sample < 8 && 0 <= r < width0 ==> #[trigger] matrix_bit(
                            group0,
                            sample,
                            r,
                        ) == bit_of(data, 8 * (base + sample_byte) + 64 * r + sample),
                    channel_count > 8 ==> forall|sample: int, r: int|
                        0 <= sample < 8 && 0 <= r < channel_count - 8 ==> #[trigger] matrix_bit(
                            group1,
                            sample,
                            r,
                        ) == bit_of(data, 8 * (base + sample_byte + 64) + 64 * r + sample),
                    row <= 8,
                    writer.len() == (octet + row) * n,
                    forall|index: int|
                        0 <= index < writer.len() ==> #[trigger] writer.bit(index) == crossed_bit(
                            data,
                            n,
                            index,
                        ),
                decreases 8 - row,
            {
                let ghost sample = octet + row;
                proof {
                    assert(sample / 64 == block);
                    assert(sample % 64 == 8 * sample_byte + row);
                    assert((sample + 1) * n == sample * n + n) by (nonlinear_arith);
                }
                writer.append_row(
                    group0,
                    row,
                    width0,
                    Ghost(data),
                    Ghost(n),
                    Ghost(sample),
                    Ghost(0),
                );
                if channel_count > 8 {
                    writer.append_row(
                        group1,
                        row,
                        (channel_count - 8) as u64,
                        Ghost(data),
                        Ghost(n),
                        Ghost(sample),
                        Ghost(8),
                    );
                }
                row += 1;
            }
            sample_byte += 1;
        }
        base += block_bytes;
        block += 1;
    }
    let output: Vec<u8> = writer.bytes;
    proof {
        assert((64 * blocks) * n == 8 * (blocks * block_bytes)) by (nonlinear_arith)
            requires
                block_bytes == 8 * n,
        ;
        assert(writer.bits == 0);
        assert(output@.len() == complete);
        assert forall|index: int| 0 <= index < 8 * output@.len() implies #[trigger] bit_of(
            output@,
            index,
        ) == crossed_bit(data, n, index) by {
            assert(writer.bit(index) == crossed_bit(data, n, index));
        }
    }
    let remainder: Vec<u8> = carry.split_off(complete);
    *carry = remainder;
    assert(carry@ =~= data.skip(complete as int));
    Ok(output)
}

proof fn lemma_complete(len: int, unit: int)
    requires
        len >= 0,
        unit > 0,
    ensures
        0 <= len / unit * unit <= len,
        len - len / unit * unit < unit,
{
    vstd::arithmetic::div_mod::lemma_fundamental_div_mod(len, unit);
    vstd::arithmetic::div_mod::lemma_div_pos_is_pos(len, unit);
    assert(len / unit * unit == unit * (len / unit)) by (nonlinear_arith);
    assert(0 <= len / unit * unit) by (nonlinear_arith)
        requires
            len / unit >= 0,
            unit > 0,
    ;
}

/// Every level of a whole block arrives: sample `sample` of channel `channel` stands in the
/// canonical data at bit `sample * channels + channel`.
pub proof fn law_every_level_is_delivered(
    output: Seq<u8>,
    data: Seq<u8>,
    channels: int,
    sample: int,
    channel: int,
)
    requires
        1 <= channels <= 16,
        is_canonical(output, data, channels),
        0 <= sample,
        0 <= channel < channels,
        sample * channels + channel < 8 * output.len(),
    ensures
        bit_of(output, sample * channels + channel) == bit_of(
            data,
            cross_index(channels, sample, channel),
        ),
        0 <= cross_index(channels, sample, channel) < 8 * data.len(),
{
    lemma_index(channels, sample, channel);
    let index = sample * channels + channel;
    assert(0 <= index) by (nonlinear_arith)
        requires
            index == sample * channels + channel,
            sample >= 0,
            channels >= 1,
            channel >= 0,
    ;
    assert(bit_of(output, index) == crossed_bit(data, channels, index));
    let blocks = data.len() as int / (8 * channels);
    lemma_complete(data.len() as int, 8 * channels);
    assert(output.len() == blocks * (8 * channels));
    let block = sample / 64;
    assert(block < blocks) by (nonlinear_arith)
        requires
            block * 64 <= sample,
            sample * channels + channel < 8 * (blocks * (8 * channels)),
            0 <= channel,
            channels >= 1,
    ;
    assert(block * (64 * channels) + 64 * channels <= 8 * (blocks * (8 * channels)))
        by (nonlinear_arith)
        requires
            block + 1 <= blocks,
            channels >= 1,
    ;
    assert(0 <= block * (64 * channels)) by (nonlinear_arith)
        requires
            block >= 0,
            channels >= 1,
    ;
}

proof fn lemma_cross_index_in_block(channels: int, index: int, unit: int, blocks: int)
    requires
        1 <= channels <= 16,
        unit == 8 * channels,
        0 <= index < 8 * (blocks * unit),
    ensures
        0 <= cross_index(channels, index / channels, index % channels) < 8 * (blocks * unit),
{
    let sample = index / channels;
    let channel = index % channels;
    vstd::arithmetic::div_mod::lemma_fundamental_div_mod(index, channels);
    vstd::arithmetic::div_mod::lemma_div_pos_is_pos(index, channels);
    let block = sample / 64;
    assert(channels * sample >= channels * (64 * block)) by (nonlinear_arith)
        requires
            sample >= 64 * block,
            channels >= 1,
    ;
    assert(block < blocks) by (nonlinear_arith)
        requires
            channels * (64 * block) <= index,
            index < 8 * (blocks * unit),
            unit == 8 * channels,
            channels >= 1,
    ;
    assert(block * (64 * channels) + 64 * channels <= 8 * (blocks * unit)) by (nonlinear_arith)
        requires
            block + 1 <= blocks,
            unit == 8 * channels,
            channels >= 1,
    ;
    assert(0 <= block * (64 * channels)) by (nonlinear_arith)
        requires
            block >= 0,
            channels >= 1,
    ;
}

proof fn lemma_shifted_block(channels: int, index: int, unit: int, blocks: int)
    requires
        1 <= channels <= 16,
        unit == 8 * channels,
        blocks >= 0,
        index >= 8 * (blocks * unit),
    ensures
        cross_index(channels, index / channels, index % channels) == 8 * (blocks * unit)
            + cross_index(
            channels,
            (index - 8 * (blocks * unit)) / channels,
            (index - 8 * (blocks * unit)) % channels,
        ),
{
    let local = index - 8 * (blocks * unit);
    let skipped = 64 * blocks;
    assert(8 * (blocks * unit) == skipped * channels) by (nonlinear_arith)
        requires
            unit == 8 * channels,
            skipped == 64 * blocks,
    ;
    vstd::arithmetic::div_mod::lemma_fundamental_div_mod(local, channels);
    let sample = local / channels;
    let channel = local % channels;
    assert(index == (sample + skipped) * channels + channel) by (nonlinear_arith)
        requires
            index == local + skipped * channels,
            local == channels * sample + channel,
    ;
    vstd::arithmetic::div_mod::lemma_div_pos_is_pos(local, channels);
    lemma_index(channels, sample + skipped, channel);
    assert((sample + skipped) / 64 == sample / 64 + blocks);
    assert((sample + skipped) % 64 == sample % 64);
    assert((sample / 64 + blocks) * (64 * channels) == (sample / 64) * (64 * channels) + 8 * (blocks
        * unit)) by (nonlinear_arith)
        requires
            unit == 8 * channels,
    ;
}

/// Where a device stream is cut into transfers changes nothing: the canonical data of two
/// transfers, the second behind what the first left over, is that of both at once.
pub proof fn law_transfer_boundaries_do_not_matter(
    first: Seq<u8>,
    second: Seq<u8>,
    channels: int,
    one: Seq<u8>,
    two: Seq<u8>,
)
    requires
        1 <= channels <= 16,
        is_canonical(one, first, channels),
        is_canonical(two, first.skip(one.len() as int) + second, channels),
    ensures
        is_canonical(one + two, first + second, channels),
        (first + second).skip((one + two).len() as int) == (first.skip(one.len() as int)
            + second).skip(two.len() as int),
{
    let unit = 8 * channels;
    let rest = first.skip(one.len() as int) + second;
    let data = first + second;
    let output = one + two;
    let blocks = first.len() as int / unit;
    let more = rest.len() as int / unit;
    lemma_complete(first.len() as int, unit);
    lemma_complete(rest.len() as int, unit);
    vstd::arithmetic::div_mod::lemma_hoist_over_denominator(rest.len() as int, blocks, unit as nat);
    assert(data.len() == rest.len() + blocks * unit);
    assert((more + blocks) * unit == more * unit + blocks * unit) by (nonlinear_arith);
    assert(output.len() == complete_bytes(data.len() as int, channels));
    assert(data.skip(one.len() as int) =~= rest);
    vstd::arithmetic::div_mod::lemma_div_pos_is_pos(first.len() as int, unit);
    assert forall|index: int| 0 <= index < 8 * output.len() implies #[trigger] bit_of(output, index)
        == crossed_bit(data, channels, index) by {
        if index < 8 * one.len() {
            lemma_cross_index_in_block(channels, index, unit, blocks);
            assert(output[index / 8] == one[index / 8]);
            assert(bit_of(one, index) == crossed_bit(first, channels, index));
            let at = cross_index(channels, index / channels, index % channels);
            assert(data[at / 8] == first[at / 8]);
        } else {
            let local = index - 8 * one.len();
            lemma_shifted_block(channels, index, unit, blocks);
            lemma_cross_index_in_block(channels, local, unit, more);
            assert(output[index / 8] == two[local / 8]);
            assert(bit_of(two, local) == crossed_bit(rest, channels, local));
            let at = cross_index(channels, local / channels, local % channels);
            assert(data[(at + 8 * one.len()) / 8] == rest[at / 8]);
        }
    }
    assert(data.skip(output.len() as int) =~= rest.skip(two.len() as int));
}

proof fn lemma_same_byte_bv(a: u8, b: u8)
    by (bit_vector)
    requires
        (a >> 0) & 1 == (b >> 0) & 1,
        (a >> 1) & 1 == (b >> 1) & 1,
        (a >> 2) & 1 == (b >> 2) & 1,
        (a >> 3) & 1 == (b >> 3) & 1,
        (a >> 4) & 1 == (b >> 4) & 1,
        (a >> 5) & 1 == (b >> 5) & 1,
        (a >> 6) & 1 == (b >> 6) & 1,
        (a >> 7) & 1 == (b >> 7) & 1,
    ensures
        a == b,
{
}

proof fn lemma_bit_value_bv(byte: u8, j: u8)
    by (bit_vector)
    requires
        j < 8,
    ensures
        (byte >> j) & 1 == 0 || (byte >> j) & 1 == 1,
{
}

proof fn lemma_byte_bit_equal(a: Seq<u8>, b: Seq<u8>, i: int, j: u8)
    requires
        0 <= i < a.len(),
        a.len() == b.len(),
        j < 8,
        bit_of(a, 8 * i + j) == bit_of(b, 8 * i + j),
    ensures
        (a[i] >> j) & 1 == (b[i] >> j) & 1,
{
    assert((8 * i + j) / 8 == i);
    assert((8 * i + j) % 8 == j);
    lemma_bit_value_bv(a[i], j);
    lemma_bit_value_bv(b[i], j);
}

/// Byte strings with the same bits are the same.
pub proof fn lemma_same_bytes(a: Seq<u8>, b: Seq<u8>)
    requires
        a.len() == b.len(),
        forall|index: int| 0 <= index < 8 * a.len() ==> #[trigger] bit_of(a, index) == bit_of(b, index),
    ensures
        a == b,
{
    assert forall|i: int| 0 <= i < a.len() implies a[i] == b[i] by {
        lemma_byte_bit_equal(a, b, i, 0);
        lemma_byte_bit_equal(a, b, i, 1);
        lemma_byte_bit_equal(a, b, i, 2);
        lemma_byte_bit_equal(a, b, i, 3);
        lemma_byte_bit_equal(a, b, i, 4);
        lemma_byte_bit_equal(a, b, i, 5);
        lemma_byte_bit_equal(a, b, i, 6);
        lemma_byte_bit_equal(a, b, i, 7);
        lemma_same_byte_bv(a[i], b[i]);
    }
    assert(a =~= b);
}

/// The canonical data of a device stream.
pub open spec fn canonical(data: Seq<u8>, channels: int) -> Seq<u8> {
    choose|output: Seq<u8>| is_canonical(output, data, channels)
}

/// A device stream has one canonical form.
pub proof fn lemma_canonical(output: Seq<u8>, data: Seq<u8>, channels: int)
    requires
        is_canonical(output, data, channels),
    ensures
        output == canonical(data, channels),
{
    let other = canonical(data, channels);
    assert(is_canonical(other, data, channels));
    assert forall|index: int| 0 <= index < 8 * output.len() implies #[trigger] bit_of(output, index)
        == bit_of(other, index) by {
        assert(bit_of(other, index) == crossed_bit(data, channels, index));
    }
    lemma_same_bytes(output, other);
}

spec fn one_at(set: bool, place: u8) -> u8 {
    if set {
        1u8 << place
    } else {
        0
    }
}

spec fn byte_from(b0: bool, b1: bool, b2: bool, b3: bool, b4: bool, b5: bool, b6: bool, b7: bool) -> u8 {
    one_at(b0, 0) | one_at(b1, 1) | one_at(b2, 2) | one_at(b3, 3) | one_at(b4, 4) | one_at(b5, 5)
        | one_at(b6, 6) | one_at(b7, 7)
}

proof fn lemma_byte_from_bv(
    b0: bool,
    b1: bool,
    b2: bool,
    b3: bool,
    b4: bool,
    b5: bool,
    b6: bool,
    b7: bool,
)
    by (bit_vector)
    ensures
        ((byte_from(b0, b1, b2, b3, b4, b5, b6, b7) >> 0) & 1 == 1) == b0,
        ((byte_from(b0, b1, b2, b3, b4, b5, b6, b7) >> 1) & 1 == 1) == b1,
        ((byte_from(b0, b1, b2, b3, b4, b5, b6, b7) >> 2) & 1 == 1) == b2,
        ((byte_from(b0, b1, b2, b3, b4, b5, b6, b7) >> 3) & 1 == 1) == b3,
        ((byte_from(b0, b1, b2, b3, b4, b5, b6, b7) >> 4) & 1 == 1) == b4,
        ((byte_from(b0, b1, b2, b3, b4, b5, b6, b7) >> 5) & 1 == 1) == b5,
        ((byte_from(b0, b1, b2, b3, b4, b5, b6, b7) >> 6) & 1 == 1) == b6,
        ((byte_from(b0, b1, b2, b3, b4, b5, b6, b7) >> 7) & 1 == 1) == b7,
{
}

/// The canonical form is one: its bits are those of the device stream, put in order.
pub proof fn lemma_canonical_is_canonical(data: Seq<u8>, channels: int)
    requires
        1 <= channels <= 16,
    ensures
        is_canonical(canonical(data, channels), data, channels),
{
    let len = complete_bytes(data.len() as int, channels);
    lemma_complete(data.len() as int, 8 * channels);
    let bit = |index: int| crossed_bit(data, channels, index);
    let output = Seq::new(
        len as nat,
        |i: int|
            byte_from(
                bit(8 * i),
                bit(8 * i + 1),
                bit(8 * i + 2),
                bit(8 * i + 3),
                bit(8 * i + 4),
                bit(8 * i + 5),
                bit(8 * i + 6),
                bit(8 * i + 7),
            ),
    );
    assert forall|index: int| 0 <= index < 8 * output.len() implies #[trigger] bit_of(output, index)
        == crossed_bit(data, channels, index) by {
        let i = index / 8;
        assert(0 <= i < output.len());
        assert(index == 8 * i + index % 8);
        lemma_byte_from_bv(
            bit(8 * i),
            bit(8 * i + 1),
            bit(8 * i + 2),
            bit(8 * i + 3),
            bit(8 * i + 4),
            bit(8 * i + 5),
            bit(8 * i + 6),
            bit(8 * i + 7),
        );
    }
    assert(is_canonical(output, data, channels));
}

} // verus!

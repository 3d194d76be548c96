//! What a word assembled from several cycles holds.

use vstd::prelude::*;

use crate::bits::{lemma_word_ops, word_bit};
use crate::digital::Endianness;
use crate::parallel_decoder::merge::{AssemblyState, WordFormat};
use crate::streams::Word;

verus! {

/// The first `count` cycles taken in, one after the other.
pub open spec fn assembled(format: WordFormat, cycles: Seq<u64>, count: nat) -> u64
    decreases count,
{
    if count == 0 {
        0
    } else {
        format.absorb(
            assembled(format, cycles, (count - 1) as nat),
            count - 1,
            cycles[count - 1],
        )
    }
}

/// A bus value has no bit beyond the data lines.
pub open spec fn fits_bus(format: WordFormat, cycle: u64) -> bool {
    forall|j: int| format.num_data_bits <= j < 64 ==> !#[trigger] word_bit(cycle, j)
}

proof fn lemma_shift_bv(a: u64, s: u64, j: u64)
    by (bit_vector)
    requires
        j < 64,
    ensures
        s < 64 ==> (((a << s) >> j) & 1u64 == 1u64) == (j >= s && ((a >> ((j - s) as u64)) & 1u64
            == 1u64)),
        s >= 64 ==> (a << s) == 0,
{
}

proof fn lemma_shift(a: u64, s: int, j: int)
    requires
        0 <= j < 64,
        0 <= s <= 64,
    ensures
        word_bit(a << (s as u64), j) == (j >= s && word_bit(a, j - s)),
{
    lemma_shift_bv(a, s as u64, j as u64);
    lemma_word_ops(0, 0, j);
}

/// Where cycle `k` of `count` sits in the word, from the least significant bit.
pub open spec fn cycle_offset(format: WordFormat, count: int, k: int) -> int {
    match format.endianness {
        Endianness::Little => k * format.num_data_bits,
        Endianness::Big => (count - 1 - k) * format.num_data_bits,
    }
}

/// Bit `b` of cycle `k` is bit `b` of the word's `k`-th part, counted from the least significant
/// end in little-endian order and from the most significant end in big-endian order; nothing lies
/// above the last part.
pub proof fn law_word_holds_its_cycles(format: WordFormat, cycles: Seq<u64>, count: nat, k: int, b: int)
    requires
        format.wf(),
        count <= format.cycles_per_word,
        count <= cycles.len(),
        forall|i: int| 0 <= i < count ==> fits_bus(format, #[trigger] cycles[i]),
        0 <= k < count,
        0 <= b < format.num_data_bits,
    ensures
        0 <= cycle_offset(format, count as int, k) + b < 64,
        word_bit(assembled(format, cycles, count), cycle_offset(format, count as int, k) + b)
            == word_bit(cycles[k], b),
{
    lemma_assembled_bits(format, cycles, count);
    let bits = format.num_data_bits as int;
    let place = match format.endianness {
        Endianness::Little => k,
        Endianness::Big => count - 1 - k,
    };
    assert(place * bits + b < count * bits && 0 <= place * bits) by (nonlinear_arith)
        requires
            0 <= place < count,
            0 <= b < bits,
    ;
    assert(count * bits <= format.cycles_per_word * bits) by (nonlinear_arith)
        requires
            0 <= count <= format.cycles_per_word,
            bits >= 1,
    ;
    assert(part_bit(format, cycles, count, place, b));
}

/// Part `place` of the word, from the least significant end, is the right cycle.
spec fn part_bit(format: WordFormat, cycles: Seq<u64>, count: nat, place: int, b: int) -> bool {
    word_bit(assembled(format, cycles, count), place * format.num_data_bits + b) == word_bit(
        cycles[match format.endianness {
            Endianness::Little => place,
            Endianness::Big => count - 1 - place,
        }],
        b,
    )
}

proof fn lemma_assembled_bits(format: WordFormat, cycles: Seq<u64>, count: nat)
    requires
        format.wf(),
        count <= format.cycles_per_word,
        count <= cycles.len(),
        forall|i: int| 0 <= i < count ==> fits_bus(format, #[trigger] cycles[i]),
    ensures
        forall|place: int, b: int|
            0 <= place < count && 0 <= b < format.num_data_bits ==> #[trigger] part_bit(
                format,
                cycles,
                count,
                place,
                b,
            ),
        forall|j: int|
            count * format.num_data_bits <= j < 64 ==> !#[trigger] word_bit(
                assembled(format, cycles, count),
                j,
            ),
    decreases count,
{
    let bits = format.num_data_bits as int;
    let value = assembled(format, cycles, count);
    assert(count * bits <= format.cycles_per_word * bits) by (nonlinear_arith)
        requires
            0 <= count <= format.cycles_per_word,
            bits >= 1,
    ;
    if count == 0 {
        assert forall|j: int| 0 <= j < 64 implies !#[trigger] word_bit(value, j) by {
            lemma_word_ops(0, 0, j);
        }
    } else {
        let last = cycles[count - 1];
        let before = assembled(format, cycles, (count - 1) as nat);
        lemma_assembled_bits(format, cycles, (count - 1) as nat);
        let low = (count - 1) * bits;
        assert(low + bits == count * bits && low >= 0) by (nonlinear_arith)
            requires
                low == (count - 1) * bits,
                count >= 1,
                bits >= 1,
        ;
        assert(fits_bus(format, last));
        match format.endianness {
            Endianness::Little => {
                let placed = last << (low as u64);
                assert forall|j: int| 0 <= j < 64 implies #[trigger] word_bit(value, j) == (
                word_bit(before, j) || (j >= low && word_bit(last, j - low))) by {
                    lemma_word_ops(before, placed, j);
                    lemma_shift(last, low, j);
                }
                assert forall|place: int, b: int|
                    0 <= place < count && 0 <= b < bits implies #[trigger] part_bit(
                    format,
                    cycles,
                    count,
                    place,
                    b,
                ) by {
                    let j = place * bits + b;
                    assert(0 <= j < count * bits && (place < count - 1 ==> j < low) && (place
                        == count - 1 ==> j == low + b)) by (nonlinear_arith)
                        requires
                            0 <= place < count,
                            0 <= b < bits,
                            low == (count - 1) * bits,
                            j == place * bits + b,
                    ;
                    if place < count - 1 {
                        assert(part_bit(format, cycles, (count - 1) as nat, place, b));
                    }
                    assert(word_bit(value, j) == (word_bit(before, j) || (j >= low && word_bit(
                        last,
                        j - low,
                    ))));
                }
                assert forall|j: int| count * bits <= j < 64 implies !#[trigger] word_bit(
                    value,
                    j,
                ) by {
                    assert(!word_bit(before, j));
                    assert(!word_bit(last, j - low));
                }
            },
            Endianness::Big => {
                let shifted = before << (bits as u64);
                assert forall|j: int| 0 <= j < 64 implies #[trigger] word_bit(value, j) == (
                word_bit(last, j) || (j >= bits && word_bit(before, j - bits))) by {
                    lemma_word_ops(shifted, last, j);
                    lemma_shift(before, bits, j);
                }
                assert forall|place: int, b: int|
                    0 <= place < count && 0 <= b < bits implies #[trigger] part_bit(
                    format,
                    cycles,
                    count,
                    place,
                    b,
                ) by {
                    let j = place * bits + b;
                    assert(0 <= j < count * bits && (place > 0 ==> j >= bits && j - bits == (place
                        - 1) * bits + b) && (place == 0 ==> j == b)) by (nonlinear_arith)
                        requires
                            0 <= place < count,
                            0 <= b < bits,
                            j == place * bits + b,
                    ;
                    if place > 0 {
                        assert(part_bit(format, cycles, (count - 1) as nat, place - 1, b));
                        assert(!word_bit(last, j));
                    }
                    assert(word_bit(value, j) == (word_bit(last, j) || (j >= bits && word_bit(
                        before,
                        j - bits,
                    ))));
                }
                assert forall|j: int| count * bits <= j < 64 implies !#[trigger] word_bit(
                    value,
                    j,
                ) by {
                    assert(bits <= count * bits) by (nonlinear_arith)
                        requires
                            count >= 1,
                            bits >= 1,
                    ;
                    assert(!word_bit(last, j));
                    assert(!word_bit(before, j - bits));
                }
            },
        }
    }
}

/// The accumulator after the first `count` cycles, each a time and a bus value, and the words
/// completed on the way.
pub open spec fn fed(
    format: WordFormat,
    state: AssemblyState,
    cycles: Seq<(u64, u64)>,
    count: nat,
) -> (AssemblyState, Seq<Word>)
    decreases count,
{
    if count == 0 {
        (state, Seq::empty())
    } else {
        let (before, words) = fed(format, state, cycles, (count - 1) as nat);
        let (after, word) = before.after_cycle(format, cycles[count - 1].0, cycles[count - 1].1);
        (
            after,
            match word {
                Some(word) => words.push(word),
                None => words,
            },
        )
    }
}

/// Bus values of timed cycles.
pub open spec fn cycle_values(cycles: Seq<(u64, u64)>) -> Seq<u64> {
    Seq::new(cycles.len(), |i: int| cycles[i].1)
}

proof fn lemma_fed_partial(format: WordFormat, state: AssemblyState, cycles: Seq<(u64, u64)>, count: nat)
    requires
        format.wf(),
        state.cycles == 0,
        state.value == 0,
        count < format.cycles_per_word,
        count <= cycles.len(),
    ensures
        ({
            let (after, words) = fed(format, state, cycles, count);
            &&& words.len() == 0
            &&& after.cycles == count
            &&& after.value == assembled(format, cycle_values(cycles), count)
            &&& count > 0 ==> after.first_ts == cycles[0].0
        }),
    decreases count,
{
    if count > 0 {
        lemma_fed_partial(format, state, cycles, (count - 1) as nat);
    }
}

/// An empty accumulator fed as many cycles as a word has completes exactly one word: it holds all
/// cycles, is timed at the first and lasts to the last.
pub proof fn law_cycles_make_one_word(format: WordFormat, state: AssemblyState, cycles: Seq<(u64, u64)>)
    requires
        format.wf(),
        state.cycles == 0,
        state.value == 0,
        cycles.len() == format.cycles_per_word,
        cycles[0].0 <= cycles.last().0,
    ensures
        ({
            let (after, words) = fed(format, state, cycles, cycles.len());
            &&& after.cycles == 0
            &&& after.value == 0
            &&& words == seq![
                Word {
                    value: assembled(format, cycle_values(cycles), cycles.len()),
                    timestamp_ns: cycles[0].0,
                    duration_ns: (cycles.last().0 - cycles[0].0) as u64,
                },
            ]
        }),
{
    lemma_fed_partial(format, state, cycles, (cycles.len() - 1) as nat);
    let (after, words) = fed(format, state, cycles, cycles.len());
    assert(words =~= seq![
        Word {
            value: assembled(format, cycle_values(cycles), cycles.len()),
            timestamp_ns: cycles[0].0,
            duration_ns: (cycles.last().0 - cycles[0].0) as u64,
        },
    ]);
}

} // verus!

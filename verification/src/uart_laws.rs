//! What the frames of the UART decoder say of the line.

use vstd::prelude::*;
use vstd::arithmetic::power2::pow2;

use crate::digital::BitOrder;
use crate::streams::Sample;
use crate::uart_decoder::{
    in_order, law_line_level_is_that_of_the_latest_edge, levels_at, line_at, number_of, ones,
    parity_holds, start_edge, LineRead, SeriesRead, UartDecoder, UartFrame, UartParity, UartStep,
    UartStopBits, UartTiming,
};

verus! {

/// The levels of a sequence that are high.
pub open spec fn high_levels(levels: Seq<bool>) -> Seq<bool> {
    levels.filter(|level: bool| level)
}

proof fn lemma_ones_are_high_levels(levels: Seq<bool>)
    ensures
        ones(levels) == high_levels(levels).len(),
    decreases levels.len(),
{
    reveal(Seq::filter);
    if levels.len() > 0 {
        lemma_ones_are_high_levels(levels.drop_last());
    }
}

/// With even (odd) parity a frame is accepted exactly when the number of high levels among its data
/// bits and its parity bit is even (odd). A mark is a high parity bit and a space a low one.
pub proof fn law_parity_counts_the_high_bits(bits: Seq<bool>, parity_bit: bool)
    ensures
        parity_holds(UartParity::Even, bits, parity_bit) <==> high_levels(bits.push(parity_bit)).len()
            % 2 == 0,
        parity_holds(UartParity::Odd, bits, parity_bit) <==> high_levels(bits.push(parity_bit)).len()
            % 2 == 1,
        parity_holds(UartParity::Mark, bits, parity_bit) <==> parity_bit,
        parity_holds(UartParity::Space, bits, parity_bit) <==> !parity_bit,
        parity_holds(UartParity::NoParity, bits, parity_bit),
{
    let all = bits.push(parity_bit);
    lemma_ones_are_high_levels(all);
    assert(all.drop_last() =~= bits);
}

proof fn lemma_flip_changes_ones(bits: Seq<bool>, i: int)
    requires
        0 <= i < bits.len(),
    ensures
        ones(bits.update(i, !bits[i])) == ones(bits) + (if bits[i] {
            -1int
        } else {
            1
        }),
    decreases bits.len(),
{
    let flipped = bits.update(i, !bits[i]);
    if i == bits.len() - 1 {
        assert(flipped.drop_last() =~= bits.drop_last());
    } else {
        lemma_flip_changes_ones(bits.drop_last(), i);
        assert(flipped.drop_last() =~= bits.drop_last().update(i, !bits[i]));
    }
}

/// Even and odd parity notice a change of any single bit: a parity that was accepted is refused and
/// one that was refused is accepted, whether a data bit or the parity bit changed.
pub proof fn law_parity_notices_every_single_change(
    parity: UartParity,
    bits: Seq<bool>,
    parity_bit: bool,
    i: int,
)
    requires
        parity == UartParity::Even || parity == UartParity::Odd,
        0 <= i < bits.len(),
    ensures
        parity_holds(parity, bits.update(i, !bits[i]), parity_bit) <==> !parity_holds(
            parity,
            bits,
            parity_bit,
        ),
        parity_holds(parity, bits, !parity_bit) <==> !parity_holds(parity, bits, parity_bit),
        parity_holds(UartParity::Even, bits, parity_bit) <==> !parity_holds(
            UartParity::Odd,
            bits,
            parity_bit,
        ),
{
    lemma_flip_changes_ones(bits, i);
}

/// The levels of a line while a frame with the given value, parity bit and stop level is sent.
pub open spec fn sent_levels(decoder: UartDecoder, value: nat, parity_bit: bool, stop: bool) -> Seq<
    bool,
> {
    let data = Seq::new(
        decoder.data_bits as nat,
        |i: int|
            value / pow2(
                (match decoder.bit_order {
                    BitOrder::LsbFirst => i,
                    BitOrder::MsbFirst => decoder.data_bits - 1 - i,
                }) as nat,
            ) % 2 == 1,
    );
    let logical = data + (if decoder.parity == UartParity::NoParity {
        Seq::empty()
    } else {
        seq![parity_bit]
    }) + (if decoder.stop_bits.halves() == 0 {
        Seq::empty()
    } else {
        seq![stop]
    });
    logical.map_values(|level: bool| if decoder.invert {
        !level
    } else {
        level
    })
}

proof fn lemma_number_of_bits(value: nat, bits: Seq<bool>)
    requires
        value < pow2(bits.len()),
        forall|i: int| 0 <= i < bits.len() ==> #[trigger] bits[i] == (value / pow2(i as nat) % 2 == 1),
    ensures
        number_of(bits) == value,
    decreases bits.len(),
{
    vstd::arithmetic::power2::lemma2_to64();
    if bits.len() > 0 {
        let rest = bits.skip(1);
        vstd::arithmetic::power2::lemma_pow2_unfold(bits.len());
        assert forall|i: int| 0 <= i < rest.len() implies #[trigger] rest[i] == (value / 2 / pow2(
            i as nat,
        ) % 2 == 1) by {
            vstd::arithmetic::power2::lemma_pow2_unfold((i + 1) as nat);
            vstd::arithmetic::power2::lemma_pow2_pos(i as nat);
            vstd::arithmetic::div_mod::lemma_div_denominator(value as int, 2, pow2(i as nat) as int);
            assert(rest[i] == bits[i + 1]);
        }
        lemma_number_of_bits(value / 2, rest);
        assert(bits[0] == (value / 1 % 2 == 1));
    }
}

/// A frame that was sent is received: its value is the one that was sent, and it has an error exactly
/// where a checked parity bit does not suit or the stop level is low.
pub proof fn law_sent_value_is_received(
    decoder: UartDecoder,
    value: nat,
    parity_bit: bool,
    stop: bool,
)
    requires
        decoder.wf(),
        value < pow2(decoder.data_bits as nat),
    ensures
        ({
            let raw = sent_levels(decoder, value, parity_bit, stop);
            let data = decoder.data_of(raw);
            &&& decoder.value_of(raw) == value
            &&& decoder.has_error(raw) <==> {
                ||| decoder.stop_bits.halves() > 0 && !stop
                ||| decoder.check_parity && decoder.parity == UartParity::Even && high_levels(
                    data.push(parity_bit),
                ).len() % 2 == 1
                ||| decoder.check_parity && decoder.parity == UartParity::Odd && high_levels(
                    data.push(parity_bit),
                ).len() % 2 == 0
                ||| decoder.check_parity && decoder.parity == UartParity::Mark && !parity_bit
                ||| decoder.check_parity && decoder.parity == UartParity::Space && parity_bit
            }
        }),
{
    let raw = sent_levels(decoder, value, parity_bit, stop);
    let data = decoder.data_of(raw);
    let count = decoder.data_bits as int;
    assert(raw.len() >= count);
    assert(data.len() == count);
    if decoder.bit_order == BitOrder::LsbFirst {
        assert forall|i: int| 0 <= i < count implies #[trigger] data[i] == (value / pow2(i as nat) % 2
            == 1) by {}
        lemma_number_of_bits(value, data);
    } else {
        let reversed = data.reverse();
        assert forall|i: int| 0 <= i < count implies #[trigger] reversed[i] == (value / pow2(
            i as nat,
        ) % 2 == 1) by {
            assert(reversed[i] == data[count - 1 - i]);
        }
        lemma_number_of_bits(value, reversed);
    }
    law_parity_counts_the_high_bits(data, parity_bit);
    let levels = decoder.logical(raw);
    if decoder.parity != UartParity::NoParity {
        assert(levels[count] == parity_bit);
    }
    if decoder.stop_bits.halves() > 0 {
        assert(levels.last() == stop);
    }
}

/// The parts of a frame lie one behind the other from its start edge on: the start bit, the data
/// bits, and the stop interval where there is one. The part of the data holds the value of the word,
/// or a mark of its own where there is an error, which is reported at the start edge.
pub proof fn law_parts_follow_each_other(
    decoder: UartDecoder,
    timing: UartTiming,
    t0: int,
    raw: Seq<bool>,
    frame: UartFrame,
    reach: int,
)
    requires
        decoder.wf(),
        timing.wf(decoder.data_bits as int, reach),
        0 <= t0,
        t0 + reach <= u64::MAX,
        decoder.is_frame(timing, t0, raw, frame),
    ensures
        frame.word.timestamp_ns == t0,
        frame.word.duration_ns == timing.frame,
        frame.parts@.len() == (if decoder.stop_bits.halves() > 0 {
            3nat
        } else {
            2
        }),
        frame.parts@[0].timestamp_ns == t0,
        frame.parts@[0].duration_ns == timing.bit,
        frame.parts@[0].value == u64::MAX,
        frame.parts@[1].timestamp_ns == frame.parts@[0].timestamp_ns + frame.parts@[0].duration_ns,
        frame.parts@[1].duration_ns == decoder.data_bits * frame.parts@[0].duration_ns,
        frame.error is None ==> frame.parts@[1].value == frame.word.value,
        frame.error is Some ==> frame.parts@[1].value == u64::MAX - 2,
        frame.error matches Some(error) ==> error.timestamp_ns == t0,
        decoder.stop_bits.halves() > 0 ==> frame.parts@[2].timestamp_ns
            == frame.parts@[1].timestamp_ns + frame.parts@[1].duration_ns && frame.parts@[2].value
            == u64::MAX - 1 && frame.parts@[2].duration_ns == timing.stop,
{
    let bits = decoder.data_bits as int;
    assert(0 <= timing.bit * bits && timing.bit * bits + timing.bit == timing.bit * (bits + 1))
        by (nonlinear_arith)
        requires
            timing.bit >= 0,
            bits >= 0,
    ;
    assert(timing.bit * bits == bits * timing.bit) by (nonlinear_arith);
}

/// The words of the data bits come in the order of arrival at the beginnings of their bits, and the
/// first or the last of them is the unit of the value, by the order of the bits.
pub proof fn law_bits_make_the_value(
    decoder: UartDecoder,
    timing: UartTiming,
    t0: int,
    raw: Seq<bool>,
    frame: UartFrame,
    reach: int,
    i: int,
)
    requires
        decoder.wf(),
        timing.wf(decoder.data_bits as int, reach),
        0 <= t0,
        t0 + reach <= u64::MAX,
        raw.len() >= decoder.data_bits,
        decoder.is_frame(timing, t0, raw, frame),
        0 <= i < decoder.data_bits,
    ensures
        frame.bits@.len() == decoder.data_bits,
        frame.bits@[i].timestamp_ns == t0 + timing.data_starts@[i],
        frame.bits@[i].duration_ns == timing.bit,
        frame.bits@[i].value == (if raw[i] == decoder.invert {
            0u64
        } else {
            1
        }),
        frame.word.value < pow2(decoder.data_bits as nat),
        frame.bits@[i].value == frame.word.value as nat / pow2(
            (match decoder.bit_order {
                BitOrder::LsbFirst => i,
                BitOrder::MsbFirst => decoder.data_bits - 1 - i,
            }) as nat,
        ) % 2,
{
    vstd::arithmetic::power2::lemma2_to64();
    let data = decoder.data_of(raw);
    assert(data.len() == decoder.data_bits);
    let ordered = match decoder.bit_order {
        BitOrder::LsbFirst => data,
        BitOrder::MsbFirst => data.reverse(),
    };
    let place = match decoder.bit_order {
        BitOrder::LsbFirst => i,
        BitOrder::MsbFirst => decoder.data_bits - 1 - i,
    };
    lemma_number_is_small(ordered);
    lemma_pow2_grows(ordered.len(), 9);
    crate::uart_decoder::law_number_has_its_bits(ordered, place as nat);
    assert(ordered[place] == data[i]);
}

proof fn lemma_number_is_small(bits: Seq<bool>)
    ensures
        number_of(bits) < pow2(bits.len()),
    decreases bits.len(),
{
    vstd::arithmetic::power2::lemma2_to64();
    if bits.len() > 0 {
        lemma_number_is_small(bits.skip(1));
        vstd::arithmetic::power2::lemma_pow2_unfold(bits.len());
    }
}

proof fn lemma_pow2_grows(small: nat, large: nat)
    requires
        small <= large,
    ensures
        pow2(small) <= pow2(large),
{
    if small < large {
        vstd::arithmetic::power2::lemma_pow2_strictly_increases(small, large);
    }
}

/// The stop interval of a setting is as long as its name says: half a bit is the unit, and the
/// others are made of it.
pub proof fn law_stop_intervals()
    ensures
        UartStopBits::S0.halves() == 0,
        UartStopBits::S0_5.halves() == UartStopBits::S0.halves() + 1,
        UartStopBits::S1.halves() == 2 * UartStopBits::S0_5.halves(),
        UartStopBits::S1_5.halves() == UartStopBits::S1.halves() + UartStopBits::S0_5.halves(),
        UartStopBits::S2.halves() == 2 * UartStopBits::S1.halves(),
{
}

/// Whether the line has a level at a time: the latest edge at or before that time has it.
pub open spec fn line_has(edges: Seq<Sample>, time: int, level: bool) -> bool {
    exists|i: int|
        0 <= i < edges.len() && (#[trigger] edges[i]).value == level && edges[i].start_time_ns <= time
            && forall|later: int|
            i < later < edges.len() ==> (#[trigger] edges[later]).start_time_ns > time
}

proof fn lemma_levels_are_those_of_the_line(
    edges: Seq<Sample>,
    from: int,
    times: Seq<int>,
    closed: bool,
)
    requires
        in_order(edges),
        0 <= from < edges.len(),
        forall|k: int| 0 <= k < times.len() ==> edges[from].start_time_ns <= #[trigger] times[k],
        forall|k: int, l: int| 0 <= k <= l < times.len() ==> #[trigger] times[k] <= #[trigger] times[l],
    ensures
        match levels_at(edges, from, times, closed) {
            SeriesRead::Levels(levels, at) => {
                &&& levels.len() == times.len()
                &&& from <= at < edges.len()
                &&& times.len() > 0 ==> edges[at].start_time_ns <= times.last()
                &&& times.len() == 0 ==> at == from
                &&& forall|k: int|
                    0 <= k < times.len() ==> line_has(edges, times[k], #[trigger] levels[k])
            },
            SeriesRead::NeedMore => !closed,
            SeriesRead::Ended => false,
        },
    decreases times.len(),
{
    if times.len() > 0 {
        let before = times.drop_last();
        lemma_levels_are_those_of_the_line(edges, from, before, closed);
        match levels_at(edges, from, before, closed) {
            SeriesRead::Levels(levels, at) => {
                assert(edges[at].start_time_ns <= times.last()) by {
                    if before.len() > 0 {
                        assert(times[before.len() - 1] <= times[times.len() - 1]);
                    }
                }
                law_line_level_is_that_of_the_latest_edge(edges, at, times.last(), closed);
                match line_at(edges, at, times.last(), closed) {
                    LineRead::At(index) => {
                        let all = levels.push(edges[index].value);
                        assert forall|k: int| 0 <= k < times.len() implies line_has(
                            edges,
                            times[k],
                            #[trigger] all[k],
                        ) by {
                            if k < levels.len() {
                                assert(line_has(edges, before[k], levels[k]));
                            } else {
                                assert(edges[index].value == all[k]);
                            }
                        }
                    },
                    _ => {},
                }
            },
            _ => {},
        }
    }
}

proof fn lemma_start_edge(edges: Seq<Sample>, level: bool, resume_after: u64, from: int)
    requires
        0 <= from,
    ensures
        match start_edge(edges, level, resume_after, from) {
            Some(start) => from <= start < edges.len() && edges[start].value == level
                && edges[start].start_time_ns >= resume_after && forall|i: int|
                from <= i < start ==> (#[trigger] edges[i]).value != level || edges[i].start_time_ns
                    < resume_after,
            None => forall|i: int|
                from <= i < edges.len() ==> (#[trigger] edges[i]).value != level
                    || edges[i].start_time_ns < resume_after,
        },
    decreases edges.len() - from,
{
    if from < edges.len() && !(edges[from].value == level && edges[from].start_time_ns
        >= resume_after) {
        lemma_start_edge(edges, level, resume_after, from + 1);
    }
}

/// Distances that do not fall: the data bits in order, then the parity bit, then the stop interval.
pub open spec fn timing_in_order(timing: UartTiming) -> bool {
    let centers = timing.data_centers@;
    &&& forall|i: int, j: int|
        0 <= i <= j < centers.len() ==> #[trigger] centers[i] <= #[trigger] centers[j]
    &&& forall|i: int| 0 <= i < centers.len() ==> #[trigger] centers[i] <= timing.parity_center
    &&& forall|i: int| 0 <= i < centers.len() ==> #[trigger] centers[i] <= timing.stop_center
    &&& timing.parity_center <= timing.stop_center
}

/// A frame starts at the first edge to the level of a start bit that does not come before the end of
/// the frame before, and its bits are the levels of the line at their centers. After it the decoder
/// waits for the end of this frame. Without such an edge the decoder stays as it is.
pub proof fn law_frame_is_read_off_the_line(
    decoder: UartDecoder,
    timing: UartTiming,
    edges: Seq<Sample>,
    closed: bool,
    after: UartDecoder,
    step: UartStep,
    reach: int,
)
    requires
        decoder.wf(),
        decoder.frames < u64::MAX,
        timing.wf(decoder.data_bits as int, reach),
        timing_in_order(timing),
        in_order(edges),
        forall|i: int| 0 <= i < edges.len() ==> #[trigger] edges[i].start_time_ns + reach <= u64::MAX,
        decoder.step_is(timing, edges, closed, after, step),
    ensures
        match step {
            UartStep::Frame { frame, consumed } => {
                let t0 = frame.word.timestamp_ns;
                &&& exists|start: int|
                    0 <= start < edges.len() && (#[trigger] edges[start]).start_time_ns == t0
                        && edges[start].value == decoder.invert && t0 >= decoder.resume_after
                        && forall|i: int|
                        0 <= i < start ==> (#[trigger] edges[i]).value != decoder.invert
                            || edges[i].start_time_ns < decoder.resume_after
                &&& frame.bits@.len() == decoder.data_bits
                &&& forall|i: int|
                    #![trigger frame.bits@[i]]
                    0 <= i < decoder.data_bits ==> line_has(
                        edges,
                        t0 + timing.data_centers@[i],
                        (frame.bits@[i].value == 1) != decoder.invert,
                    )
                &&& !decoder.check_parity && decoder.stop_bits.halves() > 0 ==> line_has(
                    edges,
                    t0 + timing.stop_center,
                    (frame.error is None) != decoder.invert,
                )
                &&& after.resume_after == t0 + timing.resume
                &&& after.frames == decoder.frames + 1
            },
            UartStep::NeedMore => !closed && after == decoder,
            UartStep::Shutdown => closed && after.frames == decoder.frames && forall|i: int|
                0 <= i < edges.len() ==> (#[trigger] edges[i]).value != decoder.invert
                    || edges[i].start_time_ns < decoder.resume_after,
        },
{
    lemma_start_edge(edges, decoder.invert, decoder.resume_after, 0);
    match start_edge(edges, decoder.invert, decoder.resume_after, 0) {
        Some(start) => {
            let t0 = edges[start].start_time_ns as int;
            assert(edges[start].start_time_ns + reach <= u64::MAX);
            let times = decoder.sample_times(timing, t0);
            let count = decoder.data_bits as int;
            assert(forall|k: int|
                0 <= k < count ==> #[trigger] times[k] == t0 + timing.data_centers@[k]);
            assert forall|k: int, l: int| 0 <= k <= l < times.len() implies #[trigger] times[k]
                <= #[trigger] times[l] by {
                if l < count {
                    assert(timing.data_centers@[k] <= timing.data_centers@[l]);
                } else if k < count {
                    assert(timing.data_centers@[k] <= timing.parity_center);
                    assert(timing.data_centers@[k] <= timing.stop_center);
                }
            }
            lemma_levels_are_those_of_the_line(edges, start, times, closed);
            match levels_at(edges, start, times, closed) {
                SeriesRead::Levels(raw, at) => {
                    let frame = step->frame;
                    assert forall|i: int|
                        #![trigger frame.bits@[i]]
                        0 <= i < count implies line_has(
                        edges,
                        t0 + timing.data_centers@[i],
                        (frame.bits@[i].value == 1) != decoder.invert,
                    ) by {
                        assert(line_has(edges, times[i], raw[i]));
                        assert(decoder.data_of(raw)[i] == (raw[i] != decoder.invert));
                    }
                    if !decoder.check_parity && decoder.stop_bits.halves() > 0 {
                        let last = times.len() - 1;
                        assert(times[last] == t0 + timing.stop_center);
                        assert(line_has(edges, times[last], raw[last]));
                        assert(decoder.logical(raw).last() == (raw[last] != decoder.invert));
                    }
                },
                _ => {},
            }
        },
        None => {},
    }
}

} // verus!

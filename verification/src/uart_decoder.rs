//! UART decoder for single-line asynchronous serial words.
//!
//! Decodes one direction. The bit clock comes from the configured baud rate: bit centers are
//! distances from the start edge, so decode quality depends only on edges being captured
//! faithfully.

use vstd::prelude::*;

use crate::digital::BitOrder;
use crate::ports::{list_ports, listed, port_views, PortKind, PortSchema};
use crate::streams::{Sample, Trigger, Word};
use crate::text::owned;

verus! {

/// UART parity mode.
#[derive(Debug, Clone, Copy, PartialEq, Eq, Structural)]
pub enum UartParity {
    /// No parity bit.
    NoParity,
    Odd,
    Even,
    /// Parity bit always 1.
    Mark,
    /// Parity bit always 0.
    Space,
}

impl Default for UartParity {
    fn default() -> (result: Self)
        ensures
            result == UartParity::NoParity,
    {
        UartParity::NoParity
    }
}

/// Number of stop bits.
#[derive(Debug, Clone, Copy, PartialEq, Eq, Structural)]
pub enum UartStopBits {
    /// No stop bit (frames may be back-to-back).
    S0,
    S0_5,
    S1,
    S1_5,
    S2,
}

impl Default for UartStopBits {
    fn default() -> (result: Self)
        ensures
            result == UartStopBits::S1,
    {
        UartStopBits::S1
    }
}

impl UartStopBits {
    /// The length of the stop interval, in halves of a bit.
    pub open spec fn halves(self) -> int {
        match self {
            UartStopBits::S0 => 0,
            UartStopBits::S0_5 => 1,
            UartStopBits::S1 => 2,
            UartStopBits::S1_5 => 3,
            UartStopBits::S2 => 4,
        }
    }

    /// The length of the stop interval, in halves of a bit.
    pub fn half_bits(&self) -> (result: u64)
        ensures
            result == self.halves(),
    {
        match self {
            UartStopBits::S0 => 0,
            UartStopBits::S0_5 => 1,
            UartStopBits::S1 => 2,
            UartStopBits::S1_5 => 3,
            UartStopBits::S2 => 4,
        }
    }
}

/// Distances from a start edge, in nanoseconds.
#[derive(Debug)]
pub struct UartTiming {
    /// Centers of the data bits.
    pub data_centers: Vec<u64>,
    /// Beginnings of the data bits.
    pub data_starts: Vec<u64>,
    /// Center of the parity bit.
    pub parity_center: u64,
    /// Center of the first stop interval.
    pub stop_center: u64,
    /// Earliest start edge of the next frame.
    pub resume: u64,
    /// Length of a bit.
    pub bit: u64,
    /// Length of the whole frame.
    pub frame: u64,
    /// Length of the stop interval.
    pub stop: u64,
}

impl UartTiming {
    /// One center and one beginning for each data bit, and no distance beyond `reach`.
    pub open spec fn wf(self, data_bits: int, reach: int) -> bool {
        &&& self.data_centers@.len() == data_bits
        &&& self.data_starts@.len() == data_bits
        &&& forall|i: int| 0 <= i < data_bits ==> #[trigger] self.data_centers@[i] <= reach
        &&& forall|i: int| 0 <= i < data_bits ==> #[trigger] self.data_starts@[i] <= reach
        &&& self.parity_center <= reach
        &&& self.stop_center <= reach
        &&& self.resume <= reach
        &&& self.bit * (data_bits + 1) <= reach
    }
}

/// UART decoder.
///
/// It takes the edges of one line and gives a word for each frame, a trigger for each parity or
/// framing error, a timed word for every data bit, and the parts of each frame.
#[derive(Debug)]
pub struct UartDecoder {
    pub name: String,
    pub baud: u64,
    pub data_bits: usize,
    pub parity: UartParity,
    pub check_parity: bool,
    pub stop_bits: UartStopBits,
    pub bit_order: BitOrder,
    pub invert: bool,
    /// Start edges before this time are mid-frame remnants, not new frames.
    pub resume_after: u64,
    pub frames: u64,
    pub finished: bool,
}

/// One decoded frame.
#[derive(Debug)]
pub struct UartFrame {
    pub word: Word,
    pub error: Option<Trigger>,
    pub bits: Vec<Word>,
    pub parts: Vec<Word>,
}

/// What one call of the decoder comes to.
#[derive(Debug)]
pub enum UartStep {
    /// The edges so far do not decide; more may come.
    NeedMore,
    /// The line ended before another frame was complete.
    Shutdown,
    /// A frame. The first `consumed` edges are used up.
    Frame { frame: UartFrame, consumed: usize },
}

/// What a look at the line comes to.
pub enum LineRead {
    NeedMore,
    Ended,
    At(int),
}

/// The edge that holds the line level at a time, looked for from edge `from` on. The last edge
/// holds for ever, once the line has ended.
pub open spec fn line_at(edges: Seq<Sample>, from: int, time: int, closed: bool) -> LineRead
    decreases edges.len() - from,
{
    if from < 0 || from >= edges.len() {
        if closed {
            LineRead::Ended
        } else {
            LineRead::NeedMore
        }
    } else if from + 1 < edges.len() {
        if edges[from].start_time_ns <= time < edges[from + 1].start_time_ns {
            LineRead::At(from)
        } else {
            line_at(edges, from + 1, time, closed)
        }
    } else if !closed {
        LineRead::NeedMore
    } else if edges[from].start_time_ns <= time {
        LineRead::At(from)
    } else {
        LineRead::Ended
    }
}

/// What a series of looks at the line comes to.
pub enum SeriesRead {
    NeedMore,
    Ended,
    /// The levels, and the edge that holds the last.
    Levels(Seq<bool>, int),
}

/// The line levels at a series of times, each looked for from the edge of the one before.
pub open spec fn levels_at(edges: Seq<Sample>, from: int, times: Seq<int>, closed: bool) -> SeriesRead
    decreases times.len(),
{
    if times.len() == 0 {
        SeriesRead::Levels(Seq::empty(), from)
    } else {
        match levels_at(edges, from, times.drop_last(), closed) {
            SeriesRead::Levels(levels, at) => match line_at(edges, at, times.last(), closed) {
                LineRead::At(index) => SeriesRead::Levels(levels.push(edges[index].value), index),
                LineRead::Ended => SeriesRead::Ended,
                LineRead::NeedMore => SeriesRead::NeedMore,
            },
            stopped => stopped,
        }
    }
}

/// The first edge that can start a frame, from edge `from` on.
pub open spec fn start_edge(edges: Seq<Sample>, level: bool, resume_after: u64, from: int) -> Option<int>
    decreases edges.len() - from,
{
    if from < 0 || from >= edges.len() {
        None
    } else if edges[from].value == level && edges[from].start_time_ns >= resume_after {
        Some(from)
    } else {
        start_edge(edges, level, resume_after, from + 1)
    }
}

/// The number whose bits, least significant first, are `bits`.
pub open spec fn number_of(bits: Seq<bool>) -> nat
    decreases bits.len(),
{
    if bits.len() == 0 {
        0
    } else {
        2 * number_of(bits.skip(1)) + (if bits[0] {
            1nat
        } else {
            0nat
        })
    }
}

/// Number of set bits.
pub open spec fn ones(bits: Seq<bool>) -> nat
    decreases bits.len(),
{
    if bits.len() == 0 {
        0
    } else {
        ones(bits.drop_last()) + (if bits.last() {
            1nat
        } else {
            0nat
        })
    }
}

/// Whether a parity bit suits the data bits.
pub open spec fn parity_holds(parity: UartParity, bits: Seq<bool>, parity_bit: bool) -> bool {
    let total = ones(bits) + (if parity_bit {
        1nat
    } else {
        0nat
    });
    match parity {
        UartParity::NoParity => true,
        UartParity::Odd => total % 2 == 1,
        UartParity::Even => total % 2 == 0,
        UartParity::Mark => parity_bit,
        UartParity::Space => !parity_bit,
    }
}

impl UartDecoder {
    /// Settings that the decoder works with.
    pub open spec fn wf(self) -> bool {
        &&& self.baud > 0
        &&& 5 <= self.data_bits <= 9
    }

    /// The times at which a frame that starts at `t0` is sampled: its data bits, its parity bit
    /// and its first stop interval, as far as it has them.
    pub open spec fn sample_times(self, timing: UartTiming, t0: int) -> Seq<int> {
        let data = Seq::new(self.data_bits as nat, |i: int| t0 + timing.data_centers@[i]);
        let parity = if self.parity == UartParity::NoParity {
            Seq::empty()
        } else {
            seq![t0 + timing.parity_center]
        };
        let stop = if self.stop_bits.halves() == 0 {
            Seq::empty()
        } else {
            seq![t0 + timing.stop_center]
        };
        data + parity + stop
    }

    /// The logical levels behind the raw ones.
    pub open spec fn logical(self, raw: Seq<bool>) -> Seq<bool> {
        raw.map_values(|level: bool| level != self.invert)
    }

    /// The data bits in the order in which they arrive.
    pub open spec fn data_of(self, raw: Seq<bool>) -> Seq<bool> {
        self.logical(raw).take(self.data_bits as int)
    }

    /// The value of a frame.
    pub open spec fn value_of(self, raw: Seq<bool>) -> nat {
        match self.bit_order {
            BitOrder::LsbFirst => number_of(self.data_of(raw)),
            BitOrder::MsbFirst => number_of(self.data_of(raw).reverse()),
        }
    }

    /// Whether a frame has a parity or framing error.
    pub open spec fn has_error(self, raw: Seq<bool>) -> bool {
        let levels = self.logical(raw);
        let has_parity = self.parity != UartParity::NoParity;
        ||| has_parity && self.check_parity && !parity_holds(
            self.parity,
            self.data_of(raw),
            levels[self.data_bits as int],
        )
        ||| self.stop_bits.halves() > 0 && !levels.last()
    }

    /// The frame that starts at `t0` and is sampled as `raw`.
    pub open spec fn is_frame(self, timing: UartTiming, t0: int, raw: Seq<bool>, frame: UartFrame) -> bool {
        let value = self.value_of(raw);
        let failed = self.has_error(raw);
        &&& frame.word == Word {
            value: value as u64,
            timestamp_ns: t0 as u64,
            duration_ns: timing.frame,
        }
        &&& frame.error == if failed {
            Some(Trigger { timestamp_ns: t0 as u64 })
        } else {
            None
        }
        &&& frame.bits@ == Seq::new(
            self.data_bits as nat,
            |i: int|
                Word {
                    value: if self.data_of(raw)[i] {
                        1
                    } else {
                        0
                    },
                    timestamp_ns: (t0 + timing.data_starts@[i]) as u64,
                    duration_ns: timing.bit,
                },
        )
        &&& frame.parts@ == seq![
            Word { value: u64::MAX, timestamp_ns: t0 as u64, duration_ns: timing.bit },
            Word {
                value: if failed {
                    (u64::MAX - 2) as u64
                } else {
                    value as u64
                },
                timestamp_ns: (t0 + timing.bit) as u64,
                duration_ns: (timing.bit * self.data_bits) as u64,
            },
        ] + (if self.stop_bits.halves() == 0 {
            Seq::empty()
        } else {
            seq![
                Word {
                    value: (u64::MAX - 1) as u64,
                    timestamp_ns: (t0 + timing.bit * (self.data_bits + 1)) as u64,
                    duration_ns: timing.stop,
                },
            ]
        })
    }

    /// A decoder for eight-bit-style framing without parity and with one stop bit.
    pub fn new(baud: u64, data_bits: usize) -> (result: Self)
        requires
            baud > 0,
            5 <= data_bits <= 9,
        ensures
            result.wf(),
            result.name@ == "uart_decoder"@,
            result.baud == baud,
            result.data_bits == data_bits,
            result.parity == UartParity::NoParity,
            !result.check_parity,
            result.stop_bits == UartStopBits::S1,
            result.bit_order == BitOrder::LsbFirst,
            !result.invert,
            result.resume_after == 0,
            result.frames == 0,
            !result.finished,
    {
        UartDecoder {
            name: owned("uart_decoder"),
            baud,
            data_bits,
            parity: UartParity::NoParity,
            check_parity: false,
            stop_bits: UartStopBits::S1,
            bit_order: BitOrder::LsbFirst,
            invert: false,
            resume_after: 0,
            frames: 0,
            finished: false,
        }
    }

    pub fn with_name(self, name: String) -> (result: Self)
        ensures
            result == (UartDecoder { name, ..self }),
    {
        UartDecoder { name, ..self }
    }

    pub fn with_parity(self, parity: UartParity, check: bool) -> (result: Self)
        ensures
            result == (UartDecoder { parity, check_parity: check, ..self }),
    {
        UartDecoder { parity, check_parity: check, ..self }
    }

    pub fn with_stop_bits(self, stop_bits: UartStopBits) -> (result: Self)
        ensures
            result == (UartDecoder { stop_bits, ..self }),
    {
        UartDecoder { stop_bits, ..self }
    }

    /// UART is least significant bit first by default.
    pub fn with_bit_order(self, bit_order: BitOrder) -> (result: Self)
        ensures
            result == (UartDecoder { bit_order, ..self }),
    {
        UartDecoder { bit_order, ..self }
    }

    pub fn with_invert(self, invert: bool) -> (result: Self)
        ensures
            result == (UartDecoder { invert, ..self }),
    {
        UartDecoder { invert, ..self }
    }

    pub fn num_inputs(&self) -> (result: usize)
        ensures
            result == 1,
    {
        1
    }

    pub fn num_outputs(&self) -> (result: usize)
        ensures
            result == 4,
    {
        4
    }

    /// The inputs in order.
    pub fn input_schema(&self) -> (result: Vec<PortSchema>)
        ensures
            port_views(result@) == listed(seq![("rx"@, PortKind::Sample)]),
    {
        let ports: [(&str, PortKind); 1] = [("rx", PortKind::Sample)];
        let result: Vec<PortSchema> = list_ports(&ports);
        assert(port_views(result@) =~= listed(seq![("rx"@, PortKind::Sample)]));
        result
    }

    /// The outputs in order.
    pub fn output_schema(&self) -> (result: Vec<PortSchema>)
        ensures
            port_views(result@) == listed(seq![("words"@, PortKind::Word), ("error"@, PortKind::Trigger), ("bits"@, PortKind::Word), ("frame"@, PortKind::Word)]),
    {
        let ports: [(&str, PortKind); 4] = [("words", PortKind::Word), ("error", PortKind::Trigger), ("bits", PortKind::Word), ("frame", PortKind::Word)];
        let result: Vec<PortSchema> = list_ports(&ports);
        assert(port_views(result@) =~= listed(seq![("words"@, PortKind::Word), ("error"@, PortKind::Trigger), ("bits"@, PortKind::Word), ("frame"@, PortKind::Word)]));
        result
    }

    /// What a call of the decoder comes to.
    pub open spec fn step_is(
        self,
        timing: UartTiming,
        edges: Seq<Sample>,
        closed: bool,
        after: UartDecoder,
        step: UartStep,
    ) -> bool {
        match start_edge(edges, self.invert, self.resume_after, 0) {
            None => {
                &&& after == self
                &&& step == if closed {
                    UartStep::Shutdown
                } else {
                    UartStep::NeedMore
                }
            },
            Some(start) => {
                let t0 = edges[start].start_time_ns as int;
                match levels_at(edges, start, self.sample_times(timing, t0), closed) {
                    SeriesRead::NeedMore => after == self && step == UartStep::NeedMore,
                    SeriesRead::Ended => after == (UartDecoder { finished: true, ..self }) && step
                        == UartStep::Shutdown,
                    SeriesRead::Levels(raw, at) => {
                        &&& after == (UartDecoder {
                            frames: (self.frames + 1) as u64,
                            resume_after: (t0 + timing.resume) as u64,
                            finished: closed && at + 1 == edges.len(),
                            ..self
                        })
                        &&& step matches UartStep::Frame { frame, consumed } && consumed == at
                            && self.is_frame(timing, t0, raw, frame)
                    },
                }
            },
        }
    }
}

fn find_start(edges: &[Sample], level: bool, resume_after: u64) -> (result: Option<usize>)
    ensures
        match result {
            Some(index) => start_edge(edges@, level, resume_after, 0) == Some(index as int) && index
                < edges@.len(),
            None => start_edge(edges@, level, resume_after, 0) is None,
        },
{
    let mut index: usize = 0;
    while index < edges.len()
        invariant
            index <= edges@.len(),
            start_edge(edges@, level, resume_after, 0) == start_edge(
                edges@,
                level,
                resume_after,
                index as int,
            ),
        decreases edges@.len() - index,
    {
        let edge: Sample = edges[index];
        if edge.value == level && edge.start_time_ns >= resume_after {
            return Some(index);
        }
        index += 1;
    }
    None
}

/// What a look at the line comes to.
enum Look {
    NeedMore,
    Ended,
    At(usize),
}

impl Look {
    spec fn is(self, read: LineRead, len: int) -> bool {
        match (self, read) {
            (Look::NeedMore, LineRead::NeedMore) => true,
            (Look::Ended, LineRead::Ended) => true,
            (Look::At(index), LineRead::At(at)) => index == at && index < len,
            _ => false,
        }
    }
}

fn value_at(edges: &[Sample], from: usize, time: u64, closed: bool) -> (result: Look)
    ensures
        result.is(line_at(edges@, from as int, time as int, closed), edges@.len() as int),
{
    let mut at: usize = from;
    let len: usize = edges.len();
    while at < len
        invariant
            len == edges@.len(),
            line_at(edges@, from as int, time as int, closed) == line_at(
                edges@,
                at as int,
                time as int,
                closed,
            ),
        decreases len - at,
    {
        let current: Sample = edges[at];
        if len - at > 1 {
            let next: Sample = edges[at + 1];
            if current.start_time_ns <= time && time < next.start_time_ns {
                return Look::At(at);
            }
            at += 1;
        } else if !closed {
            return Look::NeedMore;
        } else if current.start_time_ns <= time {
            return Look::At(at);
        } else {
            return Look::Ended;
        }
    }
    if closed {
        Look::Ended
    } else {
        Look::NeedMore
    }
}

fn number(bits: &Vec<bool>, msb_first: bool) -> (result: u64)
    requires
        bits@.len() <= 9,
    ensures
        result == number_of(
            if msb_first {
                bits@.reverse()
            } else {
                bits@
            },
        ),
{
    let ghost ordered = if msb_first {
        bits@.reverse()
    } else {
        bits@
    };
    let len: usize = bits.len();
    let mut left: usize = len;
    let mut value: u64 = 0;
    proof {
        assert(ordered.skip(len as int) =~= Seq::<bool>::empty());
        vstd::arithmetic::power2::lemma2_to64();
    }
    while left > 0
        invariant
            left <= len,
            len == bits@.len(),
            len <= 9,
            ordered == (if msb_first {
                bits@.reverse()
            } else {
                bits@
            }),
            value == number_of(ordered.skip(left as int)),
            value < vstd::arithmetic::power2::pow2((len - left) as nat),
            vstd::arithmetic::power2::pow2((len - left) as nat) <= 512,
            vstd::arithmetic::power2::pow2(9) == 512,
        decreases left,
    {
        let set: bool = if msb_first {
            bits[len - left]
        } else {
            bits[left - 1]
        };
        proof {
            assert(ordered.skip(left - 1).skip(1) =~= ordered.skip(left as int));
            assert(ordered.skip(left - 1)[0] == set);
            vstd::arithmetic::power2::lemma_pow2_unfold((len - left + 1) as nat);
            if len - left + 1 < 9 {
                vstd::arithmetic::power2::lemma_pow2_strictly_increases(
                    (len - left + 1) as nat,
                    9,
                );
            }
        }
        value = 2 * value + (if set {
            1
        } else {
            0
        });
        left -= 1;
    }
    assert(ordered.skip(0) =~= ordered);
    value
}

fn count_ones(bits: &Vec<bool>) -> (result: usize)
    ensures
        result == ones(bits@),
        result <= bits@.len(),
{
    let mut count: usize = 0;
    let mut index: usize = 0;
    assert(bits@.take(0) =~= Seq::<bool>::empty());
    while index < bits.len()
        invariant
            index <= bits@.len(),
            count <= index,
            count == ones(bits@.take(index as int)),
        decreases bits@.len() - index,
    {
        if bits[index] {
            count += 1;
        }
        proof {
            assert(bits@.take(index + 1).drop_last() =~= bits@.take(index as int));
        }
        index += 1;
    }
    assert(bits@.take(index as int) =~= bits@);
    count
}

fn parity_ok(parity: UartParity, bits: &Vec<bool>, parity_bit: bool) -> (result: bool)
    requires
        bits@.len() <= 9,
    ensures
        result == parity_holds(parity, bits@, parity_bit),
{
    let total: usize = count_ones(bits) + (if parity_bit {
        1
    } else {
        0
    });
    match parity {
        UartParity::NoParity => true,
        UartParity::Odd => total % 2 == 1,
        UartParity::Even => total % 2 == 0,
        UartParity::Mark => parity_bit,
        UartParity::Space => !parity_bit,
    }
}

impl UartDecoder {
    fn times(&self, timing: &UartTiming, t0: u64, reach: u64) -> (result: Vec<u64>)
        requires
            timing.wf(self.data_bits as int, reach as int),
            t0 + reach <= u64::MAX,
        ensures
            result@.len() == self.sample_times(*timing, t0 as int).len(),
            forall|i: int|
                0 <= i < result@.len() ==> #[trigger] result@[i] == self.sample_times(
                    *timing,
                    t0 as int,
                )[i],
    {
        let mut result: Vec<u64> = Vec::new();
        let mut index: usize = 0;
        while index < self.data_bits
            invariant
                timing.wf(self.data_bits as int, reach as int),
                t0 + reach <= u64::MAX,
                index <= self.data_bits,
                result@.len() == index,
                forall|i: int|
                    0 <= i < index ==> #[trigger] result@[i] == t0 + timing.data_centers@[i],
            decreases self.data_bits - index,
        {
            result.push(t0 + timing.data_centers[index]);
            index += 1;
        }
        if self.parity != UartParity::NoParity {
            result.push(t0 + timing.parity_center);
        }
        if self.stop_bits.half_bits() > 0 {
            result.push(t0 + timing.stop_center);
        }
        result
    }

    fn read_levels(&self, edges: &[Sample], start: usize, times: &Vec<u64>, closed: bool) -> (result:
        (Look, Vec<bool>))
        requires
            start < edges@.len(),
        ensures
            match (
                result.0,
                levels_at(edges@, start as int, times@.map_values(|t: u64| t as int), closed),
            ) {
                (Look::NeedMore, SeriesRead::NeedMore) => true,
                (Look::Ended, SeriesRead::Ended) => true,
                (Look::At(index), SeriesRead::Levels(raw, at)) => index == at && result.1@ == raw
                    && raw.len() == times@.len(),
                _ => false,
            },
    {
        let ghost all = times@.map_values(|t: u64| t as int);
        let mut raw: Vec<bool> = Vec::new();
        let mut at: usize = start;
        let mut index: usize = 0;
        assert(all.take(0) =~= Seq::<int>::empty());
        assert(raw@ =~= Seq::<bool>::empty());
        while index < times.len()
            invariant
                all == times@.map_values(|t: u64| t as int),
                index <= times@.len(),
                raw@.len() == index,
                at < edges@.len(),
                levels_at(edges@, start as int, all.take(index as int), closed)
                    == SeriesRead::Levels(raw@, at as int),
            decreases times@.len() - index,
        {
            proof {
                assert(all.take(index + 1).drop_last() =~= all.take(index as int));
                assert(all.take(index + 1).last() == times@[index as int]);
            }
            match value_at(edges, at, times[index], closed) {
                Look::At(found) => {
                    raw.push(edges[found].value);
                    at = found;
                },
                Look::Ended => {
                    proof {
                        lemma_stopped(edges@, start as int, all, closed, index + 1);
                    }
                    return (Look::Ended, raw);
                },
                Look::NeedMore => {
                    proof {
                        lemma_stopped(edges@, start as int, all, closed, index + 1);
                    }
                    return (Look::NeedMore, raw);
                },
            }
            index += 1;
        }
        assert(all.take(index as int) =~= all);
        (Look::At(at), raw)
    }

    fn frame(&self, timing: &UartTiming, t0: u64, reach: u64, raw: &Vec<bool>) -> (result: UartFrame)
        requires
            self.wf(),
            timing.wf(self.data_bits as int, reach as int),
            t0 + reach <= u64::MAX,
            raw@.len() == self.sample_times(*timing, t0 as int).len(),
        ensures
            self.is_frame(*timing, t0 as int, raw@, result),
    {
        let ghost levels = self.logical(raw@);
        let mut data: Vec<bool> = Vec::new();
        let mut bits: Vec<Word> = Vec::new();
        let mut index: usize = 0;
        while index < self.data_bits
            invariant
                self.wf(),
                timing.wf(self.data_bits as int, reach as int),
                t0 + reach <= u64::MAX,
                self.data_bits <= raw@.len(),
                levels == self.logical(raw@),
                index <= self.data_bits,
                data@ == levels.take(index as int),
                bits@.len() == index,
                forall|i: int|
                    0 <= i < index ==> #[trigger] bits@[i] == (Word {
                        value: if levels[i] {
                            1
                        } else {
                            0
                        },
                        timestamp_ns: (t0 + timing.data_starts@[i]) as u64,
                        duration_ns: timing.bit,
                    }),
            decreases self.data_bits - index,
        {
            let level: bool = raw[index] != self.invert;
            data.push(level);
            bits.push(
                Word::spanning(
                    if level {
                        1
                    } else {
                        0
                    },
                    t0 + timing.data_starts[index],
                    timing.bit,
                ),
            );
            proof {
                assert(levels.take(index as int).push(levels[index as int]) =~= levels.take(
                    index + 1,
                ));
            }
            index += 1;
        }
        assert(data@ == self.data_of(raw@));
        let value: u64 = number(&data, self.bit_order == BitOrder::MsbFirst);
        let mut failed: bool = false;
        if self.parity != UartParity::NoParity && self.check_parity {
            let parity_bit: bool = raw[self.data_bits] != self.invert;
            failed = !parity_ok(self.parity, &data, parity_bit);
        }
        let has_stop: bool = self.stop_bits.half_bits() > 0;
        if has_stop {
            let last: bool = raw[raw.len() - 1] != self.invert;
            if !last {
                failed = true;
            }
        }
        let count: u64 = self.data_bits as u64;
        proof {
            assert(timing.bit * self.data_bits <= timing.bit * (self.data_bits + 1))
                by (nonlinear_arith)
                requires
                    timing.bit >= 0,
            ;
            assert(timing.bit <= timing.bit * (self.data_bits + 1)) by (nonlinear_arith)
                requires
                    timing.bit >= 0,
                    self.data_bits >= 0,
            ;
        }
        let mut parts: Vec<Word> = Vec::new();
        parts.push(Word::spanning(u64::MAX, t0, timing.bit));
        parts.push(
            Word::spanning(
                if failed {
                    u64::MAX - 2
                } else {
                    value
                },
                t0 + timing.bit,
                timing.bit * count,
            ),
        );
        if has_stop {
            parts.push(
                Word::spanning(u64::MAX - 1, t0 + timing.bit * (count + 1), timing.stop),
            );
        }
        let frame = UartFrame {
            word: Word::spanning(value, t0, timing.frame),
            error: if failed {
                Some(Trigger::new(t0))
            } else {
                None
            },
            bits,
            parts,
        };
        proof {
            assert(value == self.value_of(raw@));
            assert(levels.last() == (raw@.last() != self.invert));
            assert(failed == self.has_error(raw@));
            let first = Word { value: u64::MAX, timestamp_ns: t0, duration_ns: timing.bit };
            let second = Word {
                value: if failed {
                    (u64::MAX - 2) as u64
                } else {
                    value
                },
                timestamp_ns: (t0 + timing.bit) as u64,
                duration_ns: (timing.bit * self.data_bits) as u64,
            };
            let third = Word {
                value: (u64::MAX - 1) as u64,
                timestamp_ns: (t0 + timing.bit * (self.data_bits + 1)) as u64,
                duration_ns: timing.stop,
            };
            assert(frame.parts@ =~= seq![first, second] + (if has_stop {
                seq![third]
            } else {
                Seq::empty()
            }));
            assert(frame.bits@ =~= Seq::new(
                self.data_bits as nat,
                |i: int|
                    Word {
                        value: if self.data_of(raw@)[i] {
                            1
                        } else {
                            0
                        },
                        timestamp_ns: (t0 + timing.data_starts@[i]) as u64,
                        duration_ns: timing.bit,
                    },
            ));
        }
        frame
    }

    /// Looks for the next frame in the edges that have arrived; `closed` tells that no more will.
    /// Nothing is used up where the edges do not decide. A frame that reaches the last edge of a
    /// closed line is the last one.
    pub fn work(&mut self, timing: &UartTiming, edges: &[Sample], closed: bool, reach: u64) -> (step:
        UartStep)
        requires
            old(self).wf(),
            old(self).frames < u64::MAX,
            timing.wf(old(self).data_bits as int, reach as int),
            forall|i: int|
                0 <= i < edges@.len() ==> #[trigger] edges@[i].start_time_ns + reach <= u64::MAX,
        ensures
            old(self).step_is(*timing, edges@, closed, *final(self), step),
    {
        let start: usize = match find_start(edges, self.invert, self.resume_after) {
            Some(start) => start,
            None => {
                if closed {
                    return UartStep::Shutdown;
                } else {
                    return UartStep::NeedMore;
                }
            },
        };
        let t0: u64 = edges[start].start_time_ns;
        assert(edges@[start as int].start_time_ns + reach <= u64::MAX);
        let times: Vec<u64> = self.times(timing, t0, reach);
        proof {
            assert(times@.map_values(|t: u64| t as int) =~= self.sample_times(*timing, t0 as int));
        }
        let (look, raw): (Look, Vec<bool>) = self.read_levels(edges, start, &times, closed);
        match look {
            Look::NeedMore => UartStep::NeedMore,
            Look::Ended => {
                self.finished = true;
                UartStep::Shutdown
            },
            Look::At(consumed) => {
                let frame: UartFrame = self.frame(timing, t0, reach, &raw);
                self.frames = self.frames + 1;
                self.resume_after = t0 + timing.resume;
                self.finished = closed && consumed == edges.len() - 1;
                UartStep::Frame { frame, consumed }
            },
        }
    }
}

proof fn lemma_stopped(edges: Seq<Sample>, from: int, times: Seq<int>, closed: bool, count: int)
    requires
        0 <= count <= times.len(),
        !(levels_at(edges, from, times.take(count), closed) is Levels),
    ensures
        levels_at(edges, from, times, closed) == levels_at(edges, from, times.take(count), closed),
    decreases times.len() - count,
{
    if count < times.len() {
        assert(times.take(count + 1).drop_last() =~= times.take(count));
        lemma_stopped(edges, from, times, closed, count + 1);
    } else {
        assert(times.take(count) =~= times);
    }
}

/// Edges in the order of their times.
pub open spec fn in_order(edges: Seq<Sample>) -> bool {
    forall|i: int, j: int|
        0 <= i <= j < edges.len() ==> (#[trigger] edges[i]).start_time_ns <= (#[trigger] edges[j]).start_time_ns
}

/// The level found for a time is that of the latest edge at or before it: no later edge has
/// started yet.
pub proof fn law_line_level_is_that_of_the_latest_edge(
    edges: Seq<Sample>,
    from: int,
    time: int,
    closed: bool,
)
    requires
        in_order(edges),
        0 <= from < edges.len(),
        edges[from].start_time_ns <= time,
    ensures
        match line_at(edges, from, time, closed) {
            LineRead::At(index) => from <= index < edges.len() && edges[index].start_time_ns <= time
                && forall|later: int|
                index < later < edges.len() ==> (#[trigger] edges[later]).start_time_ns > time,
            LineRead::NeedMore => !closed && edges.last().start_time_ns <= time,
            LineRead::Ended => false,
        },
    decreases edges.len() - from,
{
    if from + 1 < edges.len() {
        if edges[from + 1].start_time_ns <= time {
            law_line_level_is_that_of_the_latest_edge(edges, from + 1, time, closed);
        } else {
            assert forall|later: int| from < later < edges.len() implies (
            #[trigger] edges[later]).start_time_ns > time by {
                assert(edges[from + 1].start_time_ns <= edges[later].start_time_ns);
            }
        }
    }
}

/// What a call decides does not change when more edges arrive: a level found among the edges so
/// far is the level found among more of them.
pub proof fn law_later_edges_do_not_change_a_level(
    edges: Seq<Sample>,
    more: Seq<Sample>,
    from: int,
    time: int,
    closed: bool,
)
    requires
        0 <= from,
        line_at(edges, from, time, false) is At,
    ensures
        line_at(edges + more, from, time, closed) == line_at(edges, from, time, false),
    decreases edges.len() - from,
{
    if from + 1 < edges.len() {
        assert((edges + more)[from] == edges[from]);
        assert((edges + more)[from + 1] == edges[from + 1]);
        if !(edges[from].start_time_ns <= time < edges[from + 1].start_time_ns) {
            law_later_edges_do_not_change_a_level(edges, more, from + 1, time, closed);
        }
    }
}

/// A word holds the bits that were sent: bit `i` of the number is bit `i` of the sequence.
pub proof fn law_number_has_its_bits(bits: Seq<bool>, i: nat)
    requires
        i < bits.len(),
    ensures
        number_of(bits) / vstd::arithmetic::power2::pow2(i) % 2 == (if bits[i as int] {
            1nat
        } else {
            0nat
        }),
    decreases i,
{
    vstd::arithmetic::power2::lemma2_to64();
    if i > 0 {
        let rest = bits.skip(1);
        law_number_has_its_bits(rest, (i - 1) as nat);
        vstd::arithmetic::power2::lemma_pow2_unfold(i);
        vstd::arithmetic::power2::lemma_pow2_pos((i - 1) as nat);
        vstd::arithmetic::div_mod::lemma_div_denominator(
            number_of(bits) as int,
            2,
            vstd::arithmetic::power2::pow2((i - 1) as nat) as int,
        );
        let half = vstd::arithmetic::power2::pow2((i - 1) as nat);
        assert(number_of(bits) as int / 2 == number_of(rest));
        assert(number_of(bits) as int / (2 * half as int) == number_of(rest) as int / half as int);
        assert(bits[i as int] == rest[i - 1]);
    } else {
        assert(number_of(bits) / 1 == number_of(bits));
    }
}

} // verus!

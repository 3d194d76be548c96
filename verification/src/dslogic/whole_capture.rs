//! All the chunks of a capture, from its start to its end.

use vstd::prelude::*;

use super::blocks::{
    canonical, complete_bytes, law_transfer_boundaries_do_not_matter, lemma_canonical,
    lemma_canonical_is_canonical,
};
use super::capture::{started, DriverView};
use super::fetch::{
    chunk_at, delivering, fetch_begun, fetch_continued, fetch_ended, fetch_expects, moved,
    ChunkView, FetchReply, FetchStage, FetchStepView, Fetched,
};
use super::plan::DsLogicCapturePlan;
use crate::logic_analyzer::chunk::LogicEncoding;
use crate::logic_analyzer::config::CaptureMode;

verus! {

/// What happens in the course of a capture.
pub enum FetchEvent {
    /// The next chunk is asked for.
    Begin,
    /// A step of its fetch has been carried out.
    Reply(FetchReply),
}

/// A capture up to some event.
pub struct CaptureSoFar {
    pub fetched: Fetched,
    /// The bytes that the device has sent.
    pub input: Seq<u8>,
    /// The chunks that were handed out.
    pub chunks: Seq<ChunkView>,
}

/// The bytes that a reply hands over: those that were read, or, where their receive was to be
/// replaced first, those that were held for that.
pub open spec fn handed_in(driver: DriverView, stage: FetchStage, held: Seq<u8>, reply: FetchReply) -> Seq<
    u8,
> {
    let streaming = driver.settings.mode == CaptureMode::Streaming;
    match (stage, reply) {
        (FetchStage::Data, FetchReply::Taken(Ok(Some(data)))) => if streaming {
            Seq::empty()
        } else {
            data@
        },
        (FetchStage::DataRead { consumed }, FetchReply::Read(Ok((buffer, count)))) => if consumed
            && streaming {
            Seq::empty()
        } else {
            moved(buffer@, count as int)
        },
        (FetchStage::Requeue, FetchReply::Queued(Ok(_))) => held,
        _ => Seq::empty(),
    }
}

impl CaptureSoFar {
    /// Whether an event can come next.
    pub open spec fn admits(self, event: FetchEvent) -> bool {
        match event {
            FetchEvent::Begin => self.fetched.stage is Finished,
            FetchEvent::Reply(reply) => fetch_expects(
                self.fetched.driver,
                self.fetched.stage,
                self.fetched.held,
                reply,
            ),
        }
    }

    /// The capture once an event has taken place.
    pub open spec fn after(self, event: FetchEvent) -> CaptureSoFar {
        let driver = self.fetched.driver;
        let (fetched, more) = match event {
            FetchEvent::Begin => (fetch_begun(driver), Seq::empty()),
            FetchEvent::Reply(reply) => (
                fetch_continued(driver, self.fetched.stage, self.fetched.held, reply),
                handed_in(driver, self.fetched.stage, self.fetched.held, reply),
            ),
        };
        CaptureSoFar {
            fetched,
            input: self.input + more,
            chunks: match fetched.step {
                FetchStepView::Done(Ok(Some(chunk))) => self.chunks.push(chunk),
                _ => self.chunks,
            },
        }
    }

    pub open spec fn failed(self) -> bool {
        self.fetched.step matches FetchStepView::Done(Err(_))
    }
}

/// A capture after some events, from the state in which its start leaves the driver.
pub open spec fn captured(driver: DriverView, events: Seq<FetchEvent>) -> CaptureSoFar
    decreases events.len(),
{
    if events.len() == 0 {
        CaptureSoFar {
            fetched: fetch_ended(driver, Ok(None)),
            input: Seq::empty(),
            chunks: Seq::empty(),
        }
    } else {
        captured(driver, events.drop_last()).after(events.last())
    }
}

/// Events of which each is in its place and none is an error.
pub open spec fn runs(driver: DriverView, events: Seq<FetchEvent>) -> bool
    decreases events.len(),
{
    events.len() > 0 ==> {
        &&& runs(driver, events.drop_last())
        &&& captured(driver, events.drop_last()).admits(events.last())
        &&& !captured(driver, events).failed()
    }
}

/// How many bits a row of chunks holds.
pub open spec fn bits_of(chunks: Seq<ChunkView>) -> int
    decreases chunks.len(),
{
    if chunks.len() == 0 {
        0
    } else {
        bits_of(chunks.drop_last()) + chunks.last().bit_len
    }
}

/// The bytes of a row of chunks.
pub open spec fn bytes_of(chunks: Seq<ChunkView>) -> Seq<u8>
    decreases chunks.len(),
{
    if chunks.len() == 0 {
        Seq::empty()
    } else {
        bytes_of(chunks.drop_last()) + chunks.last().data
    }
}

/// A chunk of whole device blocks that begins at a bit of the capture.
pub open spec fn well_placed(chunk: ChunkView, channels: u8, start_bit: int) -> bool {
    &&& chunk.start_bit == start_bit
    &&& chunk.bit_offset == 0
    &&& chunk.channel_count == channels
    &&& chunk.encoding == LogicEncoding::InterleavedLsbFirst
    &&& chunk.bit_len == 8 * chunk.data.len()
    &&& chunk.bit_len % (64 * channels as int) == 0
}

/// What holds at every point of a capture.
spec fn in_order(driver: DriverView, so_far: CaptureSoFar) -> bool {
    let plan = driver.plan->0;
    let now = so_far.fetched.driver;
    &&& now.plan == driver.plan
    &&& now.settings == driver.settings
    &&& now.bit_position == bits_of(so_far.chunks)
    &&& bytes_of(so_far.chunks) == canonical(so_far.input, plan.channels as int)
    &&& now.device_block_carry == so_far.input.skip(bytes_of(so_far.chunks).len() as int)
    &&& forall|i: int|
        0 <= i < so_far.chunks.len() ==> well_placed(
            #[trigger] so_far.chunks[i],
            plan.channels,
            bits_of(so_far.chunks.take(i)),
        )
}

proof fn lemma_one_more(chunks: Seq<ChunkView>, chunk: ChunkView, channels: u8)
    requires
        forall|i: int|
            0 <= i < chunks.len() ==> well_placed(
                #[trigger] chunks[i],
                channels,
                bits_of(chunks.take(i)),
            ),
        well_placed(chunk, channels, bits_of(chunks)),
    ensures
        forall|i: int|
            0 <= i < chunks.push(chunk).len() ==> well_placed(
                #[trigger] chunks.push(chunk)[i],
                channels,
                bits_of(chunks.push(chunk).take(i)),
            ),
        bits_of(chunks.push(chunk)) == bits_of(chunks) + chunk.bit_len,
        bytes_of(chunks.push(chunk)) == bytes_of(chunks) + chunk.data,
{
    let more = chunks.push(chunk);
    assert(more.drop_last() =~= chunks);
    assert forall|i: int| 0 <= i < more.len() implies well_placed(
        #[trigger] more[i],
        channels,
        bits_of(more.take(i)),
    ) by {
        assert(more.take(i) =~= chunks.take(i));
        if i < chunks.len() {
            assert(more[i] == chunks[i]);
        } else {
            assert(chunks.take(i) =~= chunks);
        }
    }
}

/// The delivery of data keeps a capture in order.
proof fn lemma_delivered(driver: DriverView, so_far: CaptureSoFar, before: DriverView, data: Seq<u8>)
    requires
        driver.plan matches Some(plan) && plan.wf(),
        in_order(driver, so_far),
        before.plan == so_far.fetched.driver.plan,
        before.settings == so_far.fetched.driver.settings,
        before.bit_position == so_far.fetched.driver.bit_position,
        before.device_block_carry == so_far.fetched.driver.device_block_carry,
        !(delivering(before, data).step matches FetchStepView::Done(Err(_))),
    ensures
        delivering(before, data).step matches FetchStepView::Done(Ok(Some(chunk))) && in_order(
            driver,
            CaptureSoFar {
                fetched: delivering(before, data),
                input: so_far.input + data,
                chunks: so_far.chunks.push(chunk),
            },
        ),
{
    let channels = driver.plan->0.channels;
    let fetched = delivering(before, data);
    let stream = before.device_block_carry + data;
    let output = canonical(stream, channels as int);
    let first = bytes_of(so_far.chunks);
    lemma_canonical_is_canonical(so_far.input, channels as int);
    lemma_canonical_is_canonical(stream, channels as int);
    law_transfer_boundaries_do_not_matter(so_far.input, data, channels as int, first, output);
    lemma_canonical(first + output, so_far.input + data, channels as int);
    let chunk = fetched.step->Done_0->Ok_0->Some_0;
    assert(chunk.data == output) by {
        if output.len() == 0 {
            assert(output =~= Seq::<u8>::empty());
        }
    }
    let blocks = stream.len() as int / (8 * channels);
    assert(8 * (blocks * (8 * channels)) == blocks * (64 * channels)) by (nonlinear_arith);
    vstd::arithmetic::div_mod::lemma_mod_multiples_basic(blocks, 64 * channels as int);
    assert(chunk.bit_len % (64 * channels as int) == 0);
    lemma_one_more(so_far.chunks, chunk, channels);
}

/// A chunk without data keeps a capture in order.
proof fn lemma_nothing_delivered(driver: DriverView, so_far: CaptureSoFar, now: DriverView, fetched: Fetched)
    requires
        driver.plan matches Some(plan) && plan.wf(),
        in_order(driver, so_far),
        fetched.driver.plan == so_far.fetched.driver.plan,
        fetched.driver.settings == so_far.fetched.driver.settings,
        fetched.driver.bit_position == so_far.fetched.driver.bit_position,
        fetched.driver.device_block_carry == so_far.fetched.driver.device_block_carry,
        now == fetched.driver,
        fetched.step matches FetchStepView::Done(Ok(Some(chunk))) ==> chunk == chunk_at(
            now,
            Seq::empty(),
        ),
    ensures
        in_order(
            driver,
            CaptureSoFar {
                fetched,
                input: so_far.input + Seq::empty(),
                chunks: match fetched.step {
                    FetchStepView::Done(Ok(Some(chunk))) => so_far.chunks.push(chunk),
                    _ => so_far.chunks,
                },
            },
        ),
{
    assert(so_far.input + Seq::<u8>::empty() =~= so_far.input);
    if let FetchStepView::Done(Ok(Some(chunk))) = fetched.step {
        lemma_one_more(so_far.chunks, chunk, driver.plan->0.channels);
        assert(bytes_of(so_far.chunks) + Seq::<u8>::empty() =~= bytes_of(so_far.chunks));
    }
}

proof fn lemma_event(driver: DriverView, so_far: CaptureSoFar, event: FetchEvent)
    requires
        driver.plan matches Some(plan) && plan.wf(),
        in_order(driver, so_far),
        so_far.admits(event),
        !so_far.after(event).failed(),
    ensures
        in_order(driver, so_far.after(event)),
{
    let now = so_far.fetched.driver;
    let stage = so_far.fetched.stage;
    let held = so_far.fetched.held;
    let next = so_far.after(event);
    match event {
        FetchEvent::Begin => {
            lemma_nothing_delivered(driver, so_far, next.fetched.driver, next.fetched);
        },
        FetchEvent::Reply(reply) => {
            let data = handed_in(now, stage, held, reply);
            match (stage, reply) {
                (FetchStage::Data, FetchReply::Taken(Ok(Some(taken)))) => {
                    let counted = DriverView {
                        queued_data_receives: (now.queued_data_receives - 1) as u8,
                        ..now
                    };
                    if taken@.len() == 0 || now.settings.mode == CaptureMode::Streaming {
                        assert(data =~= Seq::<u8>::empty());
                        lemma_nothing_delivered(driver, so_far, next.fetched.driver, next.fetched);
                    } else {
                        lemma_delivered(driver, so_far, counted, data);
                    }
                },
                (FetchStage::DataRead { consumed }, FetchReply::Read(Ok((buffer, count)))) => {
                    let read = moved(buffer@, count as int);
                    if read.len() == 0 || consumed && now.settings.mode == CaptureMode::Streaming {
                        assert(data =~= Seq::<u8>::empty());
                        lemma_nothing_delivered(driver, so_far, next.fetched.driver, next.fetched);
                    } else {
                        lemma_delivered(driver, so_far, now, data);
                    }
                },
                (FetchStage::Requeue, FetchReply::Queued(Ok(queued))) => {
                    let counted = DriverView {
                        queued_data_receives: (now.queued_data_receives + (if queued {
                            1int
                        } else {
                            0
                        })) as u8,
                        ..now
                    };
                    lemma_delivered(driver, so_far, counted, held);
                },
                _ => {
                    lemma_nothing_delivered(driver, so_far, next.fetched.driver, next.fetched);
                },
            }
        },
    }
}

proof fn lemma_runs(driver: DriverView, events: Seq<FetchEvent>)
    requires
        driver.plan matches Some(plan) && plan.wf(),
        driver.bit_position == 0,
        driver.device_block_carry.len() == 0,
        runs(driver, events),
    ensures
        in_order(driver, captured(driver, events)),
    decreases events.len(),
{
    if events.len() == 0 {
        let so_far = captured(driver, events);
        lemma_canonical_is_canonical(so_far.input, driver.plan->0.channels as int);
        assert(complete_bytes(0, driver.plan->0.channels as int) == 0) by {
            let unit = 8 * driver.plan->0.channels as int;
            assert(0int / unit == 0) by (nonlinear_arith)
                requires
                    unit > 0,
            ;
            assert(0int * unit == 0);
        }
        assert(bytes_of(so_far.chunks) =~= canonical(
            so_far.input,
            driver.plan->0.channels as int,
        ));
        assert(driver.device_block_carry =~= so_far.input.skip(0));
    } else {
        lemma_runs(driver, events.drop_last());
        lemma_event(driver, captured(driver, events.drop_last()), events.last());
    }
}

/// Whatever a device answers in whatever order, the chunks of a capture follow each other from
/// bit 0 without a gap, each of them a number of whole samples of all channels, and together they
/// hold the canonical form of all the bytes that the device has sent.
pub proof fn law_chunks_of_a_capture_join(
    driver: DriverView,
    plan: DsLogicCapturePlan,
    header_queued: bool,
    queued: u8,
    events: Seq<FetchEvent>,
)
    requires
        plan.wf(),
        runs(started(driver, plan, header_queued, queued), events),
    ensures
        ({
            let so_far = captured(started(driver, plan, header_queued, queued), events);
            &&& forall|i: int|
                0 <= i < so_far.chunks.len() ==> well_placed(
                    #[trigger] so_far.chunks[i],
                    plan.channels,
                    bits_of(so_far.chunks.take(i)),
                )
            &&& so_far.fetched.driver.bit_position == bits_of(so_far.chunks)
            &&& bytes_of(so_far.chunks) == canonical(so_far.input, plan.channels as int)
        }),
{
    lemma_runs(started(driver, plan, header_queued, queued), events);
}

} // verus!

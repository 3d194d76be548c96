//! Fetching the data of a capture, one chunk at a time.

use vstd::prelude::*;

use super::blocks::{canonical, canonicalize_cross_blocks, lemma_canonical};
use super::capture::{
    read_limit, DriverView, DsLogicU3Pro16, FETCH_LIMIT, FINITE_READ_MS, HEADER_BYTES,
    OVERFLOW_BIT, STREAMING_READ_MS,
};
use super::header::{delivered_bytes, delivery, translate_trigger_header, translated};
use super::ops::{DeviceOp, OpView};
use super::plan::DsLogicCapturePlan;
use super::usb::{usb_error, RequestView, UsbError, UsbRequest, BULK_TIMEOUT_MS};
use crate::logic_analyzer::chunk::{LogicChunk, LogicEncoding};
use crate::logic_analyzer::config::CaptureMode;
use crate::logic_analyzer::error::{
    protocol, short_message, short_transfer, transport, ErrorView, LogicAnalyzerError,
};
use crate::text::owned;

verus! {

/// How far the fetch of a chunk has come.
#[derive(Debug, Clone, Copy, PartialEq, Eq, Structural)]
pub enum FetchStage {
    /// The queued trigger header is taken.
    Header,
    /// The trigger header is read.
    HeaderRead,
    /// Queued data is taken.
    Data,
    /// Data is read; `consumed` tells whether a queued receive was used up.
    DataRead { consumed: bool },
    /// A used-up receive is replaced.
    Requeue,
    /// The status tells whether an idle stream lost samples.
    Integrity,
    Finished,
}

/// What the fetch of a chunk does next.
#[derive(Debug)]
pub enum FetchStep {
    Ask(UsbRequest),
    Op(DeviceOp),
    Done(Result<Option<LogicChunk>, LogicAnalyzerError>),
}

/// A chunk seen through its bytes.
pub struct ChunkView {
    pub data: Seq<u8>,
    pub bit_offset: u8,
    pub bit_len: int,
    pub channel_count: u8,
    pub start_bit: u64,
    pub encoding: LogicEncoding,
}

impl View for LogicChunk {
    type V = ChunkView;

    open spec fn view(&self) -> ChunkView {
        ChunkView {
            data: self.data@,
            bit_offset: self.bit_offset,
            bit_len: self.bit_len as int,
            channel_count: self.channel_count,
            start_bit: self.start_bit,
            encoding: self.encoding,
        }
    }
}

/// A step seen through its bytes.
pub enum FetchStepView {
    Ask(RequestView),
    Op(OpView),
    Done(Result<Option<ChunkView>, ErrorView>),
}

/// The result of a fetch seen through its bytes.
pub open spec fn fetch_outcome(result: Result<Option<LogicChunk>, LogicAnalyzerError>) -> Result<
    Option<ChunkView>,
    ErrorView,
> {
    match result {
        Ok(Some(chunk)) => Ok(Some(chunk@)),
        Ok(None) => Ok(None),
        Err(error) => Err(error@),
    }
}

impl View for FetchStep {
    type V = FetchStepView;

    open spec fn view(&self) -> FetchStepView {
        match *self {
            FetchStep::Ask(request) => FetchStepView::Ask(request@),
            FetchStep::Op(op) => FetchStepView::Op(op@),
            FetchStep::Done(result) => FetchStepView::Done(fetch_outcome(result)),
        }
    }
}

/// What came of a step.
#[derive(Debug)]
pub enum FetchReply {
    Taken(Result<Option<Vec<u8>>, UsbError>),
    Read(Result<(Vec<u8>, usize), UsbError>),
    Queued(Result<bool, UsbError>),
    Op(Result<Vec<u8>, LogicAnalyzerError>),
}

/// The fetch of one chunk.
#[derive(Debug)]
pub struct FetchRun {
    pub stage: FetchStage,
    /// Data that waits for its receive to be replaced.
    pub held: Vec<u8>,
}

/// The state of a fetch and what it does next.
pub struct Fetched {
    pub driver: DriverView,
    pub stage: FetchStage,
    pub held: Seq<u8>,
    pub step: FetchStepView,
}

/// A fetch that asks for a transfer.
pub open spec fn asking(driver: DriverView, stage: FetchStage, request: RequestView) -> Fetched {
    Fetched { driver, stage, held: Seq::empty(), step: FetchStepView::Ask(request) }
}

/// A fetch that ends.
pub open spec fn fetch_ended(driver: DriverView, result: Result<Option<ChunkView>, ErrorView>) -> Fetched {
    Fetched {
        driver,
        stage: FetchStage::Finished,
        held: Seq::empty(),
        step: FetchStepView::Done(result),
    }
}

/// A chunk of a capture at the place that the driver has reached.
pub open spec fn chunk_at(driver: DriverView, data: Seq<u8>) -> ChunkView {
    ChunkView {
        data,
        bit_offset: 0,
        bit_len: 8 * data.len() as int,
        channel_count: driver.plan->0.channels,
        start_bit: driver.bit_position,
        encoding: LogicEncoding::InterleavedLsbFirst,
    }
}

/// A chunk without data: nothing has arrived yet.
pub open spec fn nothing_yet(driver: DriverView) -> Fetched {
    fetch_ended(driver, Ok(Some(chunk_at(driver, Seq::empty()))))
}

/// The look at the status of an idle stream.
pub open spec fn checking(driver: DriverView) -> Fetched {
    Fetched {
        driver,
        stage: FetchStage::Integrity,
        held: Seq::empty(),
        step: FetchStepView::Op(OpView::ReadBack { command: 2, offset: 0, length: 1 }),
    }
}

/// A data read.
pub open spec fn reading(driver: DriverView, consumed: bool) -> Fetched {
    asking(
        driver,
        FetchStage::DataRead { consumed },
        RequestView::BulkRead {
            length: match driver.bytes_remaining {
                Some(left) => if left < FETCH_LIMIT {
                    left
                } else {
                    FETCH_LIMIT
                },
                None => driver.plan->0.stream_buffer,
            },
            timeout_ms: read_limit(driver.settings.mode),
        },
    )
}

/// The fetch of data once the header is dealt with.
pub open spec fn fetching(driver: DriverView) -> Fetched {
    if driver.bytes_remaining == Some(0usize) {
        fetch_ended(DriverView { active: false, ..driver }, Ok(None))
    } else if driver.queued_data_receives > 0 {
        asking(
            driver,
            FetchStage::Data,
            RequestView::TakeQueuedBulkRead {
                length: driver.queued_data_receive_bytes,
                timeout_ms: read_limit(driver.settings.mode),
            },
        )
    } else {
        reading(driver, false)
    }
}

/// A header that has not arrived: a finite capture has no data yet, a stream may have.
pub open spec fn without_header(driver: DriverView) -> Fetched {
    if driver.settings.mode == CaptureMode::Finite {
        nothing_yet(driver)
    } else {
        fetching(driver)
    }
}

/// A header that has arrived.
pub open spec fn with_header(before: DriverView, bytes: Seq<u8>) -> Fetched {
    let driver = DriverView { header_receive_queued: false, ..before };
    let plan = driver.plan->0;
    if bytes.len() != HEADER_BYTES {
        fetch_ended(
            driver,
            Err(
                ErrorView::Protocol(
                    short_message("trigger header"@, bytes.len() as int, HEADER_BYTES as int),
                ),
            ),
        )
    } else {
        match translated(bytes, driver.settings.mode, plan) {
            Err(error) => fetch_ended(driver, Err(error)),
            Ok(header) => if driver.settings.mode == CaptureMode::Finite {
                match delivery(header, plan) {
                    Err(error) => fetch_ended(driver, Err(error)),
                    Ok(bytes) => fetching(
                        DriverView {
                            bytes_remaining: Some(bytes as usize),
                            trigger_header: Some(header),
                            header_pending: false,
                            ..driver
                        },
                    ),
                }
            } else {
                fetching(
                    DriverView { trigger_header: Some(header), header_pending: false, ..driver },
                )
            },
        }
    }
}

/// The delivery of data: whole blocks leave in canonical form, the rest waits for more.
pub open spec fn delivering(before: DriverView, data: Seq<u8>) -> Fetched {
    let plan = before.plan->0;
    if before.bytes_remaining is Some && before.bytes_remaining->0 < data.len() {
        fetch_ended(
            before,
            Err(ErrorView::Protocol("received more than requested capture data"@)),
        )
    } else {
        let stream = before.device_block_carry + data;
        let output = canonical(stream, plan.channels as int);
        let driver = DriverView {
            bytes_remaining: match before.bytes_remaining {
                Some(left) => Some((left - data.len()) as usize),
                None => None,
            },
            device_block_carry: stream.skip(output.len() as int),
            ..before
        };
        if output.len() == 0 {
            nothing_yet(driver)
        } else if driver.bit_position + 8 * output.len() > u64::MAX {
            fetch_ended(driver, Err(ErrorView::Protocol("logic bit position overflow"@)))
        } else {
            fetch_ended(
                DriverView {
                    bit_position: (driver.bit_position + 8 * output.len()) as u64,
                    ..driver
                },
                Ok(Some(chunk_at(driver, output))),
            )
        }
    }
}

/// Data that has arrived.
pub open spec fn received(driver: DriverView, data: Seq<u8>, consumed: bool) -> Fetched {
    let streaming = driver.settings.mode == CaptureMode::Streaming;
    if data.len() == 0 {
        if streaming {
            checking(driver)
        } else {
            fetch_ended(driver, Ok(None))
        }
    } else if consumed && streaming {
        Fetched {
            driver,
            stage: FetchStage::Requeue,
            held: data,
            step: FetchStepView::Ask(
                RequestView::QueueBulkRead { length: driver.plan->0.stream_buffer },
            ),
        }
    } else {
        delivering(driver, data)
    }
}

/// A data read that failed.
pub open spec fn data_failed(driver: DriverView, error: UsbError, other: Seq<char>) -> Fetched {
    match error {
        UsbError::Timeout => if driver.settings.mode == CaptureMode::Streaming {
            checking(driver)
        } else {
            fetch_ended(driver, Err(ErrorView::Timeout("logic data read"@)))
        },
        UsbError::Other => fetch_ended(driver, Err(ErrorView::Transport(other))),
    }
}

/// The bytes that a read moved.
pub open spec fn moved(buffer: Seq<u8>, count: int) -> Seq<u8> {
    if count < buffer.len() {
        buffer.take(count)
    } else {
        buffer
    }
}

/// What follows a reply.
pub open spec fn fetch_continued(driver: DriverView, stage: FetchStage, held: Seq<u8>, reply: FetchReply) -> Fetched {
    match (stage, reply) {
        (FetchStage::Header, FetchReply::Taken(result)) => match result {
            Ok(Some(bytes)) => with_header(driver, bytes@),
            Ok(None) => asking(
                DriverView { header_receive_queued: false, ..driver },
                FetchStage::HeaderRead,
                RequestView::BulkRead { length: HEADER_BYTES, timeout_ms: BULK_TIMEOUT_MS },
            ),
            Err(UsbError::Timeout) => without_header(driver),
            Err(UsbError::Other) => fetch_ended(
                driver,
                Err(ErrorView::Transport("queued trigger header read"@)),
            ),
        },
        (FetchStage::HeaderRead, FetchReply::Read(result)) => match result {
            Ok((buffer, count)) => with_header(driver, moved(buffer@, count as int)),
            Err(UsbError::Timeout) => without_header(driver),
            Err(UsbError::Other) => fetch_ended(
                driver,
                Err(ErrorView::Transport("trigger header read"@)),
            ),
        },
        (FetchStage::Data, FetchReply::Taken(result)) => match result {
            Ok(Some(data)) => {
                let taken = DriverView {
                    queued_data_receives: (driver.queued_data_receives - 1) as u8,
                    ..driver
                };
                if data@.len() == 0 {
                    reading(taken, true)
                } else {
                    received(taken, data@, true)
                }
            },
            Ok(None) => reading(DriverView { queued_data_receives: 0, ..driver }, false),
            Err(error) => data_failed(driver, error, "queued logic data read"@),
        },
        (FetchStage::DataRead { consumed }, FetchReply::Read(result)) => match result {
            Ok((buffer, count)) => received(driver, moved(buffer@, count as int), consumed),
            Err(error) => data_failed(driver, error, "logic data read"@),
        },
        (FetchStage::Requeue, FetchReply::Queued(result)) => match result {
            Ok(queued) => delivering(
                DriverView {
                    queued_data_receives: (driver.queued_data_receives + (if queued {
                        1int
                    } else {
                        0
                    })) as u8,
                    ..driver
                },
                held,
            ),
            Err(_) => fetch_ended(
                driver,
                Err(ErrorView::Transport("queue replacement logic data read"@)),
            ),
        },
        (FetchStage::Integrity, FetchReply::Op(result)) => match result {
            Ok(status) => if status@[0] & OVERFLOW_BIT != 0 {
                fetch_ended(
                    driver,
                    Err(ErrorView::Integrity("U3Pro16 reported a streaming overflow"@)),
                )
            } else {
                nothing_yet(driver)
            },
            Err(error) => fetch_ended(driver, Err(error@)),
        },
        _ => fetch_ended(driver, Ok(None)),
    }
}

/// The first step of a fetch.
pub open spec fn fetch_begun(driver: DriverView) -> Fetched {
    if !driver.active || driver.plan is None {
        fetch_ended(driver, Err(ErrorView::NotCapturing))
    } else if !driver.header_pending {
        fetching(driver)
    } else if driver.header_receive_queued {
        asking(
            driver,
            FetchStage::Header,
            RequestView::TakeQueuedBulkRead {
                length: HEADER_BYTES,
                timeout_ms: if driver.settings.mode == CaptureMode::Streaming {
                    0
                } else {
                    BULK_TIMEOUT_MS
                },
            },
        )
    } else {
        asking(
            driver,
            FetchStage::HeaderRead,
            RequestView::BulkRead { length: HEADER_BYTES, timeout_ms: BULK_TIMEOUT_MS },
        )
    }
}

/// Data whose bits, with those that wait, can be counted on this host.
pub open spec fn countable(driver: DriverView, data: Seq<u8>) -> bool {
    8 * (driver.device_block_carry.len() + data.len()) <= usize::MAX
}

/// Whether a reply answers a stage.
pub open spec fn fetch_expects(driver: DriverView, stage: FetchStage, held: Seq<u8>, reply: FetchReply) -> bool {
    &&& driver.plan matches Some(plan) && plan.wf()
    &&& match stage {
        FetchStage::Header => reply is Taken,
        FetchStage::HeaderRead => reply is Read,
        FetchStage::Data => driver.queued_data_receives > 0 && match reply {
            FetchReply::Taken(Ok(Some(data))) => countable(driver, data@),
            FetchReply::Taken(_) => true,
            _ => false,
        },
        FetchStage::DataRead { .. } => match reply {
            FetchReply::Read(Ok((buffer, _))) => countable(driver, buffer@),
            FetchReply::Read(_) => true,
            _ => false,
        },
        FetchStage::Requeue => reply is Queued && driver.queued_data_receives < u8::MAX
            && countable(driver, held),
        FetchStage::Integrity => match reply {
            FetchReply::Op(Ok(status)) => status@.len() == 1,
            FetchReply::Op(_) => true,
            _ => false,
        },
        FetchStage::Finished => false,
    }
}

impl FetchRun {
    /// Whether a fetch of a driver is in a state, about to take a step.
    pub open spec fn at(self, driver: DsLogicU3Pro16, step: FetchStep, expected: Fetched) -> bool {
        &&& driver@ == expected.driver
        &&& self.stage == expected.stage
        &&& self.held@ == expected.held
        &&& step@ == expected.step
    }

    fn ask(&mut self, stage: FetchStage, request: UsbRequest) -> (step: FetchStep)
        ensures
            final(self).stage == stage,
            final(self).held@ == Seq::<u8>::empty(),
            step@ == FetchStepView::Ask(request@),
    {
        self.stage = stage;
        self.held = Vec::new();
        assert(self.held@ =~= Seq::<u8>::empty());
        FetchStep::Ask(request)
    }

    fn end(&mut self, result: Result<Option<LogicChunk>, LogicAnalyzerError>) -> (step: FetchStep)
        ensures
            final(self).stage == FetchStage::Finished,
            final(self).held@ == Seq::<u8>::empty(),
            step@ == FetchStepView::Done(fetch_outcome(result)),
    {
        self.stage = FetchStage::Finished;
        self.held = Vec::new();
        assert(self.held@ =~= Seq::<u8>::empty());
        FetchStep::Done(result)
    }

    fn empty(&mut self, driver: &DsLogicU3Pro16, plan: DsLogicCapturePlan) -> (step: FetchStep)
        requires
            driver@.plan == Some(plan),
        ensures
            final(self).at(*driver, step, nothing_yet(driver@)),
    {
        let data: Vec<u8> = Vec::new();
        assert(data@ =~= Seq::<u8>::empty());
        self.end(
            Ok(
                Some(
                    LogicChunk {
                        data,
                        bit_offset: 0,
                        bit_len: 0,
                        channel_count: plan.channels,
                        start_bit: driver.bit_position,
                        encoding: LogicEncoding::InterleavedLsbFirst,
                    },
                ),
            ),
        )
    }

    fn check(&mut self, driver: &DsLogicU3Pro16) -> (step: FetchStep)
        ensures
            final(self).at(*driver, step, checking(driver@)),
    {
        self.stage = FetchStage::Integrity;
        self.held = Vec::new();
        assert(self.held@ =~= Seq::<u8>::empty());
        FetchStep::Op(DeviceOp::ReadBack { command: 2, offset: 0, length: 1 })
    }

    fn read(&mut self, driver: &DsLogicU3Pro16, plan: DsLogicCapturePlan, consumed: bool) -> (step:
        FetchStep)
        requires
            driver@.plan == Some(plan),
        ensures
            final(self).at(*driver, step, reading(driver@, consumed)),
    {
        let length: usize = match driver.bytes_remaining {
            Some(left) => if left < FETCH_LIMIT {
                left
            } else {
                FETCH_LIMIT
            },
            None => plan.stream_buffer,
        };
        let timeout_ms: u64 = exec_read_limit(driver.settings.mode);
        self.ask(FetchStage::DataRead { consumed }, UsbRequest::BulkRead { length, timeout_ms })
    }

    fn fetch(&mut self, driver: &mut DsLogicU3Pro16, plan: DsLogicCapturePlan) -> (step: FetchStep)
        requires
            old(driver)@.plan == Some(plan),
        ensures
            final(self).at(*final(driver), step, fetching(old(driver)@)),
    {
        match driver.bytes_remaining {
            Some(left) => if left == 0 {
                driver.active = false;
                return self.end(Ok(None));
            },
            None => {},
        }
        if driver.queued_data_receives > 0 {
            let timeout_ms: u64 = exec_read_limit(driver.settings.mode);
            self.ask(
                FetchStage::Data,
                UsbRequest::TakeQueuedBulkRead {
                    length: driver.queued_data_receive_bytes,
                    timeout_ms,
                },
            )
        } else {
            self.read(driver, plan, false)
        }
    }

    fn no_header(&mut self, driver: &mut DsLogicU3Pro16, plan: DsLogicCapturePlan) -> (step:
        FetchStep)
        requires
            old(driver)@.plan == Some(plan),
        ensures
            final(self).at(*final(driver), step, without_header(old(driver)@)),
    {
        if driver.settings.mode == CaptureMode::Finite {
            self.empty(driver, plan)
        } else {
            self.fetch(driver, plan)
        }
    }

    fn take_header(
        &mut self,
        driver: &mut DsLogicU3Pro16,
        plan: DsLogicCapturePlan,
        bytes: Vec<u8>,
    ) -> (step: FetchStep)
        requires
            old(driver)@.plan == Some(plan),
        ensures
            final(self).at(*final(driver), step, with_header(old(driver)@, bytes@)),
    {
        driver.header_receive_queued = false;
        if bytes.len() != HEADER_BYTES {
            return self.end(Err(short_transfer("trigger header", bytes.len(), HEADER_BYTES)));
        }
        let mode: CaptureMode = driver.settings.mode;
        let header = match translate_trigger_header(bytes.as_slice(), mode, plan) {
            Ok(header) => header,
            Err(error) => return self.end(Err(error)),
        };
        if mode == CaptureMode::Finite {
            match delivered_bytes(header, plan) {
                Ok(left) => {
                    driver.bytes_remaining = Some(left);
                },
                Err(error) => return self.end(Err(error)),
            }
        }
        driver.trigger_header = Some(header);
        driver.header_pending = false;
        self.fetch(driver, plan)
    }

    fn deliver(&mut self, driver: &mut DsLogicU3Pro16, plan: DsLogicCapturePlan, data: Vec<u8>) -> (step:
        FetchStep)
        requires
            old(driver)@.plan == Some(plan),
            plan.wf(),
            countable(old(driver)@, data@),
        ensures
            final(self).at(*final(driver), step, delivering(old(driver)@, data@)),
    {
        match driver.bytes_remaining {
            Some(left) => {
                if left < data.len() {
                    return self.end(Err(protocol("received more than requested capture data")));
                }
                driver.bytes_remaining = Some(left - data.len());
            },
            None => {},
        }
        let ghost stream = driver.device_block_carry@ + data@;
        let output: Vec<u8> = match canonicalize_cross_blocks(
            &mut driver.device_block_carry,
            data.as_slice(),
            plan.channels as usize,
        ) {
            Ok(output) => output,
            Err(error) => return self.end(Err(error)),
        };
        proof {
            lemma_canonical(output@, stream, plan.channels as int);
            lemma_canonical_fits(stream, plan.channels as int, output@);
        }
        if output.len() == 0 {
            assert(output@ =~= Seq::<u8>::empty());
            return self.empty(driver, plan);
        }
        let bit_len: usize = output.len() * 8;
        let start_bit: u64 = driver.bit_position;
        match start_bit.checked_add(bit_len as u64) {
            Some(next) => {
                driver.bit_position = next;
                self.end(
                    Ok(
                        Some(
                            LogicChunk {
                                data: output,
                                bit_offset: 0,
                                bit_len,
                                channel_count: plan.channels,
                                start_bit,
                                encoding: LogicEncoding::InterleavedLsbFirst,
                            },
                        ),
                    ),
                )
            },
            None => self.end(Err(protocol("logic bit position overflow"))),
        }
    }

    fn receive(
        &mut self,
        driver: &mut DsLogicU3Pro16,
        plan: DsLogicCapturePlan,
        data: Vec<u8>,
        consumed: bool,
    ) -> (step: FetchStep)
        requires
            old(driver)@.plan == Some(plan),
            plan.wf(),
            countable(old(driver)@, data@),
        ensures
            final(self).at(*final(driver), step, received(old(driver)@, data@, consumed)),
    {
        let streaming: bool = driver.settings.mode == CaptureMode::Streaming;
        if data.len() == 0 {
            if streaming {
                return self.check(driver);
            }
            return self.end(Ok(None));
        }
        if consumed && streaming {
            self.stage = FetchStage::Requeue;
            self.held = data;
            return FetchStep::Ask(UsbRequest::QueueBulkRead { length: plan.stream_buffer });
        }
        self.deliver(driver, plan, data)
    }

    fn fail(&mut self, driver: &DsLogicU3Pro16, error: UsbError, other: &str) -> (step: FetchStep)
        ensures
            final(self).at(*driver, step, data_failed(driver@, error, other@)),
    {
        match error {
            UsbError::Timeout => if driver.settings.mode == CaptureMode::Streaming {
                self.check(driver)
            } else {
                self.end(Err(usb_error(error, "logic data read")))
            },
            UsbError::Other => self.end(Err(usb_error(error, other))),
        }
    }

    /// Begins to fetch the next chunk.
    pub fn begin(driver: &mut DsLogicU3Pro16) -> (result: (FetchRun, FetchStep))
        ensures
            result.0.at(*final(driver), result.1, fetch_begun(old(driver)@)),
    {
        let mut run = FetchRun { stage: FetchStage::Finished, held: Vec::new() };
        let plan: DsLogicCapturePlan = match driver.plan {
            Some(plan) => plan,
            None => {
                let step: FetchStep = run.end(Err(LogicAnalyzerError::NotCapturing));
                return (run, step);
            },
        };
        if !driver.active {
            let step: FetchStep = run.end(Err(LogicAnalyzerError::NotCapturing));
            return (run, step);
        }
        let step: FetchStep = if !driver.header_pending {
            run.fetch(driver, plan)
        } else if driver.header_receive_queued {
            let timeout_ms: u64 = match driver.settings.mode {
                CaptureMode::Streaming => 0,
                CaptureMode::Finite => BULK_TIMEOUT_MS,
            };
            run.ask(
                FetchStage::Header,
                UsbRequest::TakeQueuedBulkRead { length: HEADER_BYTES, timeout_ms },
            )
        } else {
            run.ask(
                FetchStage::HeaderRead,
                UsbRequest::BulkRead { length: HEADER_BYTES, timeout_ms: BULK_TIMEOUT_MS },
            )
        };
        (run, step)
    }

    /// Takes what came of the last step and tells the next.
    pub fn resume(&mut self, driver: &mut DsLogicU3Pro16, reply: FetchReply) -> (step: FetchStep)
        requires
            fetch_expects(old(driver)@, old(self).stage, old(self).held@, reply),
        ensures
            final(self).at(
                *final(driver),
                step,
                fetch_continued(old(driver)@, old(self).stage, old(self).held@, reply),
            ),
    {
        let plan: DsLogicCapturePlan = match driver.plan {
            Some(plan) => plan,
            None => return self.end(Ok(None)),
        };
        match (self.stage, reply) {
            (FetchStage::Header, FetchReply::Taken(result)) => match result {
                Ok(Some(bytes)) => self.take_header(driver, plan, bytes),
                Ok(None) => {
                    driver.header_receive_queued = false;
                    self.ask(
                        FetchStage::HeaderRead,
                        UsbRequest::BulkRead { length: HEADER_BYTES, timeout_ms: BULK_TIMEOUT_MS },
                    )
                },
                Err(UsbError::Timeout) => self.no_header(driver, plan),
                Err(UsbError::Other) => self.end(Err(transport("queued trigger header read"))),
            },
            (FetchStage::HeaderRead, FetchReply::Read(result)) => match result {
                Ok((buffer, count)) => {
                    let bytes: Vec<u8> = keep(buffer, count);
                    self.take_header(driver, plan, bytes)
                },
                Err(UsbError::Timeout) => self.no_header(driver, plan),
                Err(UsbError::Other) => self.end(Err(transport("trigger header read"))),
            },
            (FetchStage::Data, FetchReply::Taken(result)) => match result {
                Ok(Some(data)) => {
                    driver.queued_data_receives = driver.queued_data_receives - 1;
                    if data.len() == 0 {
                        self.read(driver, plan, true)
                    } else {
                        self.receive(driver, plan, data, true)
                    }
                },
                Ok(None) => {
                    driver.queued_data_receives = 0;
                    self.read(driver, plan, false)
                },
                Err(error) => self.fail(driver, error, "queued logic data read"),
            },
            (FetchStage::DataRead { consumed }, FetchReply::Read(result)) => match result {
                Ok((buffer, count)) => {
                    let data: Vec<u8> = keep(buffer, count);
                    self.receive(driver, plan, data, consumed)
                },
                Err(error) => self.fail(driver, error, "logic data read"),
            },
            (FetchStage::Requeue, FetchReply::Queued(result)) => match result {
                Ok(queued) => {
                    if queued {
                        driver.queued_data_receives = driver.queued_data_receives + 1;
                    }
                    let mut data: Vec<u8> = Vec::new();
                    data.append(&mut self.held);
                    assert(data@ =~= old(self).held@);
                    self.deliver(driver, plan, data)
                },
                Err(_) => self.end(Err(transport("queue replacement logic data read"))),
            },
            (FetchStage::Integrity, FetchReply::Op(result)) => match result {
                Ok(status) => if status[0] & OVERFLOW_BIT != 0 {
                    self.end(
                        Err(
                            LogicAnalyzerError::Integrity(
                                owned("U3Pro16 reported a streaming overflow"),
                            ),
                        ),
                    )
                } else {
                    self.empty(driver, plan)
                },
                Err(error) => self.end(Err(error)),
            },
            _ => self.end(Ok(None)),
        }
    }
}

proof fn lemma_canonical_fits(stream: Seq<u8>, channels: int, output: Seq<u8>)
    requires
        1 <= channels <= 16,
        super::blocks::is_canonical(output, stream, channels),
    ensures
        output.len() <= stream.len(),
{
    let unit = 8 * channels;
    vstd::arithmetic::div_mod::lemma_fundamental_div_mod(stream.len() as int, unit);
    assert(stream.len() as int / unit * unit == unit * (stream.len() as int / unit))
        by (nonlinear_arith);
}

fn exec_read_limit(mode: CaptureMode) -> (result: u64)
    ensures
        result == read_limit(mode),
{
    match mode {
        CaptureMode::Finite => FINITE_READ_MS,
        CaptureMode::Streaming => STREAMING_READ_MS,
    }
}

fn keep(buffer: Vec<u8>, count: usize) -> (result: Vec<u8>)
    ensures
        result@ == moved(buffer@, count as int),
        result@.len() <= buffer@.len(),
{
    let mut buffer = buffer;
    if count < buffer.len() {
        let ghost before = buffer@;
        buffer.truncate(count);
        assert(buffer@ =~= before.take(count as int));
    }
    buffer
}

/// The data that a fetch hands out.
pub open spec fn handed_out(fetched: Fetched) -> Seq<u8> {
    match fetched.step {
        FetchStepView::Done(Ok(Some(chunk))) => chunk.data,
        _ => Seq::empty(),
    }
}

/// Chunks follow each other without a gap: a chunk starts where the one before it ended, and the
/// driver moves on by the bits it hands out.
pub proof fn law_chunks_are_contiguous(driver: DriverView, data: Seq<u8>)
    requires
        delivering(driver, data).step matches FetchStepView::Done(Ok(_)),
    ensures
        ({
            let fetched = delivering(driver, data);
            &&& fetched.step matches FetchStepView::Done(Ok(Some(chunk))) && chunk.start_bit
                == driver.bit_position && chunk.bit_len == 8 * chunk.data.len()
                && fetched.driver.bit_position == chunk.start_bit + chunk.bit_len
        }),
{
}

/// Nothing is lost between transfers: what two deliveries hand out, one behind the other, is the
/// canonical form of all the bytes that arrived, and what waits afterwards is the same as if they
/// had arrived at once.
pub proof fn law_deliveries_are_lossless(driver: DriverView, first: Seq<u8>, second: Seq<u8>)
    requires
        driver.plan matches Some(plan) && plan.wf(),
        delivering(driver, first).step matches FetchStepView::Done(Ok(_)),
        delivering(delivering(driver, first).driver, second).step matches FetchStepView::Done(
            Ok(_),
        ),
    ensures
        ({
            let one = delivering(driver, first);
            let two = delivering(one.driver, second);
            let all = driver.device_block_carry + (first + second);
            let channels = driver.plan->0.channels as int;
            &&& handed_out(one) + handed_out(two) == canonical(all, channels)
            &&& two.driver.device_block_carry == all.skip(
                (handed_out(one) + handed_out(two)).len() as int,
            )
        }),
{
    let channels = driver.plan->0.channels as int;
    let one = delivering(driver, first);
    let two = delivering(one.driver, second);
    let stream = driver.device_block_carry + first;
    let rest = one.driver.device_block_carry + second;
    let all = driver.device_block_carry + (first + second);
    assert(stream + second =~= all);
    super::blocks::lemma_canonical_is_canonical(stream, channels);
    super::blocks::lemma_canonical_is_canonical(rest, channels);
    super::blocks::law_transfer_boundaries_do_not_matter(
        stream,
        second,
        channels,
        canonical(stream, channels),
        canonical(rest, channels),
    );
    lemma_canonical(
        canonical(stream, channels) + canonical(rest, channels),
        all,
        channels,
    );
    assert(handed_out(one) =~= canonical(stream, channels));
    assert(handed_out(two) =~= canonical(rest, channels));
}

/// A finite capture hands out no more than its header announced, and ends when that has arrived.
pub proof fn law_finite_capture_ends(driver: DriverView, data: Seq<u8>)
    requires
        driver.bytes_remaining is Some,
    ensures
        data.len() > driver.bytes_remaining->0 ==> delivering(driver, data).step
            == FetchStepView::Done(
            Err(ErrorView::Protocol("received more than requested capture data"@)),
        ),
        data.len() <= driver.bytes_remaining->0 ==> delivering(driver, data).driver.bytes_remaining
            == Some((driver.bytes_remaining->0 - data.len()) as usize),
        driver.active && driver.plan is Some && !driver.header_pending
            && driver.bytes_remaining->0 == 0 ==> fetch_begun(driver) == fetch_ended(
            DriverView { active: false, ..driver },
            Ok(None),
        ),
{
}

} // verus!

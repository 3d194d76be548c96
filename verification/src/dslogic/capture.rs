//! The state of a capture: configuring it, starting it, stopping it.

use vstd::prelude::*;

use super::header::DsLogicTriggerHeader;
use super::ops::{DeviceOp, OpView};
use super::plan::{
    build_plan, configured, finite_settings, planned, settings_from_config, supported_rates, rates,
    DsLogicCapturePlan, DsLogicCaptureSettings, LinkSpeed, SettingsView,
};
use super::usb::{RequestView, UsbError, UsbRequest};
use crate::logic_analyzer::config::{CaptureMode, LogicAnalyzerInfo, LogicCaptureConfig};
use crate::logic_analyzer::error::{
    invalid_settings, protocol, transport, ErrorView, LogicAnalyzerError,
};
use crate::text::owned;

verus! {

/// Bytes of a trigger header.
pub const HEADER_BYTES: usize = 1024;

/// Most bytes fetched at a time from a finite capture.
pub const FETCH_LIMIT: usize = 1_048_576;

/// Reads kept waiting on the bus while a capture streams.
pub const STREAMING_DEPTH: u8 = 4;

/// Time limit of a data read of a finite capture.
pub const FINITE_READ_MS: u64 = 20;

/// Time limit of a data read of a streaming capture.
pub const STREAMING_READ_MS: u64 = 125;

/// Status bit that tells of lost samples.
pub const OVERFLOW_BIT: u8 = 0x10;

/// The driver of one device, without its transport.
#[derive(Debug)]
pub struct DsLogicU3Pro16 {
    pub link_speed: LinkSpeed,
    pub settings: DsLogicCaptureSettings,
    pub plan: Option<DsLogicCapturePlan>,
    pub trigger_header: Option<DsLogicTriggerHeader>,
    pub prepared: bool,
    pub active: bool,
    pub header_pending: bool,
    pub header_receive_queued: bool,
    pub queued_data_receives: u8,
    pub queued_data_receive_bytes: usize,
    pub device_block_carry: Vec<u8>,
    pub bytes_remaining: Option<usize>,
    pub bit_position: u64,
}

/// A driver seen through its settings and bytes.
pub struct DriverView {
    pub link_speed: LinkSpeed,
    pub settings: SettingsView,
    pub plan: Option<DsLogicCapturePlan>,
    pub trigger_header: Option<DsLogicTriggerHeader>,
    pub prepared: bool,
    pub active: bool,
    pub header_pending: bool,
    pub header_receive_queued: bool,
    pub queued_data_receives: u8,
    pub queued_data_receive_bytes: usize,
    pub device_block_carry: Seq<u8>,
    pub bytes_remaining: Option<usize>,
    pub bit_position: u64,
}

impl View for DsLogicU3Pro16 {
    type V = DriverView;

    open spec fn view(&self) -> DriverView {
        DriverView {
            link_speed: self.link_speed,
            settings: self.settings@,
            plan: self.plan,
            trigger_header: self.trigger_header,
            prepared: self.prepared,
            active: self.active,
            header_pending: self.header_pending,
            header_receive_queued: self.header_receive_queued,
            queued_data_receives: self.queued_data_receives,
            queued_data_receive_bytes: self.queued_data_receive_bytes,
            device_block_carry: self.device_block_carry@,
            bytes_remaining: self.bytes_remaining,
            bit_position: self.bit_position,
        }
    }
}

/// A driver that has done nothing yet.
pub open spec fn fresh_driver(link_speed: LinkSpeed) -> DriverView {
    DriverView {
        link_speed,
        settings: finite_settings(1_000_000, 1, 1024),
        plan: None,
        trigger_header: None,
        prepared: false,
        active: false,
        header_pending: false,
        header_receive_queued: false,
        queued_data_receives: 0,
        queued_data_receive_bytes: 0,
        device_block_carry: Seq::empty(),
        bytes_remaining: None,
        bit_position: 0,
    }
}

/// What this driver can do.
pub fn device_info() -> (result: LogicAnalyzerInfo)
    ensures
        result.driver@ == "dslogic_u3pro16"@,
        result.model@ == "DSLogic U3Pro16"@,
        result.channels == 16,
        result.sample_rates_hz@ == rates(),
{
    LogicAnalyzerInfo {
        driver: owned("dslogic_u3pro16"),
        model: owned("DSLogic U3Pro16"),
        channels: 16,
        sample_rates_hz: supported_rates(),
    }
}

/// Time limit of a data read.
pub open spec fn read_limit(mode: CaptureMode) -> u64 {
    if mode == CaptureMode::Finite {
        FINITE_READ_MS
    } else {
        STREAMING_READ_MS
    }
}

/// Bytes of the data reads that are queued with the start of a capture.
pub open spec fn first_read_bytes(mode: CaptureMode, plan: DsLogicCapturePlan) -> usize {
    if mode == CaptureMode::Finite {
        if plan.actual_bytes < FETCH_LIMIT {
            plan.actual_bytes
        } else {
            FETCH_LIMIT
        }
    } else {
        plan.stream_buffer
    }
}

/// Data reads that are queued with the start of a capture.
pub open spec fn first_reads(mode: CaptureMode) -> u8 {
    if mode == CaptureMode::Finite {
        1
    } else {
        STREAMING_DEPTH
    }
}

/// How far the start of a capture has come.
#[derive(Debug, Clone, Copy, PartialEq, Eq, Structural)]
pub enum StartStage {
    /// The receive of the trigger header is queued.
    QueueHeader,
    /// Data receives are queued.
    QueueData { header_queued: bool, queued: u8 },
    /// The start command is sent.
    Command { header_queued: bool, queued: u8 },
    /// The receives are cancelled after a failure.
    Cancel,
    Finished,
}

/// What the start of a capture does next.
#[derive(Debug)]
pub enum StartStep {
    /// Prepare the device for a plan, then begin again.
    Prepare(DsLogicCapturePlan),
    Ask(UsbRequest),
    Op(DeviceOp),
    Done(Result<(), LogicAnalyzerError>),
}

/// A step seen through its bytes.
pub enum StartStepView {
    Prepare(DsLogicCapturePlan),
    Ask(RequestView),
    Op(OpView),
    Done(Result<(), ErrorView>),
}

impl View for StartStep {
    type V = StartStepView;

    open spec fn view(&self) -> StartStepView {
        match *self {
            StartStep::Prepare(plan) => StartStepView::Prepare(plan),
            StartStep::Ask(request) => StartStepView::Ask(request@),
            StartStep::Op(op) => StartStepView::Op(op@),
            StartStep::Done(Ok(done)) => StartStepView::Done(Ok(done)),
            StartStep::Done(Err(error)) => StartStepView::Done(Err(error@)),
        }
    }
}

/// What came of a step of the start.
#[derive(Debug)]
pub enum StartReply {
    Queued(Result<bool, UsbError>),
    Op(Result<Vec<u8>, LogicAnalyzerError>),
    Cancelled,
}

/// The start of a capture.
#[derive(Debug)]
pub struct StartRun {
    pub stage: StartStage,
    pub plan: DsLogicCapturePlan,
    /// The failure to report once the receives are cancelled.
    pub failure: Option<LogicAnalyzerError>,
}

/// The start of a capture, seen through its failure's message.
pub struct StartView {
    pub stage: StartStage,
    pub plan: DsLogicCapturePlan,
    pub failure: Option<ErrorView>,
}

impl View for StartRun {
    type V = StartView;

    open spec fn view(&self) -> StartView {
        StartView {
            stage: self.stage,
            plan: self.plan,
            failure: super::setup::failure_view(self.failure),
        }
    }
}

/// The plan of a driver: the negotiated one, or the one for its settings.
pub open spec fn driver_plan(driver: DriverView) -> Result<DsLogicCapturePlan, ErrorView> {
    match driver.plan {
        Some(plan) => Ok(plan),
        None => planned(driver.link_speed, driver.settings),
    }
}

/// The driver once the start command is sent.
pub open spec fn started(
    driver: DriverView,
    plan: DsLogicCapturePlan,
    header_queued: bool,
    queued: u8,
) -> DriverView {
    DriverView {
        plan: Some(plan),
        active: true,
        prepared: false,
        header_pending: true,
        header_receive_queued: header_queued,
        queued_data_receives: queued,
        queued_data_receive_bytes: first_read_bytes(driver.settings.mode, plan),
        device_block_carry: Seq::empty(),
        bytes_remaining: None,
        bit_position: 0,
        trigger_header: None,
        ..driver
    }
}

/// The next data receive to queue, or the start command behind the last.
pub open spec fn queue_or_start(
    driver: DriverView,
    start: StartView,
    header_queued: bool,
    queued: u8,
) -> (StartView, StartStepView) {
    if queued < first_reads(driver.settings.mode) {
        (
            StartView { stage: StartStage::QueueData { header_queued, queued }, ..start },
            StartStepView::Ask(
                RequestView::QueueBulkRead {
                    length: first_read_bytes(driver.settings.mode, start.plan),
                },
            ),
        )
    } else {
        start_command(start, header_queued, queued)
    }
}

/// The start command.
pub open spec fn start_command(start: StartView, header_queued: bool, queued: u8) -> (StartView, StartStepView) {
    (
        StartView { stage: StartStage::Command { header_queued, queued }, ..start },
        StartStepView::Op(OpView::Command { command: 8, offset: 0, data: Seq::empty() }),
    )
}

/// The cancellation after a failure.
pub open spec fn start_cancelled(start: StartView, failure: ErrorView) -> (StartView, StartStepView) {
    (
        StartView { stage: StartStage::Cancel, failure: Some(failure), ..start },
        StartStepView::Ask(RequestView::CancelQueuedBulkRead),
    )
}

/// The end of a start.
pub open spec fn start_ended(start: StartView, result: Result<(), ErrorView>) -> (StartView, StartStepView) {
    (
        StartView { stage: StartStage::Finished, failure: None, ..start },
        StartStepView::Done(result),
    )
}

/// What follows a reply during the start of a capture.
pub open spec fn start_continued(
    driver: DriverView,
    start: StartView,
    reply: StartReply,
) -> (DriverView, (StartView, StartStepView)) {
    match (start.stage, reply) {
        (StartStage::QueueHeader, StartReply::Queued(Ok(header_queued))) => (
            driver,
            queue_or_start(driver, start, header_queued, 0),
        ),
        (StartStage::QueueHeader, StartReply::Queued(Err(_))) => (
            driver,
            start_ended(start, Err(ErrorView::Transport("queue trigger header read"@))),
        ),
        (StartStage::QueueData { header_queued, queued }, StartReply::Queued(Ok(more))) => (
            driver,
            if more {
                queue_or_start(driver, start, header_queued, (queued + 1) as u8)
            } else {
                start_command(start, header_queued, queued)
            },
        ),
        (StartStage::QueueData { .. }, StartReply::Queued(Err(_))) => (
            driver,
            start_cancelled(start, ErrorView::Transport("queue initial logic data read"@)),
        ),
        (StartStage::Command { header_queued, queued }, StartReply::Op(Ok(_))) => (
            started(driver, start.plan, header_queued, queued),
            start_ended(start, Ok(())),
        ),
        (StartStage::Command { .. }, StartReply::Op(Err(error))) => (
            driver,
            start_cancelled(start, error@),
        ),
        _ => (
            driver,
            start_ended(
                start,
                match start.failure {
                    Some(error) => Err(error),
                    None => Ok(()),
                },
            ),
        ),
    }
}

/// Whether a reply answers a stage of the start.
pub open spec fn start_expects(start: StartView, reply: StartReply) -> bool {
    match start.stage {
        StartStage::QueueHeader => reply is Queued,
        StartStage::QueueData { queued, .. } => reply is Queued && queued < STREAMING_DEPTH,
        StartStage::Command { .. } => reply is Op,
        StartStage::Cancel => reply is Cancelled && start.failure is Some,
        StartStage::Finished => false,
    }
}

impl DsLogicU3Pro16 {
    /// A driver that has done nothing yet.
    pub fn new(link_speed: LinkSpeed) -> (result: Self)
        ensures
            result@ == fresh_driver(link_speed),
    {
        let carry: Vec<u8> = Vec::new();
        assert(carry@ =~= Seq::<u8>::empty());
        DsLogicU3Pro16 {
            link_speed,
            settings: DsLogicCaptureSettings::finite(1_000_000, 1, 1024),
            plan: None,
            trigger_header: None,
            prepared: false,
            active: false,
            header_pending: false,
            header_receive_queued: false,
            queued_data_receives: 0,
            queued_data_receive_bytes: 0,
            device_block_carry: carry,
            bytes_remaining: None,
            bit_position: 0,
        }
    }

    /// Takes the settings of the next capture.
    pub fn configure_capture(&mut self, config: &LogicCaptureConfig) -> (result: Result<
        (),
        LogicAnalyzerError,
    >)
        ensures
            match (result, configured(*config)) {
                (Ok(_), Ok(settings)) => final(self)@ == (DriverView {
                    settings,
                    plan: None,
                    trigger_header: None,
                    prepared: false,
                    ..old(self)@
                }),
                (Err(error), Err(refused)) => error@ == refused && final(self)@ == old(self)@,
                _ => false,
            },
    {
        match settings_from_config(config) {
            Ok(settings) => {
                self.settings = settings;
                self.plan = None;
                self.trigger_header = None;
                self.prepared = false;
                Ok(())
            },
            Err(error) => Err(error),
        }
    }

    /// The rate of the capture.
    pub fn sample_rate_hz(&self) -> (result: u64)
        ensures
            result == self@.settings.sample_rate_hz,
    {
        self.settings.sample_rate_hz
    }

    /// The plan for the settings on the connected link.
    pub fn plan(&self) -> (result: Result<DsLogicCapturePlan, LogicAnalyzerError>)
        ensures
            match result {
                Ok(plan) => planned(self@.link_speed, self@.settings) == Ok::<_, ErrorView>(plan)
                    && plan.wf(),
                Err(error) => planned(self@.link_speed, self@.settings) == Err::<
                    DsLogicCapturePlan,
                    _,
                >(error@),
            },
    {
        build_plan(self.link_speed, &self.settings)
    }

    /// Takes a request of one mode and freezes the plan that the next start uses.
    fn negotiate(&mut self, config: &LogicCaptureConfig) -> (result: Result<
        DsLogicCapturePlan,
        LogicAnalyzerError,
    >)
        ensures
            negotiated(old(self)@, *config, final(self)@, result),
    {
        match self.configure_capture(config) {
            Ok(_) => {},
            Err(error) => return Err(error),
        }
        let plan: DsLogicCapturePlan = match self.plan() {
            Ok(plan) => plan,
            Err(error) => return Err(error),
        };
        self.plan = Some(plan);
        Ok(plan)
    }

    /// Validates a finite request against the connected device and freezes the plan used by the
    /// next start.
    pub fn negotiate_buffered_capture(&mut self, config: &LogicCaptureConfig) -> (result: Result<
        DsLogicCapturePlan,
        LogicAnalyzerError,
    >)
        ensures
            if config.mode == CaptureMode::Finite {
                negotiated(old(self)@, *config, final(self)@, result)
            } else {
                final(self)@ == old(self)@ && (result matches Err(error) && error@
                    == ErrorView::InvalidSettings(
                    "buffered acquisition requires finite capture mode"@,
                ))
            },
    {
        if config.mode != CaptureMode::Finite {
            return Err(invalid_settings("buffered acquisition requires finite capture mode"));
        }
        self.negotiate(config)
    }

    /// Validates a host-streamed request against the connected link and freezes the plan used by
    /// the next start.
    pub fn negotiate_streaming_capture(&mut self, config: &LogicCaptureConfig) -> (result: Result<
        DsLogicCapturePlan,
        LogicAnalyzerError,
    >)
        ensures
            if config.mode == CaptureMode::Streaming {
                negotiated(old(self)@, *config, final(self)@, result)
            } else {
                final(self)@ == old(self)@ && (result matches Err(error) && error@
                    == ErrorView::InvalidSettings(
                    "host-streamed acquisition requires streaming capture mode"@,
                ))
            },
    {
        if config.mode != CaptureMode::Streaming {
            return Err(
                invalid_settings("host-streamed acquisition requires streaming capture mode"),
            );
        }
        self.negotiate(config)
    }

    /// Hands out the trigger header of the capture, once.
    pub fn take_trigger_header(&mut self) -> (result: Option<DsLogicTriggerHeader>)
        ensures
            result == old(self)@.trigger_header,
            final(self)@ == (DriverView { trigger_header: None, ..old(self)@ }),
    {
        let header: Option<DsLogicTriggerHeader> = self.trigger_header;
        self.trigger_header = None;
        header
    }
}

/// What a request makes of a driver and answers.
pub open spec fn negotiated(
    before: DriverView,
    config: LogicCaptureConfig,
    after: DriverView,
    result: Result<DsLogicCapturePlan, LogicAnalyzerError>,
) -> bool {
    match configured(config) {
        Err(refused) => after == before && (result matches Err(error) && error@ == refused),
        Ok(settings) => {
            let taken = DriverView {
                settings,
                plan: None,
                trigger_header: None,
                prepared: false,
                ..before
            };
            match planned(before.link_speed, settings) {
                Err(refused) => after == taken && (result matches Err(error) && error@ == refused),
                Ok(plan) => after == (DriverView { plan: Some(plan), ..taken }) && result == Ok::<
                    _,
                    LogicAnalyzerError,
                >(plan),
            }
        },
    }
}

fn start_op() -> (result: DeviceOp)
    ensures
        result@ == (OpView::Command { command: 8, offset: 0, data: Seq::empty() }),
{
    let data: Vec<u8> = Vec::new();
    assert(data@ =~= Seq::<u8>::empty());
    DeviceOp::Command { command: 8, offset: 0, data }
}

impl StartRun {
    /// Begins to start a capture. A device that is not prepared has to be prepared first.
    pub fn begin(driver: &DsLogicU3Pro16) -> (result: (Option<StartRun>, StartStep))
        ensures
            match driver_plan(driver@) {
                _ if driver@.active => result.0 is None && result.1@ == StartStepView::Done(
                    Err(ErrorView::Protocol("capture already active"@)),
                ),
                Err(refused) => result.0 is None && result.1@ == StartStepView::Done(Err(refused)),
                Ok(plan) if !driver@.prepared => result.0 is None && result.1@
                    == StartStepView::Prepare(plan),
                Ok(plan) => result.0 is Some && result.0->0@ == (StartView {
                    stage: StartStage::QueueHeader,
                    plan,
                    failure: None,
                }) && result.1@ == StartStepView::Ask(
                    RequestView::QueueBulkRead { length: HEADER_BYTES },
                ),
            },
    {
        if driver.active {
            return (None, StartStep::Done(Err(protocol("capture already active"))));
        }
        let plan: DsLogicCapturePlan = match driver.plan {
            Some(plan) => plan,
            None => match driver.plan() {
                Ok(plan) => plan,
                Err(error) => return (None, StartStep::Done(Err(error))),
            },
        };
        if !driver.prepared {
            return (None, StartStep::Prepare(plan));
        }
        (
            Some(StartRun { stage: StartStage::QueueHeader, plan, failure: None }),
            StartStep::Ask(UsbRequest::QueueBulkRead { length: HEADER_BYTES }),
        )
    }

    fn end(&mut self, result: Result<(), LogicAnalyzerError>) -> (step: StartStep)
        ensures
            (final(self)@, step@) == start_ended(
                old(self)@,
                match result {
                    Ok(done) => Ok(done),
                    Err(error) => Err(error@),
                },
            ),
    {
        self.stage = StartStage::Finished;
        self.failure = None;
        StartStep::Done(result)
    }

    fn cancel(&mut self, failure: LogicAnalyzerError) -> (step: StartStep)
        ensures
            (final(self)@, step@) == start_cancelled(old(self)@, failure@),
    {
        self.stage = StartStage::Cancel;
        self.failure = Some(failure);
        StartStep::Ask(UsbRequest::CancelQueuedBulkRead)
    }

    fn queue(&mut self, mode: CaptureMode, header_queued: bool, queued: u8) -> (step: StartStep)
        ensures
            forall|driver: DriverView|
                driver.settings.mode == mode ==> (final(self)@, step@) == #[trigger] queue_or_start(
                    driver,
                    old(self)@,
                    header_queued,
                    queued,
                ),
    {
        let wanted: u8 = match mode {
            CaptureMode::Finite => 1,
            CaptureMode::Streaming => STREAMING_DEPTH,
        };
        if queued < wanted {
            let length: usize = match mode {
                CaptureMode::Finite => if self.plan.actual_bytes < FETCH_LIMIT {
                    self.plan.actual_bytes
                } else {
                    FETCH_LIMIT
                },
                CaptureMode::Streaming => self.plan.stream_buffer,
            };
            self.stage = StartStage::QueueData { header_queued, queued };
            StartStep::Ask(UsbRequest::QueueBulkRead { length })
        } else {
            self.stage = StartStage::Command { header_queued, queued };
            StartStep::Op(start_op())
        }
    }

    /// Takes what came of the last step and tells the next.
    pub fn resume(&mut self, driver: &mut DsLogicU3Pro16, reply: StartReply) -> (step: StartStep)
        requires
            start_expects(old(self)@, reply),
        ensures
            (final(driver)@, (final(self)@, step@)) == start_continued(
                old(driver)@,
                old(self)@,
                reply,
            ),
    {
        let mode: CaptureMode = driver.settings.mode;
        match self.stage {
            StartStage::QueueHeader => match reply {
                StartReply::Queued(Ok(header_queued)) => self.queue(mode, header_queued, 0),
                _ => self.end(Err(transport("queue trigger header read"))),
            },
            StartStage::QueueData { header_queued, queued } => match reply {
                StartReply::Queued(Ok(true)) => self.queue(mode, header_queued, queued + 1),
                StartReply::Queued(Ok(false)) => {
                    self.stage = StartStage::Command { header_queued, queued };
                    StartStep::Op(start_op())
                },
                _ => self.cancel(transport("queue initial logic data read")),
            },
            StartStage::Command { header_queued, queued } => match reply {
                StartReply::Op(Err(error)) => self.cancel(error),
                _ => {
                    driver.plan = Some(self.plan);
                    driver.active = true;
                    driver.prepared = false;
                    driver.header_pending = true;
                    driver.header_receive_queued = header_queued;
                    driver.queued_data_receives = queued;
                    driver.queued_data_receive_bytes =
                    match mode {
                        CaptureMode::Finite => if self.plan.actual_bytes < FETCH_LIMIT {
                            self.plan.actual_bytes
                        } else {
                            FETCH_LIMIT
                        },
                        CaptureMode::Streaming => self.plan.stream_buffer,
                    };
                    driver.device_block_carry = Vec::new();
                    assert(driver.device_block_carry@ =~= Seq::<u8>::empty());
                    driver.bytes_remaining = None;
                    driver.bit_position = 0;
                    driver.trigger_header = None;
                    self.end(Ok(()))
                },
            },
            _ => {
                let failure: Option<LogicAnalyzerError> = self.failure.take();
                match failure {
                    Some(error) => self.end(Err(error)),
                    None => self.end(Ok(())),
                }
            },
        }
    }
}

/// How far the stop of a capture has come.
#[derive(Debug, Clone, Copy, PartialEq, Eq, Structural)]
pub enum StopStage {
    /// The acquisition is cleared.
    Clear,
    /// The stop command is sent.
    Command,
    /// Queued receives are cancelled.
    Cancel,
    Finished,
}

/// What the stop of a capture does next.
#[derive(Debug)]
pub enum StopStep {
    Op(DeviceOp),
    Ask(UsbRequest),
    Done(Result<(), LogicAnalyzerError>),
}

/// A step seen through its bytes.
pub enum StopStepView {
    Op(OpView),
    Ask(RequestView),
    Done(Result<(), ErrorView>),
}

impl View for StopStep {
    type V = StopStepView;

    open spec fn view(&self) -> StopStepView {
        match *self {
            StopStep::Op(op) => StopStepView::Op(op@),
            StopStep::Ask(request) => StopStepView::Ask(request@),
            StopStep::Done(Ok(done)) => StopStepView::Done(Ok(done)),
            StopStep::Done(Err(error)) => StopStepView::Done(Err(error@)),
        }
    }
}

/// What came of a step of the stop.
#[derive(Debug)]
pub enum StopReply {
    Op(Result<Vec<u8>, LogicAnalyzerError>),
    Cancelled(Result<(), UsbError>),
}

/// Whether a reply answers a stage of the stop.
pub open spec fn stop_expects(stage: StopStage, reply: StopReply) -> bool {
    match stage {
        StopStage::Clear | StopStage::Command => reply is Op,
        StopStage::Cancel => reply is Cancelled,
        StopStage::Finished => false,
    }
}

/// The first step of a stop: an idle driver only cancels what is queued.
pub open spec fn stop_begun(driver: DriverView) -> (StopStage, StopStepView) {
    if driver.active {
        (
            StopStage::Clear,
            StopStepView::Op(OpView::Command { command: 14, offset: 0x70, data: seq![0x02] }),
        )
    } else {
        (StopStage::Cancel, StopStepView::Ask(RequestView::CancelQueuedBulkRead))
    }
}

/// A driver without anything queued or waiting.
pub open spec fn idled(driver: DriverView) -> DriverView {
    DriverView {
        header_receive_queued: false,
        queued_data_receives: 0,
        queued_data_receive_bytes: 0,
        device_block_carry: Seq::empty(),
        ..driver
    }
}

/// What follows a reply during the stop of a capture.
pub open spec fn stop_continued(driver: DriverView, stage: StopStage, reply: StopReply) -> (
    DriverView,
    StopStage,
    StopStepView,
) {
    match (stage, reply) {
        (_, StopReply::Op(Err(error))) => (
            driver,
            StopStage::Finished,
            StopStepView::Done(Err(error@)),
        ),
        (StopStage::Clear, _) => (
            driver,
            StopStage::Command,
            StopStepView::Op(OpView::Command { command: 9, offset: 0, data: Seq::empty() }),
        ),
        (StopStage::Command, _) => (
            DriverView { active: false, ..driver },
            StopStage::Cancel,
            StopStepView::Ask(RequestView::CancelQueuedBulkRead),
        ),
        (_, StopReply::Cancelled(Err(_))) => (
            driver,
            StopStage::Finished,
            StopStepView::Done(Err(ErrorView::Transport("cancel trigger header read"@))),
        ),
        _ => (idled(driver), StopStage::Finished, StopStepView::Done(Ok(()))),
    }
}

/// Begins to stop a capture.
pub fn begin_stop(driver: &DsLogicU3Pro16) -> (result: (StopStage, StopStep))
    ensures
        (result.0, result.1@) == stop_begun(driver@),
{
    if driver.active {
        let data: Vec<u8> = vec![0x02];
        assert(data@ =~= seq![0x02u8]);
        (StopStage::Clear, StopStep::Op(DeviceOp::Command { command: 14, offset: 0x70, data }))
    } else {
        (StopStage::Cancel, StopStep::Ask(UsbRequest::CancelQueuedBulkRead))
    }
}

/// Takes what came of the last step of a stop and tells the next.
pub fn resume_stop(driver: &mut DsLogicU3Pro16, stage: StopStage, reply: StopReply) -> (result: (
    StopStage,
    StopStep,
))
    requires
        stop_expects(stage, reply),
    ensures
        (final(driver)@, result.0, result.1@) == stop_continued(old(driver)@, stage, reply),
{
    match (stage, reply) {
        (_, StopReply::Op(Err(error))) => (StopStage::Finished, StopStep::Done(Err(error))),
        (StopStage::Clear, _) => {
            let data: Vec<u8> = Vec::new();
            assert(data@ =~= Seq::<u8>::empty());
            (StopStage::Command, StopStep::Op(DeviceOp::Command { command: 9, offset: 0, data }))
        },
        (StopStage::Command, _) => {
            driver.active = false;
            (StopStage::Cancel, StopStep::Ask(UsbRequest::CancelQueuedBulkRead))
        },
        (_, StopReply::Cancelled(Err(_))) => (
            StopStage::Finished,
            StopStep::Done(Err(transport("cancel trigger header read"))),
        ),
        _ => {
            driver.header_receive_queued = false;
            driver.queued_data_receives = 0;
            driver.queued_data_receive_bytes = 0;
            driver.device_block_carry = Vec::new();
            assert(driver.device_block_carry@ =~= Seq::<u8>::empty());
            (StopStage::Finished, StopStep::Done(Ok(())))
        },
    }
}

} // verus!

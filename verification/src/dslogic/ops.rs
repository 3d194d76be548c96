//! Device operations made of several transfers.

use vstd::prelude::*;

use super::usb::{usb_error, usb_failure, RequestView, UsbReply, UsbRequest};
use crate::little_endian::bytes16;
use crate::logic_analyzer::error::{
    invalid_settings, outcome, protocol, short_message, short_transfer, ErrorView,
    LogicAnalyzerError,
};
use crate::text::{append_chars, from_chars, hex_byte, hex_byte_chars, to_chars};

verus! {

/// Most data bytes of a runtime command.
pub const COMMAND_DATA_LIMIT: usize = 60;

/// Time between asking for a read-back and fetching it.
pub const READ_BACK_PAUSE_MS: u64 = 10;

/// One operation on the device.
#[derive(Debug)]
pub enum DeviceOp {
    /// A runtime command with its data.
    Command { command: u8, offset: u16, data: Vec<u8> },
    /// A runtime command that is answered with bytes.
    ReadBack { command: u8, offset: u16, length: usize },
    /// Reads the status byte until some of its bits are all set, or all clear.
    AwaitStatus { bits: u8, set: bool, timeout_ms: u64 },
    /// Sends bulk data, in one transfer or in as many as it takes.
    Upload { data: Vec<u8>, exact: bool },
    /// Writes to the memory of the USB controller.
    FirmwareWrite { address: u16, data: Vec<u8> },
    Pause { milliseconds: u64 },
}

/// An operation seen through its bytes.
pub enum OpView {
    Command { command: u8, offset: u16, data: Seq<u8> },
    ReadBack { command: u8, offset: u16, length: usize },
    AwaitStatus { bits: u8, set: bool, timeout_ms: u64 },
    Upload { data: Seq<u8>, exact: bool },
    FirmwareWrite { address: u16, data: Seq<u8> },
    Pause { milliseconds: u64 },
}

impl View for DeviceOp {
    type V = OpView;

    open spec fn view(&self) -> OpView {
        match *self {
            DeviceOp::Command { command, offset, data } => OpView::Command {
                command,
                offset,
                data: data@,
            },
            DeviceOp::ReadBack { command, offset, length } => OpView::ReadBack {
                command,
                offset,
                length,
            },
            DeviceOp::AwaitStatus { bits, set, timeout_ms } => OpView::AwaitStatus {
                bits,
                set,
                timeout_ms,
            },
            DeviceOp::Upload { data, exact } => OpView::Upload { data: data@, exact },
            DeviceOp::FirmwareWrite { address, data } => OpView::FirmwareWrite {
                address,
                data: data@,
            },
            DeviceOp::Pause { milliseconds } => OpView::Pause { milliseconds },
        }
    }
}

/// How far an operation has come.
#[derive(Debug, Clone, Copy, PartialEq, Eq, Structural)]
pub enum OpStage {
    /// A timer starts.
    Starting,
    /// The timer is looked at; `status` is the last status byte.
    Timing { status: u8 },
    /// A control write is under way.
    Writing,
    /// The answer to a read-back settles.
    Settling,
    /// A control read is under way.
    Reading,
    /// A bulk write is under way behind the first `sent` bytes.
    Uploading { sent: usize },
    /// A pause lasts.
    Waiting,
    Finished,
}

/// What an operation does next.
#[derive(Debug)]
pub enum OpStep {
    Ask(UsbRequest),
    Pause { milliseconds: u64 },
    StartTimer { milliseconds: u64 },
    CheckTimer,
    Done(Result<Vec<u8>, LogicAnalyzerError>),
}

/// A step seen through its bytes.
pub enum OpStepView {
    Ask(RequestView),
    Pause { milliseconds: u64 },
    StartTimer { milliseconds: u64 },
    CheckTimer,
    Done(Result<Seq<u8>, ErrorView>),
}

impl View for OpStep {
    type V = OpStepView;

    open spec fn view(&self) -> OpStepView {
        match *self {
            OpStep::Ask(request) => OpStepView::Ask(request@),
            OpStep::Pause { milliseconds } => OpStepView::Pause { milliseconds },
            OpStep::StartTimer { milliseconds } => OpStepView::StartTimer { milliseconds },
            OpStep::CheckTimer => OpStepView::CheckTimer,
            OpStep::Done(result) => OpStepView::Done(outcome(result)),
        }
    }
}

/// What came of a step.
#[derive(Debug)]
pub enum OpReply {
    Usb(UsbReply),
    /// A pause is over, or a timer has started.
    Elapsed,
    Timer { running: bool },
}

/// The payload of a runtime command.
pub open spec fn command_bytes(command: u8, offset: u16, data: Seq<u8>) -> Seq<u8> {
    seq![command] + bytes16(offset) + seq![data.len() as u8] + data
}

/// The payload that asks for a read-back.
pub open spec fn read_back_bytes(command: u8, offset: u16, length: int) -> Seq<u8> {
    seq![command] + bytes16(offset) + seq![length as u8]
}

/// The control write that asks for a read-back.
pub open spec fn read_back_request(command: u8, offset: u16, length: int) -> RequestView {
    RequestView::ControlWrite {
        request_type: 0x40,
        request: 0xb1,
        value: 0,
        data: read_back_bytes(command, offset, length),
    }
}

/// The control read that fetches an answer.
pub open spec fn fetch_request(length: usize) -> RequestView {
    RequestView::ControlRead { request_type: 0xc0, request: 0xb2, value: 0, length }
}

/// Whether a status byte ends the wait.
pub open spec fn status_reached(status: u8, bits: u8, set: bool) -> bool {
    if set {
        status & bits == bits
    } else {
        status & bits == 0
    }
}

/// Why a wait for the status ended without it.
pub open spec fn status_message(bits: u8, set: bool, status: u8) -> Seq<char> {
    "status bit(s) "@ + hex_byte(bits) + (if set {
        "; final status "@
    } else {
        " to clear; final status "@
    }) + hex_byte(status)
}

/// Bytes that the answer of an operation has.
pub open spec fn answer_length(op: OpView) -> usize {
    match op {
        OpView::ReadBack { length, .. } => length,
        _ => 1,
    }
}

/// The first step of an operation.
pub open spec fn begun(op: OpView) -> (OpStage, OpStepView) {
    match op {
        OpView::Command { command, offset, data } => if data.len() > COMMAND_DATA_LIMIT {
            (
                OpStage::Finished,
                OpStepView::Done(
                    Err(
                        ErrorView::InvalidSettings(
                            "runtime control writes are limited to 60 data bytes"@,
                        ),
                    ),
                ),
            )
        } else {
            (
                OpStage::Writing,
                OpStepView::Ask(
                    RequestView::ControlWrite {
                        request_type: 0x40,
                        request: 0xb0,
                        value: 0,
                        data: command_bytes(command, offset, data),
                    },
                ),
            )
        },
        OpView::ReadBack { command, offset, length } => if length > 255 {
            (
                OpStage::Finished,
                OpStepView::Done(
                    Err(
                        ErrorView::InvalidSettings(
                            "runtime control read is limited to 255 bytes"@,
                        ),
                    ),
                ),
            )
        } else {
            (
                OpStage::Writing,
                OpStepView::Ask(read_back_request(command, offset, length as int)),
            )
        },
        OpView::AwaitStatus { timeout_ms, .. } => (
            OpStage::Starting,
            OpStepView::StartTimer { milliseconds: timeout_ms },
        ),
        OpView::Upload { data, exact } => if data.len() == 0 && !exact {
            (OpStage::Finished, OpStepView::Done(Ok(Seq::empty())))
        } else {
            (
                OpStage::Uploading { sent: 0 },
                OpStepView::Ask(RequestView::BulkWrite { data }),
            )
        },
        OpView::FirmwareWrite { address, data } => (
            OpStage::Writing,
            OpStepView::Ask(
                RequestView::ControlWrite {
                    request_type: 0x40,
                    request: 0xa0,
                    value: address,
                    data,
                },
            ),
        ),
        OpView::Pause { milliseconds } => (OpStage::Waiting, OpStepView::Pause { milliseconds }),
    }
}

/// Bytes that a control write has to move.
pub open spec fn written_length(op: OpView) -> int {
    match op {
        OpView::Command { data, .. } => 4 + data.len() as int,
        OpView::FirmwareWrite { data, .. } => data.len() as int,
        _ => 4,
    }
}

/// Whether a reply answers the step of a stage.
pub open spec fn awaited(op: OpView, stage: OpStage, reply: OpReply) -> bool {
    match stage {
        OpStage::Starting | OpStage::Settling | OpStage::Waiting => reply is Elapsed,
        OpStage::Timing { .. } => op is AwaitStatus && reply is Timer,
        OpStage::Writing => reply matches OpReply::Usb(UsbReply::Written(_)),
        OpStage::Reading => (op is ReadBack || op is AwaitStatus) && match reply {
            OpReply::Usb(UsbReply::Read(Ok((buffer, _)))) => buffer@.len() == answer_length(op),
            OpReply::Usb(UsbReply::Read(Err(_))) => true,
            _ => false,
        },
        OpStage::Uploading { sent } => match (op, reply) {
            (OpView::Upload { data, exact }, OpReply::Usb(UsbReply::Written(Ok(moved)))) => sent
                <= data.len() && (exact || sent + moved <= data.len()),
            (OpView::Upload { .. }, OpReply::Usb(UsbReply::Written(Err(_)))) => true,
            _ => false,
        },
        OpStage::Finished => false,
    }
}

/// An operation that ends.
pub open spec fn ended(result: Result<Seq<u8>, ErrorView>) -> (OpStage, OpStepView) {
    (OpStage::Finished, OpStepView::Done(result))
}

/// What follows a control write.
pub open spec fn after_write(op: OpView, result: Result<usize, super::usb::UsbError>) -> (OpStage, OpStepView) {
    match result {
        Err(error) => ended(Err(usb_failure(error, "USB control write"@))),
        Ok(moved) => if moved != written_length(op) {
            ended(
                Err(
                    ErrorView::Protocol(
                        short_message("control write"@, moved as int, written_length(op)),
                    ),
                ),
            )
        } else if op is ReadBack || op is AwaitStatus {
            (OpStage::Settling, OpStepView::Pause { milliseconds: READ_BACK_PAUSE_MS })
        } else {
            ended(Ok(Seq::empty()))
        },
    }
}

/// What follows a control read.
pub open spec fn after_read(
    op: OpView,
    result: Result<(Seq<u8>, usize), super::usb::UsbError>,
) -> (OpStage, OpStepView) {
    match result {
        Err(error) => ended(Err(usb_failure(error, "USB control read"@))),
        Ok((data, moved)) => if moved != answer_length(op) {
            ended(
                Err(
                    ErrorView::Protocol(
                        short_message("control read"@, moved as int, answer_length(op) as int),
                    ),
                ),
            )
        } else {
            match op {
                OpView::AwaitStatus { bits, set, .. } => if status_reached(data[0], bits, set) {
                    ended(Ok(data))
                } else {
                    (OpStage::Timing { status: data[0] }, OpStepView::CheckTimer)
                },
                _ => ended(Ok(data)),
            }
        },
    }
}

/// What follows a bulk write.
pub open spec fn after_upload(
    data: Seq<u8>,
    exact: bool,
    sent: int,
    result: Result<usize, super::usb::UsbError>,
) -> (OpStage, OpStepView) {
    match result {
        Err(error) => ended(
            Err(
                usb_failure(
                    error,
                    if exact {
                        "FPGA bulk write"@
                    } else {
                        "USB bulk write"@
                    },
                ),
            ),
        ),
        Ok(moved) => if exact {
            if moved != data.len() {
                ended(
                    Err(
                        ErrorView::Protocol(
                            short_message("FPGA bulk write"@, moved as int, data.len() as int),
                        ),
                    ),
                )
            } else {
                ended(Ok(Seq::empty()))
            }
        } else if moved == 0 {
            ended(Err(ErrorView::Protocol("zero-length bulk write"@)))
        } else if sent + moved == data.len() {
            ended(Ok(Seq::empty()))
        } else {
            (
                OpStage::Uploading { sent: (sent + moved) as usize },
                OpStepView::Ask(RequestView::BulkWrite { data: data.skip(sent + moved) }),
            )
        },
    }
}

/// What follows a reply.
pub open spec fn resumed(op: OpView, stage: OpStage, reply: OpReply) -> (OpStage, OpStepView) {
    match (stage, reply) {
        (OpStage::Starting, _) => (OpStage::Timing { status: 0 }, OpStepView::CheckTimer),
        (OpStage::Timing { status }, OpReply::Timer { running }) => if running {
            (OpStage::Writing, OpStepView::Ask(read_back_request(2, 0, 1)))
        } else {
            ended(Err(ErrorView::Timeout(status_message(op->bits, op->set, status))))
        },
        (OpStage::Writing, OpReply::Usb(UsbReply::Written(result))) => after_write(op, result),
        (OpStage::Settling, _) => (
            OpStage::Reading,
            OpStepView::Ask(fetch_request(answer_length(op))),
        ),
        (OpStage::Reading, OpReply::Usb(UsbReply::Read(result))) => after_read(
            op,
            match result {
                Ok((buffer, moved)) => Ok((buffer@, moved)),
                Err(error) => Err(error),
            },
        ),
        (OpStage::Uploading { sent }, OpReply::Usb(UsbReply::Written(result))) => after_upload(
            op->Upload_data,
            op->exact,
            sent as int,
            result,
        ),
        _ => ended(Ok(Seq::empty())),
    }
}

fn read_back(command: u8, offset: u16, length: usize) -> (result: UsbRequest)
    requires
        length <= 255,
    ensures
        result@ == read_back_request(command, offset, length as int),
{
    let mut data: Vec<u8> = Vec::new();
    data.push(command);
    data.push((offset % 256) as u8);
    data.push((offset / 256) as u8);
    data.push(length as u8);
    assert(data@ =~= read_back_bytes(command, offset, length as int));
    UsbRequest::ControlWrite { request_type: 0x40, request: 0xb1, value: 0, data }
}

/// Copies bytes from `from` on.
pub fn copy_from(data: &Vec<u8>, from: usize) -> (result: Vec<u8>)
    requires
        from <= data@.len(),
    ensures
        result@ == data@.skip(from as int),
{
    let mut result: Vec<u8> = Vec::new();
    let mut index: usize = from;
    assert(data@.subrange(from as int, from as int) =~= Seq::<u8>::empty());
    while index < data.len()
        invariant
            from <= index <= data@.len(),
            result@ == data@.subrange(from as int, index as int),
        decreases data@.len() - index,
    {
        result.push(data[index]);
        proof {
            assert(data@.subrange(from as int, index as int).push(data@[index as int])
                =~= data@.subrange(from as int, index + 1));
        }
        index += 1;
    }
    assert(data@.subrange(from as int, index as int) =~= data@.skip(from as int));
    result
}

fn status_timeout(bits: u8, set: bool, status: u8) -> (result: LogicAnalyzerError)
    ensures
        result@ == ErrorView::Timeout(status_message(bits, set, status)),
{
    let mut message: Vec<char> = to_chars("status bit(s) ");
    append_chars(&mut message, hex_byte_chars(bits).as_slice());
    if set {
        append_chars(&mut message, to_chars("; final status ").as_slice());
    } else {
        append_chars(&mut message, to_chars(" to clear; final status ").as_slice());
    }
    append_chars(&mut message, hex_byte_chars(status).as_slice());
    LogicAnalyzerError::Timeout(from_chars(message.as_slice()))
}

/// An operation under way.
#[derive(Debug)]
pub struct OpRun {
    pub op: DeviceOp,
    pub stage: OpStage,
}

impl OpRun {
    /// Begins an operation.
    pub fn begin(op: DeviceOp) -> (result: (OpRun, OpStep))
        ensures
            result.0.op == op,
            (result.0.stage, result.1@) == begun(op@),
    {
        let mut stage: OpStage = OpStage::Writing;
        let step: OpStep = match &op {
            DeviceOp::Command { command, offset, data } => {
                if data.len() > COMMAND_DATA_LIMIT {
                    stage = OpStage::Finished;
                    OpStep::Done(
                        Err(invalid_settings("runtime control writes are limited to 60 data bytes")),
                    )
                } else {
                    let mut payload: Vec<u8> = Vec::new();
                    payload.push(*command);
                    payload.push((*offset % 256) as u8);
                    payload.push((*offset / 256) as u8);
                    payload.push(data.len() as u8);
                    payload.extend_from_slice(data.as_slice());
                    assert(payload@ =~= command_bytes(*command, *offset, data@));
                    OpStep::Ask(
                        UsbRequest::ControlWrite {
                            request_type: 0x40,
                            request: 0xb0,
                            value: 0,
                            data: payload,
                        },
                    )
                }
            },
            DeviceOp::ReadBack { command, offset, length } => {
                if *length > 255 {
                    stage = OpStage::Finished;
                    OpStep::Done(
                        Err(invalid_settings("runtime control read is limited to 255 bytes")),
                    )
                } else {
                    OpStep::Ask(read_back(*command, *offset, *length))
                }
            },
            DeviceOp::AwaitStatus { timeout_ms, .. } => {
                stage = OpStage::Starting;
                OpStep::StartTimer { milliseconds: *timeout_ms }
            },
            DeviceOp::Upload { data, exact } => {
                if data.len() == 0 && !*exact {
                    stage = OpStage::Finished;
                    let none: Vec<u8> = Vec::new();
                    assert(none@ =~= Seq::<u8>::empty());
                    OpStep::Done(Ok(none))
                } else {
                    stage = OpStage::Uploading { sent: 0 };
                    assert(data@.skip(0) =~= data@);
                    OpStep::Ask(UsbRequest::BulkWrite { data: copy_from(data, 0) })
                }
            },
            DeviceOp::FirmwareWrite { address, data } => {
                assert(data@.skip(0) =~= data@);
                OpStep::Ask(
                    UsbRequest::ControlWrite {
                        request_type: 0x40,
                        request: 0xa0,
                        value: *address,
                        data: copy_from(data, 0),
                    },
                )
            },
            DeviceOp::Pause { milliseconds } => {
                stage = OpStage::Waiting;
                OpStep::Pause { milliseconds: *milliseconds }
            },
        };
        (OpRun { op, stage }, step)
    }

    fn finished(&mut self, result: Result<Vec<u8>, LogicAnalyzerError>) -> (step: OpStep)
        ensures
            final(self).op == old(self).op,
            (final(self).stage, step@) == ended(outcome(result)),
    {
        self.stage = OpStage::Finished;
        OpStep::Done(result)
    }

    fn written(&mut self, result: Result<usize, super::usb::UsbError>) -> (step: OpStep)
        requires
            written_length(old(self).op@) <= usize::MAX,
        ensures
            final(self).op == old(self).op,
            (final(self).stage, step@) == after_write(old(self).op@, result),
    {
        let moved: usize = match result {
            Ok(moved) => moved,
            Err(error) => return self.finished(Err(usb_error(error, "USB control write"))),
        };
        let (expected, answered): (usize, bool) = match &self.op {
            DeviceOp::Command { data, .. } => (4 + data.len(), false),
            DeviceOp::FirmwareWrite { data, .. } => (data.len(), false),
            DeviceOp::ReadBack { .. } => (4, true),
            DeviceOp::AwaitStatus { .. } => (4, true),
            _ => (4, false),
        };
        if moved != expected {
            return self.finished(Err(short_transfer("control write", moved, expected)));
        }
        if answered {
            self.stage = OpStage::Settling;
            OpStep::Pause { milliseconds: READ_BACK_PAUSE_MS }
        } else {
            let none: Vec<u8> = Vec::new();
            assert(none@ =~= Seq::<u8>::empty());
            self.finished(Ok(none))
        }
    }

    fn read(&mut self, result: Result<(Vec<u8>, usize), super::usb::UsbError>) -> (step: OpStep)
        requires
            old(self).op@ is ReadBack || old(self).op@ is AwaitStatus,
            result matches Ok((buffer, _)) ==> buffer@.len() == answer_length(old(self).op@),
        ensures
            final(self).op == old(self).op,
            (final(self).stage, step@) == after_read(
                old(self).op@,
                match result {
                    Ok((buffer, moved)) => Ok((buffer@, moved)),
                    Err(error) => Err(error),
                },
            ),
    {
        let (data, moved): (Vec<u8>, usize) = match result {
            Ok(read) => read,
            Err(error) => return self.finished(Err(usb_error(error, "USB control read"))),
        };
        match &self.op {
            DeviceOp::AwaitStatus { bits, set, .. } => {
                if moved != 1 {
                    return self.finished(Err(short_transfer("control read", moved, 1)));
                }
                let status: u8 = data[0];
                let reached: bool = if *set {
                    status & *bits == *bits
                } else {
                    status & *bits == 0
                };
                if reached {
                    self.finished(Ok(data))
                } else {
                    self.stage = OpStage::Timing { status };
                    OpStep::CheckTimer
                }
            },
            DeviceOp::ReadBack { length, .. } => {
                let expected: usize = *length;
                if moved != expected {
                    return self.finished(Err(short_transfer("control read", moved, expected)));
                }
                self.finished(Ok(data))
            },
            _ => self.finished(Ok(data)),
        }
    }

    fn uploaded(&mut self, sent: usize, result: Result<usize, super::usb::UsbError>) -> (step:
        OpStep)
        requires
            old(self).op@ is Upload,
            result matches Ok(moved) ==> sent <= old(self).op@->Upload_data.len() && (
            old(self).op@->exact || sent + moved <= old(self).op@->Upload_data.len()),
        ensures
            final(self).op == old(self).op,
            (final(self).stage, step@) == after_upload(
                old(self).op@->Upload_data,
                old(self).op@->exact,
                sent as int,
                result,
            ),
    {
        let none: Vec<u8> = Vec::new();
        assert(none@ =~= Seq::<u8>::empty());
        match &self.op {
            DeviceOp::Upload { data, exact } => {
                let total: usize = data.len();
                let moved: usize = match result {
                    Ok(moved) => moved,
                    Err(error) => {
                        let failure: LogicAnalyzerError = if *exact {
                            usb_error(error, "FPGA bulk write")
                        } else {
                            usb_error(error, "USB bulk write")
                        };
                        return self.finished(Err(failure));
                    },
                };
                if *exact {
                    if moved != total {
                        return self.finished(Err(short_transfer("FPGA bulk write", moved, total)));
                    }
                    self.finished(Ok(none))
                } else if moved == 0 {
                    self.finished(Err(protocol("zero-length bulk write")))
                } else if sent + moved == total {
                    self.finished(Ok(none))
                } else {
                    let rest: Vec<u8> = copy_from(data, sent + moved);
                    self.stage = OpStage::Uploading { sent: sent + moved };
                    OpStep::Ask(UsbRequest::BulkWrite { data: rest })
                }
            },
            _ => self.finished(Ok(none)),
        }
    }

    /// Takes what came of the last step and tells the next.
    pub fn resume(&mut self, reply: OpReply) -> (step: OpStep)
        requires
            awaited(old(self).op@, old(self).stage, reply),
            written_length(old(self).op@) <= usize::MAX,
        ensures
            final(self).op == old(self).op,
            (final(self).stage, step@) == resumed(old(self).op@, old(self).stage, reply),
    {
        match self.stage {
            OpStage::Starting => {
                self.stage = OpStage::Timing { status: 0 };
                OpStep::CheckTimer
            },
            OpStage::Timing { status } => match reply {
                OpReply::Timer { running } => if running {
                    self.stage = OpStage::Writing;
                    OpStep::Ask(read_back(2, 0, 1))
                } else {
                    let failure: LogicAnalyzerError = match &self.op {
                        DeviceOp::AwaitStatus { bits, set, .. } => status_timeout(
                            *bits,
                            *set,
                            status,
                        ),
                        _ => status_timeout(0, true, status),
                    };
                    self.finished(Err(failure))
                },
                _ => self.finished(Ok(Vec::new())),
            },
            OpStage::Writing => match reply {
                OpReply::Usb(UsbReply::Written(result)) => self.written(result),
                _ => self.finished(Ok(Vec::new())),
            },
            OpStage::Settling => {
                let length: usize = match &self.op {
                    DeviceOp::ReadBack { length, .. } => *length,
                    _ => 1,
                };
                self.stage = OpStage::Reading;
                OpStep::Ask(
                    UsbRequest::ControlRead { request_type: 0xc0, request: 0xb2, value: 0, length },
                )
            },
            OpStage::Reading => match reply {
                OpReply::Usb(UsbReply::Read(result)) => self.read(result),
                _ => self.finished(Ok(Vec::new())),
            },
            OpStage::Uploading { sent } => match reply {
                OpReply::Usb(UsbReply::Written(result)) => self.uploaded(sent, result),
                _ => self.finished(Ok(Vec::new())),
            },
            OpStage::Waiting | OpStage::Finished => {
                let none: Vec<u8> = Vec::new();
                assert(none@ =~= Seq::<u8>::empty());
                self.finished(Ok(none))
            },
        }
    }
}

} // verus!

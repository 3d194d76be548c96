//! The transfers that the protocol asks of a USB transport.

use vstd::prelude::*;

use super::plan::LinkSpeed;
use crate::bits::zero_bytes;
use crate::logic_analyzer::error::{timeout, transport, ErrorView, LogicAnalyzerError};

verus! {

/// Endpoint that takes data.
pub const BULK_OUT: u8 = 0x02;

/// Endpoint that delivers data.
pub const BULK_IN: u8 = 0x86;

/// Time limit of a control transfer.
pub const CONTROL_TIMEOUT_MS: u64 = 3_000;

/// Time limit of a bulk transfer.
pub const BULK_TIMEOUT_MS: u64 = 1_000;

/// Failure reported by a [`UsbTransport`] operation.
#[derive(Debug, Clone, Copy, PartialEq, Eq, Structural)]
pub enum UsbError {
    /// The operation did not complete before its deadline.
    Timeout,
    /// The transport failed for a reason other than a timeout.
    Other,
}

/// The capture error for a failed transfer.
pub open spec fn usb_failure(error: UsbError, action: Seq<char>) -> ErrorView {
    match error {
        UsbError::Timeout => ErrorView::Timeout(action),
        UsbError::Other => ErrorView::Transport(action),
    }
}

/// The capture error for a failed transfer.
pub fn usb_error(error: UsbError, action: &str) -> (result: LogicAnalyzerError)
    ensures
        result@ == usb_failure(error, action@),
{
    match error {
        UsbError::Timeout => timeout(action),
        UsbError::Other => transport(action),
    }
}

/// Names the action of a failed transfer.
pub fn usb<T>(result: Result<T, UsbError>, action: &str) -> (named: Result<T, LogicAnalyzerError>)
    ensures
        match (result, named) {
            (Ok(value), Ok(kept)) => kept == value,
            (Err(error), Err(failure)) => failure@ == usb_failure(error, action@),
            _ => false,
        },
{
    match result {
        Ok(value) => Ok(value),
        Err(error) => Err(usb_error(error, action)),
    }
}

/// One synchronous transfer: what was handed to the transport and what it gave back.
pub enum Transfer {
    ControlWrite {
        request_type: u8,
        request: u8,
        value: u16,
        index: u16,
        data: Seq<u8>,
        timeout_ms: u64,
        result: Result<usize, UsbError>,
    },
    ControlRead {
        request_type: u8,
        request: u8,
        value: u16,
        index: u16,
        length: nat,
        timeout_ms: u64,
        data: Seq<u8>,
        result: Result<usize, UsbError>,
    },
    BulkWrite { endpoint: u8, data: Seq<u8>, timeout_ms: u64, result: Result<usize, UsbError> },
    BulkRead {
        endpoint: u8,
        length: nat,
        timeout_ms: u64,
        data: Seq<u8>,
        result: Result<usize, UsbError>,
    },
}

/// USB operations required by the protocol.
///
/// Implementations must preserve call order. The queued-read methods may use an asynchronous
/// backend; transports without that capability can retain the default synchronous fallback. Time
/// limits are in milliseconds.
pub trait UsbTransport: Send + 'static {
    /// Whether the transport tells its history. It serves reasoning alone: an implementation that
    /// is not itself verified leaves both out, and nothing is claimed of its transfers.
    open spec fn tells_history(&self) -> bool {
        false
    }

    /// The synchronous transfers so far.
    open spec fn history(&self) -> Seq<Transfer> {
        Seq::empty()
    }

    /// Returns the negotiated USB link speed.
    fn link_speed(&self) -> LinkSpeed;

    /// Performs one USB control write and tells how many bytes it moved.
    fn control_write(
        &mut self,
        request_type: u8,
        request: u8,
        value: u16,
        index: u16,
        data: &[u8],
        timeout_ms: u64,
    ) -> (result: Result<usize, UsbError>)
        ensures
            old(self).tells_history() ==> final(self).tells_history() && final(self).history() == old(self).history().push(
                Transfer::ControlWrite {
                    request_type,
                    request,
                    value,
                    index,
                    data: data@,
                    timeout_ms,
                    result,
                },
            ),
    ;

    /// Performs one USB control read and tells how many bytes it moved.
    fn control_read(
        &mut self,
        request_type: u8,
        request: u8,
        value: u16,
        index: u16,
        data: &mut [u8],
        timeout_ms: u64,
    ) -> (result: Result<usize, UsbError>)
        ensures
            old(self).tells_history() ==> final(self).tells_history() && final(self).history() == old(self).history().push(
                Transfer::ControlRead {
                    request_type,
                    request,
                    value,
                    index,
                    length: old(data)@.len(),
                    timeout_ms,
                    data: final(data)@,
                    result,
                },
            ),
    ;

    /// Writes one bulk transfer.
    fn bulk_write(&mut self, endpoint: u8, data: &[u8], timeout_ms: u64) -> (result: Result<
        usize,
        UsbError,
    >)
        ensures
            old(self).tells_history() ==> final(self).tells_history() && final(self).history() == old(self).history().push(
                Transfer::BulkWrite { endpoint, data: data@, timeout_ms, result },
            ),
    ;

    /// Reads one bulk transfer.
    fn bulk_read(&mut self, endpoint: u8, data: &mut [u8], timeout_ms: u64) -> (result: Result<
        usize,
        UsbError,
    >)
        ensures
            old(self).tells_history() ==> final(self).tells_history() && final(self).history() == old(self).history().push(
                Transfer::BulkRead {
                    endpoint,
                    length: old(data)@.len(),
                    timeout_ms,
                    data: final(data)@,
                    result,
                },
            ),
    ;

    /// Queues one bulk receive before a device command that produces its response.
    /// Implementations without asynchronous USB support return `Ok(false)` and callers fall back
    /// to a synchronous receive.
    fn queue_bulk_read(&mut self, _endpoint: u8, _byte_len: usize, _timeout_ms: u64) -> (result:
        Result<bool, UsbError>)
        default_ensures
            result == Ok::<bool, UsbError>(false),
            final(self).history() == old(self).history(),
    {
        Ok(false)
    }

    /// Takes the queued receive, waiting up to the time limit for completion. `Ok(None)` means no
    /// receive was queued.
    fn take_queued_bulk_read(&mut self, _byte_len: usize, _timeout_ms: u64) -> (result: Result<
        Option<Vec<u8>>,
        UsbError,
    >)
        default_ensures
            result == Ok::<Option<Vec<u8>>, UsbError>(None),
            final(self).history() == old(self).history(),
    {
        Ok(None)
    }

    /// Cancels an outstanding queued bulk read, if present.
    fn cancel_queued_bulk_read(&mut self) -> (result: Result<(), UsbError>)
        default_ensures
            result == Ok::<(), UsbError>(()),
            final(self).history() == old(self).history(),
    {
        Ok(())
    }

    /// Releases transport resources. Implementations must allow repeated calls.
    fn close(&mut self) -> (result: Result<(), UsbError>)
        default_ensures
            result == Ok::<(), UsbError>(()),
            final(self).history() == old(self).history(),
    {
        Ok(())
    }
}

/// One transfer that the protocol asks for.
#[derive(Debug, PartialEq, Eq)]
pub enum UsbRequest {
    ControlWrite { request_type: u8, request: u8, value: u16, data: Vec<u8> },
    ControlRead { request_type: u8, request: u8, value: u16, length: usize },
    BulkWrite { data: Vec<u8> },
    BulkRead { length: usize, timeout_ms: u64 },
    QueueBulkRead { length: usize },
    TakeQueuedBulkRead { length: usize, timeout_ms: u64 },
    CancelQueuedBulkRead,
}

/// What came of a transfer.
#[derive(Debug, PartialEq, Eq)]
pub enum UsbReply {
    /// Bytes that a write moved.
    Written(Result<usize, UsbError>),
    /// The buffer of a read and the bytes that it moved.
    Read(Result<(Vec<u8>, usize), UsbError>),
    Queued(Result<bool, UsbError>),
    Taken(Result<Option<Vec<u8>>, UsbError>),
    Cancelled(Result<(), UsbError>),
}

/// A transfer seen through its bytes.
pub enum RequestView {
    ControlWrite { request_type: u8, request: u8, value: u16, data: Seq<u8> },
    ControlRead { request_type: u8, request: u8, value: u16, length: usize },
    BulkWrite { data: Seq<u8> },
    BulkRead { length: usize, timeout_ms: u64 },
    QueueBulkRead { length: usize },
    TakeQueuedBulkRead { length: usize, timeout_ms: u64 },
    CancelQueuedBulkRead,
}

impl View for UsbRequest {
    type V = RequestView;

    open spec fn view(&self) -> RequestView {
        match *self {
            UsbRequest::ControlWrite { request_type, request, value, data } => {
                RequestView::ControlWrite { request_type, request, value, data: data@ }
            },
            UsbRequest::ControlRead { request_type, request, value, length } => {
                RequestView::ControlRead { request_type, request, value, length }
            },
            UsbRequest::BulkWrite { data } => RequestView::BulkWrite { data: data@ },
            UsbRequest::BulkRead { length, timeout_ms } => RequestView::BulkRead {
                length,
                timeout_ms,
            },
            UsbRequest::QueueBulkRead { length } => RequestView::QueueBulkRead { length },
            UsbRequest::TakeQueuedBulkRead { length, timeout_ms } => {
                RequestView::TakeQueuedBulkRead { length, timeout_ms }
            },
            UsbRequest::CancelQueuedBulkRead => RequestView::CancelQueuedBulkRead,
        }
    }
}

/// Whether a reply answers a request of its kind.
pub open spec fn answers(request: RequestView, reply: UsbReply) -> bool {
    match request {
        RequestView::ControlWrite { .. } | RequestView::BulkWrite { .. } => reply is Written,
        RequestView::ControlRead { .. } | RequestView::BulkRead { .. } => reply is Read,
        RequestView::QueueBulkRead { .. } => reply is Queued,
        RequestView::TakeQueuedBulkRead { .. } => reply is Taken,
        RequestView::CancelQueuedBulkRead => reply is Cancelled,
    }
}

/// Whether a reply reports a synchronous transfer that carried out a request.
pub open spec fn carried_out(request: RequestView, reply: UsbReply, transfer: Transfer) -> bool {
    match (request, transfer) {
        (
            RequestView::ControlWrite { request_type, request, value, data },
            Transfer::ControlWrite {
                request_type: asked_type,
                request: asked,
                value: asked_value,
                index,
                data: handed,
                timeout_ms,
                result,
            },
        ) => {
            &&& asked_type == request_type && asked == request && asked_value == value
            &&& index == 0 && handed == data && timeout_ms == CONTROL_TIMEOUT_MS
            &&& reply == UsbReply::Written(result)
        },
        (
            RequestView::ControlRead { request_type, request, value, length },
            Transfer::ControlRead {
                request_type: asked_type,
                request: asked,
                value: asked_value,
                index,
                length: room,
                timeout_ms,
                data,
                result,
            },
        ) => {
            &&& asked_type == request_type && asked == request && asked_value == value
            &&& index == 0 && room == length && timeout_ms == CONTROL_TIMEOUT_MS
            &&& read_reply(reply, data, result)
        },
        (
            RequestView::BulkWrite { data },
            Transfer::BulkWrite { endpoint, data: handed, timeout_ms, result },
        ) => {
            &&& endpoint == BULK_OUT && handed == data && timeout_ms == BULK_TIMEOUT_MS
            &&& reply == UsbReply::Written(result)
        },
        (
            RequestView::BulkRead { length, timeout_ms },
            Transfer::BulkRead { endpoint, length: room, timeout_ms: allowed, data, result },
        ) => {
            &&& endpoint == BULK_IN && room == length && allowed == timeout_ms
            &&& read_reply(reply, data, result)
        },
        _ => false,
    }
}

/// A read reply that carries a buffer and a count, or the error.
pub open spec fn read_reply(reply: UsbReply, data: Seq<u8>, result: Result<usize, UsbError>) -> bool {
    match (reply, result) {
        (UsbReply::Read(Ok((buffer, count))), Ok(moved)) => buffer@ == data && count == moved,
        (UsbReply::Read(Err(error)), Err(failure)) => error == failure,
        _ => false,
    }
}

/// Whether a request is carried out while the caller waits, without a queue.
pub open spec fn synchronous(request: RequestView) -> bool {
    request is ControlWrite || request is ControlRead || request is BulkWrite || request is BulkRead
}

/// Performs one transfer on a transport. A synchronous one is handed to the transport exactly
/// once, with every detail of the request, and the reply is what came back.
pub fn perform<T: UsbTransport>(transport: &mut T, request: &UsbRequest) -> (reply: UsbReply)
    ensures
        answers(request@, reply),
        old(transport).tells_history() && synchronous(request@) ==> {
            &&& final(transport).tells_history()
            &&& final(transport).history().len() == old(transport).history().len() + 1
            &&& final(transport).history().drop_last() == old(transport).history()
            &&& carried_out(request@, reply, final(transport).history().last())
        },
{
    match request {
        UsbRequest::ControlWrite { request_type, request, value, data } => UsbReply::Written(
            transport.control_write(
                *request_type,
                *request,
                *value,
                0,
                data.as_slice(),
                CONTROL_TIMEOUT_MS,
            ),
        ),
        UsbRequest::ControlRead { request_type, request, value, length } => {
            let mut data: Vec<u8> = zero_bytes(*length);
            let moved: Result<usize, UsbError> = transport.control_read(
                *request_type,
                *request,
                *value,
                0,
                data.as_mut_slice(),
                CONTROL_TIMEOUT_MS,
            );
            UsbReply::Read(
                match moved {
                    Ok(count) => Ok((data, count)),
                    Err(error) => Err(error),
                },
            )
        },
        UsbRequest::BulkWrite { data } => UsbReply::Written(
            transport.bulk_write(BULK_OUT, data.as_slice(), BULK_TIMEOUT_MS),
        ),
        UsbRequest::BulkRead { length, timeout_ms } => {
            let mut data: Vec<u8> = zero_bytes(*length);
            let moved: Result<usize, UsbError> = transport.bulk_read(
                BULK_IN,
                data.as_mut_slice(),
                *timeout_ms,
            );
            UsbReply::Read(
                match moved {
                    Ok(count) => Ok((data, count)),
                    Err(error) => Err(error),
                },
            )
        },
        UsbRequest::QueueBulkRead { length } => UsbReply::Queued(
            transport.queue_bulk_read(BULK_IN, *length, BULK_TIMEOUT_MS),
        ),
        UsbRequest::TakeQueuedBulkRead { length, timeout_ms } => UsbReply::Taken(
            transport.take_queued_bulk_read(*length, *timeout_ms),
        ),
        UsbRequest::CancelQueuedBulkRead => UsbReply::Cancelled(
            transport.cancel_queued_bulk_read(),
        ),
    }
}

} // verus!

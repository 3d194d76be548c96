//! The trigger header that precedes the data of a capture.

use vstd::prelude::*;

use super::plan::DsLogicCapturePlan;
use crate::little_endian::{get32, word32};
use crate::logic_analyzer::config::CaptureMode;
use crate::logic_analyzer::error::{
    protocol, short_message, short_transfer, ErrorView, LogicAnalyzerError,
};
use crate::text::{append_chars, decimal, decimal_chars, from_chars, to_chars};

verus! {

/// Bytes of a header that carry information.
pub const HEADER_FIELDS_BYTES: usize = 24;

/// Marks a header.
pub const HEADER_MAGIC: u32 = 0x5555_5555;

/// Device header translated into the capture timeline used by the application.
#[derive(Clone, Copy, Debug, PartialEq, Eq, Structural)]
pub struct DsLogicTriggerHeader {
    pub trigger_sample: Option<u64>,
    pub captured_samples: u64,
    pub remaining_samples: u64,
    pub ram_start: u32,
}

impl DsLogicTriggerHeader {
    pub fn trigger_sample(self) -> (result: Option<u64>)
        ensures
            result == self.trigger_sample,
    {
        self.trigger_sample
    }

    pub fn captured_samples(self) -> (result: u64)
        ensures
            result == self.captured_samples,
    {
        self.captured_samples
    }

    pub fn remaining_samples(self) -> (result: u64)
        ensures
            result == self.remaining_samples,
    {
        self.remaining_samples
    }

    pub fn ram_start(self) -> (result: u32)
        ensures
            result == self.ram_start,
    {
        self.ram_start
    }
}

/// Samples that the device has not captured, as the header tells it.
pub open spec fn header_remaining(bytes: Seq<u8>) -> int {
    word32(bytes, 12) + 0x1_0000_0000 * word32(bytes, 16)
}

/// Samples that the device delivers.
pub open spec fn header_captured(bytes: Seq<u8>, mode: CaptureMode, plan: DsLogicCapturePlan) -> int {
    if mode == CaptureMode::Finite {
        (plan.actual_samples - header_remaining(bytes)) / 1024 * 1024
    } else {
        plan.actual_samples as int
    }
}

/// Why a trigger position is refused.
pub open spec fn outside_message(position: int, captured: int) -> Seq<char> {
    "trigger sample "@ + decimal(position as nat) + " is outside captured extent "@ + decimal(
        captured as nat,
    )
}

/// What a header says, or why it is refused.
pub open spec fn translated(bytes: Seq<u8>, mode: CaptureMode, plan: DsLogicCapturePlan) -> Result<
    DsLogicTriggerHeader,
    ErrorView,
> {
    let position = word32(bytes, 4);
    let captured = header_captured(bytes, mode, plan);
    let triggered = word32(bytes, 20) % 2 == 1;
    if bytes.len() < HEADER_FIELDS_BYTES {
        Err(
            ErrorView::Protocol(
                short_message("trigger header"@, bytes.len() as int, HEADER_FIELDS_BYTES as int),
            ),
        )
    } else if word32(bytes, 0) != HEADER_MAGIC {
        Err(ErrorView::Protocol("invalid trigger-header magic"@))
    } else if mode == CaptureMode::Finite && header_remaining(bytes) >= plan.actual_samples {
        Err(ErrorView::Protocol("trigger header remaining count is outside capture limit"@))
    } else if triggered && position >= captured {
        Err(ErrorView::Protocol(outside_message(position, captured)))
    } else {
        Ok(
            DsLogicTriggerHeader {
                trigger_sample: if triggered {
                    Some(position as u64)
                } else {
                    None
                },
                captured_samples: captured as u64,
                remaining_samples: header_remaining(bytes) as u64,
                ram_start: word32(bytes, 8) as u32,
            },
        )
    }
}

/// Translates a trigger header.
pub fn translate_trigger_header(bytes: &[u8], mode: CaptureMode, plan: DsLogicCapturePlan) -> (result:
    Result<DsLogicTriggerHeader, LogicAnalyzerError>)
    ensures
        match result {
            Ok(header) => translated(bytes@, mode, plan) == Ok::<_, ErrorView>(header),
            Err(error) => translated(bytes@, mode, plan) == Err::<DsLogicTriggerHeader, _>(error@),
        },
{
    if bytes.len() < HEADER_FIELDS_BYTES {
        return Err(short_transfer("trigger header", bytes.len(), HEADER_FIELDS_BYTES));
    }
    if get32(bytes, 0) != HEADER_MAGIC {
        return Err(protocol("invalid trigger-header magic"));
    }
    let real_position: u64 = get32(bytes, 4) as u64;
    let ram_start: u32 = get32(bytes, 8);
    let remaining_samples: u64 = get32(bytes, 12) as u64 + 0x1_0000_0000 * get32(bytes, 16) as u64;
    let status: u32 = get32(bytes, 20);
    let captured_samples: u64 = if mode == CaptureMode::Finite {
        if remaining_samples >= plan.actual_samples {
            return Err(protocol("trigger header remaining count is outside capture limit"));
        }
        (plan.actual_samples - remaining_samples) / 1024 * 1024
    } else {
        plan.actual_samples
    };
    let trigger_sample: Option<u64> = if status % 2 == 1 {
        if real_position >= captured_samples {
            let mut message: Vec<char> = to_chars("trigger sample ");
            append_chars(&mut message, decimal_chars(real_position).as_slice());
            append_chars(&mut message, to_chars(" is outside captured extent ").as_slice());
            append_chars(&mut message, decimal_chars(captured_samples).as_slice());
            return Err(LogicAnalyzerError::Protocol(from_chars(message.as_slice())));
        }
        Some(real_position)
    } else {
        None
    };
    Ok(DsLogicTriggerHeader { trigger_sample, captured_samples, remaining_samples, ram_start })
}

/// Bytes of the whole blocks that hold the captured samples.
pub open spec fn delivered(header: DsLogicTriggerHeader, plan: DsLogicCapturePlan) -> int {
    header.captured_samples as int / 64 * plan.channels * 8
}

/// What a finite capture delivers, or why its header cannot be right.
pub open spec fn delivery(header: DsLogicTriggerHeader, plan: DsLogicCapturePlan) -> Result<
    int,
    ErrorView,
> {
    if delivered(header, plan) > u64::MAX {
        Err(ErrorView::Protocol("capture byte count overflow"@))
    } else if delivered(header, plan) > plan.actual_bytes {
        Err(
            ErrorView::Protocol(
                "trigger header requests more data than the capture buffer"@,
            ),
        )
    } else {
        Ok(delivered(header, plan))
    }
}

/// Bytes that a finite capture delivers.
pub fn delivered_bytes(header: DsLogicTriggerHeader, plan: DsLogicCapturePlan) -> (result: Result<
    usize,
    LogicAnalyzerError,
>)
    ensures
        match result {
            Ok(bytes) => delivery(header, plan) == Ok::<int, ErrorView>(bytes as int),
            Err(error) => delivery(header, plan) == Err::<int, _>(error@),
        },
{
    let blocks: u64 = header.captured_samples / 64;
    let rows: u64 = match blocks.checked_mul(plan.channels as u64) {
        Some(rows) => rows,
        None => return Err(protocol("capture byte count overflow")),
    };
    let bytes: u64 = match rows.checked_mul(8) {
        Some(bytes) => bytes,
        None => return Err(protocol("capture byte count overflow")),
    };
    if bytes > plan.actual_bytes as u64 {
        return Err(protocol("trigger header requests more data than the capture buffer"));
    }
    Ok(bytes as usize)
}

/// An accepted header of a finite capture tells of whole kilosamples inside the plan, and a
/// trigger inside them.
pub proof fn law_header_stays_inside_the_plan(
    bytes: Seq<u8>,
    mode: CaptureMode,
    plan: DsLogicCapturePlan,
)
    requires
        translated(bytes, mode, plan) is Ok,
    ensures
        ({
            let header = translated(bytes, mode, plan)->Ok_0;
            &&& header.captured_samples <= plan.actual_samples
            &&& mode == CaptureMode::Finite ==> header.captured_samples % 1024 == 0
                && header.captured_samples + header.remaining_samples <= plan.actual_samples
            &&& header.trigger_sample matches Some(sample) ==> sample < header.captured_samples
        }),
{
}

} // verus!

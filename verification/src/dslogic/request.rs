//! Requests for live captures.

use vstd::prelude::*;

use crate::dslogic::plan::{
    configured, planned, u3pro16_buffered_plan, u3pro16_streaming_plan, DsLogicCapturePlan,
    LinkSpeed,
};
use crate::logic_analyzer::config::{
    count_inputs, enabled_inputs, CaptureMode, LogicCaptureConfig, LogicTrigger, TriggerView,
};
use crate::logic_analyzer::error::{error_sentence, ErrorView, LogicAnalyzerError};
use crate::synthetic_capture_source::live_acquisition::{AcquisitionError, AcquisitionErrorView};
use crate::text::{append_chars, from_chars, owned, to_chars};

verus! {

/// When the samples of a capture arrive.
#[derive(Debug, Clone, Copy, PartialEq, Eq, Structural)]
pub enum CaptureDataDelivery {
    /// After the device has recorded them.
    BufferedUpload,
    /// While the device records them.
    DuringAcquisition,
}

/// The plan that a request would get on a link, or why it gets none.
pub open spec fn link_plan(config: LogicCaptureConfig, speed: LinkSpeed) -> Result<
    DsLogicCapturePlan,
    ErrorView,
> {
    match configured(config) {
        Ok(settings) => planned(speed, settings),
        Err(error) => Err(error),
    }
}

/// How many samples a request captures, or why it is refused. A finite capture is as long as its
/// plan says. A streaming capture is refused only if no link can carry it.
pub open spec fn window_of(config: LogicCaptureConfig, channels: nat) -> Result<
    u64,
    AcquisitionErrorView,
> {
    if channels == 0 || channels != enabled_inputs(config.input_mask) {
        Err(
            AcquisitionErrorView::InvalidRequest(
                "U3Pro16 channel identities must match the enabled physical inputs"@,
            ),
        )
    } else {
        match config.mode {
            CaptureMode::Finite => match link_plan(config, LinkSpeed::Super) {
                Ok(plan) => Ok(plan.actual_samples),
                Err(error) => Err(AcquisitionErrorView::InvalidRequest(error_sentence(error))),
            },
            CaptureMode::Streaming => match (
                link_plan(config, LinkSpeed::High),
                link_plan(config, LinkSpeed::Super),
            ) {
                (Err(high), Err(super_speed)) => Err(
                    AcquisitionErrorView::InvalidRequest(
                        "U3Pro16 stream is unsupported on High Speed ("@ + error_sentence(high)
                            + ") and SuperSpeed ("@ + error_sentence(super_speed) + ")"@,
                    ),
                ),
                _ => Ok(config.sample_limit),
            },
        }
    }
}

/// A checked request for a live capture. `channels` names the enabled inputs.
#[derive(Debug, Clone)]
pub struct DsLogicU3Pro16Capture {
    pub config: LogicCaptureConfig,
    pub channels: Vec<String>,
    pub delivery: CaptureDataDelivery,
    pub capture_window_samples: u64,
}

fn unsupported_stream(high: &LogicAnalyzerError, super_speed: &LogicAnalyzerError) -> (result:
    AcquisitionError)
    ensures
        result@ == AcquisitionErrorView::InvalidRequest(
            "U3Pro16 stream is unsupported on High Speed ("@ + error_sentence(high@)
                + ") and SuperSpeed ("@ + error_sentence(super_speed@) + ")"@,
        ),
{
    let mut message: Vec<char> = to_chars("U3Pro16 stream is unsupported on High Speed (");
    append_chars(&mut message, to_chars(high.sentence().as_str()).as_slice());
    append_chars(&mut message, to_chars(") and SuperSpeed (").as_slice());
    append_chars(&mut message, to_chars(super_speed.sentence().as_str()).as_slice());
    append_chars(&mut message, to_chars(")").as_slice());
    AcquisitionError::InvalidRequest(from_chars(message.as_slice()))
}

impl DsLogicU3Pro16Capture {
    /// Checks a request without opening the device.
    pub fn new(config: LogicCaptureConfig, channels: Vec<String>) -> (result: Result<
        DsLogicU3Pro16Capture,
        AcquisitionError,
    >)
        ensures
            match (result, window_of(config, channels@.len())) {
                (Ok(capture), Ok(window)) => {
                    &&& capture.config == config
                    &&& capture.channels == channels
                    &&& capture.delivery == if config.mode == CaptureMode::Finite {
                        CaptureDataDelivery::BufferedUpload
                    } else {
                        CaptureDataDelivery::DuringAcquisition
                    }
                    &&& capture.capture_window_samples == window
                },
                (Err(error), Err(expected)) => error@ == expected,
                _ => false,
            },
    {
        let inputs: u8 = count_inputs(config.input_mask);
        if channels.len() == 0 || channels.len() != inputs as usize {
            return Err(
                AcquisitionError::InvalidRequest(
                    owned("U3Pro16 channel identities must match the enabled physical inputs"),
                ),
            );
        }
        let (delivery, capture_window_samples): (CaptureDataDelivery, u64) = match config.mode {
            CaptureMode::Finite => match u3pro16_buffered_plan(&config) {
                Ok(plan) => (CaptureDataDelivery::BufferedUpload, plan.actual_samples()),
                Err(error) => {
                    return Err(AcquisitionError::InvalidRequest(error.sentence()));
                },
            },
            CaptureMode::Streaming => {
                match u3pro16_streaming_plan(&config, LinkSpeed::High) {
                    Ok(_) => {},
                    Err(high) => match u3pro16_streaming_plan(&config, LinkSpeed::Super) {
                        Ok(_) => {},
                        Err(super_speed) => {
                            return Err(unsupported_stream(&high, &super_speed));
                        },
                    },
                }
                (CaptureDataDelivery::DuringAcquisition, config.sample_limit)
            },
        };
        Ok(DsLogicU3Pro16Capture { config, channels, delivery, capture_window_samples })
    }

    /// When the samples of this capture arrive.
    pub fn data_delivery(&self) -> (result: CaptureDataDelivery)
        ensures
            result == self.delivery,
    {
        self.delivery
    }

    /// How many samples are captured.
    pub fn capture_window_samples(&self) -> (result: u64)
        ensures
            result == self.capture_window_samples,
    {
        self.capture_window_samples
    }

    /// The same request without a trigger, for a capture that starts at once.
    pub fn without_trigger(self) -> (result: DsLogicU3Pro16Capture)
        ensures
            result.config.trigger@ == (TriggerView { stages: Seq::empty(), serial: false }),
            result == (DsLogicU3Pro16Capture {
                config: LogicCaptureConfig { trigger: result.config.trigger, ..self.config },
                ..self
            }),
    {
        let mut result = self;
        result.config.trigger = LogicTrigger::default();
        result
    }
}

} // verus!

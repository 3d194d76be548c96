//! Outputs that a decoder script registers, and what it may put there.

use vstd::prelude::*;

use crate::sigrokdecode::scheduler::{InitialPin, SchedulerError, WaitMatch, WaitScheduler};
use crate::text::{same_text};

verus! {

pub const OUTPUT_ANN: i32 = 0;

pub const OUTPUT_PYTHON: i32 = 1;

pub const OUTPUT_BINARY: i32 = 2;

pub const OUTPUT_LOGIC: i32 = 3;

pub const OUTPUT_META: i32 = 4;

pub const SRD_CONF_SAMPLERATE: i32 = 10_000;

/// The only version of the decoder interface that is supported.
pub const API_VERSION: i64 = 3;

/// Kind of a registered output.
#[derive(Clone, Copy, Debug, PartialEq, Eq, Structural)]
pub enum SigrokOutputKind {
    Annotation,
    Binary,
    GeneratedLogic,
    Metadata,
    ProtocolPacket,
}

/// Kind of output that a type number stands for.
pub open spec fn kind_of(output_type: i32) -> Option<SigrokOutputKind> {
    if output_type == OUTPUT_ANN {
        Some(SigrokOutputKind::Annotation)
    } else if output_type == OUTPUT_BINARY {
        Some(SigrokOutputKind::Binary)
    } else if output_type == OUTPUT_LOGIC {
        Some(SigrokOutputKind::GeneratedLogic)
    } else if output_type == OUTPUT_META {
        Some(SigrokOutputKind::Metadata)
    } else if output_type == OUTPUT_PYTHON {
        Some(SigrokOutputKind::ProtocolPacket)
    } else {
        None
    }
}

/// Reads a type number.
pub fn output_kind(output_type: i32) -> (result: Option<SigrokOutputKind>)
    ensures
        result == kind_of(output_type),
{
    if output_type == OUTPUT_ANN {
        Some(SigrokOutputKind::Annotation)
    } else if output_type == OUTPUT_BINARY {
        Some(SigrokOutputKind::Binary)
    } else if output_type == OUTPUT_LOGIC {
        Some(SigrokOutputKind::GeneratedLogic)
    } else if output_type == OUTPUT_META {
        Some(SigrokOutputKind::Metadata)
    } else if output_type == OUTPUT_PYTHON {
        Some(SigrokOutputKind::ProtocolPacket)
    } else {
        None
    }
}

/// Kind of number that a metadata output carries.
#[derive(Clone, Copy, Debug, PartialEq, Eq, Structural)]
pub enum MetadataType {
    Integer,
    Float,
}

/// Descriptor of a metadata output.
#[derive(Debug, Clone, PartialEq, Eq)]
pub struct MetadataRegistration {
    pub value_type: MetadataType,
    pub name: String,
    pub description: String,
}

/// A registered output.
#[derive(Debug, Clone, PartialEq, Eq)]
pub struct OutputRegistration {
    pub output_type: i32,
    pub protocol_id: Option<String>,
    pub metadata: Option<MetadataRegistration>,
}

/// What an [`OutputRegistration`] says.
pub struct RegistrationView {
    pub output_type: i32,
    pub protocol_id: Option<Seq<char>>,
    pub metadata: Option<(MetadataType, Seq<char>, Seq<char>)>,
}

impl View for OutputRegistration {
    type V = RegistrationView;

    open spec fn view(&self) -> RegistrationView {
        RegistrationView {
            output_type: self.output_type,
            protocol_id: match self.protocol_id {
                Some(id) => Some(id@),
                None => None,
            },
            metadata: match self.metadata {
                Some(metadata) => Some(
                    (metadata.value_type, metadata.name@, metadata.description@),
                ),
                None => None,
            },
        }
    }
}

impl OutputRegistration {
    /// Tells whether two registrations say the same.
    pub fn same(&self, other: &OutputRegistration) -> (result: bool)
        ensures
            result == (self@ == other@),
    {
        if self.output_type != other.output_type {
            return false;
        }
        let same_protocol: bool = match (&self.protocol_id, &other.protocol_id) {
            (Some(left), Some(right)) => same_text(left.as_str(), right.as_str()),
            (None, None) => true,
            _ => false,
        };
        let same_metadata: bool = match (&self.metadata, &other.metadata) {
            (Some(left), Some(right)) => left.value_type == right.value_type && same_text(
                left.name.as_str(),
                right.name.as_str(),
            ) && same_text(left.description.as_str(), right.description.as_str()),
            (None, None) => true,
            _ => false,
        };
        same_protocol && same_metadata
    }
}

/// Why a registration is refused.
#[derive(Clone, Copy, Debug, PartialEq, Eq, Structural)]
pub enum RegistrationError {
    /// The type number stands for no kind of output.
    UnsupportedType(i32),
    /// Only a metadata output has a metadata descriptor.
    MetadataNotAllowed,
}

/// Checks what a script asks to register.
pub fn check_registration(output_type: i32, has_metadata: bool) -> (result: Result<
    (),
    RegistrationError,
>)
    ensures
        result == if kind_of(output_type) is None {
            Err(RegistrationError::UnsupportedType(output_type))
        } else if output_type != OUTPUT_META && has_metadata {
            Err(RegistrationError::MetadataNotAllowed)
        } else {
            Ok(())
        },
{
    if output_type < OUTPUT_ANN || output_type > OUTPUT_META {
        return Err(RegistrationError::UnsupportedType(output_type));
    }
    if output_type != OUTPUT_META && has_metadata {
        return Err(RegistrationError::MetadataNotAllowed);
    }
    Ok(())
}

/// Tells whether a script speaks the supported version of the interface.
pub fn supports_api(api_version: i64) -> (result: bool)
    ensures
        result == (api_version == API_VERSION),
{
    api_version == API_VERSION
}

/// Why an output is refused.
#[derive(Clone, Copy, Debug, PartialEq, Eq, Structural)]
pub enum PutError {
    /// It ends before it starts.
    ReversedOutputRange,
    /// Its number is not registered.
    UnknownOutput(usize),
}

/// First registration at or after `from` that says the same.
pub open spec fn first_same(
    registrations: Seq<OutputRegistration>,
    registration: RegistrationView,
    from: int,
) -> Option<int>
    decreases registrations.len() - from,
{
    if from < 0 || from >= registrations.len() {
        None
    } else if registrations[from]@ == registration {
        Some(from)
    } else {
        first_same(registrations, registration, from + 1)
    }
}

/// Registered outputs and connected channels of a running decoder script.
#[derive(Debug)]
pub struct DecoderBridge {
    pub registrations: Vec<OutputRegistration>,
    pub connected_channels: Vec<bool>,
}

impl DecoderBridge {
    /// A bridge and its scheduler for the given channels; `None` stands for a channel that is not
    /// connected.
    pub fn new(channel_initial: Vec<Option<InitialPin>>) -> (result: Result<
        (DecoderBridge, WaitScheduler),
        SchedulerError,
    >)
        ensures
            match result {
                Ok((bridge, scheduler)) => {
                    &&& channel_initial@.len() > 0
                    &&& bridge.registrations@ == Seq::<OutputRegistration>::empty()
                    &&& bridge.connected_channels@ == Seq::new(
                        channel_initial@.len(),
                        |i: int| channel_initial@[i] is Some,
                    )
                    &&& scheduler.wf()
                    &&& scheduler@.initial == channel_initial@
                    &&& scheduler@.wait is None
                    &&& scheduler@.next == 0
                },
                Err(error) => channel_initial@.len() == 0 && error == SchedulerError::NoChannels,
            },
    {
        let mut connected_channels: Vec<bool> = Vec::new();
        let mut index: usize = 0;
        while index < channel_initial.len()
            invariant
                index <= channel_initial@.len(),
                connected_channels@ == Seq::new(
                    index as nat,
                    |i: int| channel_initial@[i] is Some,
                ),
            decreases channel_initial@.len() - index,
        {
            connected_channels.push(channel_initial[index].is_some());
            assert(connected_channels@ =~= Seq::new(
                (index + 1) as nat,
                |i: int| channel_initial@[i] is Some,
            ));
            index += 1;
        }
        match WaitScheduler::new(channel_initial) {
            Ok(scheduler) => Ok(
                (DecoderBridge { registrations: Vec::new(), connected_channels }, scheduler),
            ),
            Err(error) => Err(error),
        }
    }

    /// A bridge for a decoder without channels.
    pub fn new_protocol() -> (result: DecoderBridge)
        ensures
            result.registrations@ == Seq::<OutputRegistration>::empty(),
            result.connected_channels@ == Seq::<bool>::empty(),
    {
        DecoderBridge { registrations: Vec::new(), connected_channels: Vec::new() }
    }

    /// Registers an output and returns its number; one that says the same as an earlier one gets
    /// the earlier one's number.
    pub fn register(&mut self, registration: OutputRegistration) -> (result: usize)
        ensures
            final(self).connected_channels == old(self).connected_channels,
            match first_same(old(self).registrations@, registration@, 0) {
                Some(id) => result == id && final(self).registrations@ == old(self).registrations@,
                None => result == old(self).registrations@.len() && final(self).registrations@
                    == old(self).registrations@.push(registration),
            },
    {
        let mut index: usize = 0;
        while index < self.registrations.len()
            invariant
                index <= self.registrations@.len(),
                *self == *old(self),
                first_same(self.registrations@, registration@, 0) == first_same(
                    self.registrations@,
                    registration@,
                    index as int,
                ),
            decreases self.registrations@.len() - index,
        {
            if self.registrations[index].same(&registration) {
                return index;
            }
            index += 1;
        }
        let id: usize = self.registrations.len();
        self.registrations.push(registration);
        id
    }

    /// Checks an output before it is handed on.
    pub fn check_output(&self, start_sample: u64, end_sample: u64, output_id: usize) -> (result: Result<
        (),
        PutError,
    >)
        ensures
            result == if end_sample < start_sample {
                Err(PutError::ReversedOutputRange)
            } else if output_id >= self.registrations@.len() {
                Err(PutError::UnknownOutput(output_id))
            } else {
                Ok(())
            },
    {
        if end_sample < start_sample {
            return Err(PutError::ReversedOutputRange);
        }
        if output_id >= self.registrations.len() {
            return Err(PutError::UnknownOutput(output_id));
        }
        Ok(())
    }

    /// Tells whether a channel exists and is connected.
    pub fn has_channel(&self, channel: usize) -> (result: bool)
        ensures
            result == (channel < self.connected_channels@.len()
                && self.connected_channels@[channel as int]),
    {
        channel < self.connected_channels.len() && self.connected_channels[channel]
    }
}

/// A registered output is found again: registering what says the same gives the same number and
/// adds nothing.
pub proof fn law_registering_twice_adds_nothing(
    registrations: Seq<OutputRegistration>,
    registration: OutputRegistration,
)
    ensures
        ({
            let first = first_same(registrations, registration@, 0);
            let after = if first is Some {
                registrations
            } else {
                registrations.push(registration)
            };
            first_same(after, registration@, 0) == Some(
                match first {
                    Some(id) => id,
                    None => registrations.len() as int,
                },
            )
        }),
{
    if first_same(registrations, registration@, 0) is None {
        lemma_first_same_push(registrations, registration, 0);
    }
}

proof fn lemma_first_same_push(
    registrations: Seq<OutputRegistration>,
    registration: OutputRegistration,
    from: int,
)
    requires
        0 <= from <= registrations.len(),
        first_same(registrations, registration@, from) is None,
    ensures
        first_same(registrations.push(registration), registration@, from) == Some(
            registrations.len() as int,
        ),
    decreases registrations.len() - from,
{
    if from < registrations.len() {
        lemma_first_same_push(registrations, registration, from + 1);
    }
}

/// The parts of a match.
pub fn matched_parts(result: WaitMatch) -> (parts: (u64, Vec<u8>, Option<Vec<bool>>))
    ensures
        parts == (result.sample, result.pins, result.matched),
{
    (result.sample, result.pins, result.matched)
}

} // verus!

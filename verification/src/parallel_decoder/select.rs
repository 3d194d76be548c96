//! Inputs of the parallel decoder and the choice of their transports.

use vstd::prelude::*;

use crate::parallel_decoder::types::{ParallelInputStrategy, StrobeMode};
use crate::streams::ProtocolKind;
use crate::text::{append_chars, decimal, decimal_chars, from_chars, owned};

verus! {

/// Kind of value that an input carries.
#[derive(Debug, Clone, Copy, PartialEq, Eq, Structural)]
pub enum InputKind {
    /// Packed blocks of samples.
    Blocks,
    /// Level changes.
    Levels,
}

/// One input of a decoder.
#[derive(Debug)]
pub struct InputSchema {
    pub name: String,
    pub index: usize,
    pub kind: InputKind,
    /// Accepted transports, preferred first.
    pub protocols: Vec<ProtocolKind>,
}

/// What is on offer at one input.
#[derive(Debug)]
pub struct InputProtocolCandidate {
    /// Offered transports, preferred first.
    pub offered: Vec<ProtocolKind>,
}

/// Transports accepted at the raw signal inputs. A level trigger must look at every sample, so it
/// always streams.
pub open spec fn raw_protocols(mode: StrobeMode, strategy: ParallelInputStrategy) -> Seq<ProtocolKind> {
    if !mode.on_edges() {
        seq![ProtocolKind::Stream]
    } else {
        match strategy {
            ParallelInputStrategy::Auto => seq![ProtocolKind::EdgeQuery, ProtocolKind::Stream],
            ParallelInputStrategy::PackedStream => seq![ProtocolKind::Stream],
            ParallelInputStrategy::Indexed => seq![ProtocolKind::EdgeQuery],
        }
    }
}

/// Transports accepted at input `index`; the enable input, which comes last, takes either.
pub open spec fn accepted_protocols(
    mode: StrobeMode,
    strategy: ParallelInputStrategy,
    num_data_bits: int,
    index: int,
) -> Seq<ProtocolKind> {
    if index < num_data_bits + 2 {
        raw_protocols(mode, strategy)
    } else {
        seq![ProtocolKind::EdgeQuery, ProtocolKind::Stream]
    }
}

/// What input `index` carries: packed blocks, and levels for the enable signal.
pub open spec fn input_kind(num_data_bits: int, index: int) -> InputKind {
    if index < num_data_bits + 2 {
        InputKind::Blocks
    } else {
        InputKind::Levels
    }
}

/// Name of input `index`.
pub open spec fn input_name(num_data_bits: int, index: int) -> Seq<char> {
    if index == 0 {
        "strobe"@
    } else if index <= num_data_bits {
        seq!['d'] + decimal((index - 1) as nat)
    } else if index == num_data_bits + 1 {
        "cs"@
    } else {
        "enable_signal"@
    }
}

/// Collects the transports accepted at the raw signal inputs.
pub fn raw_input_protocols(mode: StrobeMode, strategy: ParallelInputStrategy) -> (result: Vec<
    ProtocolKind,
>)
    ensures
        result@ == raw_protocols(mode, strategy),
{
    let mut result: Vec<ProtocolKind> = Vec::new();
    if !mode.is_edge_triggered() {
        result.push(ProtocolKind::Stream);
    } else {
        match strategy {
            ParallelInputStrategy::Auto => {
                result.push(ProtocolKind::EdgeQuery);
                result.push(ProtocolKind::Stream);
            },
            ParallelInputStrategy::PackedStream => {
                result.push(ProtocolKind::Stream);
            },
            ParallelInputStrategy::Indexed => {
                result.push(ProtocolKind::EdgeQuery);
            },
        }
    }
    assert(result@ =~= raw_protocols(mode, strategy));
    result
}

fn data_input_name(bit: usize) -> (result: String)
    ensures
        result@ == seq!['d'] + decimal(bit as nat),
{
    let mut name: Vec<char> = Vec::new();
    name.push('d');
    let digits: Vec<char> = decimal_chars(bit as u64);
    append_chars(&mut name, digits.as_slice());
    assert(name@ =~= seq!['d'] + decimal(bit as nat));
    from_chars(name.as_slice())
}

/// One input of the decoder.
pub fn input_schema_at(
    mode: StrobeMode,
    strategy: ParallelInputStrategy,
    num_data_bits: usize,
    index: usize,
) -> (result: InputSchema)
    requires
        num_data_bits <= 64,
        index < num_data_bits + 3,
    ensures
        result.name@ == input_name(num_data_bits as int, index as int),
        result.index == index,
        result.kind == input_kind(num_data_bits as int, index as int),
        result.protocols@ == accepted_protocols(
            mode,
            strategy,
            num_data_bits as int,
            index as int,
        ),
{
    let name: String = if index == 0 {
        owned("strobe")
    } else if index <= num_data_bits {
        data_input_name(index - 1)
    } else if index == num_data_bits + 1 {
        owned("cs")
    } else {
        owned("enable_signal")
    };
    if index < num_data_bits + 2 {
        InputSchema {
            name,
            index,
            kind: InputKind::Blocks,
            protocols: raw_input_protocols(mode, strategy),
        }
    } else {
        let mut protocols: Vec<ProtocolKind> = Vec::new();
        protocols.push(ProtocolKind::EdgeQuery);
        protocols.push(ProtocolKind::Stream);
        assert(protocols@ =~= seq![ProtocolKind::EdgeQuery, ProtocolKind::Stream]);
        InputSchema { name, index, kind: InputKind::Levels, protocols }
    }
}

/// The first offered transport that is accepted.
pub open spec fn first_accepted(offered: Seq<ProtocolKind>, accepted: Seq<ProtocolKind>) -> Option<
    ProtocolKind,
>
    decreases offered.len(),
{
    if offered.len() == 0 {
        None
    } else if accepted.contains(offered[0]) {
        Some(offered[0])
    } else {
        first_accepted(offered.skip(1), accepted)
    }
}

/// Tells whether a transport is among those given.
pub fn has_protocol(protocols: &[ProtocolKind], protocol: ProtocolKind) -> (result: bool)
    ensures
        result == protocols@.contains(protocol),
{
    let mut index: usize = 0;
    while index < protocols.len()
        invariant
            index <= protocols@.len(),
            forall|k: int| 0 <= k < index ==> protocols@[k] != protocol,
        decreases protocols@.len() - index,
    {
        if protocols[index] == protocol {
            assert(protocols@[index as int] == protocol);
            return true;
        }
        index += 1;
    }
    false
}

/// Finds the first offered transport that is accepted.
pub fn choose_protocol(offered: &[ProtocolKind], accepted: &[ProtocolKind]) -> (result: Option<
    ProtocolKind,
>)
    ensures
        result == first_accepted(offered@, accepted@),
{
    let mut index: usize = 0;
    assert(offered@.skip(0) =~= offered@);
    while index < offered.len()
        invariant
            index <= offered@.len(),
            first_accepted(offered@, accepted@) == first_accepted(
                offered@.skip(index as int),
                accepted@,
            ),
        decreases offered@.len() - index,
    {
        assert(offered@.skip(index as int)[0] == offered@[index as int]);
        assert(offered@.skip(index as int).skip(1) =~= offered@.skip(index + 1));
        if has_protocol(accepted, offered[index]) {
            return Some(offered[index]);
        }
        index += 1;
    }
    None
}

/// Choice of one input on its own.
pub open spec fn single_choice(
    mode: StrobeMode,
    strategy: ParallelInputStrategy,
    num_data_bits: int,
    candidates: Seq<Option<InputProtocolCandidate>>,
    index: int,
) -> Option<ProtocolKind> {
    match candidates[index] {
        Some(candidate) if index < num_data_bits + 3 => first_accepted(
            candidate.offered@,
            accepted_protocols(mode, strategy, num_data_bits, index),
        ),
        _ => None,
    }
}

/// Whether every connected raw input offers and accepts a transport.
pub open spec fn group_supports(
    mode: StrobeMode,
    strategy: ParallelInputStrategy,
    num_data_bits: int,
    candidates: Seq<Option<InputProtocolCandidate>>,
    protocol: ProtocolKind,
) -> bool {
    forall|k: int|
        0 <= k < num_data_bits + 2 && (#[trigger] candidates[k]) is Some
            ==> candidates[k]->0.offered@.contains(protocol) && raw_protocols(
            mode,
            strategy,
        ).contains(protocol)
}

/// The other transport.
pub open spec fn other_protocol(protocol: ProtocolKind) -> ProtocolKind {
    match protocol {
        ProtocolKind::Stream => ProtocolKind::EdgeQuery,
        ProtocolKind::EdgeQuery => ProtocolKind::Stream,
    }
}

/// The transport of the whole raw group: the preferred one where every connected raw input
/// supports it, else the other one, else none.
pub open spec fn group_choice(
    mode: StrobeMode,
    strategy: ParallelInputStrategy,
    num_data_bits: int,
    candidates: Seq<Option<InputProtocolCandidate>>,
    preferred: ProtocolKind,
) -> Option<ProtocolKind> {
    if group_supports(mode, strategy, num_data_bits, candidates, preferred) {
        Some(preferred)
    } else if group_supports(
        mode,
        strategy,
        num_data_bits,
        candidates,
        other_protocol(preferred),
    ) {
        Some(other_protocol(preferred))
    } else {
        None
    }
}

/// Choice at input `index`. The raw inputs move as a group where the strategy is automatic, the
/// trigger is an edge, and the strobe's activity asks for a transport.
pub open spec fn chosen_protocol(
    mode: StrobeMode,
    strategy: ParallelInputStrategy,
    num_data_bits: int,
    candidates: Seq<Option<InputProtocolCandidate>>,
    preferred: Option<ProtocolKind>,
    index: int,
) -> Option<ProtocolKind> {
    if strategy is Auto && mode.on_edges() && preferred is Some && index < num_data_bits + 2
        && candidates[index] is Some {
        group_choice(mode, strategy, num_data_bits, candidates, preferred->0)
    } else {
        single_choice(mode, strategy, num_data_bits, candidates, index)
    }
}

fn raw_group_supports(
    mode: StrobeMode,
    strategy: ParallelInputStrategy,
    num_data_bits: usize,
    candidates: &[Option<InputProtocolCandidate>],
    protocol: ProtocolKind,
) -> (result: bool)
    requires
        num_data_bits <= 64,
        num_data_bits + 2 <= candidates@.len(),
    ensures
        result == group_supports(mode, strategy, num_data_bits as int, candidates@, protocol),
{
    let accepted: Vec<ProtocolKind> = raw_input_protocols(mode, strategy);
    let accepts: bool = has_protocol(accepted.as_slice(), protocol);
    let mut index: usize = 0;
    while index < num_data_bits + 2
        invariant
            num_data_bits <= 64,
            index <= num_data_bits + 2 <= candidates@.len(),
            accepts == raw_protocols(mode, strategy).contains(protocol),
            forall|k: int|
                0 <= k < index && (#[trigger] candidates@[k]) is Some
                    ==> candidates@[k]->0.offered@.contains(protocol) && accepts,
        decreases num_data_bits + 2 - index,
    {
        if let Some(candidate) = &candidates[index] {
            if !accepts || !has_protocol(candidate.offered.as_slice(), protocol) {
                assert(candidates@[index as int] is Some);
                return false;
            }
        }
        index += 1;
    }
    true
}

/// Chooses the transport of every input. `preferred` is the transport that the strobe's activity
/// asks for, where it is known.
pub fn select_protocols(
    mode: StrobeMode,
    strategy: ParallelInputStrategy,
    num_data_bits: usize,
    candidates: &[Option<InputProtocolCandidate>],
    preferred: Option<ProtocolKind>,
) -> (result: Vec<Option<ProtocolKind>>)
    requires
        num_data_bits <= 64,
        strategy is Auto && mode.on_edges() && preferred is Some ==> num_data_bits + 2
            <= candidates@.len(),
    ensures
        result@.len() == candidates@.len(),
        forall|i: int|
            0 <= i < candidates@.len() ==> #[trigger] result@[i] == chosen_protocol(
                mode,
                strategy,
                num_data_bits as int,
                candidates@,
                preferred,
                i,
            ),
{
    let grouped: bool = matches!(strategy, ParallelInputStrategy::Auto) && mode.is_edge_triggered()
        && preferred.is_some();
    let group: Option<ProtocolKind> = match preferred {
        Some(protocol) if grouped => {
            let alternate: ProtocolKind = match protocol {
                ProtocolKind::Stream => ProtocolKind::EdgeQuery,
                ProtocolKind::EdgeQuery => ProtocolKind::Stream,
            };
            if raw_group_supports(mode, strategy, num_data_bits, candidates, protocol) {
                Some(protocol)
            } else if raw_group_supports(mode, strategy, num_data_bits, candidates, alternate) {
                Some(alternate)
            } else {
                None
            }
        },
        _ => None,
    };
    let mut result: Vec<Option<ProtocolKind>> = Vec::new();
    let mut index: usize = 0;
    while index < candidates.len()
        invariant
            num_data_bits <= 64,
            index <= candidates@.len(),
            result@.len() == index,
            grouped == (strategy is Auto && mode.on_edges() && preferred is Some),
            grouped ==> group == group_choice(
                mode,
                strategy,
                num_data_bits as int,
                candidates@,
                preferred->0,
            ),
            forall|i: int|
                0 <= i < index ==> #[trigger] result@[i] == chosen_protocol(
                    mode,
                    strategy,
                    num_data_bits as int,
                    candidates@,
                    preferred,
                    i,
                ),
        decreases candidates@.len() - index,
    {
        let choice: Option<ProtocolKind> = match &candidates[index] {
            None => None,
            Some(candidate) => if grouped && index < num_data_bits + 2 {
                group
            } else if index < num_data_bits + 3 {
                let schema: InputSchema = input_schema_at(mode, strategy, num_data_bits, index);
                choose_protocol(candidate.offered.as_slice(), schema.protocols.as_slice())
            } else {
                None
            },
        };
        result.push(choice);
        index += 1;
    }
    result
}

/// With an automatic choice, all connected raw inputs get one and the same transport.
pub proof fn law_raw_group_is_uniform(
    mode: StrobeMode,
    num_data_bits: int,
    candidates: Seq<Option<InputProtocolCandidate>>,
    preferred: ProtocolKind,
    i: int,
    j: int,
)
    requires
        mode.on_edges(),
        0 <= i < num_data_bits + 2 <= candidates.len(),
        0 <= j < num_data_bits + 2,
        candidates[i] is Some,
        candidates[j] is Some,
    ensures
        chosen_protocol(
            mode,
            ParallelInputStrategy::Auto,
            num_data_bits,
            candidates,
            Some(preferred),
            i,
        ) == chosen_protocol(
            mode,
            ParallelInputStrategy::Auto,
            num_data_bits,
            candidates,
            Some(preferred),
            j,
        ),
{
}

} // verus!

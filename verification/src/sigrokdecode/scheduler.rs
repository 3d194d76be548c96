//! Finds the samples that a decoder waits for.

use vstd::prelude::*;

use crate::bits::{bit_of, bytes_for, packed_bit, packed_len};
use crate::sigrokdecode::conditions::{PinCondition, WaitCondition, WaitRequest, WaitTerm};

verus! {

/// Reported level of a channel that is not connected.
pub const DISCONNECTED_PIN_VALUE: u8 = 0xff;

/// Level of a pin before the first sample.
#[derive(Clone, Copy, Debug, PartialEq, Eq, Structural)]
pub enum InitialPin {
    Low,
    High,
    SameAsFirstSample,
}

/// Consecutive samples of all channels, each packed least significant bit first.
#[derive(Debug, Clone, PartialEq, Eq)]
pub struct LogicChunk {
    pub start_sample: u64,
    pub sample_count: usize,
    pub channels: Vec<Option<Vec<u8>>>,
}

/// Levels of all pins at one sample; `None` where a channel is not connected.
pub type Pins = Seq<Option<bool>>;

impl LogicChunk {
    pub fn new(start_sample: u64, sample_count: usize, channels: Vec<Option<Vec<u8>>>) -> (result:
        Self)
        ensures
            result == (LogicChunk { start_sample, sample_count, channels }),
    {
        LogicChunk { start_sample, sample_count, channels }
    }

    pub fn sample_count(&self) -> (result: usize)
        ensures
            result == self.sample_count,
    {
        self.sample_count
    }

    /// First sample after the chunk; `None` where there is no such number.
    pub fn end_sample(&self) -> (result: Option<u64>)
        ensures
            result == if self.start_sample + self.sample_count <= u64::MAX {
                Some((self.start_sample + self.sample_count) as u64)
            } else {
                None
            },
    {
        self.start_sample.checked_add(self.sample_count as u64)
    }

    /// Level of one channel at one sample of the chunk.
    pub open spec fn level(self, channel: int, sample: int) -> Option<bool> {
        match self.channels@[channel] {
            Some(data) => Some(bit_of(data@, sample)),
            None => None,
        }
    }

    /// Levels of all channels at one sample of the chunk.
    pub open spec fn row(self, sample: int) -> Pins {
        Seq::new(self.channels@.len(), |channel: int| self.level(channel, sample))
    }

    /// The samples from `from` on.
    pub open spec fn rows(self, from: int) -> Seq<Pins> {
        Seq::new((self.sample_count - from) as nat, |i: int| self.row(from + i))
    }

    /// Every connected channel holds every sample.
    pub open spec fn holds_samples(self) -> bool {
        forall|channel: int|
            0 <= channel < self.channels@.len() ==> ((#[trigger] self.channels@[channel]) matches Some(
                data,
            ) ==> self.sample_count <= 8 * data@.len())
    }

    fn pin(&self, channel: usize, sample: usize) -> (result: Option<bool>)
        requires
            channel < self.channels@.len(),
            sample < self.sample_count,
            self.holds_samples(),
        ensures
            result == self.level(channel as int, sample as int),
    {
        match &self.channels[channel] {
            Some(data) => Some(packed_bit(data.as_slice(), sample)),
            None => None,
        }
    }
}

/// A sample that met a request.
#[derive(Debug, Clone, PartialEq, Eq)]
pub struct WaitMatch {
    pub sample: u64,
    pub pins: Vec<u8>,
    /// Which conditions were met; `None` where the request had no term at all.
    pub matched: Option<Vec<bool>>,
}

/// What a call of the scheduler leads to.
#[derive(Debug, Clone, PartialEq, Eq)]
pub enum SchedulerStatus {
    Waiting,
    Matched(WaitMatch),
    EndOfStream,
    Cancelled,
}

/// What a [`SchedulerStatus`] says.
#[verifier::ext_equal]
pub enum StatusView {
    Waiting,
    Matched { sample: int, pins: Seq<u8>, matched: Option<Seq<bool>> },
    EndOfStream,
    Cancelled,
}

impl View for SchedulerStatus {
    type V = StatusView;

    open spec fn view(&self) -> StatusView {
        match *self {
            SchedulerStatus::Waiting => StatusView::Waiting,
            SchedulerStatus::Matched(result) => StatusView::Matched {
                sample: result.sample as int,
                pins: result.pins@,
                matched: match result.matched {
                    Some(matched) => Some(matched@),
                    None => None,
                },
            },
            SchedulerStatus::EndOfStream => StatusView::EndOfStream,
            SchedulerStatus::Cancelled => StatusView::Cancelled,
        }
    }
}

/// Why the scheduler refuses a call.
#[allow(inconsistent_fields)]
#[derive(Clone, Copy, Debug, PartialEq, Eq, Structural)]
pub enum SchedulerError {
    /// A decoder has no channel.
    NoChannels,
    /// A wait is already going on.
    AlreadyWaiting,
    /// Samples came although nothing waits for them.
    NoActiveWait,
    /// Samples came after the end of the stream.
    InputAfterEndOfStream,
    /// Samples are left at the current match.
    PendingInput,
    /// A chunk holds no sample.
    EmptyChunk,
    /// Sample numbers do not fit in 64 bits.
    SampleRangeOverflow,
    UnexpectedChunkStart { expected: u64, actual: u64 },
    ChannelCount { expected: usize, actual: usize },
    MissingChannelData { channel: usize },
    UnexpectedChannelData { channel: usize },
    ShortChannelData { channel: usize, required: usize, actual: usize },
}

/// A term while its wait goes on.
#[derive(Clone, Copy, Debug, PartialEq, Eq, Structural)]
pub enum TermState {
    Pin { channel: usize, condition: PinCondition },
    Skip { target: u64, skipped: u64 },
    Never,
}

impl TermState {
    /// A term at the start of its wait.
    pub open spec fn started(term: WaitTerm) -> TermState {
        match term {
            WaitTerm::Pin { channel, condition } => TermState::Pin { channel, condition },
            WaitTerm::Skip(target) => TermState::Skip { target, skipped: 0 },
            WaitTerm::Never => TermState::Never,
        }
    }

    pub fn new(term: WaitTerm) -> (result: Self)
        ensures
            result == Self::started(term),
    {
        match term {
            WaitTerm::Pin { channel, condition } => TermState::Pin { channel, condition },
            WaitTerm::Skip(target) => TermState::Skip { target, skipped: 0 },
            WaitTerm::Never => TermState::Never,
        }
    }

    /// Whether the term holds at a sample. A pin that is not connected, or whose level before the
    /// sample is not known, meets no condition.
    pub open spec fn holds(self, current: Pins, previous: Pins) -> bool {
        match self {
            TermState::Pin { channel, condition } => {
                &&& channel < current.len()
                &&& channel < previous.len()
                &&& current[channel as int] is Some
                &&& previous[channel as int] is Some
                &&& condition.holds(current[channel as int]->0, previous[channel as int]->0)
            },
            TermState::Skip { target, skipped } => skipped == target,
            TermState::Never => false,
        }
    }

    /// The term after it was looked at: a skip that does not hold yet has let one more sample
    /// pass.
    pub open spec fn looked_at(self) -> TermState {
        match self {
            TermState::Skip { target, skipped } => if skipped == target {
                self
            } else {
                TermState::Skip {
                    target,
                    skipped: if skipped == u64::MAX {
                        skipped
                    } else {
                        (skipped + 1) as u64
                    },
                }
            },
            _ => self,
        }
    }

    pub fn matches(&mut self, current: &[Option<bool>], previous: &[Option<bool>]) -> (result: bool)
        ensures
            result == old(self).holds(current@, previous@),
            *final(self) == old(self).looked_at(),
    {
        match *self {
            TermState::Pin { channel, condition } => {
                if channel >= current.len() || channel >= previous.len() {
                    return false;
                }
                match (current[channel], previous[channel]) {
                    (Some(now), Some(before)) => condition.check(now, before),
                    _ => false,
                }
            },
            TermState::Skip { target, skipped } => {
                if skipped == target {
                    true
                } else {
                    *self = TermState::Skip { target, skipped: skipped.saturating_add(1) };
                    false
                }
            },
            TermState::Never => false,
        }
    }
}

/// Whether the terms from `from` on all hold.
pub open spec fn terms_hold(terms: Seq<TermState>, current: Pins, previous: Pins, from: int) -> bool {
    forall|k: int| from <= k < terms.len() ==> (#[trigger] terms[k]).holds(current, previous)
}

/// The terms after a sample: they are looked at in order, up to the first that does not hold.
pub open spec fn terms_looked_at(terms: Seq<TermState>, current: Pins, previous: Pins, from: int) -> Seq<
    TermState,
>
    decreases terms.len() - from,
{
    if from < 0 || from >= terms.len() {
        terms
    } else if terms[from].holds(current, previous) {
        terms_looked_at(
            terms.update(from, terms[from].looked_at()),
            current,
            previous,
            from + 1,
        )
    } else {
        terms.update(from, terms[from].looked_at())
    }
}

/// Whether a condition holds: it has terms, and they all hold.
pub open spec fn condition_holds(terms: Seq<TermState>, current: Pins, previous: Pins) -> bool {
    terms.len() > 0 && terms_hold(terms, current, previous, 0)
}

/// A condition while its wait goes on.
#[derive(Debug, Clone)]
pub struct ConditionState {
    pub terms: Vec<TermState>,
}

impl ConditionState {
    pub fn new(condition: &WaitCondition) -> (result: Self)
        ensures
            result.terms@ == started_terms(condition.terms@),
    {
        let mut terms: Vec<TermState> = Vec::new();
        let mut index: usize = 0;
        while index < condition.terms.len()
            invariant
                index <= condition.terms@.len(),
                terms@ == started_terms(condition.terms@.take(index as int)),
            decreases condition.terms@.len() - index,
        {
            terms.push(TermState::new(condition.terms[index]));
            assert(terms@ =~= started_terms(condition.terms@.take(index + 1)));
            index += 1;
        }
        assert(condition.terms@.take(index as int) =~= condition.terms@);
        ConditionState { terms }
    }

    pub fn matches(&mut self, current: &[Option<bool>], previous: &[Option<bool>]) -> (result: bool)
        ensures
            result == condition_holds(old(self).terms@, current@, previous@),
            final(self).terms@ == terms_looked_at(old(self).terms@, current@, previous@, 0),
    {
        if self.terms.len() == 0 {
            return false;
        }
        let ghost before = self.terms@;
        let mut index: usize = 0;
        while index < self.terms.len()
            invariant
                index <= self.terms@.len(),
                before == old(self).terms@,
                before.len() > 0,
                self.terms@.len() == before.len(),
                forall|k: int| index <= k < before.len() ==> self.terms@[k] == before[k],
                forall|k: int|
                    0 <= k < index ==> (#[trigger] before[k]).holds(current@, previous@),
                terms_looked_at(before, current@, previous@, 0) == terms_looked_at(
                    self.terms@,
                    current@,
                    previous@,
                    index as int,
                ),
            decreases before.len() - index,
        {
            let mut term: TermState = self.terms[index];
            let holds: bool = term.matches(current, previous);
            self.terms.set(index, term);
            if !holds {
                assert(!before[index as int].holds(current@, previous@));
                return false;
            }
            index += 1;
        }
        true
    }
}

/// Terms at the start of their wait.
pub open spec fn started_terms(terms: Seq<WaitTerm>) -> Seq<TermState> {
    Seq::new(terms.len(), |i: int| TermState::started(terms[i]))
}

/// The terms of conditions.
pub open spec fn condition_terms(conditions: Seq<ConditionState>) -> Seq<Seq<TermState>> {
    Seq::new(conditions.len(), |i: int| conditions[i].terms@)
}

/// A wait that is going on.
#[derive(Debug, Clone)]
pub struct ActiveWait {
    pub conditions: Vec<ConditionState>,
    /// No condition has a term: the current sample is taken as it is.
    pub automatic: bool,
}

/// What an [`ActiveWait`] holds.
#[verifier::ext_equal]
pub struct WaitView {
    pub conditions: Seq<Seq<TermState>>,
    pub automatic: bool,
}

impl View for ActiveWait {
    type V = WaitView;

    open spec fn view(&self) -> WaitView {
        WaitView { conditions: condition_terms(self.conditions@), automatic: self.automatic }
    }
}

/// A wait for the next sample: the very first wait takes the first sample, a later one skips the
/// sample that the wait before it ended on.
pub open spec fn next_wait(first_wait: bool) -> WaitView {
    WaitView {
        conditions: seq![
            seq![
                TermState::Skip {
                    target: if first_wait {
                        0
                    } else {
                        1
                    },
                    skipped: 0,
                },
            ],
        ],
        automatic: false,
    }
}

/// The wait that a request starts.
pub open spec fn requested_wait(request: WaitRequest, first_wait: bool) -> WaitView {
    match request {
        WaitRequest::Next => next_wait(first_wait),
        WaitRequest::Conditions(conditions) => if conditions@.len() == 0 {
            next_wait(first_wait)
        } else {
            WaitView {
                conditions: Seq::new(
                    conditions@.len(),
                    |i: int| started_terms(conditions@[i].terms@),
                ),
                automatic: forall|i: int|
                    0 <= i < conditions@.len() ==> (#[trigger] conditions@[i]).terms@.len() == 0,
            }
        },
    }
}

impl ActiveWait {
    pub fn from_request(request: &WaitRequest, first_wait: bool) -> (result: Self)
        ensures
            result@ == requested_wait(*request, first_wait),
    {
        match request {
            WaitRequest::Next => Self::next(first_wait),
            WaitRequest::Conditions(conditions) => {
                if conditions.len() == 0 {
                    return Self::next(first_wait);
                }
                let mut states: Vec<ConditionState> = Vec::new();
                let mut automatic: bool = true;
                let mut index: usize = 0;
                while index < conditions.len()
                    invariant
                        index <= conditions@.len(),
                        states@.len() == index,
                        forall|i: int|
                            0 <= i < index ==> (#[trigger] states@[i]).terms@ == started_terms(
                                conditions@[i].terms@,
                            ),
                        automatic == forall|i: int|
                            0 <= i < index ==> (#[trigger] conditions@[i]).terms@.len() == 0,
                    decreases conditions@.len() - index,
                {
                    automatic = automatic && conditions[index].terms.len() == 0;
                    states.push(ConditionState::new(&conditions[index]));
                    index += 1;
                }
                let result = ActiveWait { conditions: states, automatic };
                assert(result@.conditions =~= requested_wait(*request, first_wait).conditions);
                result
            },
        }
    }

    pub fn next(first_wait: bool) -> (result: Self)
        ensures
            result@ == next_wait(first_wait),
    {
        let target: u64 = if first_wait {
            0
        } else {
            1
        };
        let mut terms: Vec<TermState> = Vec::new();
        terms.push(TermState::Skip { target, skipped: 0 });
        let mut conditions: Vec<ConditionState> = Vec::new();
        conditions.push(ConditionState { terms });
        let result = ActiveWait { conditions, automatic: false };
        assert(terms@ =~= next_wait(first_wait).conditions[0]);
        assert(result@.conditions =~= next_wait(first_wait).conditions);
        result
    }
}

/// A chunk of which samples are left.
#[derive(Debug, Clone)]
pub struct PendingChunk {
    pub chunk: LogicChunk,
    pub next_sample: usize,
}

/// Reported levels of pins.
pub open spec fn reported_pins(pins: Pins) -> Seq<u8> {
    Seq::new(
        pins.len(),
        |i: int|
            match pins[i] {
                Some(true) => 1u8,
                Some(false) => 0u8,
                None => DISCONNECTED_PIN_VALUE,
            },
    )
}

/// Reported levels of pins: one or zero, or a value of its own where nothing is connected.
pub fn pin_values(pins: &[Option<bool>]) -> (result: Vec<u8>)
    ensures
        result@ == reported_pins(pins@),
{
    let mut result: Vec<u8> = Vec::new();
    let mut index: usize = 0;
    while index < pins.len()
        invariant
            index <= pins@.len(),
            result@ == reported_pins(pins@.take(index as int)),
        decreases pins@.len() - index,
    {
        result.push(
            match pins[index] {
                Some(true) => 1,
                Some(false) => 0,
                None => DISCONNECTED_PIN_VALUE,
            },
        );
        assert(result@ =~= reported_pins(pins@.take(index + 1)));
        index += 1;
    }
    assert(pins@.take(index as int) =~= pins@);
    result
}

/// What a [`WaitScheduler`] holds.
#[verifier::ext_equal]
pub struct SchedulerView {
    pub initial: Seq<Option<InitialPin>>,
    /// Levels one sample before the next one, as far as they are known.
    pub previous: Pins,
    pub initialized: bool,
    /// Number of the next sample.
    pub next: int,
    /// Samples received and not yet passed, the next one first.
    pub rows: Seq<Pins>,
    pub wait: Option<WaitView>,
    pub waits_started: u64,
    pub end_of_stream: bool,
    pub cancelled: bool,
}

/// Whether each condition holds at a sample.
pub open spec fn conditions_hold(conditions: Seq<Seq<TermState>>, current: Pins, previous: Pins) -> Seq<bool> {
    Seq::new(conditions.len(), |i: int| condition_holds(conditions[i], current, previous))
}

/// All conditions after a sample.
pub open spec fn conditions_looked_at(
    conditions: Seq<Seq<TermState>>,
    current: Pins,
    previous: Pins,
) -> Seq<Seq<TermState>> {
    Seq::new(conditions.len(), |i: int| terms_looked_at(conditions[i], current, previous, 0))
}

impl SchedulerView {
    /// Levels before the next sample, once that sample is known: at the very first sample, pins
    /// set to start like it do.
    pub open spec fn levels_before(self, current: Pins) -> Pins {
        if self.initialized {
            self.previous
        } else {
            Seq::new(
                self.previous.len(),
                |i: int|
                    if self.initial[i] == Some(InitialPin::SameAsFirstSample) {
                        current[i]
                    } else {
                        self.previous[i]
                    },
            )
        }
    }

    /// The scheduler after it looked at the next sample without a match.
    pub open spec fn passed(self) -> SchedulerView {
        let current = self.rows[0];
        SchedulerView {
            previous: current,
            initialized: true,
            next: self.next + 1,
            rows: self.rows.skip(1),
            wait: Some(
                WaitView {
                    conditions: conditions_looked_at(
                        self.wait->0.conditions,
                        current,
                        self.levels_before(current),
                    ),
                    automatic: false,
                },
            ),
            ..self
        }
    }

    /// The scheduler after it looked at `count` samples without a match.
    pub open spec fn after_passing(self, count: nat) -> SchedulerView
        decreases count,
    {
        if count == 0 {
            self
        } else {
            self.passed().after_passing((count - 1) as nat)
        }
    }

    /// Which conditions the next sample meets.
    pub open spec fn met(self) -> Seq<bool> {
        conditions_hold(
            self.wait->0.conditions,
            self.rows[0],
            self.levels_before(self.rows[0]),
        )
    }

    /// Looks for the next match among the received samples. The sample that matches stays the
    /// next one.
    pub open spec fn scanned(self) -> (SchedulerView, StatusView)
        decreases self.rows.len(),
    {
        if self.cancelled {
            (self, StatusView::Cancelled)
        } else if self.wait is None {
            (
                self,
                if self.end_of_stream && self.rows.len() == 0 {
                    StatusView::EndOfStream
                } else {
                    StatusView::Waiting
                },
            )
        } else if self.rows.len() == 0 {
            if self.end_of_stream {
                (SchedulerView { wait: None, ..self }, StatusView::EndOfStream)
            } else {
                (self, StatusView::Waiting)
            }
        } else if self.wait->0.automatic {
            (
                SchedulerView { wait: None, ..self },
                StatusView::Matched {
                    sample: self.next,
                    pins: reported_pins(self.rows[0]),
                    matched: None,
                },
            )
        } else if self.met().contains(true) {
            (
                SchedulerView {
                    previous: self.rows[0],
                    initialized: true,
                    wait: None,
                    ..self
                },
                StatusView::Matched {
                    sample: self.next,
                    pins: reported_pins(self.rows[0]),
                    matched: Some(self.met()),
                },
            )
        } else {
            self.passed().scanned()
        }
    }

    /// A wait starts.
    pub open spec fn waiting(self, request: WaitRequest) -> SchedulerView {
        SchedulerView {
            wait: Some(requested_wait(request, self.waits_started == 0)),
            waits_started: if self.waits_started == u64::MAX {
                u64::MAX
            } else {
                (self.waits_started + 1) as u64
            },
            ..self
        }
    }

    /// Samples come in.
    pub open spec fn received(self, rows: Seq<Pins>) -> SchedulerView {
        SchedulerView { rows: self.rows + rows, ..self }
    }

    /// The first error of an incoming chunk.
    pub open spec fn chunk_error(self, chunk: LogicChunk) -> Option<SchedulerError> {
        if chunk.sample_count == 0 {
            Some(SchedulerError::EmptyChunk)
        } else if chunk.start_sample + chunk.sample_count > u64::MAX {
            Some(SchedulerError::SampleRangeOverflow)
        } else if chunk.start_sample != self.next {
            Some(
                SchedulerError::UnexpectedChunkStart {
                    expected: self.next as u64,
                    actual: chunk.start_sample,
                },
            )
        } else if chunk.channels@.len() != self.initial.len() {
            Some(
                SchedulerError::ChannelCount {
                    expected: self.initial.len() as usize,
                    actual: chunk.channels@.len() as usize,
                },
            )
        } else {
            first_channel_error(self.initial, chunk, 0)
        }
    }
}

/// The error of one channel of an incoming chunk.
pub open spec fn channel_error(initial: Option<InitialPin>, chunk: LogicChunk, channel: int) -> Option<
    SchedulerError,
> {
    match (initial, chunk.channels@[channel]) {
        (Some(_), None) => Some(SchedulerError::MissingChannelData { channel: channel as usize }),
        (None, Some(_)) => Some(
            SchedulerError::UnexpectedChannelData { channel: channel as usize },
        ),
        (Some(_), Some(data)) => if data@.len() < bytes_for(chunk.sample_count as int) {
            Some(
                SchedulerError::ShortChannelData {
                    channel: channel as usize,
                    required: bytes_for(chunk.sample_count as int) as usize,
                    actual: data@.len() as usize,
                },
            )
        } else {
            None
        },
        (None, None) => None,
    }
}

/// The error of the first channel at or after `from` that has one.
pub open spec fn first_channel_error(initial: Seq<Option<InitialPin>>, chunk: LogicChunk, from: int) -> Option<
    SchedulerError,
>
    decreases initial.len() - from,
{
    if from < 0 || from >= initial.len() {
        None
    } else if channel_error(initial[from], chunk, from) is Some {
        channel_error(initial[from], chunk, from)
    } else {
        first_channel_error(initial, chunk, from + 1)
    }
}

/// Level of a pin before the first sample, where it is given.
pub open spec fn given_level(initial: Option<InitialPin>) -> Option<bool> {
    match initial {
        Some(InitialPin::Low) => Some(false),
        Some(InitialPin::High) => Some(true),
        Some(InitialPin::SameAsFirstSample) => None,
        None => None,
    }
}

/// Matches wait requests against samples as they come in.
#[derive(Debug)]
pub struct WaitScheduler {
    pub channel_initial: Vec<Option<InitialPin>>,
    pub previous_pins: Vec<Option<bool>>,
    pub initialized_first_sample: bool,
    pub next_input_sample: u64,
    pub pending: Option<PendingChunk>,
    pub active_wait: Option<ActiveWait>,
    pub waits_started: u64,
    pub end_of_stream: bool,
    pub cancelled: bool,
}

impl View for WaitScheduler {
    type V = SchedulerView;

    open spec fn view(&self) -> SchedulerView {
        SchedulerView {
            initial: self.channel_initial@,
            previous: self.previous_pins@,
            initialized: self.initialized_first_sample,
            next: self.next_input_sample as int,
            rows: match self.pending {
                Some(pending) => pending.chunk.rows(pending.next_sample as int),
                None => Seq::empty(),
            },
            wait: match self.active_wait {
                Some(wait) => Some(wait@),
                None => None,
            },
            waits_started: self.waits_started,
            end_of_stream: self.end_of_stream,
            cancelled: self.cancelled,
        }
    }
}

impl WaitScheduler {
    /// The samples that have come in fit the channels.
    pub open spec fn holds_input(self) -> bool {
        &&& self.channel_initial@.len() > 0
        &&& self.previous_pins@.len() == self.channel_initial@.len()
        &&& self.pending matches Some(pending) ==> {
            &&& pending.next_sample < pending.chunk.sample_count
            &&& pending.chunk.start_sample + pending.chunk.sample_count <= u64::MAX
            &&& pending.chunk.start_sample + pending.next_sample == self.next_input_sample
            &&& pending.chunk.channels@.len() == self.channel_initial@.len()
            &&& pending.chunk.holds_samples()
        }
        &&& self.cancelled ==> self.active_wait is None
    }

    /// Besides, a wait goes on only where every sample that has come in was looked at.
    pub open spec fn wf(self) -> bool {
        self.holds_input() && (self.active_wait is Some ==> self.pending is None)
    }

    /// A scheduler for the given channels; `None` stands for a channel that is not connected.
    pub fn new(channel_initial: Vec<Option<InitialPin>>) -> (result: Result<Self, SchedulerError>)
        ensures
            match result {
                Ok(scheduler) => {
                    &&& channel_initial@.len() > 0
                    &&& scheduler.wf()
                    &&& scheduler@ == (SchedulerView {
                        initial: channel_initial@,
                        previous: Seq::new(
                            channel_initial@.len(),
                            |i: int| given_level(channel_initial@[i]),
                        ),
                        initialized: false,
                        next: 0,
                        rows: Seq::empty(),
                        wait: None,
                        waits_started: 0,
                        end_of_stream: false,
                        cancelled: false,
                    })
                },
                Err(error) => channel_initial@.len() == 0 && error == SchedulerError::NoChannels,
            },
    {
        if channel_initial.len() == 0 {
            return Err(SchedulerError::NoChannels);
        }
        let mut previous_pins: Vec<Option<bool>> = Vec::new();
        let mut index: usize = 0;
        while index < channel_initial.len()
            invariant
                index <= channel_initial@.len(),
                previous_pins@ == Seq::new(
                    index as nat,
                    |i: int| given_level(channel_initial@[i]),
                ),
            decreases channel_initial@.len() - index,
        {
            previous_pins.push(
                match channel_initial[index] {
                    Some(InitialPin::Low) => Some(false),
                    Some(InitialPin::High) => Some(true),
                    Some(InitialPin::SameAsFirstSample) | None => None,
                },
            );
            assert(previous_pins@ =~= Seq::new(
                (index + 1) as nat,
                |i: int| given_level(channel_initial@[i]),
            ));
            index += 1;
        }
        Ok(
            WaitScheduler {
                channel_initial,
                previous_pins,
                initialized_first_sample: false,
                next_input_sample: 0,
                pending: None,
                active_wait: None,
                waits_started: 0,
                end_of_stream: false,
                cancelled: false,
            },
        )
    }

    /// Starts a wait and looks for its match among the samples that are already here.
    pub fn begin_wait(&mut self, request: WaitRequest) -> (result: Result<
        SchedulerStatus,
        SchedulerError,
    >)
        requires
            old(self).wf(),
        ensures
            final(self).wf(),
            if old(self)@.cancelled {
                result matches Ok(status) && status@ == StatusView::Cancelled && final(self)@
                    == old(self)@
            } else if old(self)@.wait is Some {
                result matches Err(error) && error == SchedulerError::AlreadyWaiting && final(self)@ == old(self)@
            } else {
                result matches Ok(status) && (final(self)@, status@) == old(self)@.waiting(
                    request,
                ).scanned()
            },
    {
        if self.cancelled {
            return Ok(SchedulerStatus::Cancelled);
        }
        if self.active_wait.is_some() {
            return Err(SchedulerError::AlreadyWaiting);
        }
        let ghost before = self@;
        let first_wait: bool = self.waits_started == 0;
        self.waits_started = self.waits_started.saturating_add(1);
        self.active_wait = Some(ActiveWait::from_request(&request, first_wait));
        assert(self@ =~= before.waiting(request));
        Ok(self.scan())
    }

    /// Takes in the next samples and looks for the match among them.
    pub fn push_chunk(&mut self, chunk: LogicChunk) -> (result: Result<
        SchedulerStatus,
        SchedulerError,
    >)
        requires
            old(self).wf(),
        ensures
            final(self).wf(),
            if old(self)@.cancelled {
                result matches Ok(status) && status@ == StatusView::Cancelled && final(self)@
                    == old(self)@
            } else if old(self)@.end_of_stream {
                result matches Err(error) && error == SchedulerError::InputAfterEndOfStream
                    && final(self)@ == old(self)@
            } else if old(self)@.wait is None {
                result matches Err(error) && error == SchedulerError::NoActiveWait && final(self)@
                    == old(self)@
            } else if old(self)@.chunk_error(chunk) is Some {
                result matches Err(error) && Some(error) == old(self)@.chunk_error(chunk)
                    && final(self)@ == old(self)@
            } else {
                result matches Ok(status) && (final(self)@, status@) == old(self)@.received(
                    chunk.rows(0),
                ).scanned()
            },
    {
        if self.cancelled {
            return Ok(SchedulerStatus::Cancelled);
        }
        if self.end_of_stream {
            return Err(SchedulerError::InputAfterEndOfStream);
        }
        if self.active_wait.is_none() {
            return Err(SchedulerError::NoActiveWait);
        }
        if self.pending.is_some() {
            return Err(SchedulerError::PendingInput);
        }
        match self.validate_chunk(&chunk) {
            Ok(()) => {},
            Err(error) => return Err(error),
        }
        let ghost before = self@;
        self.pending = Some(PendingChunk { chunk, next_sample: 0 });
        assert(self@ =~= before.received(chunk.rows(0)));
        Ok(self.scan())
    }

    /// No samples follow.
    pub fn finish(&mut self) -> (result: Result<SchedulerStatus, SchedulerError>)
        requires
            old(self).wf(),
        ensures
            final(self).wf(),
            result matches Ok(status) && (final(self)@, status@) == (SchedulerView {
                end_of_stream: true,
                ..old(self)@
            }).scanned(),
    {
        let ghost before = self@;
        self.end_of_stream = true;
        assert(self@ =~= (SchedulerView { end_of_stream: true, ..before }));
        Ok(self.scan())
    }

    /// Ends every wait.
    pub fn cancel(&mut self) -> (result: SchedulerStatus)
        requires
            old(self).wf(),
        ensures
            final(self).wf(),
            result@ == StatusView::Cancelled,
            final(self)@ == (SchedulerView { cancelled: true, wait: None, ..old(self)@ }),
    {
        self.cancelled = true;
        self.active_wait = None;
        SchedulerStatus::Cancelled
    }

    /// Checks that a chunk follows the samples so far and holds what the channels need.
    pub fn validate_chunk(&self, chunk: &LogicChunk) -> (result: Result<(), SchedulerError>)
        requires
            self.wf(),
        ensures
            match result {
                Ok(()) => self@.chunk_error(*chunk) is None && chunk.holds_samples(),
                Err(error) => self@.chunk_error(*chunk) == Some(error),
            },
    {
        if chunk.sample_count == 0 {
            return Err(SchedulerError::EmptyChunk);
        }
        if chunk.end_sample().is_none() {
            return Err(SchedulerError::SampleRangeOverflow);
        }
        if chunk.start_sample != self.next_input_sample {
            return Err(
                SchedulerError::UnexpectedChunkStart {
                    expected: self.next_input_sample,
                    actual: chunk.start_sample,
                },
            );
        }
        if chunk.channels.len() != self.channel_initial.len() {
            return Err(
                SchedulerError::ChannelCount {
                    expected: self.channel_initial.len(),
                    actual: chunk.channels.len(),
                },
            );
        }
        let required: usize = packed_len(chunk.sample_count);
        let mut channel: usize = 0;
        while channel < self.channel_initial.len()
            invariant
                channel <= self.channel_initial@.len(),
                chunk.channels@.len() == self.channel_initial@.len(),
                required == bytes_for(chunk.sample_count as int),
                chunk.sample_count <= 8 * required,
                self@.chunk_error(*chunk) == first_channel_error(
                    self.channel_initial@,
                    *chunk,
                    channel as int,
                ),
                forall|k: int|
                    0 <= k < channel ==> ((#[trigger] chunk.channels@[k]) matches Some(data)
                        ==> chunk.sample_count <= 8 * data@.len()),
            decreases self.channel_initial@.len() - channel,
        {
            match (self.channel_initial[channel], &chunk.channels[channel]) {
                (Some(_), None) => {
                    return Err(SchedulerError::MissingChannelData { channel });
                },
                (None, Some(_)) => {
                    return Err(SchedulerError::UnexpectedChannelData { channel });
                },
                (Some(_), Some(data)) => {
                    if data.len() < required {
                        return Err(
                            SchedulerError::ShortChannelData {
                                channel,
                                required,
                                actual: data.len(),
                            },
                        );
                    }
                },
                (None, None) => {},
            }
            channel += 1;
        }
        Ok(())
    }

    fn current_pins(&self) -> (result: Vec<Option<bool>>)
        requires
            self.holds_input(),
            self.pending is Some,
        ensures
            result@ == self@.rows[0],
            result@.len() == self.channel_initial@.len(),
    {
        let mut pins: Vec<Option<bool>> = Vec::new();
        if let Some(pending) = &self.pending {
            let mut channel: usize = 0;
            while channel < self.channel_initial.len()
                invariant
                    channel <= self.channel_initial@.len(),
                    self.holds_input(),
                    self.pending == Some(*pending),
                    pins@ == Seq::new(
                        channel as nat,
                        |c: int| pending.chunk.level(c, pending.next_sample as int),
                    ),
                decreases self.channel_initial@.len() - channel,
            {
                pins.push(pending.chunk.pin(channel, pending.next_sample));
                assert(pins@ =~= Seq::new(
                    (channel + 1) as nat,
                    |c: int| pending.chunk.level(c, pending.next_sample as int),
                ));
                channel += 1;
            }
            assert(pins@ =~= self@.rows[0]);
        }
        pins
    }

    /// Before the very first sample is looked at, pins set to start like it take its levels.
    fn initialize_previous_pins(&mut self, current: &[Option<bool>])
        requires
            old(self).holds_input(),
            current@.len() == old(self).channel_initial@.len(),
        ensures
            final(self).holds_input(),
            final(self)@ == (SchedulerView {
                previous: old(self)@.levels_before(current@),
                initialized: true,
                ..old(self)@
            }),
            final(self).pending == old(self).pending,
            final(self).active_wait == old(self).active_wait,
    {
        if self.initialized_first_sample {
            return;
        }
        let ghost before = self@;
        let mut channel: usize = 0;
        while channel < self.channel_initial.len()
            invariant
                channel <= self.channel_initial@.len(),
                self.channel_initial@ == before.initial,
                current@.len() == before.initial.len(),
                self.previous_pins@.len() == before.previous.len(),
                before.previous.len() == before.initial.len(),
                before == old(self)@,
                !before.initialized,
                old(self).holds_input(),
                *self == (WaitScheduler { previous_pins: self.previous_pins, ..*old(self) }),
                forall|i: int|
                    0 <= i < self.previous_pins@.len() ==> #[trigger] self.previous_pins@[i]
                        == if i < channel {
                        before.levels_before(current@)[i]
                    } else {
                        before.previous[i]
                    },
            decreases self.channel_initial@.len() - channel,
        {
            if let Some(InitialPin::SameAsFirstSample) = self.channel_initial[channel] {
                self.previous_pins.set(channel, current[channel]);
            }
            channel += 1;
        }
        assert(self.previous_pins@ =~= before.levels_before(current@));
        self.initialized_first_sample = true;
    }

    fn scan(&mut self) -> (result: SchedulerStatus)
        requires
            old(self).holds_input(),
        ensures
            final(self).wf(),
            (final(self)@, result@) == old(self)@.scanned(),
    {
        if self.cancelled {
            return SchedulerStatus::Cancelled;
        }
        if self.active_wait.is_none() {
            return if self.end_of_stream && self.pending.is_none() {
                SchedulerStatus::EndOfStream
            } else {
                SchedulerStatus::Waiting
            };
        }
        while self.pending.is_some()
            invariant
                self.holds_input(),
                !self.cancelled,
                self.active_wait is Some,
                self@.scanned() == old(self)@.scanned(),
            decreases self@.rows.len(),
        {
            let ghost before = self@;
            let current_pins: Vec<Option<bool>> = self.current_pins();
            let absolute_sample: u64 = self.next_input_sample;
            let pins: Vec<u8> = pin_values(current_pins.as_slice());
            assert(before.rows.len() > 0);
            match self.active_wait.take() {
                None => {},
                Some(wait) => {
                    if wait.automatic {
                        return SchedulerStatus::Matched(
                            WaitMatch { sample: absolute_sample, pins, matched: None },
                        );
                    }
                    let mut wait = wait;
                    let ghost waiting = wait@.conditions;
                    self.initialize_previous_pins(current_pins.as_slice());
                    let ghost previous = self@.previous;
                    let mut matched: Vec<bool> = Vec::new();
                    let mut any: bool = false;
                    let mut index: usize = 0;
                    while index < wait.conditions.len()
                        invariant
                            index <= wait.conditions@.len(),
                            !wait.automatic,
                            wait.conditions@.len() == waiting.len(),
                            self.previous_pins@ == previous,
                            matched@ == conditions_hold(
                                waiting,
                                current_pins@,
                                previous,
                            ).take(index as int),
                            any == matched@.contains(true),
                            forall|i: int|
                                0 <= i < index ==> (#[trigger] wait.conditions@[i]).terms@
                                    == terms_looked_at(waiting[i], current_pins@, previous, 0),
                            forall|i: int|
                                index <= i < waiting.len() ==> (
                                #[trigger] wait.conditions@[i]).terms@ == waiting[i],
                        decreases waiting.len() - index,
                    {
                        let holds: bool = wait.conditions[index].matches(
                            current_pins.as_slice(),
                            self.previous_pins.as_slice(),
                        );
                        let ghost matched_before = matched@;
                        matched.push(holds);
                        proof {
                            assert(matched@ =~= conditions_hold(
                                waiting,
                                current_pins@,
                                previous,
                            ).take(index + 1));
                            if matched_before.contains(true) {
                                let k = choose|k: int|
                                    0 <= k < matched_before.len() && matched_before[k] == true;
                                assert(matched@[k]);
                            }
                            if holds {
                                assert(matched@[index as int]);
                            }
                        }
                        any = any || holds;
                        index += 1;
                    }
                    assert(matched@ =~= before.met());
                    self.previous_pins = current_pins;
                    if any {
                        let ghost after = before.scanned();
                        assert(self@ =~= after.0);
                        return SchedulerStatus::Matched(
                            WaitMatch { sample: absolute_sample, pins, matched: Some(matched) },
                        );
                    }
                    assert(wait@.conditions =~= before.passed().wait->0.conditions);
                    self.active_wait = Some(wait);
                    match self.pending.take() {
                        None => {},
                        Some(pending) => {
                            let ghost left = pending.chunk.rows(pending.next_sample as int);
                            let next_sample: usize = pending.next_sample + 1;
                            self.next_input_sample = absolute_sample + 1;
                            if next_sample < pending.chunk.sample_count {
                                self.pending = Some(
                                    PendingChunk { chunk: pending.chunk, next_sample },
                                );
                                assert(left.skip(1) =~= pending.chunk.rows(next_sample as int));
                            } else {
                                assert(left.skip(1) =~= Seq::empty());
                            }
                        },
                    }
                    assert(self@ =~= before.passed());
                },
            }
        }
        if self.end_of_stream {
            self.active_wait = None;
            SchedulerStatus::EndOfStream
        } else {
            SchedulerStatus::Waiting
        }
    }
}

/// How samples are cut into chunks does not matter: either the match comes in the first part, and
/// the second part only stays to be looked at, or looking goes on in the second part as if the
/// samples had come at once.
pub proof fn law_chunk_boundaries_do_not_matter(
    scheduler: SchedulerView,
    first: Seq<Pins>,
    second: Seq<Pins>,
)
    requires
        !scheduler.cancelled,
        !scheduler.end_of_stream,
        scheduler.wait is Some,
    ensures
        ({
            let (after_first, status_first) = scheduler.received(first).scanned();
            let whole = scheduler.received(first + second).scanned();
            if status_first is Matched {
                whole == (after_first.received(second), status_first)
            } else {
                &&& status_first is Waiting
                &&& after_first.rows.len() == 0
                &&& whole == after_first.received(second).scanned()
            }
        }),
    decreases scheduler.rows.len() + first.len(),
{
    let start = scheduler.received(first);
    assert(scheduler.received(first + second).rows =~= start.rows + second);
    assert(scheduler.received(first + second) =~= start.received(second));
    lemma_scan_extends(start, second);
}

proof fn lemma_scan_extends(start: SchedulerView, second: Seq<Pins>)
    requires
        !start.cancelled,
        !start.end_of_stream,
        start.wait is Some,
    ensures
        ({
            let (after, status) = start.scanned();
            let whole = start.received(second).scanned();
            if status is Matched {
                whole == (after.received(second), status)
            } else {
                &&& status is Waiting
                &&& after.rows.len() == 0
                &&& whole == after.received(second).scanned()
            }
        }),
    decreases start.rows.len(),
{
    let extended = start.received(second);
    if start.rows.len() > 0 {
        assert(extended.rows[0] == start.rows[0]);
        assert(extended.met() =~= start.met());
        if !start.wait->0.automatic && !start.met().contains(true) {
            assert(extended.rows.skip(1) =~= start.rows.skip(1) + second);
            assert(extended.passed() =~= start.passed().received(second));
            lemma_scan_extends(start.passed(), second);
        }
    }
}

/// The reported sample is the first that meets the request: the samples before it are looked at
/// and meet no condition.
pub proof fn law_first_matching_sample(start: SchedulerView, skipped: nat)
    requires
        !start.cancelled,
        start.wait is Some,
        start.scanned().1 is Matched,
        skipped == start.scanned().1->sample - start.next,
    ensures
        ({
            let status = start.scanned().1;
            let at = start.after_passing(skipped);
            &&& skipped < start.rows.len()
            &&& status->pins == reported_pins(start.rows[skipped as int])
            &&& status->matched == if at.wait->0.automatic {
                None
            } else {
                Some(at.met())
            }
            &&& at.wait->0.automatic || at.met().contains(true)
            &&& forall|k: nat|
                k < skipped ==> !(#[trigger] start.after_passing(k)).wait->0.automatic
                    && !start.after_passing(k).met().contains(true)
        }),
    decreases start.rows.len(),
{
    if start.rows.len() > 0 && !start.wait->0.automatic && !start.met().contains(true) {
        lemma_match_is_later(start.passed());
        law_first_matching_sample(start.passed(), (skipped - 1) as nat);
        assert forall|k: nat| k < skipped implies !(#[trigger] start.after_passing(
            k,
        )).wait->0.automatic && !start.after_passing(k).met().contains(true) by {
            if k > 0 {
                assert(start.after_passing(k) == start.passed().after_passing((k - 1) as nat));
            }
        }
    }
}

proof fn lemma_match_is_later(start: SchedulerView)
    ensures
        start.scanned().1 matches StatusView::Matched { sample, .. } ==> sample >= start.next,
    decreases start.rows.len(),
{
    if !start.cancelled && start.wait is Some && start.rows.len() > 0 && !start.wait->0.automatic
        && !start.met().contains(true) {
        lemma_match_is_later(start.passed());
    }
}

} // verus!

//! Set/reset latch over trigger streams.

use vstd::prelude::*;

use super::merge::{comes_next, earliest, no_heads};
use crate::ports::{list_ports, listed, port_views, PortKind, PortSchema};
use crate::streams::{Sample, Trigger};
use crate::text::owned;

verus! {

/// Set/reset latch. The two ordered input streams, set first and reset second, are merged
/// strictly by time. Reset comes second at ties, so a set and a reset at the same instant leave the
/// latch reset. The initial state is emitted at time zero.
#[derive(Debug)]
pub struct SrLatch {
    pub name: String,
    pub initial: bool,
    pub state: bool,
    pub started: bool,
    pub last_emit_ts: u64,
    pub heads: Vec<Option<u64>>,
    pub ended: Vec<bool>,
}

/// A latch seen through its levels.
pub struct LatchView {
    pub initial: bool,
    pub state: bool,
    pub started: bool,
    pub last_emit_ts: u64,
    pub heads: Seq<Option<u64>>,
    pub ended: Seq<bool>,
}

impl View for SrLatch {
    type V = LatchView;

    open spec fn view(&self) -> LatchView {
        LatchView {
            initial: self.initial,
            state: self.state,
            started: self.started,
            last_emit_ts: self.last_emit_ts,
            heads: self.heads@,
            ended: self.ended@,
        }
    }
}

/// What one call of the latch comes to.
#[derive(Debug, Clone, Copy, PartialEq, Eq, Structural)]
pub enum LatchStep {
    /// Both streams have ended.
    Shutdown,
    /// The event leaves the level as it is.
    Unchanged,
    Emit(Sample),
}

impl LatchView {
    /// The first stream whose next event is unknown, from one on.
    pub open spec fn waits_for(self, from: int) -> Option<int>
        decreases 2 - from,
    {
        if from < 0 || from >= 2 {
            None
        } else if self.heads[from] is None && !self.ended[from] {
            Some(from)
        } else {
            self.waits_for(from + 1)
        }
    }

    /// The latch behind its next event, and what it emits.
    pub open spec fn advanced(self, index: int) -> (LatchView, LatchStep) {
        let taken = LatchView { heads: self.heads.update(index, None), ..self };
        let time = self.heads[index]->0;
        let level = index == 0;
        let at = if time < self.last_emit_ts {
            self.last_emit_ts
        } else {
            time
        };
        if level == self.state {
            (taken, LatchStep::Unchanged)
        } else {
            (
                LatchView { state: level, last_emit_ts: at, ..taken },
                LatchStep::Emit(Sample { value: level, start_time_ns: at }),
            )
        }
    }
}

impl SrLatch {
    /// One head and one end mark for each stream.
    pub open spec fn wf(self) -> bool {
        self.heads@.len() == 2 && self.ended@.len() == 2
    }

    pub fn new(initial: bool) -> (result: Self)
        ensures
            result.wf(),
            result.name@ == "sr_latch"@,
            result@ == (LatchView {
                initial,
                state: initial,
                started: false,
                last_emit_ts: 0,
                heads: seq![None, None],
                ended: seq![false, false],
            }),
    {
        let heads: Vec<Option<u64>> = vec![None, None];
        let ended: Vec<bool> = vec![false, false];
        assert(heads@ =~= seq![None, None]);
        assert(ended@ =~= seq![false, false]);
        SrLatch {
            name: owned("sr_latch"),
            initial,
            state: initial,
            started: false,
            last_emit_ts: 0,
            heads,
            ended,
        }
    }

    pub fn with_name(self, name: String) -> (result: Self)
        ensures
            result == (SrLatch { name, ..self }),
    {
        SrLatch { name, ..self }
    }

    pub fn num_inputs(&self) -> (result: usize)
        ensures
            result == 2,
    {
        2
    }

    pub fn num_outputs(&self) -> (result: usize)
        ensures
            result == 1,
    {
        1
    }

    /// The inputs in order.
    pub fn input_schema(&self) -> (result: Vec<PortSchema>)
        ensures
            port_views(result@) == listed(seq![("set"@, PortKind::Trigger), ("reset"@, PortKind::Trigger)]),
    {
        let ports: [(&str, PortKind); 2] = [("set", PortKind::Trigger), ("reset", PortKind::Trigger)];
        let result: Vec<PortSchema> = list_ports(&ports);
        assert(port_views(result@) =~= listed(seq![("set"@, PortKind::Trigger), ("reset"@, PortKind::Trigger)]));
        result
    }

    /// The outputs in order.
    pub fn output_schema(&self) -> (result: Vec<PortSchema>)
        ensures
            port_views(result@) == listed(seq![("q"@, PortKind::Sample)]),
    {
        let ports: [(&str, PortKind); 1] = [("q", PortKind::Sample)];
        let result: Vec<PortSchema> = list_ports(&ports);
        assert(port_views(result@) =~= listed(seq![("q"@, PortKind::Sample)]));
        result
    }

    /// The initial level, the first time it is asked for.
    pub fn start(&mut self) -> (result: Option<Sample>)
        requires
            old(self).wf(),
        ensures
            final(self).name == old(self).name,
            final(self).wf(),
            if old(self).started {
                result is None && final(self)@ == old(self)@
            } else {
                result == Some(Sample { value: old(self).initial, start_time_ns: 0 }) && final(self)@ == (LatchView { started: true, state: old(self).initial, ..old(self)@ })
            },
    {
        if self.started {
            None
        } else {
            self.started = true;
            self.state = self.initial;
            Some(Sample::new(self.state, 0))
        }
    }

    /// The stream whose next event has to be fetched before the latch can go on.
    pub fn awaits(&self) -> (result: Option<usize>)
        requires
            self.wf(),
        ensures
            match result {
                Some(index) => self@.waits_for(0) == Some(index as int),
                None => self@.waits_for(0) is None,
            },
    {
        proof {
            reveal_with_fuel(LatchView::waits_for, 3);
        }
        if self.heads[0].is_none() && !self.ended[0] {
            Some(0)
        } else if self.heads[1].is_none() && !self.ended[1] {
            Some(1)
        } else {
            None
        }
    }

    /// Takes the next event of a stream, or its end.
    pub fn offer(&mut self, index: usize, event: Option<Trigger>)
        requires
            old(self).wf(),
            index < 2,
        ensures
            final(self).name == old(self).name,
            final(self).wf(),
            final(self)@ == match event {
                Some(trigger) => LatchView {
                    heads: old(self)@.heads.update(index as int, Some(trigger.timestamp_ns)),
                    ..old(self)@
                },
                None => LatchView {
                    ended: old(self)@.ended.update(index as int, true),
                    ..old(self)@
                },
            },
    {
        match event {
            Some(trigger) => {
                self.heads.set(index, Some(trigger.timestamp_ns));
            },
            None => {
                self.ended.set(index, true);
            },
        }
    }

    /// Applies the earliest event.
    pub fn advance(&mut self) -> (step: LatchStep)
        requires
            old(self).wf(),
            old(self)@.waits_for(0) is None,
        ensures
            final(self).name == old(self).name,
            final(self).wf(),
            no_heads(old(self)@.heads) ==> step == LatchStep::Shutdown && final(self)@ == old(self)@,
            !no_heads(old(self)@.heads) ==> exists|index: int| #[trigger]
                comes_next(old(self)@.heads, index) && (final(self)@, step) == old(self)@.advanced(
                    index,
                ),
    {
        let index: usize = match earliest(&self.heads) {
            Some(index) => index,
            None => return LatchStep::Shutdown,
        };
        let ghost before = self@;
        assert(comes_next(before.heads, index as int));
        let time: u64 = match self.heads[index] {
            Some(time) => time,
            None => return LatchStep::Shutdown,
        };
        self.heads.set(index, None);
        let level: bool = index == 0;
        if level == self.state {
            return LatchStep::Unchanged;
        }
        let at: u64 = if time < self.last_emit_ts {
            self.last_emit_ts
        } else {
            time
        };
        self.state = level;
        self.last_emit_ts = at;
        LatchStep::Emit(Sample::new(level, at))
    }
}

/// A set and a reset at the same instant leave the latch reset: the set is applied first, the
/// reset second.
pub proof fn law_simultaneous_set_and_reset_nets_to_reset(latch: LatchView, time: u64)
    requires
        latch.heads == seq![Some(time), Some(time)],
    ensures
        comes_next(latch.heads, 0),
        ({
            let (first, _) = latch.advanced(0);
            &&& comes_next(first.heads, 1)
            &&& !first.advanced(1).0.state
        }),
{
    let (first, _) = latch.advanced(0);
    assert(first.heads =~= seq![None, Some(time)]);
}

/// Emitted levels alternate and never go back in time.
pub proof fn law_emitted_levels_alternate_in_order(latch: LatchView, index: int)
    requires
        comes_next(latch.heads, index),
    ensures
        latch.advanced(index).1 matches LatchStep::Emit(sample) ==> sample.value != latch.state
            && sample.start_time_ns >= latch.last_emit_ts && latch.advanced(index).0.state
            == sample.value && latch.advanced(index).0.last_emit_ts == sample.start_time_ns,
{
}

} // verus!

//! Trigger counter mapping trigger events into an integer level.

use vstd::prelude::*;

use crate::ports::{list_ports, listed, port_views, PortKind, PortSchema};
use crate::streams::{NumberSample, Trigger};
use crate::text::owned;

verus! {

/// Counts triggers into an integer level: `start` at time zero, then `start + n * step` after the
/// n-th trigger.
#[derive(Debug)]
pub struct TriggerCounter {
    pub name: String,
    pub start: i64,
    pub step: i64,
    pub count: i64,
    pub started: bool,
}

impl TriggerCounter {
    /// The level behind `count` triggers.
    pub open spec fn level(self, count: int) -> int {
        self.start + count * self.step
    }

    pub fn new(start: i64, step: i64) -> (result: Self)
        ensures
            result.name@ == "trigger_counter"@,
            result.start == start,
            result.step == step,
            result.count == 0,
            !result.started,
    {
        TriggerCounter { name: owned("trigger_counter"), start, step, count: 0, started: false }
    }

    pub fn with_name(self, name: String) -> (result: Self)
        ensures
            result == (TriggerCounter { name, ..self }),
    {
        TriggerCounter { name, ..self }
    }

    pub fn num_inputs(&self) -> (result: usize)
        ensures
            result == 1,
    {
        1
    }

    pub fn num_outputs(&self) -> (result: usize)
        ensures
            result == 1,
    {
        1
    }

    /// The inputs in order.
    pub fn input_schema(&self) -> (result: Vec<PortSchema>)
        ensures
            port_views(result@) == listed(seq![("trigger"@, PortKind::Trigger)]),
    {
        let ports: [(&str, PortKind); 1] = [("trigger", PortKind::Trigger)];
        let result: Vec<PortSchema> = list_ports(&ports);
        assert(port_views(result@) =~= listed(seq![("trigger"@, PortKind::Trigger)]));
        result
    }

    /// The outputs in order.
    pub fn output_schema(&self) -> (result: Vec<PortSchema>)
        ensures
            port_views(result@) == listed(seq![("count"@, PortKind::Number)]),
    {
        let ports: [(&str, PortKind); 1] = [("count", PortKind::Number)];
        let result: Vec<PortSchema> = list_ports(&ports);
        assert(port_views(result@) =~= listed(seq![("count"@, PortKind::Number)]));
        result
    }

    /// The initial level, the first time it is asked for.
    pub fn initial(&mut self) -> (result: Option<NumberSample>)
        ensures
            *final(self) == (TriggerCounter { started: true, ..*old(self) }),
            result == if old(self).started {
                None
            } else {
                Some(NumberSample { value: old(self).start, start_time_ns: 0 })
            },
    {
        if self.started {
            None
        } else {
            self.started = true;
            Some(NumberSample::new(self.start, 0))
        }
    }

    /// Counts one trigger.
    pub fn count_trigger(&mut self, trigger: Trigger) -> (result: NumberSample)
        requires
            old(self).count < i64::MAX,
            i64::MIN <= (old(self).count + 1) * old(self).step <= i64::MAX,
            i64::MIN <= old(self).level(old(self).count + 1) <= i64::MAX,
        ensures
            *final(self) == (TriggerCounter { count: (old(self).count + 1) as i64, ..*old(self) }),
            result.value == old(self).level(old(self).count + 1),
            result.start_time_ns == trigger.timestamp_ns,
    {
        self.count = self.count + 1;
        let value: i64 = self.start + self.count * self.step;
        NumberSample::new(value, trigger.timestamp_ns)
    }
}

} // verus!

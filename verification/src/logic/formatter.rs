//! Text formatter mapping integer levels to a text level.

use vstd::prelude::*;

use super::merge::{comes_next, earliest, no_heads};
use super::template::{format_template, formatted};
use crate::ports::{
    add_port, list_ports, listed, numbered, port_views, PortKind, PortSchema,
};
use crate::streams::{NumberSample, TextSample};
use crate::text::{decimal, owned, same_text};

verus! {

/// A setting of a node.
#[derive(Debug, PartialEq, Eq)]
pub enum ConfigValue {
    Text(String),
    /// Any setting that is not a text.
    Other,
}

/// One named setting.
#[derive(Debug, PartialEq, Eq)]
pub struct ConfigEntry {
    pub key: String,
    pub value: ConfigValue,
}

/// What became of a change of settings.
#[derive(Debug, Clone, Copy, PartialEq, Eq, Structural)]
pub enum ConfigOutcome {
    Applied,
    NeedsRestart,
}

/// Whether settings hold nothing but templates.
pub open spec fn only_templates(config: Seq<ConfigEntry>) -> bool {
    forall|i: int|
        0 <= i < config.len() ==> (#[trigger] config[i]).key@ == "template"@ && config[i].value is Text
}

/// The template that settings end with.
pub open spec fn last_template(config: Seq<ConfigEntry>) -> Option<Seq<char>> {
    if config.len() == 0 {
        None
    } else {
        match config.last().value {
            ConfigValue::Text(text) => Some(text@),
            ConfigValue::Other => None,
        }
    }
}

/// The text of an option.
pub open spec fn text_of(text: Option<String>) -> Option<Seq<char>> {
    match text {
        Some(text) => Some(text@),
        None => None,
    }
}

/// Reads the template out of settings that hold nothing else.
pub fn configured_template(config: &[ConfigEntry]) -> (result: Result<Option<String>, ()>)
    ensures
        match result {
            Ok(template) => only_templates(config@) && text_of(template) == last_template(config@),
            Err(_) => !only_templates(config@),
        },
{
    let mut template: Option<String> = None;
    let mut index: usize = 0;
    while index < config.len()
        invariant
            index <= config@.len(),
            forall|i: int|
                0 <= i < index ==> (#[trigger] config@[i]).key@ == "template"@
                    && config@[i].value is Text,
            text_of(template) == last_template(config@.take(index as int)),
        decreases config@.len() - index,
    {
        let entry: &ConfigEntry = &config[index];
        if !same_text(entry.key.as_str(), "template") {
            assert(config@[index as int].key@ != "template"@);
            return Err(());
        }
        match &entry.value {
            ConfigValue::Text(text) => {
                template = Some(owned(text.as_str()));
            },
            ConfigValue::Other => {
                assert(!(config@[index as int].value is Text));
                return Err(());
            },
        }
        assert(config@.take(index + 1).last() == config@[index as int]);
        index += 1;
    }
    assert(config@.take(index as int) =~= config@);
    Ok(template)
}

/// A template that takes over at a time.
#[derive(Debug)]
pub struct ScheduledTemplate {
    pub timestamp_ns: u64,
    pub template: Option<String>,
}

/// A scheduled template seen through its text.
pub struct ScheduledView {
    pub timestamp_ns: u64,
    pub template: Option<Seq<char>>,
}

impl View for ScheduledTemplate {
    type V = ScheduledView;

    open spec fn view(&self) -> ScheduledView {
        ScheduledView { timestamp_ns: self.timestamp_ns, template: text_of(self.template) }
    }
}

/// The templates of a schedule, seen through their texts.
pub open spec fn schedule_view(scheduled: Seq<ScheduledTemplate>) -> Seq<ScheduledView> {
    scheduled.map_values(|entry: ScheduledTemplate| entry@)
}

/// Number of entries at the front of a schedule that are due at a time.
pub open spec fn due(scheduled: Seq<ScheduledView>, time: u64) -> nat
    decreases scheduled.len(),
{
    if scheduled.len() == 0 || scheduled[0].timestamp_ns > time {
        0
    } else {
        1 + due(scheduled.skip(1), time)
    }
}

/// The template behind the first `count` entries of a schedule.
pub open spec fn template_after(template: Seq<char>, scheduled: Seq<ScheduledView>, count: nat) -> Seq<
    char,
>
    decreases count,
{
    if count == 0 || scheduled.len() == 0 {
        template
    } else {
        template_after(
            match scheduled[0].template {
                Some(text) => text,
                None => template,
            },
            scheduled.skip(1),
            (count - 1) as nat,
        )
    }
}

/// Maps integer levels to one text level.
///
/// With a single input every sample gives the formatted text at the same time. With several inputs
/// the node merges them strictly by time, holds the current value of each, initially zero, and
/// gives a text whenever it changes.
#[derive(Debug)]
pub struct TextFormatter {
    pub name: String,
    pub template: String,
    pub values: Vec<i64>,
    pub heads: Vec<Option<NumberSample>>,
    pub ended: Vec<bool>,
    pub last_text: Option<String>,
    pub scheduled: Vec<ScheduledTemplate>,
}

/// A formatter seen through its texts.
pub struct FormatterView {
    pub template: Seq<char>,
    pub values: Seq<i64>,
    pub heads: Seq<Option<NumberSample>>,
    pub ended: Seq<bool>,
    pub last_text: Option<Seq<char>>,
    pub scheduled: Seq<ScheduledView>,
}

impl View for TextFormatter {
    type V = FormatterView;

    open spec fn view(&self) -> FormatterView {
        FormatterView {
            template: self.template@,
            values: self.values@,
            heads: self.heads@,
            ended: self.ended@,
            last_text: text_of(self.last_text),
            scheduled: schedule_view(self.scheduled@),
        }
    }
}

/// What one call of the formatter comes to.
#[derive(Debug)]
pub enum FormatterStep {
    /// All streams have ended.
    Shutdown,
    /// The text stays as it is.
    Unchanged,
    Emit(TextSample),
}

/// The times of the next samples.
pub open spec fn head_times(heads: Seq<Option<NumberSample>>) -> Seq<Option<u64>> {
    heads.map_values(
        |head: Option<NumberSample>|
            match head {
                Some(sample) => Some(sample.start_time_ns),
                None => None,
            },
    )
}

impl FormatterView {
    /// The formatter once the templates due at a time have taken over.
    pub open spec fn at_time(self, time: u64) -> FormatterView {
        let count = due(self.scheduled, time);
        FormatterView {
            template: template_after(self.template, self.scheduled, count),
            scheduled: self.scheduled.skip(count as int),
            ..self
        }
    }

    /// The first stream whose next sample is unknown, from one on.
    pub open spec fn waits_for(self, from: int) -> Option<int>
        decreases self.heads.len() - from,
    {
        if from < 0 || from >= self.heads.len() {
            None
        } else if self.heads[from] is None && !self.ended[from] {
            Some(from)
        } else {
            self.waits_for(from + 1)
        }
    }

    /// The formatter behind its next sample.
    pub open spec fn taken(self, index: int) -> FormatterView {
        let sample = self.heads[index]->0;
        FormatterView {
            heads: self.heads.update(index, None),
            values: self.values.update(index, sample.value),
            ..self
        }.at_time(sample.start_time_ns)
    }

    /// What the formatter makes of its next sample.
    pub open spec fn advanced(self, index: int, after: FormatterView, step: FormatterStep) -> bool {
        let taken = self.taken(index);
        let text = formatted(taken.template, taken.values);
        if self.last_text == Some(text) {
            after == taken && step == FormatterStep::Unchanged
        } else {
            &&& after == (FormatterView { last_text: Some(text), ..taken })
            &&& step matches FormatterStep::Emit(sample) && sample.value@ == text
                && sample.start_time_ns == self.heads[index]->0.start_time_ns
        }
    }
}

/// The name of an input.
pub open spec fn input_name(index: int) -> Seq<char> {
    if index == 0 {
        "value"@
    } else {
        "value"@ + decimal(index as nat)
    }
}

impl TextFormatter {
    /// One value, one head and one end mark for each stream, and at least one stream.
    pub open spec fn wf(self) -> bool {
        &&& self.values@.len() >= 1
        &&& self.heads@.len() == self.values@.len()
        &&& self.ended@.len() == self.values@.len()
    }

    /// A formatter with one input.
    pub fn new(template: String) -> (result: Self)
        ensures
            result.wf(),
            result.name@ == "text_formatter"@,
            result.template == template,
            result.values@ == seq![0i64],
            result.last_text is None,
            result.scheduled@.len() == 0,
    {
        let result: TextFormatter = Self::with_num_values(template, 1);
        assert(result.values@ =~= seq![0i64]);
        result
    }

    /// A formatter over several inputs, at least one.
    pub fn with_num_values(template: String, num_values: usize) -> (result: Self)
        ensures
            result.wf(),
            result.name@ == "text_formatter"@,
            result.template == template,
            result.values@.len() == (if num_values == 0 {
                1
            } else {
                num_values as int
            }),
            forall|i: int| 0 <= i < result.values@.len() ==> #[trigger] result.values@[i] == 0,
            forall|i: int| 0 <= i < result.heads@.len() ==> (#[trigger] result.heads@[i]) is None,
            forall|i: int| 0 <= i < result.ended@.len() ==> !#[trigger] result.ended@[i],
            result.last_text is None,
            result.scheduled@.len() == 0,
    {
        let count: usize = if num_values == 0 {
            1
        } else {
            num_values
        };
        TextFormatter {
            name: owned("text_formatter"),
            template,
            values: vec![0i64; count],
            heads: vec![None; count],
            ended: vec![false; count],
            last_text: None,
            scheduled: Vec::new(),
        }
    }

    pub fn with_name(self, name: String) -> (result: Self)
        ensures
            result == (TextFormatter { name, ..self }),
    {
        TextFormatter { name, ..self }
    }

    pub fn num_inputs(&self) -> (result: usize)
        ensures
            result == self.values@.len(),
    {
        self.values.len()
    }

    pub fn num_outputs(&self) -> (result: usize)
        ensures
            result == 1,
    {
        1
    }

    /// The outputs in order.
    pub fn output_schema(&self) -> (result: Vec<PortSchema>)
        ensures
            port_views(result@) == listed(seq![("text"@, PortKind::Text)]),
    {
        let ports: [(&str, PortKind); 1] = [("text", PortKind::Text)];
        let result: Vec<PortSchema> = list_ports(&ports);
        assert(port_views(result@) =~= listed(seq![("text"@, PortKind::Text)]));
        result
    }

    /// The name of an input.
    pub fn port_name(index: usize) -> (result: String)
        ensures
            result@ == input_name(index as int),
    {
        if index == 0 {
            owned("value")
        } else {
            numbered("value", index)
        }
    }

    /// The inputs in order.
    pub fn input_schema(&self) -> (result: Vec<PortSchema>)
        ensures
            port_views(result@) == listed(
                Seq::new(self.values@.len(), |i: int| (input_name(i), PortKind::Number)),
            ),
    {
        let count: usize = self.values.len();
        let ghost all = listed(
            Seq::new(self.values@.len(), |i: int| (input_name(i), PortKind::Number)),
        );
        let mut result: Vec<PortSchema> = Vec::new();
        assert(port_views(result@) =~= all.take(0));
        while result.len() < count
            invariant
                count == self.values@.len(),
                all == listed(
                    Seq::new(self.values@.len(), |i: int| (input_name(i), PortKind::Number)),
                ),
                result@.len() <= count,
                port_views(result@) == all.take(result@.len() as int),
            decreases count - result@.len(),
        {
            let index: usize = result.len();
            add_port(&mut result, Self::port_name(index), PortKind::Number);
            assert(all.take(index as int).push(all[index as int]) =~= all.take(index + 1));
        }
        assert(all.take(count as int) =~= all);
        result
    }

    /// Changes the template for the values to come. Other settings need a restart.
    pub fn apply_config(&mut self, config: &[ConfigEntry]) -> (result: ConfigOutcome)
        ensures
            final(self).name == old(self).name,
            only_templates(config@) ==> result == ConfigOutcome::Applied && final(self)@ == (
            FormatterView {
                template: match last_template(config@) {
                    Some(text) => text,
                    None => old(self)@.template,
                },
                ..old(self)@
            }),
            !only_templates(config@) ==> result == ConfigOutcome::NeedsRestart && final(self)@
                == old(self)@,
    {
        match configured_template(config) {
            Ok(Some(template)) => {
                self.template = template;
                ConfigOutcome::Applied
            },
            Ok(None) => ConfigOutcome::Applied,
            Err(_) => ConfigOutcome::NeedsRestart,
        }
    }

    /// Changes the template from a time on. A time before the last scheduled one needs a restart.
    pub fn schedule_config(&mut self, config: &[ConfigEntry], timestamp_ns: u64) -> (result:
        ConfigOutcome)
        ensures
            final(self).name == old(self).name,
            ({
                let scheduled = old(self)@.scheduled;
                let late = scheduled.len() > 0 && scheduled.last().timestamp_ns > timestamp_ns;
                if !only_templates(config@) || late {
                    result == ConfigOutcome::NeedsRestart && final(self)@ == old(self)@
                } else {
                    result == ConfigOutcome::Applied && final(self)@ == (FormatterView {
                        scheduled: scheduled.push(
                            ScheduledView { timestamp_ns, template: last_template(config@) },
                        ),
                        ..old(self)@
                    })
                }
            }),
    {
        let template: Option<String> = match configured_template(config) {
            Ok(template) => template,
            Err(_) => return ConfigOutcome::NeedsRestart,
        };
        let count: usize = self.scheduled.len();
        if count > 0 && self.scheduled[count - 1].timestamp_ns > timestamp_ns {
            assert(schedule_view(self.scheduled@).last().timestamp_ns > timestamp_ns);
            return ConfigOutcome::NeedsRestart;
        }
        let ghost before = self.scheduled@;
        self.scheduled.push(ScheduledTemplate { timestamp_ns, template });
        proof {
            assert(schedule_view(self.scheduled@) =~= schedule_view(before).push(
                ScheduledView { timestamp_ns, template: last_template(config@) },
            ));
        }
        ConfigOutcome::Applied
    }

    /// Lets the templates that are due take over.
    fn apply_scheduled_templates(&mut self, time: u64)
        ensures
            final(self).name == old(self).name,
            final(self)@ == old(self)@.at_time(time),
            final(self).heads == old(self).heads,
            final(self).values == old(self).values,
            final(self).ended == old(self).ended,
            final(self).last_text == old(self).last_text,
    {
        let ghost start = self@;
        let ghost mut passed: nat = 0;
        assert(start.scheduled.skip(0) =~= start.scheduled);
        while self.scheduled.len() > 0 && self.scheduled[0].timestamp_ns <= time
            invariant
                self.name == old(self).name,
                self.heads == old(self).heads,
                self.values == old(self).values,
                self.ended == old(self).ended,
                self.last_text == old(self).last_text,
                start == old(self)@,
                passed <= start.scheduled.len(),
                self@.scheduled == start.scheduled.skip(passed as int),
                due(start.scheduled, time) == passed + due(self@.scheduled, time),
                template_after(start.template, start.scheduled, due(start.scheduled, time))
                    == template_after(
                    self@.template,
                    self@.scheduled,
                    due(self@.scheduled, time),
                ),
            decreases self.scheduled@.len(),
        {
            let ghost before = self@.scheduled;
            let entry: ScheduledTemplate = self.scheduled.remove(0);
            proof {
                assert(before[0] == entry@);
                assert(self@.scheduled =~= before.skip(1));
                assert(before.skip(1) =~= start.scheduled.skip((passed + 1) as int));
                passed = passed + 1;
            }
            match entry.template {
                Some(template) => {
                    self.template = template;
                },
                None => {},
            }
        }
        proof {
            assert(self.scheduled@.len() > 0 ==> self@.scheduled[0] == self.scheduled@[0]@);
            assert(due(self@.scheduled, time) == 0);
        }
    }

    /// Formats one sample of the only input.
    pub fn format_single(&mut self, number: NumberSample) -> (result: TextSample)
        requires
            old(self).wf(),
        ensures
            final(self).name == old(self).name,
            final(self).wf(),
            final(self)@ == old(self)@.at_time(number.start_time_ns),
            result.value@ == formatted(final(self)@.template, seq![number.value]),
            result.start_time_ns == number.start_time_ns,
    {
        self.apply_scheduled_templates(number.start_time_ns);
        let values: Vec<i64> = vec![number.value];
        assert(values@ =~= seq![number.value]);
        let text: String = format_template(self.template.as_str(), values.as_slice());
        TextSample::new(text, number.start_time_ns)
    }

    /// The stream whose next sample has to be fetched before the formatter can go on.
    pub fn awaits(&self) -> (result: Option<usize>)
        requires
            self.wf(),
        ensures
            match result {
                Some(index) => self@.waits_for(0) == Some(index as int) && index
                    < self.values@.len(),
                None => self@.waits_for(0) is None,
            },
    {
        let mut index: usize = 0;
        while index < self.heads.len()
            invariant
                self.wf(),
                index <= self.heads@.len(),
                self@.waits_for(0) == self@.waits_for(index as int),
            decreases self.heads@.len() - index,
        {
            if self.heads[index].is_none() && !self.ended[index] {
                return Some(index);
            }
            index += 1;
        }
        None
    }

    /// Takes the next sample of a stream, or its end.
    pub fn offer(&mut self, index: usize, sample: Option<NumberSample>)
        requires
            old(self).wf(),
            index < old(self).values@.len(),
        ensures
            final(self).name == old(self).name,
            final(self).wf(),
            final(self)@ == match sample {
                Some(sample) => FormatterView {
                    heads: old(self)@.heads.update(index as int, Some(sample)),
                    ..old(self)@
                },
                None => FormatterView {
                    ended: old(self)@.ended.update(index as int, true),
                    ..old(self)@
                },
            },
    {
        match sample {
            Some(sample) => {
                self.heads.set(index, Some(sample));
            },
            None => {
                self.ended.set(index, true);
            },
        }
    }

    fn times(&self) -> (result: Vec<Option<u64>>)
        ensures
            result@ == head_times(self.heads@),
    {
        let mut result: Vec<Option<u64>> = Vec::new();
        let mut index: usize = 0;
        while index < self.heads.len()
            invariant
                index <= self.heads@.len(),
                result@ == head_times(self.heads@).take(index as int),
            decreases self.heads@.len() - index,
        {
            result.push(
                match self.heads[index] {
                    Some(sample) => Some(sample.start_time_ns),
                    None => None,
                },
            );
            proof {
                let times = head_times(self.heads@);
                assert(times.take(index as int).push(times[index as int]) =~= times.take(
                    index + 1,
                ));
            }
            index += 1;
        }
        assert(head_times(self.heads@).take(index as int) =~= head_times(self.heads@));
        result
    }

    /// Takes the earliest sample of several inputs into account.
    pub fn advance(&mut self) -> (step: FormatterStep)
        requires
            old(self).wf(),
            old(self)@.waits_for(0) is None,
        ensures
            final(self).name == old(self).name,
            final(self).wf(),
            no_heads(head_times(old(self)@.heads)) ==> step == FormatterStep::Shutdown && final(self)@ == old(self)@,
            !no_heads(head_times(old(self)@.heads)) ==> exists|index: int| #[trigger]
                comes_next(head_times(old(self)@.heads), index) && old(self)@.advanced(
                    index,
                    final(self)@,
                    step,
                ),
    {
        let times: Vec<Option<u64>> = self.times();
        let index: usize = match earliest(&times) {
            Some(index) => index,
            None => return FormatterStep::Shutdown,
        };
        let ghost before = self@;
        assert(comes_next(head_times(before.heads), index as int));
        let sample: NumberSample = match self.heads[index] {
            Some(sample) => sample,
            None => return FormatterStep::Shutdown,
        };
        self.heads.set(index, None);
        self.values.set(index, sample.value);
        self.apply_scheduled_templates(sample.start_time_ns);
        assert(self@ == before.taken(index as int));
        let text: String = format_template(self.template.as_str(), self.values.as_slice());
        let same: bool = match &self.last_text {
            Some(last) => same_text(last.as_str(), text.as_str()),
            None => false,
        };
        if same {
            return FormatterStep::Unchanged;
        }
        self.last_text = Some(owned(text.as_str()));
        FormatterStep::Emit(TextSample::new(text, sample.start_time_ns))
    }
}

/// A scheduled template leaves the values before its time on the old one: as long as the first
/// scheduled time lies ahead, nothing takes over.
pub proof fn law_scheduled_template_waits_for_its_time(formatter: FormatterView, time: u64)
    requires
        formatter.scheduled.len() > 0,
        formatter.scheduled[0].timestamp_ns > time,
    ensures
        formatter.at_time(time) == formatter,
{
    assert(formatter.scheduled.skip(0) =~= formatter.scheduled);
}

/// From its time on a scheduled template is the one in force, until another is due.
pub proof fn law_scheduled_template_takes_over(
    formatter: FormatterView,
    text: Seq<char>,
    boundary: u64,
    time: u64,
)
    requires
        formatter.scheduled == seq![
            ScheduledView { timestamp_ns: boundary, template: Some(text) },
        ],
        boundary <= time,
    ensures
        formatter.at_time(time).template == text,
        formatter.at_time(time).scheduled.len() == 0,
{
    let rest = formatter.scheduled.skip(1);
    assert(rest.len() == 0);
    assert(due(rest, time) == 0);
    assert(due(formatter.scheduled, time) == 1);
    assert(template_after(text, rest, 0) == text);
}

} // verus!

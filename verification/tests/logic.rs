//! Formatter, latch and counter.

use logic_analyzer_processing::logic::formatter::{
    configured_template, ConfigEntry, ConfigOutcome, ConfigValue, FormatterStep, TextFormatter,
};
use logic_analyzer_processing::logic::merge::earliest;
use logic_analyzer_processing::logic::sr_latch::{LatchStep, SrLatch};
use logic_analyzer_processing::logic::template::format_template;
use logic_analyzer_processing::logic::trigger_counter::TriggerCounter;
use logic_analyzer_processing::streams::{NumberSample, Sample, TextSample, Trigger};

#[test]
fn template_substitution() {
    assert_eq!(format_template("capture_{n}.bin", &[7]), "capture_7.bin");
    assert_eq!(
        format_template("out/capture_{n:04}.bin", &[7]),
        "out/capture_0007.bin"
    );
    assert_eq!(format_template("{n:04}_{n}", &[42]), "0042_42");
    assert_eq!(format_template("no placeholders", &[1]), "no placeholders");
    assert_eq!(format_template("odd {x} braces", &[1]), "odd {x} braces");
    assert_eq!(format_template("unclosed {n", &[1]), "unclosed {n");
    assert_eq!(format_template("{n:04}", &[-3]), "-003");
    // Indexed placeholders.
    assert_eq!(format_template("{0}-{1:03}", &[7, 9]), "7-009");
    assert_eq!(format_template("{2} missing", &[7, 9]), "{2} missing");
}

#[test]
fn templates_keep_what_is_no_placeholder() {
    assert_eq!(format_template("", &[1]), "");
    assert_eq!(format_template("{}", &[1]), "{}");
    assert_eq!(format_template("é {n} ü", &[i64::MIN]), "é -9223372036854775808 ü");
}

fn text(value: &str, start_time_ns: u64) -> TextSample {
    TextSample::new(value.to_string(), start_time_ns)
}

/// Runs a formatter over streams that have all arrived.
fn format_streams(formatter: &mut TextFormatter, streams: &[Vec<NumberSample>]) -> Vec<TextSample> {
    let mut streams: Vec<_> = streams.iter().map(|stream| stream.iter().copied()).collect();
    if streams.len() == 1 {
        return streams[0].by_ref().map(|number| formatter.format_single(number)).collect();
    }
    let mut texts = Vec::new();
    loop {
        while let Some(index) = formatter.awaits() {
            formatter.offer(index, streams[index].next());
        }
        match formatter.advance() {
            FormatterStep::Shutdown => return texts,
            FormatterStep::Unchanged => {}
            FormatterStep::Emit(sample) => texts.push(sample),
        }
    }
}

#[test]
fn maps_levels_to_text() {
    let mut formatter = TextFormatter::new("capture_{n:04}.bin".to_string());
    assert_eq!(
        format_streams(
            &mut formatter,
            &[vec![NumberSample::new(0, 0), NumberSample::new(1, 500)]]
        ),
        vec![text("capture_0000.bin", 0), text("capture_0001.bin", 500)]
    );
}

#[test]
fn merges_multiple_value_levels() {
    let mut formatter = TextFormatter::with_num_values("{0}/{1}".to_string(), 2);
    // Input 0: 0@0, 1@300. Input 1: 5@0, 6@200.
    let streams = [
        vec![NumberSample::new(0, 0), NumberSample::new(1, 300)],
        vec![NumberSample::new(5, 0), NumberSample::new(6, 200)],
    ];
    assert_eq!(
        format_streams(&mut formatter, &streams),
        vec![
            text("0/0", 0), // input 0's t=0 initial
            text("0/5", 0), // input 1's t=0 initial
            text("0/6", 200),
            text("1/6", 300),
        ]
    );
}

fn template_entry(template: &str) -> ConfigEntry {
    ConfigEntry {
        key: "template".to_string(),
        value: ConfigValue::Text(template.to_string()),
    }
}

#[test]
fn scheduled_template_keeps_queued_values_before_boundary_on_old_config() {
    let mut formatter = TextFormatter::new("old:{n}".to_string());
    assert_eq!(
        formatter.schedule_config(&[template_entry("new:{n}")], 200),
        ConfigOutcome::Applied
    );
    let numbers = vec![
        NumberSample::new(1, 100),
        NumberSample::new(2, 199),
        NumberSample::new(3, 200),
    ];
    assert_eq!(
        format_streams(&mut formatter, &[numbers]),
        vec![text("old:1", 100), text("old:2", 199), text("new:3", 200)]
    );
}

#[test]
fn settings_other_than_templates_need_a_restart() {
    let mut formatter = TextFormatter::new("{n}".to_string());
    let other = ConfigEntry {
        key: "num_values".to_string(),
        value: ConfigValue::Other,
    };
    assert_eq!(
        formatter.apply_config(&[other]),
        ConfigOutcome::NeedsRestart
    );
    assert_eq!(formatter.template, "{n}");
    assert_eq!(
        formatter.apply_config(&[template_entry("<{n}>")]),
        ConfigOutcome::Applied
    );
    assert_eq!(
        formatter.format_single(NumberSample::new(4, 1)),
        text("<4>", 1)
    );
    assert_eq!(configured_template(&[]), Ok(None));
}

#[test]
fn a_schedule_cannot_go_back() {
    let mut formatter = TextFormatter::new("{n}".to_string());
    assert_eq!(
        formatter.schedule_config(&[template_entry("a")], 200),
        ConfigOutcome::Applied
    );
    assert_eq!(
        formatter.schedule_config(&[template_entry("b")], 100),
        ConfigOutcome::NeedsRestart
    );
}

#[test]
fn ports_are_named_by_number() {
    assert_eq!(TextFormatter::port_name(0), "value");
    assert_eq!(TextFormatter::port_name(2), "value2");
    assert_eq!(TextFormatter::with_num_values("".to_string(), 0).num_inputs(), 1);
}

#[test]
fn the_earliest_head_comes_next() {
    assert_eq!(earliest(&vec![None, Some(5), Some(3), Some(3)]), Some(2));
    assert_eq!(earliest(&vec![None, None]), None);
}

fn run_latch(set: &[u64], reset: &[u64], latch: &mut SrLatch) -> Vec<Sample> {
    let mut streams = [set.iter(), reset.iter()];
    let mut edges: Vec<Sample> = latch.start().into_iter().collect();
    assert!(latch.start().is_none());
    loop {
        while let Some(index) = latch.awaits() {
            latch.offer(index, streams[index].next().map(|&time| Trigger::new(time)));
        }
        match latch.advance() {
            LatchStep::Shutdown => return edges,
            LatchStep::Unchanged => {}
            LatchStep::Emit(sample) => edges.push(sample),
        }
    }
}

#[test]
fn set_reset_cycle() {
    let edges = run_latch(&[100, 300], &[200], &mut SrLatch::new(false));
    assert_eq!(
        edges,
        vec![
            Sample::new(false, 0),
            Sample::new(true, 100),
            Sample::new(false, 200),
            Sample::new(true, 300),
        ]
    );
}

#[test]
fn redundant_sets_do_not_emit() {
    let edges = run_latch(&[100, 150], &[], &mut SrLatch::new(false));
    assert_eq!(edges, vec![Sample::new(false, 0), Sample::new(true, 100)]);
}

#[test]
fn simultaneous_set_reset_nets_to_reset() {
    let edges = run_latch(&[100], &[100], &mut SrLatch::new(false));
    // Both edges are emitted at 100ns; the net state is false.
    assert_eq!(edges.first(), Some(&Sample::new(false, 0)));
    assert_eq!(edges.last(), Some(&Sample::new(false, 100)));
}

#[test]
fn initial_state_true() {
    let edges = run_latch(&[], &[], &mut SrLatch::new(true));
    assert_eq!(edges, vec![Sample::new(true, 0)]);
}

fn run_counter(counter: &mut TriggerCounter, triggers: &[u64]) -> Vec<NumberSample> {
    let mut levels: Vec<NumberSample> = counter.initial().into_iter().collect();
    for &time in triggers {
        levels.push(counter.count_trigger(Trigger::new(time)));
    }
    assert!(counter.initial().is_none());
    levels
}

#[test]
fn counts_from_start_with_initial_level() {
    let levels = run_counter(&mut TriggerCounter::new(0, 1), &[100, 200, 300]);
    assert_eq!(
        levels,
        vec![
            NumberSample::new(0, 0),
            NumberSample::new(1, 100),
            NumberSample::new(2, 200),
            NumberSample::new(3, 300),
        ]
    );
}

#[test]
fn custom_start_and_step() {
    let levels = run_counter(&mut TriggerCounter::new(10, 5), &[50]);
    assert_eq!(
        levels,
        vec![NumberSample::new(10, 0), NumberSample::new(15, 50)]
    );
}

#[test]
fn no_triggers_emits_initial_only() {
    let levels = run_counter(&mut TriggerCounter::new(0, 1), &[]);
    assert_eq!(levels, vec![NumberSample::new(0, 0)]);
}

#[test]
fn a_template_can_be_formatted_in_parts() {
    let (first, second) = ("run {n:03}/", "{x}_{n}.bin {");
    assert_eq!(
        format_template(&format!("{first}{second}"), &[42]),
        format!(
            "{}{}",
            format_template(first, &[42]),
            format_template(second, &[42])
        )
    );
    assert_eq!(
        format_template(&format!("{first}{second}"), &[42]),
        "run 042/{x}_42.bin {"
    );
}

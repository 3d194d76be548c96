//! The authored demonstration capture and the deterministic acquisition.

use logic_analyzer_processing::bits::get_packed_bit;
use logic_analyzer_processing::bits::pack;
use logic_analyzer_processing::streams::Sample;
use logic_analyzer_processing::synthetic_capture_source::acquisition_run::{
    closing_notices, preparing_notices, CaptureAcquisitionPhase, CaptureCompletion,
    CaptureSessionState, DeterministicFakeController, FakeControlState, FakeRun, FakeWake, Notice,
    RunStep,
};
use logic_analyzer_processing::synthetic_capture_source::demo::{
    demo_channels, edges, SyntheticCaptureSource, CHANNEL_COUNT, CYCLE_COUNT, SAMPLE_COUNT,
    TIMESTAMP_STEP_NS,
};
use logic_analyzer_processing::synthetic_capture_source::live_acquisition::{
    AcquisitionError, DeterministicFakeConfig, PackedChunk,
};
use logic_analyzer_processing::synthetic_capture_source::trigger::{
    DeterministicTrigger, DeterministicTriggerCount, DeterministicTriggerCountMode,
    DeterministicTriggerLogic, DeterministicTriggerPredicate, DeterministicTriggerStage,
    SimpleTriggerCondition,
};

#[test]
fn capture_spans_one_minute_with_repeated_activity() {
    let channels = demo_channels();
    assert_eq!(channels.len(), CHANNEL_COUNT);
    assert!(channels.iter().all(|channel| channel.len() == SAMPLE_COUNT));
    assert_eq!(edges(&channels[10]).len(), 579); // initial + 288 strobes + endpoint pulse
    assert_eq!(
        edges(&channels[8])
            .iter()
            .filter(|sample| !sample.value)
            .count(),
        24
    );
    assert_eq!(
        edges(&channels[10]).last().unwrap().start_time_ns,
        59_999_000_000
    );
}

#[test]
fn packed_and_edge_views_describe_the_same_signal() {
    for values in demo_channels() {
        let block = pack(&values);
        for sample in edges(&values) {
            let position = sample.start_time_ns / TIMESTAMP_STEP_NS;
            assert_eq!(get_packed_bit(&block, position as usize), sample.value);
        }
    }
}

#[test]
fn capture_carries_the_documented_parallel_and_spi_words() {
    let channels = demo_channels();
    let parallel = edges(&channels[10])
        .into_iter()
        .filter(|sample| sample.value)
        .map(|sample| {
            let position = (sample.start_time_ns / TIMESTAMP_STEP_NS) as usize;
            channels
                .iter()
                .take(8)
                .enumerate()
                .fold(0u8, |word, (bit, channel)| {
                    word | (u8::from(channel[position]) << bit)
                })
        })
        .collect::<Vec<_>>();
    let cycle_parallel = [
        0x10, 0x23, 0x45, 0x67, 0x89, 0xab, 0xcd, 0xef, 0x55, 0xaa, 0x0f, 0xf0, 0x3c, 0xc3, 0x5a,
        0xa5, 0x01, 0x02, 0x04, 0x08, 0x10, 0x20, 0x40, 0x80,
    ];
    assert_eq!(
        &parallel[..cycle_parallel.len() * CYCLE_COUNT],
        cycle_parallel.repeat(CYCLE_COUNT)
    );

    let spi_words = |data_channel: usize| {
        edges(&channels[7])
            .into_iter()
            .filter(|sample| sample.value)
            .filter(|sample| {
                let position = (sample.start_time_ns / TIMESTAMP_STEP_NS) as usize;
                !channels[8][position]
            })
            .map(|sample| {
                let position = (sample.start_time_ns / TIMESTAMP_STEP_NS) as usize;
                channels[data_channel][position]
            })
            .collect::<Vec<_>>()
            .chunks_exact(8)
            .map(|bits| {
                bits.iter()
                    .fold(0u8, |word, bit| (word << 1) | u8::from(*bit))
            })
            .collect::<Vec<_>>()
    };
    assert_eq!(
        spi_words(6),
        [0x9a, 0xbc, 0x42, 0xde, 0xad].repeat(CYCLE_COUNT)
    );
    assert_eq!(
        spi_words(5),
        [0x11, 0x22, 0x33, 0xbe, 0xef].repeat(CYCLE_COUNT)
    );
}

#[test]
fn the_source_emits_its_capture_once() {
    let mut source = SyntheticCaptureSource::new().with_channel_count(14);
    assert_eq!(source.num_inputs(), 0);
    assert_eq!(source.num_outputs(), 28);
    let output = source.work().unwrap();
    let channels = demo_channels();
    assert_eq!(output.edges.len(), 14);
    assert_eq!(output.edges[12], edges(&channels[12 % CHANNEL_COUNT]));
    assert_eq!(output.blocks[10].data, pack(&channels[10]));
    assert_eq!(output.blocks[10].num_samples, SAMPLE_COUNT);
    assert!(source.work().is_none());

    assert_eq!(SyntheticCaptureSource::default().name, "synthetic_capture_source");
    assert_eq!(SyntheticCaptureSource::preview_channels().len(), CHANNEL_COUNT);
    assert_eq!(SyntheticCaptureSource::preview_channels_with_count(0).len(), 1);
    assert_eq!(SyntheticCaptureSource::preview_channels_with_count(99).len(), 32);
    assert_eq!(
        SyntheticCaptureSource::preview_channels()[8][0],
        Sample::new(true, 0)
    );
}

fn config() -> DeterministicFakeConfig {
    DeterministicFakeConfig::new(
        vec![
            "bank-a:7".to_string(),
            "bank-c:2".to_string(),
            "aux:19".to_string(),
        ],
        vec![3, 5, 2, 7, 4],
        0x5a17,
    )
    .unwrap()
}

fn predicate(channel: usize, condition: SimpleTriggerCondition) -> DeterministicTriggerPredicate {
    DeterministicTriggerPredicate { channel, condition }
}

fn stage(
    logic: DeterministicTriggerLogic,
    predicates: Vec<DeterministicTriggerPredicate>,
) -> DeterministicTriggerStage {
    DeterministicTriggerStage {
        predicates,
        logic,
        inverted: false,
        count: None,
    }
}

/// Runs an acquisition to its end; gives its chunks, its notices and what it came to.
fn acquire(
    config: &DeterministicFakeConfig,
    control: &mut FakeControlState,
) -> (Vec<PackedChunk>, Vec<Notice>, FakeRun) {
    let (mut run, first) = FakeRun::begin(config);
    let mut chunks = Vec::new();
    let mut notices = vec![first];
    while !run.is_complete(config) {
        let Some(wake) = control.wait_for_chunk() else {
            control.request_stop();
            continue;
        };
        match run.wake(config, wake).unwrap() {
            RunStep::Notices(more) => notices.extend(more),
            RunStep::Chunk(chunk, more) => {
                chunks.push(chunk);
                notices.extend(more);
            }
            RunStep::Finish => break,
        }
    }
    (chunks, notices, run)
}

fn states(notices: &[Notice]) -> Vec<CaptureSessionState> {
    notices
        .iter()
        .filter_map(|notice| match notice {
            Notice::Status(state, _) => Some(*state),
            _ => None,
        })
        .collect()
}

#[test]
fn lifecycle_reconstructs_exact_samples_with_bounded_queues() {
    let config = config();
    let (chunks, notices, run) = acquire(&config, &mut FakeControlState::new(false));
    let mut received = 0_usize;
    let mut start_sample = 0;
    for chunk in &chunks {
        assert_eq!(chunk.sequence, received as u64);
        assert_eq!(chunk.start_sample, start_sample);
        for sample in 0..chunk.sample_count {
            for channel in 0..config.channels().len() {
                assert_eq!(
                    chunk.packed_level(sample, channel),
                    Some(config.level_at(chunk.start_sample + sample, channel))
                );
            }
        }
        start_sample += chunk.sample_count;
        received += 1;
    }
    let outcome = run.finish(&config, false);
    assert_eq!(outcome.captured_samples, config.total_samples());
    assert_eq!(
        outcome.chunk_count as usize,
        config.chunk_sample_counts().len()
    );
    assert!(!outcome.stopped);
    assert_eq!(outcome.completion, CaptureCompletion::Finished);
    assert_eq!(received, config.chunk_sample_counts().len());
    assert_eq!(states(&notices), [CaptureSessionState::Recording]);
    assert!(notices.iter().all(|notice| !matches!(notice, Notice::Triggered(_))));
}

#[test]
fn manual_stop_is_idempotent_and_finishes_at_an_exact_chunk_boundary() {
    let config = config();
    let mut controller = DeterministicFakeController {
        control: FakeControlState::new(true),
    };
    controller.grant_chunks(2);
    let (mut run, _) = FakeRun::begin(&config);
    let mut sequences = Vec::new();
    while let Some(wake) = controller.control.wait_for_chunk() {
        let RunStep::Chunk(chunk, _) = run.wake(&config, wake).unwrap() else {
            panic!("a chunk was granted");
        };
        sequences.push(chunk.sequence);
    }
    controller.control.request_stop();
    controller.control.request_stop();
    assert_eq!(controller.control.wait_for_chunk(), Some(FakeWake::Stop));
    assert!(matches!(
        run.wake(&config, FakeWake::Stop),
        Ok(RunStep::Finish)
    ));
    let outcome = run.finish(&config, false);

    assert_eq!(sequences, [0, 1]);
    assert_eq!(outcome.chunk_count, 2);
    assert_eq!(outcome.captured_samples, 8);
    assert!(outcome.stopped);
    assert_eq!(outcome.completion, CaptureCompletion::Stopped);
}

#[test]
fn portable_conditions_publish_the_exact_deterministic_trigger_sample() {
    for (condition, expected) in [
        (SimpleTriggerCondition::Low, 2),
        (SimpleTriggerCondition::High, 0),
        (SimpleTriggerCondition::Rising, 3),
        (SimpleTriggerCondition::Falling, 2),
        (SimpleTriggerCondition::Either, 2),
    ] {
        let config = config()
            .with_simple_trigger(&[Some(condition), None, None])
            .unwrap();
        assert_eq!(config.first_trigger_sample(), Some(expected));
        let (_, notices, _) = acquire(&config, &mut FakeControlState::new(false));
        let actual: Vec<u64> = notices
            .iter()
            .filter_map(|notice| match notice {
                Notice::Triggered(sample) => Some(*sample),
                _ => None,
            })
            .collect();
        assert_eq!(actual, [expected], "condition {condition:?}");
        let states = states(&notices);
        assert!(states.windows(2).any(|states| {
            states == [CaptureSessionState::Armed, CaptureSessionState::Triggered]
        }));
        assert!(states.windows(2).any(|states| {
            states
                == [
                    CaptureSessionState::Triggered,
                    CaptureSessionState::Recording,
                ]
        }));
    }
}

#[test]
fn staged_trigger_executes_every_logic_operator_and_inversion() {
    let predicates = || {
        vec![
            predicate(0, SimpleTriggerCondition::High),
            predicate(2, SimpleTriggerCondition::High),
        ]
    };
    for (logic, expected) in [
        (DeterministicTriggerLogic::And, 1),
        (DeterministicTriggerLogic::Or, 0),
        (DeterministicTriggerLogic::Xor, 0),
        (DeterministicTriggerLogic::Nand, 0),
        (DeterministicTriggerLogic::Nor, 11),
    ] {
        let configured = config()
            .with_trigger(Some(DeterministicTrigger {
                stages: vec![stage(logic, predicates())],
            }))
            .unwrap();
        assert_eq!(
            configured.first_trigger_sample(),
            Some(expected),
            "{logic:?}"
        );
    }

    let mut inverted = stage(DeterministicTriggerLogic::Or, predicates());
    inverted.inverted = true;
    let configured = config()
        .with_trigger(Some(DeterministicTrigger {
            stages: vec![inverted],
        }))
        .unwrap();
    assert_eq!(configured.first_trigger_sample(), Some(11));
}

#[test]
fn staged_trigger_counts_and_stage_progress_cross_chunk_boundaries() {
    let high = || vec![predicate(0, SimpleTriggerCondition::High)];
    let mut occurrences = stage(DeterministicTriggerLogic::And, high());
    occurrences.count = Some(DeterministicTriggerCount {
        mode: DeterministicTriggerCountMode::Occurrences,
        value: 2,
    });
    let configured = config()
        .with_trigger(Some(DeterministicTrigger {
            stages: vec![occurrences],
        }))
        .unwrap();
    assert_eq!(configured.chunk_sample_counts()[0], 3);
    assert_eq!(configured.first_trigger_sample(), Some(3));

    let mut consecutive = stage(DeterministicTriggerLogic::And, high());
    consecutive.count = Some(DeterministicTriggerCount {
        mode: DeterministicTriggerCountMode::Consecutive,
        value: 2,
    });
    let configured = config()
        .with_trigger(Some(DeterministicTrigger {
            stages: vec![consecutive],
        }))
        .unwrap();
    assert_eq!(configured.first_trigger_sample(), Some(1));

    let configured = config()
        .with_trigger(Some(DeterministicTrigger {
            stages: vec![
                stage(
                    DeterministicTriggerLogic::And,
                    vec![predicate(0, SimpleTriggerCondition::Falling)],
                ),
                stage(
                    DeterministicTriggerLogic::And,
                    vec![predicate(0, SimpleTriggerCondition::Rising)],
                ),
            ],
        }))
        .unwrap();
    assert_eq!(configured.first_trigger_sample(), Some(3));
}

#[test]
fn disabled_and_ignore_conditions_do_not_arm_the_fake_provider() {
    let ignore = Some(SimpleTriggerCondition::Ignore);
    for conditions in [
        vec![None, None, None],
        vec![ignore, None, None],
        vec![None, ignore, ignore],
    ] {
        let config = config().with_simple_trigger(&conditions).unwrap();
        assert!(!config.has_trigger());
        assert_eq!(config.first_trigger_sample(), None);
    }

    let enabled = config()
        .with_simple_trigger(&[None, Some(SimpleTriggerCondition::High), None])
        .unwrap();
    assert!(enabled.has_trigger());
    assert!(enabled.first_trigger_sample().is_some());
    assert!(enabled.trigger().is_some());
    assert!(!enabled.without_trigger().has_trigger());
}

#[test]
fn settings_that_cannot_be_run_are_refused() {
    let name = || vec!["a".to_string()];
    assert_eq!(
        DeterministicFakeConfig::new(vec![], vec![1], 0).unwrap_err(),
        AcquisitionError::InvalidRequest("fake capture requires at least one channel".to_string())
    );
    let chunk_sizes = AcquisitionError::InvalidRequest(
        "fake capture requires non-empty, non-zero chunk sizes".to_string(),
    );
    assert_eq!(DeterministicFakeConfig::new(name(), vec![], 0).unwrap_err(), chunk_sizes);
    assert_eq!(DeterministicFakeConfig::new(name(), vec![1, 0], 0).unwrap_err(), chunk_sizes);
    assert_eq!(
        DeterministicFakeConfig::new(name(), vec![u64::MAX, 1], 0).unwrap_err(),
        AcquisitionError::InvalidRequest("fake capture sample count overflows u64".to_string())
    );
    let wide: Vec<String> = (0..16).map(|_| "a".to_string()).collect();
    assert_eq!(
        DeterministicFakeConfig::new(wide, vec![u64::MAX], 0).unwrap_err(),
        AcquisitionError::Internal("fake payload is too large".to_string())
    );
    assert!(matches!(
        config().with_simple_trigger(&[None]).unwrap_err(),
        AcquisitionError::InvalidRequest(_)
    ));
    assert!(matches!(
        config()
            .with_trigger(Some(DeterministicTrigger { stages: vec![] }))
            .unwrap_err(),
        AcquisitionError::InvalidRequest(_)
    ));
}

#[test]
fn a_forced_trigger_counts_where_the_capture_stands() {
    let config = config()
        .with_trigger(Some(DeterministicTrigger {
            stages: vec![stage(
                DeterministicTriggerLogic::Nor,
                vec![
                    predicate(0, SimpleTriggerCondition::High),
                    predicate(2, SimpleTriggerCondition::High),
                ],
            )],
        }))
        .unwrap();
    let mut control = FakeControlState::new(false);
    control.request_force_trigger();
    let (mut run, armed) = FakeRun::begin(&config);
    assert_eq!(
        armed,
        Notice::Status(
            CaptureSessionState::Armed,
            CaptureAcquisitionPhase::WaitingForTrigger
        )
    );
    let wake = control.wait_for_chunk().unwrap();
    assert_eq!(wake, FakeWake::ForceTrigger);
    let RunStep::Notices(notices) = run.wake(&config, wake).unwrap() else {
        panic!("a forced trigger hands out no chunk");
    };
    assert_eq!(notices[0], Notice::Triggered(0));

    let mut stopped = FakeControlState::new(true);
    stopped.request_abort();
    assert!(stopped.was_aborted());
    assert_eq!(stopped.wait_for_chunk(), Some(FakeWake::Stop));
    let (mut early, _) = FakeRun::begin(&config);
    early.wake(&config, FakeWake::Stop).unwrap();
    assert_eq!(
        early.finish(&config, false).completion,
        CaptureCompletion::CancelledBeforeTrigger
    );
    assert_eq!(
        early.finish(&config, true).completion,
        CaptureCompletion::Aborted
    );
}

#[test]
fn an_acquisition_is_announced_before_and_after() {
    assert_eq!(
        states(&preparing_notices()),
        [CaptureSessionState::Preparing, CaptureSessionState::Prepared]
    );
    assert_eq!(
        states(&closing_notices()),
        [CaptureSessionState::Stopping, CaptureSessionState::Complete]
    );
}

//! Waiting for samples that meet conditions.

use logic_analyzer_processing::sigrokdecode::conditions::{
    PinCondition, WaitCondition, WaitRequest, WaitTerm,
};
use logic_analyzer_processing::sigrokdecode::scheduler::{
    InitialPin, LogicChunk, SchedulerError, SchedulerStatus, WaitMatch, WaitScheduler,
    DISCONNECTED_PIN_VALUE,
};

#[test]
fn every_pin_condition_uses_api_v3_semantics() {
    let samples = [false, false, true, true, false, false];
    let cases = [
        (PinCondition::Low, 0),
        (PinCondition::High, 2),
        (PinCondition::Rising, 2),
        (PinCondition::Falling, 4),
        (PinCondition::EitherEdge, 2),
        (PinCondition::NoEdge, 0),
    ];
    for (condition, expected) in cases {
        let mut scheduler = scheduler([Some(InitialPin::SameAsFirstSample)]);
        assert_eq!(
            scheduler.begin_wait(pin_wait(0, condition)).unwrap(),
            SchedulerStatus::Waiting
        );
        let status = scheduler.push_chunk(chunk(0, &[&samples])).unwrap();
        assert_eq!(matched_sample(status), expected, "{condition:?}");
    }
}

#[test]
fn explicit_initial_pins_can_create_an_edge_at_sample_zero() {
    let mut rising = scheduler([Some(InitialPin::Low)]);
    rising
        .begin_wait(pin_wait(0, PinCondition::Rising))
        .unwrap();
    assert_eq!(
        matched_sample(rising.push_chunk(chunk(0, &[&[true]])).unwrap()),
        0
    );

    let mut falling = scheduler([Some(InitialPin::High)]);
    falling
        .begin_wait(pin_wait(0, PinCondition::Falling))
        .unwrap();
    assert_eq!(
        matched_sample(falling.push_chunk(chunk(0, &[&[false]])).unwrap()),
        0
    );

    let mut same = scheduler([Some(InitialPin::SameAsFirstSample)]);
    same.begin_wait(pin_wait(0, PinCondition::Rising)).unwrap();
    assert_eq!(
        same.push_chunk(chunk(0, &[&[true]])).unwrap(),
        SchedulerStatus::Waiting
    );
    assert_eq!(same.finish().unwrap(), SchedulerStatus::EndOfStream);
}

#[test]
fn alternatives_are_all_evaluated_and_reported_in_order() {
    let mut scheduler = scheduler([
        Some(InitialPin::SameAsFirstSample),
        Some(InitialPin::SameAsFirstSample),
    ]);
    scheduler
        .begin_wait(WaitRequest::Conditions(vec![
            WaitCondition::new(vec![WaitTerm::pin(0, PinCondition::Rising)]),
            WaitCondition::new(vec![WaitTerm::pin(1, PinCondition::High)]),
            WaitCondition::new(vec![WaitTerm::Never]),
        ]))
        .unwrap();
    let status = scheduler
        .push_chunk(chunk(0, &[&[false, false, true], &[false, false, true]]))
        .unwrap();
    let SchedulerStatus::Matched(result) = status else {
        panic!("expected a match");
    };
    assert_eq!(result.sample, 2);
    assert_eq!(result.pins, [1, 1]);
    assert_eq!(result.matched, Some(vec![true, true, false]));
}

#[test]
fn terms_are_and_combined_and_preserve_skip_evaluation_order() {
    let request = WaitRequest::Conditions(vec![WaitCondition::new(vec![
        WaitTerm::pin(0, PinCondition::High),
        WaitTerm::Skip(2),
    ])]);
    let samples = [false, false, true, true, true];
    let mut scheduler = scheduler([Some(InitialPin::SameAsFirstSample)]);
    scheduler.begin_wait(request).unwrap();
    let status = scheduler.push_chunk(chunk(0, &[&samples])).unwrap();
    assert_eq!(matched_sample(status), 4);
}

#[test]
fn conditionless_wait_advances_after_its_first_match() {
    let mut scheduler = scheduler([Some(InitialPin::SameAsFirstSample)]);
    assert_eq!(
        scheduler.begin_wait(WaitRequest::Next).unwrap(),
        SchedulerStatus::Waiting
    );
    assert_eq!(
        matched_sample(
            scheduler
                .push_chunk(chunk(0, &[&[false, true, false, true, false]]))
                .unwrap()
        ),
        0
    );
    assert_eq!(
        matched_sample(scheduler.begin_wait(WaitRequest::Next).unwrap()),
        1
    );
    assert_eq!(
        matched_sample(
            scheduler
                .begin_wait(WaitRequest::Conditions(vec![WaitCondition::new(vec![
                    WaitTerm::Skip(3),
                ])]))
                .unwrap()
        ),
        4
    );
}

#[test]
fn matches_are_invariant_across_every_chunk_boundary() {
    let samples = [false, false, false, true, true, false, true, true];
    for split in 1..samples.len() {
        let mut scheduler = scheduler([Some(InitialPin::SameAsFirstSample)]);
        scheduler
            .begin_wait(pin_wait(0, PinCondition::Rising))
            .unwrap();
        assert_eq!(
            scheduler
                .push_chunk(chunk(0, &[&samples[..split]]))
                .unwrap(),
            if split > 3 {
                SchedulerStatus::Matched(WaitMatch {
                    sample: 3,
                    pins: vec![1],
                    matched: Some(vec![true]),
                })
            } else {
                SchedulerStatus::Waiting
            }
        );
        if split <= 3 {
            assert_eq!(
                matched_sample(
                    scheduler
                        .push_chunk(chunk(split as u64, &[&samples[split..]]))
                        .unwrap()
                ),
                3,
                "split at {split}"
            );
        }
    }
}

#[test]
fn skip_state_continues_across_chunks() {
    let mut scheduler = scheduler([Some(InitialPin::SameAsFirstSample)]);
    scheduler
        .begin_wait(WaitRequest::Conditions(vec![WaitCondition::new(vec![
            WaitTerm::Skip(5),
        ])]))
        .unwrap();
    assert_eq!(
        scheduler.push_chunk(chunk(0, &[&[false, false]])).unwrap(),
        SchedulerStatus::Waiting
    );
    assert_eq!(
        scheduler
            .push_chunk(chunk(2, &[&[false, false, false, false]]))
            .unwrap(),
        SchedulerStatus::Matched(WaitMatch {
            sample: 5,
            pins: vec![0],
            matched: Some(vec![true]),
        })
    );
}

#[test]
fn disconnected_channels_return_ff_and_never_satisfy_pin_terms() {
    let mut scheduler = scheduler([Some(InitialPin::SameAsFirstSample), None]);
    scheduler.begin_wait(WaitRequest::Next).unwrap();
    assert_eq!(
        scheduler
            .push_chunk(LogicChunk::new(0, 1, vec![Some(packed(&[true])), None]))
            .unwrap(),
        SchedulerStatus::Matched(WaitMatch {
            sample: 0,
            pins: vec![1, DISCONNECTED_PIN_VALUE],
            matched: Some(vec![true]),
        })
    );

    scheduler
        .begin_wait(pin_wait(1, PinCondition::High))
        .unwrap();
    assert_eq!(scheduler.finish().unwrap(), SchedulerStatus::EndOfStream);
}

#[test]
fn all_empty_alternatives_match_without_a_matched_tuple() {
    let mut scheduler = scheduler([Some(InitialPin::SameAsFirstSample)]);
    scheduler
        .begin_wait(WaitRequest::Conditions(vec![WaitCondition::default()]))
        .unwrap();
    assert_eq!(
        scheduler.push_chunk(chunk(0, &[&[true]])).unwrap(),
        SchedulerStatus::Matched(WaitMatch {
            sample: 0,
            pins: vec![1],
            matched: None,
        })
    );
}

#[test]
fn eof_and_cancellation_terminate_an_active_wait() {
    let mut eof = scheduler([Some(InitialPin::SameAsFirstSample)]);
    eof.begin_wait(pin_wait(0, PinCondition::Rising)).unwrap();
    assert_eq!(eof.finish().unwrap(), SchedulerStatus::EndOfStream);
    assert_eq!(
        eof.begin_wait(WaitRequest::Next).unwrap(),
        SchedulerStatus::EndOfStream
    );
    assert_eq!(
        eof.push_chunk(chunk(0, &[&[false]])).unwrap_err(),
        SchedulerError::InputAfterEndOfStream
    );

    let mut cancelled = scheduler([Some(InitialPin::SameAsFirstSample)]);
    cancelled
        .begin_wait(pin_wait(0, PinCondition::Rising))
        .unwrap();
    assert_eq!(cancelled.cancel(), SchedulerStatus::Cancelled);
    assert_eq!(
        cancelled.begin_wait(WaitRequest::Next).unwrap(),
        SchedulerStatus::Cancelled
    );
}

#[test]
fn malformed_or_discontinuous_chunks_are_rejected() {
    let mut scheduler = scheduler([Some(InitialPin::SameAsFirstSample)]);
    scheduler.begin_wait(WaitRequest::Next).unwrap();
    assert_eq!(
        scheduler.push_chunk(chunk(1, &[&[false]])).unwrap_err(),
        SchedulerError::UnexpectedChunkStart {
            expected: 0,
            actual: 1,
        }
    );
    assert_eq!(
        scheduler
            .push_chunk(LogicChunk::new(0, 9, vec![Some(vec![0_u8])]))
            .unwrap_err(),
        SchedulerError::ShortChannelData {
            channel: 0,
            required: 2,
            actual: 1,
        }
    );
}

fn scheduler<const N: usize>(initial: [Option<InitialPin>; N]) -> WaitScheduler {
    WaitScheduler::new(initial.to_vec()).unwrap()
}

fn pin_wait(channel: usize, condition: PinCondition) -> WaitRequest {
    WaitRequest::Conditions(vec![WaitCondition::new(vec![WaitTerm::pin(
        channel, condition,
    )])])
}

fn chunk(start_sample: u64, channels: &[&[bool]]) -> LogicChunk {
    let sample_count = channels.first().map_or(0, |channel| channel.len());
    assert!(channels.iter().all(|channel| channel.len() == sample_count));
    LogicChunk::new(
        start_sample,
        sample_count,
        channels
            .iter()
            .map(|channel| Some(packed(channel)))
            .collect(),
    )
}

fn packed(samples: &[bool]) -> Vec<u8> {
    let mut bytes = vec![0_u8; samples.len().div_ceil(8)];
    for (sample, value) in samples.iter().enumerate() {
        bytes[sample / 8] |= u8::from(*value) << (sample % 8);
    }
    bytes
}

fn matched_sample(status: SchedulerStatus) -> u64 {
    let SchedulerStatus::Matched(result) = status else {
        panic!("expected a match, got {status:?}");
    };
    result.sample
}

#[test]
fn a_scheduler_needs_a_channel() {
    assert!(matches!(
        WaitScheduler::new(vec![]),
        Err(SchedulerError::NoChannels)
    ));
}

#[test]
fn calls_out_of_turn_are_refused() {
    let mut waiting = scheduler([Some(InitialPin::Low)]);
    assert_eq!(
        waiting.push_chunk(chunk(0, &[&[true]])).unwrap_err(),
        SchedulerError::NoActiveWait
    );
    waiting.begin_wait(WaitRequest::Next).unwrap();
    assert_eq!(
        waiting.begin_wait(WaitRequest::Next).unwrap_err(),
        SchedulerError::AlreadyWaiting
    );
    assert_eq!(
        waiting.push_chunk(LogicChunk::new(0, 0, vec![Some(vec![])])).unwrap_err(),
        SchedulerError::EmptyChunk
    );
    assert_eq!(
        waiting.push_chunk(LogicChunk::new(0, 1, vec![])).unwrap_err(),
        SchedulerError::ChannelCount { expected: 1, actual: 0 }
    );
    assert_eq!(
        waiting.push_chunk(LogicChunk::new(0, 1, vec![None])).unwrap_err(),
        SchedulerError::MissingChannelData { channel: 0 }
    );
    assert_eq!(
        matched_sample(waiting.push_chunk(chunk(0, &[&[true, false]])).unwrap()),
        0
    );

    let mut open = scheduler([None, Some(InitialPin::High)]);
    open.begin_wait(WaitRequest::Next).unwrap();
    assert_eq!(
        open.push_chunk(LogicChunk::new(0, 1, vec![Some(vec![0]), Some(vec![0])])).unwrap_err(),
        SchedulerError::UnexpectedChannelData { channel: 0 }
    );
}

#[test]
fn a_refused_chunk_leaves_the_wait_as_it_was() {
    let mut scheduler = scheduler([Some(InitialPin::SameAsFirstSample)]);
    scheduler
        .begin_wait(pin_wait(0, PinCondition::High))
        .unwrap();
    scheduler.push_chunk(chunk(0, &[&[false, false]])).unwrap();
    assert!(scheduler.push_chunk(chunk(5, &[&[true]])).is_err());
    assert!(scheduler.push_chunk(chunk(2, &[&[true], &[true]])).is_err());
    assert_eq!(
        matched_sample(scheduler.push_chunk(chunk(2, &[&[false, true]])).unwrap()),
        3
    );
    assert_eq!(
        scheduler.push_chunk(chunk(4, &[&[true]])).unwrap_err(),
        SchedulerError::NoActiveWait
    );
}

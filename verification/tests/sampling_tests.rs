use vidthumb::error::ErrorKind;
use vidthumb::sampling::{duration_to_ms, seek_target, seek_target_seconds, SampleAction,
    SampleEvent, SamplingState, SeekTime};
use vidthumb::video::AtlasRequest;

fn state(collected: usize, target: usize, seconds: u32, step: u32) -> SamplingState {
    SamplingState { collected, target, seconds, step }
}

#[test]
fn seek_targets_scale_by_time_base() {
    assert_eq!(seek_target_seconds(0), 0);
    assert_eq!(seek_target_seconds(7), 7_000_000);
    assert_eq!(seek_target(&SeekTime::Seconds(60), 123), 60_000_000);
}

#[test]
fn seek_fraction_multiplies_duration() {
    assert_eq!(seek_target(&SeekTime::Percentage(500_000), 10_000_000), 5_000_000);
    assert_eq!(seek_target(&SeekTime::Percentage(0), 10_000_000), 0);
    // Truncation toward zero, also for a negative duration.
    assert_eq!(seek_target(&SeekTime::Percentage(999_999), -10), -9);
}

#[test]
fn seek_start_seconds() {
    assert_eq!(SeekTime::Seconds(42).start_seconds(), 42);
    // Any fraction below one whole starts at second zero.
    assert_eq!(SeekTime::Percentage(999_999).start_seconds(), 0);
}

#[test]
fn duration_ms_truncates() {
    assert_eq!(duration_to_ms(10_000_000), 10_000);
    assert_eq!(duration_to_ms(999), 0);
    assert_eq!(duration_to_ms(-1_500), -1);
}

#[test]
fn sampling_feeds_after_seek_and_receives_after_send() {
    let st = SamplingState::start(5, 3, 2);
    assert_eq!(st, state(0, 3, 5, 2));
    let (st1, a) = st.advance(&SampleEvent::SeekDone);
    assert_eq!(a, SampleAction::Feed);
    let (st2, a) = st1.advance(&SampleEvent::SendOk);
    assert_eq!(a, SampleAction::Receive);
    let (st3, a) = st2.advance(&SampleEvent::SendRetry);
    assert_eq!(a, SampleAction::Receive);
    assert_eq!(st3, st);
}

#[test]
fn sampling_recovers_need_more_input_by_feeding() {
    let st = state(0, 1, 0, 1);
    let (st1, a) = st.advance(&SampleEvent::NeedMoreInput);
    assert_eq!(a, SampleAction::Feed);
    assert_eq!(st1, st);
}

#[test]
fn sampling_finishes_when_target_reached() {
    let st = state(0, 1, 9, 1);
    let (st1, a) = st.advance(&SampleEvent::FrameReady);
    assert_eq!(a, SampleAction::Finish);
    assert_eq!(st1.collected, 1);
    assert_eq!(st1.seconds, 9);
}

#[test]
fn sampling_steps_and_seeks_between_frames() {
    let st = state(0, 2, 5, 3);
    let (st1, a) = st.advance(&SampleEvent::FrameReady);
    assert_eq!(st1.collected, 1);
    assert_eq!(st1.seconds, 8);
    assert_eq!(a, SampleAction::SeekTo { units: 8_000_000 });
}

#[test]
fn sampling_ends_with_partial_result_at_end_of_packets() {
    let st = state(1, 5, 4, 1);
    let (st1, a) = st.advance(&SampleEvent::EndOfPackets);
    assert_eq!(a, SampleAction::Finish);
    assert_eq!(st1, st);
}

#[test]
fn sampling_fails_on_fatal_outcomes() {
    let st = state(0, 1, 0, 1);
    assert_eq!(st.advance(&SampleEvent::SendFatal).1, SampleAction::Fail {
        kind: ErrorKind::DecodeError,
    });
    assert_eq!(st.advance(&SampleEvent::ReceiveFatal).1, SampleAction::Fail {
        kind: ErrorKind::DecodeError,
    });
    assert_eq!(st.advance(&SampleEvent::SeekFailed).1, SampleAction::Fail {
        kind: ErrorKind::SeekFailure,
    });
}

#[test]
fn atlas_request_step() {
    assert_eq!(AtlasRequest { seek: Some(7) }.step_seconds(), 7);
    assert_eq!(AtlasRequest { seek: None }.step_seconds(), 0);
}

//! Seek arithmetic and the sampling controller.
//!
//! The sampling loop gathers frames at a fixed time step.  Every outside
//! effect — seeking, feeding a compressed packet, receiving a decoded
//! frame — is reported back as an event, and `SamplingState::advance`
//! decides the next step, so the whole control policy of the loop lives
//! here as a pure function from state and event to state and action.

use vstd::prelude::*;

use crate::error::ErrorKind;
use crate::math::{trunc_div, lemma_trunc_div_bound, iabs};
use vstd::arithmetic::div_mod::{
    lemma_div_is_ordered,
    lemma_div_multiples_vanish,
    lemma_div_pos_is_pos,
};

verus! {

/// Container time units per second: the container time base is one
/// microsecond.
pub const TIME_UNITS_PER_SECOND: i64 = 1_000_000;

/// Where to position the decode cursor.
///
/// A fractional position is carried in millionths of the duration, the
/// plain-integer stand-in for the fractional value the request surface
/// accepts; it is meant to lie below one whole (under 1,000,000).
#[derive(Clone, Copy, Debug, PartialEq, Eq, Structural)]
pub enum SeekTime {
    /// An absolute offset in whole seconds.
    Seconds(u32),
    /// A fraction of the clip's duration, in millionths.
    Percentage(u32),
}

impl SeekTime {
    /// The whole-second offset where sampling starts counting: the
    /// absolute offset itself, or the whole part of the fraction, which
    /// is zero for any fraction below one.
    pub fn start_seconds(&self) -> (s: u32)
        ensures
            self matches SeekTime::Seconds(v) ==> s == v,
            self matches SeekTime::Percentage(ppm) ==> s == ppm / 1_000_000u32,
    {
        match self {
            SeekTime::Seconds(v) => *v,
            SeekTime::Percentage(ppm) => *ppm / 1_000_000,
        }
    }
}

/// The container-native position of a whole-second offset.
pub fn seek_target_seconds(seconds: u32) -> (units: i64)
    ensures
        units == seconds as int * 1_000_000,
{
    (seconds as i64) * TIME_UNITS_PER_SECOND
}

/// The container-native position of a seek request: seconds scale by the
/// time base, a fraction multiplies the total duration directly,
/// truncating toward zero.
pub fn seek_target(seek: &SeekTime, duration_units: i64) -> (units: i64)
    requires
        seek matches SeekTime::Percentage(ppm) ==> ppm < 1_000_000,
    ensures
        seek matches SeekTime::Seconds(s) ==> units == s as int * 1_000_000,
        seek matches SeekTime::Percentage(ppm) ==> units as int == trunc_div(
            ppm as int * duration_units as int,
            1_000_000,
        ),
{
    match seek {
        SeekTime::Seconds(s) => seek_target_seconds(*s),
        SeekTime::Percentage(ppm) => {
            proof {
                let p = *ppm as int;
                let d = duration_units as int;
                let num = p * d;
                assert(iabs(num) <= 1_000_000 * iabs(d) && (d < 0 ==> num <= 0) && (d >= 0
                    ==> num >= 0)) by (nonlinear_arith)
                    requires
                        num == p * d,
                        0 <= p <= 1_000_000,
                ;
                lemma_trunc_div_bound(num, 1_000_000);
                lemma_div_pos_is_pos(iabs(num), 1_000_000);
                lemma_div_is_ordered(iabs(num), 1_000_000 * iabs(d), 1_000_000);
                lemma_div_multiples_vanish(iabs(d), 1_000_000);
                assert(iabs(trunc_div(num, 1_000_000)) == iabs(num) / 1_000_000);
                if num < 0 {
                    lemma_div_pos_is_pos(-num, 1_000_000);
                    assert(trunc_div(num, 1_000_000) <= 0);
                } else {
                    lemma_div_pos_is_pos(num, 1_000_000);
                    assert(trunc_div(num, 1_000_000) >= 0);
                }
            }
            let num: i128 = (*ppm as i128) * (duration_units as i128);
            let q: i128 = match num.checked_div(1_000_000) {
                Some(v) => v,
                None => {
                    proof {
                        assert(false);
                    }
                    0
                },
            };
            proof {
                assert(q as int == trunc_div((*ppm as int) * (duration_units as int), 1_000_000));
                assert(iabs(q as int) <= iabs(duration_units as int));
                assert(i64::MIN <= q <= i64::MAX);
            }
            q as i64
        },
    }
}

/// Milliseconds of a duration given in container time units.
pub fn duration_to_ms(duration_units: i64) -> (ms: i64)
    ensures
        ms as int == trunc_div(duration_units as int, 1000),
{
    proof {
        lemma_trunc_div_bound(duration_units as int, 1000);
    }
    match duration_units.checked_div(1000) {
        Some(v) => v,
        None => {
            proof {
                assert(false);
            }
            0
        },
    }
}

/// The sampling loop's private state: how many frames it has, how many it
/// wants, and where its time cursor stands.
#[derive(Clone, Copy, Debug, PartialEq, Eq, Structural)]
pub struct SamplingState {
    /// Frames gathered so far.
    pub collected: usize,
    /// Frames requested.
    pub target: usize,
    /// The whole-second offset of the most recent seek.
    pub seconds: u32,
    /// Seconds between consecutive samples.
    pub step: u32,
}

/// What the outside world reports back to the sampling loop.
#[derive(Clone, Copy, Debug, PartialEq, Eq, Structural)]
pub enum SampleEvent {
    /// The cursor was repositioned; decoding can resume.
    SeekDone,
    /// The cursor could not be repositioned.
    SeekFailed,
    /// The decoder accepted a packet.
    SendOk,
    /// The decoder asked for the packet again later; not an error.
    SendRetry,
    /// The decoder rejected a packet fatally.
    SendFatal,
    /// A frame was decoded, transformed and appended to the result.
    FrameReady,
    /// No frame is ready yet; more packets must be fed first.
    NeedMoreInput,
    /// Receiving a frame failed fatally.
    ReceiveFatal,
    /// The container has no packets left at the current position.
    EndOfPackets,
}

/// What the sampling loop asks the outside world to do next.
#[derive(Clone, Copy, Debug, PartialEq, Eq, Structural)]
pub enum SampleAction {
    /// Submit the next packet of the video stream to the decoder.
    Feed,
    /// Try to receive a decoded frame.
    Receive,
    /// Reposition the cursor to the given container time, then feed.
    SeekTo { units: i64 },
    /// Sampling is complete; the frames gathered so far are the result.
    Finish,
    /// Sampling failed.
    Fail { kind: ErrorKind },
}

/// The time cursor after one step, saturating instead of wrapping.
pub open spec fn stepped_seconds(seconds: int, step: int) -> int {
    if seconds + step > u32::MAX {
        u32::MAX as int
    } else {
        seconds + step
    }
}

impl SamplingState {
    /// A controller that will gather `target` frames starting at
    /// `start_seconds`, stepping by `step` seconds.
    pub fn start(start_seconds: u32, target: usize, step: u32) -> (st: SamplingState)
        ensures
            st == (SamplingState { collected: 0, target, seconds: start_seconds, step }),
    {
        SamplingState { collected: 0, target, seconds: start_seconds, step }
    }

    /// One decision of the sampling loop.
    ///
    /// Seeking is followed by feeding; a fed packet is followed by a
    /// receive attempt, whether the decoder took it or asked again; the
    /// need-more-input outcome is recovered by feeding further packets,
    /// never surfaced.  A collected frame either completes the request or
    /// advances the cursor one step for the next seek.  Running out of
    /// packets ends sampling with the frames gathered so far; fatal
    /// decoder outcomes and failed seeks abort.
    pub fn advance(&self, event: &SampleEvent) -> (r: (SamplingState, SampleAction))
        ensures
            r.0.target == self.target && r.0.step == self.step,
            *event == SampleEvent::SeekDone ==> r.0 == *self && r.1 == SampleAction::Feed,
            *event == SampleEvent::SeekFailed ==> r.0 == *self && r.1 == (SampleAction::Fail {
                kind: ErrorKind::SeekFailure,
            }),
            *event == SampleEvent::SendOk ==> r.0 == *self && r.1 == SampleAction::Receive,
            *event == SampleEvent::SendRetry ==> r.0 == *self && r.1 == SampleAction::Receive,
            *event == SampleEvent::SendFatal ==> r.0 == *self && r.1 == (SampleAction::Fail {
                kind: ErrorKind::DecodeError,
            }),
            *event == SampleEvent::NeedMoreInput ==> r.0 == *self && r.1 == SampleAction::Feed,
            *event == SampleEvent::ReceiveFatal ==> r.0 == *self && r.1 == (SampleAction::Fail {
                kind: ErrorKind::DecodeError,
            }),
            *event == SampleEvent::EndOfPackets ==> r.0 == *self && r.1 == SampleAction::Finish,
            *event == SampleEvent::FrameReady ==> r.0.collected == (if self.collected
                < self.target {
                self.collected + 1
            } else {
                self.collected as int
            }),
            *event == SampleEvent::FrameReady && self.collected + 1 >= self.target ==> r.1
                == SampleAction::Finish && r.0.seconds == self.seconds,
            *event == SampleEvent::FrameReady && self.collected + 1 < self.target ==> r.0.seconds
                == stepped_seconds(self.seconds as int, self.step as int) && r.1
                == (SampleAction::SeekTo { units: (r.0.seconds as int * 1_000_000) as i64 }),
    {
        match event {
            SampleEvent::SeekDone => (*self, SampleAction::Feed),
            SampleEvent::SeekFailed => (*self, SampleAction::Fail { kind: ErrorKind::SeekFailure }),
            SampleEvent::SendOk => (*self, SampleAction::Receive),
            SampleEvent::SendRetry => (*self, SampleAction::Receive),
            SampleEvent::SendFatal => (*self, SampleAction::Fail { kind: ErrorKind::DecodeError }),
            SampleEvent::NeedMoreInput => (*self, SampleAction::Feed),
            SampleEvent::ReceiveFatal => (
                *self,
                SampleAction::Fail { kind: ErrorKind::DecodeError },
            ),
            SampleEvent::EndOfPackets => (*self, SampleAction::Finish),
            SampleEvent::FrameReady => {
                let new_collected: usize = if self.collected < self.target {
                    self.collected + 1
                } else {
                    self.collected
                };
                if new_collected >= self.target {
                    (
                        SamplingState {
                            collected: new_collected,
                            target: self.target,
                            seconds: self.seconds,
                            step: self.step,
                        },
                        SampleAction::Finish,
                    )
                } else {
                    let new_seconds: u32 = if self.seconds > u32::MAX - self.step {
                        u32::MAX
                    } else {
                        self.seconds + self.step
                    };
                    (
                        SamplingState {
                            collected: new_collected,
                            target: self.target,
                            seconds: new_seconds,
                            step: self.step,
                        },
                        SampleAction::SeekTo { units: seek_target_seconds(new_seconds) },
                    )
                }
            },
        }
    }
}

} // verus!

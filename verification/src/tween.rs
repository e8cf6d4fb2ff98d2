//! Tween timing: how long a tween runs, how much of it has elapsed, and when
//! it is complete. The interpolated values themselves are computed by the
//! renderer-side code from the easing and the fraction elapsed.

use vstd::prelude::*;

verus! {

/// The number of nanoseconds in a second.
pub const NANOS_PER_SEC: u128 = 1_000_000_000u128;

/// The longest span of time that can be held: `u64::MAX` seconds and
/// 999 999 999 nanoseconds, in nanoseconds.
pub const MAX_SPAN_NANOS: u128 = 18_446_744_073_709_551_615_999_999_999u128;

/// A span of time, counted in nanoseconds, no longer than `MAX_SPAN_NANOS`.
#[derive(Clone, Copy, Debug, PartialEq, Eq)]
pub struct TimeSpan {
    nanos: u128,
}

impl TimeSpan {
    #[verifier::type_invariant]
    spec fn inv(self) -> bool {
        self.nanos <= MAX_SPAN_NANOS
    }

    /// The length of the span in nanoseconds.
    pub closed spec fn spec_nanos(self) -> int {
        self.nanos as int
    }

    /// The span `nanos` nanoseconds long (for `0 <= nanos <= MAX_SPAN_NANOS`).
    pub closed spec fn span_of(nanos: int) -> TimeSpan {
        TimeSpan { nanos: nanos as u128 }
    }

    /// `span_of` gives a span of the length asked for.
    pub proof fn lemma_span_of(nanos: int)
        requires
            0 <= nanos <= MAX_SPAN_NANOS,
        ensures
            Self::span_of(nanos).spec_nanos() == nanos,
    {
    }

    /// The span of `secs` seconds and `nanos` nanoseconds (nanoseconds beyond a
    /// second carry into the seconds).
    pub fn from_secs_nanos(secs: u64, nanos: u32) -> (r: TimeSpan)
        requires
            secs + nanos / 1_000_000_000 <= u64::MAX,
        ensures
            r.spec_nanos() == secs * 1_000_000_000 + nanos,
    {
        let total = (secs as u128) * NANOS_PER_SEC + (nanos as u128);
        assert(total <= MAX_SPAN_NANOS) by (nonlinear_arith)
            requires
                secs + nanos / 1_000_000_000 <= u64::MAX,
                total == secs * 1_000_000_000 + nanos,
                nanos <= u32::MAX,
        ;
        TimeSpan { nanos: total }
    }

    /// The span of `millis` milliseconds.
    pub fn from_millis(millis: u64) -> (r: TimeSpan)
        ensures
            r.spec_nanos() == millis * 1_000_000,
    {
        let total = (millis as u128) * 1_000_000u128;
        assert(total <= MAX_SPAN_NANOS);
        TimeSpan { nanos: total }
    }

    /// The length of the span in nanoseconds.
    pub fn as_nanos(&self) -> (r: u128)
        ensures
            r == self.spec_nanos(),
            r <= MAX_SPAN_NANOS,
    {
        proof {
            use_type_invariant(self);
        }
        self.nanos
    }

    /// The whole seconds of the span.
    pub fn as_secs(&self) -> (r: u64)
        ensures
            r == self.spec_nanos() / 1_000_000_000,
    {
        proof {
            use_type_invariant(self);
        }
        (self.nanos / NANOS_PER_SEC) as u64
    }

    /// The nanoseconds of the span beyond its whole seconds.
    pub fn subsec_nanos(&self) -> (r: u32)
        ensures
            r == self.spec_nanos() % 1_000_000_000,
    {
        (self.nanos % NANOS_PER_SEC) as u32
    }

    /// The sum of two spans, or `None` when it is longer than `MAX_SPAN_NANOS`.
    pub fn checked_add(&self, other: &TimeSpan) -> (r: Option<TimeSpan>)
        ensures
            match r {
                Some(s) => s.spec_nanos() == self.spec_nanos() + other.spec_nanos(),
                None => self.spec_nanos() + other.spec_nanos() > MAX_SPAN_NANOS,
            },
    {
        proof {
            use_type_invariant(self);
            use_type_invariant(other);
        }
        let total = self.nanos + other.nanos;
        if total <= MAX_SPAN_NANOS {
            Some(TimeSpan { nanos: total })
        } else {
            None
        }
    }

    /// Whether this span is at least as long as `other`.
    pub fn at_least(&self, other: &TimeSpan) -> (r: bool)
        ensures
            r == (self.spec_nanos() >= other.spec_nanos()),
    {
        self.nanos >= other.nanos
    }
}

/// The shape of the curve along which a tween moves from its start value to its end value.
#[derive(Clone, Copy, Debug, PartialEq, Eq, Structural)]
pub enum Easing {
    Linear,
    QuadraticIn,
    QuadraticOut,
    QuadraticInOut,
    CubicIn,
    CubicOut,
    CubicInOut,
    QuarticIn,
    QuarticOut,
    QuarticInOut,
    QuinticIn,
    QuinticOut,
    QuinticInOut,
    SinusoidalIn,
    SinusoidalOut,
    SinusoidalInOut,
    ExponentialIn,
    ExponentialOut,
    ExponentialInOut,
    CircularIn,
    CircularOut,
    CircularInOut,
    ElasticIn,
    ElasticOut,
    ElasticInOut,
    BackIn,
    BackOut,
    BackInOut,
    BounceIn,
    BounceOut,
    BounceInOut,
    Step(u16),
    /// No interpolation: the end value from the first frame on.
    Immediate,
}

/// How long a tween runs: a span of time, or a number of frames.
#[derive(Clone, Copy, Debug, PartialEq, Eq)]
pub enum TweenDuration {
    Time(TimeSpan),
    Frame(u32),
}

impl TweenDuration {
    /// A tween that runs for `frames` frames.
    pub fn new_frame(frames: u32) -> (r: TweenDuration)
        ensures
            r == TweenDuration::Frame(frames),
    {
        TweenDuration::Frame(frames)
    }
}

/// How much of a tween has run, with its full length: as spans of time, or as frame counts.
#[derive(Clone, Copy, Debug, PartialEq, Eq)]
pub enum TweenElapsed {
    Time(TimeSpan, TimeSpan),
    Frame(u32, u32),
}

/// The elapsed amount `e` after a frame that took `delta_frames` frames and
/// `delta_time` time: a timed tween saturates at its full length when the sum
/// cannot be held; a frame-counted tween adds the frames.
pub open spec fn elapsed_after(e: TweenElapsed, delta_frames: u32, delta_time: TimeSpan) -> TweenElapsed {
    match e {
        TweenElapsed::Time(elapsed, max) => TweenElapsed::Time(
            if elapsed.spec_nanos() + delta_time.spec_nanos() <= MAX_SPAN_NANOS {
                TimeSpan::span_of(elapsed.spec_nanos() + delta_time.spec_nanos())
            } else {
                max
            },
            max,
        ),
        TweenElapsed::Frame(elapsed, max) => TweenElapsed::Frame((elapsed + delta_frames) as u32, max),
    }
}

/// The elapsed amount has reached the full length.
pub open spec fn elapsed_complete(e: TweenElapsed) -> bool {
    match e {
        TweenElapsed::Time(elapsed, max) => elapsed.spec_nanos() >= max.spec_nanos(),
        TweenElapsed::Frame(elapsed, max) => elapsed >= max,
    }
}

/// Advancing `e` by `delta_frames` frames does not overflow the frame counter.
pub open spec fn elapsed_can_advance(e: TweenElapsed, delta_frames: u32) -> bool {
    e matches TweenElapsed::Frame(elapsed, _) ==> elapsed + delta_frames <= u32::MAX
}

/// The amount elapsed, in the same units, as a pair of integers.
pub open spec fn elapsed_amount(e: TweenElapsed) -> int {
    match e {
        TweenElapsed::Time(elapsed, _) => elapsed.spec_nanos(),
        TweenElapsed::Frame(elapsed, _) => elapsed as int,
    }
}

impl TweenElapsed {
    /// Nothing elapsed yet of a tween lasting `duration`.
    pub fn start(duration: TweenDuration) -> (r: TweenElapsed)
        ensures
            r == (match duration {
                TweenDuration::Time(max) => TweenElapsed::Time(TimeSpan::span_of(0), max),
                TweenDuration::Frame(max) => TweenElapsed::Frame(0, max),
            }),
    {
        match duration {
            TweenDuration::Time(max) => {
                let zero = TimeSpan::from_millis(0);
                proof {
                    span_unique(zero, TimeSpan::span_of(0));
                }
                TweenElapsed::Time(zero, max)
            },
            TweenDuration::Frame(max) => TweenElapsed::Frame(0, max),
        }
    }

    /// Whether the full length has elapsed.
    pub fn is_complete(&self) -> (r: bool)
        ensures
            r == elapsed_complete(*self),
    {
        match self {
            TweenElapsed::Time(elapsed, max) => elapsed.at_least(max),
            TweenElapsed::Frame(elapsed, max) => *elapsed >= *max,
        }
    }

    /// Advances the elapsed amount by one update's frames or time.
    pub fn update(&mut self, delta_frames: u32, delta_time: TimeSpan)
        requires
            elapsed_can_advance(*old(self), delta_frames),
        ensures
            *final(self) == elapsed_after(*old(self), delta_frames, delta_time),
    {
        let next = match self {
            TweenElapsed::Time(elapsed_time, max_time) => {
                let elapsed_time = match elapsed_time.checked_add(&delta_time) {
                    Some(time) => {
                        proof {
                            use_type_invariant(&time);
                            span_unique(
                                time,
                                TimeSpan::span_of(
                                    old(self)->Time_0.spec_nanos() + delta_time.spec_nanos(),
                                ),
                            );
                        }
                        time
                    },
                    None => *max_time,
                };
                TweenElapsed::Time(elapsed_time, *max_time)
            },
            TweenElapsed::Frame(elapsed_frame, max_frame) => TweenElapsed::Frame(
                *elapsed_frame + delta_frames,
                *max_frame,
            ),
        };
        *self = next;
    }
}

/// Two spans of the same length are the same span.
pub proof fn span_unique(a: TimeSpan, b: TimeSpan)
    requires
        a.spec_nanos() == b.spec_nanos(),
        0 <= b.spec_nanos(),
    ensures
        a == b,
{
}

/// The abstract state of a tween: what it animates, how far it has run, and its easing.
pub struct PropertyTweenView<D> {
    pub data: D,
    pub elapsed: TweenElapsed,
    pub easing: Easing,
}

/// A tween of some property: the property's start and end values (`data`),
/// how much of the tween has run, and the easing curve.
#[derive(Clone, Debug)]
pub struct PropertyTween<D> {
    data: D,
    elapsed: TweenElapsed,
    easing: Easing,
}

impl<D> View for PropertyTween<D> {
    type V = PropertyTweenView<D>;

    closed spec fn view(&self) -> PropertyTweenView<D> {
        PropertyTweenView { data: self.data, elapsed: self.elapsed, easing: self.easing }
    }
}

/// The tween `t` after an update by `delta_frames` frames and `delta_time` time.
pub open spec fn tween_after<D>(
    t: PropertyTweenView<D>,
    delta_frames: u32,
    delta_time: TimeSpan,
) -> PropertyTweenView<D> {
    PropertyTweenView {
        elapsed: elapsed_after(t.elapsed, delta_frames, delta_time),
        ..t
    }
}

impl<D> PropertyTween<D> {
    /// A tween of `data` lasting `duration`, with nothing elapsed yet.
    pub fn new(data: D, duration: TweenDuration, easing: Easing) -> (r: PropertyTween<D>)
        ensures
            r@.data == data,
            r@.elapsed == (match duration {
                TweenDuration::Time(max) => TweenElapsed::Time(TimeSpan::span_of(0), max),
                TweenDuration::Frame(max) => TweenElapsed::Frame(0, max),
            }),
            r@.easing == easing,
    {
        PropertyTween { data, elapsed: TweenElapsed::start(duration), easing }
    }

    /// The start and end values of the animated property.
    pub fn tween_data(&self) -> (r: &D)
        ensures
            *r == self@.data,
    {
        &self.data
    }

    /// How much of the tween has run.
    pub fn elapsed(&self) -> (r: TweenElapsed)
        ensures
            r == self@.elapsed,
    {
        self.elapsed
    }

    /// The easing curve.
    pub fn easing(&self) -> (r: Easing)
        ensures
            r == self@.easing,
    {
        self.easing
    }

    /// Whether the tween has run its full length.
    pub fn is_complete(&self) -> (r: bool)
        ensures
            r == elapsed_complete(self@.elapsed),
    {
        self.elapsed.is_complete()
    }

    /// Advances the tween by one update's frames and time.
    pub fn update(&mut self, delta_frames: u32, delta_time: TimeSpan)
        requires
            elapsed_can_advance(old(self)@.elapsed, delta_frames),
        ensures
            final(self)@ == tween_after(old(self)@, delta_frames, delta_time),
    {
        self.elapsed.update(delta_frames, delta_time);
    }
}

/// Once a tween has run its full length it stays complete, whatever later
/// updates bring.
pub proof fn law_completion_is_final(e: TweenElapsed, delta_frames: u32, delta_time: TimeSpan)
    requires
        elapsed_complete(e),
        elapsed_can_advance(e, delta_frames),
    ensures
        elapsed_complete(elapsed_after(e, delta_frames, delta_time)),
{
    if let TweenElapsed::Time(elapsed, max) = e {
        let sum = elapsed.spec_nanos() + delta_time.spec_nanos();
        if sum <= MAX_SPAN_NANOS {
            TimeSpan::lemma_span_of(sum);
        }
    }
}

/// A tween counted in frames and lasting `frames` frames is complete after an
/// update by `delta_frames` frames from its start exactly when `delta_frames`
/// reaches its length.
pub proof fn law_frame_tween_length(frames: u32, delta_frames: u32, delta_time: TimeSpan)
    ensures
        elapsed_complete(elapsed_after(TweenElapsed::Frame(0, frames), delta_frames, delta_time))
            <==> delta_frames >= frames,
{
}

} // verus!

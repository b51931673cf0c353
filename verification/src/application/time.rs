use std::time::{Duration, Instant};
use vstd::prelude::*;

verus! {

/// Declares `std::time::Instant` to the verifier as an opaque value.
#[verifier::external_type_specification]
#[verifier::external_body]
pub struct ExInstant(Instant);

/// `Instant::now`: a reading of the monotonic wall clock. Nothing is
/// stated of it: it depends on the time at which it is called.
#[verifier::external_body]
fn instant_now() -> (r: Instant) {
    Instant::now()
}

/// `Instant::elapsed`: the time since `start` on the monotonic clock.
/// Nothing is stated of it: it depends on the time at which it is called.
#[verifier::external_body]
fn elapsed_since(start: &Instant) -> (r: Duration) {
    start.elapsed()
}

/// `Duration::as_nanos`: the whole nanoseconds of a duration. The
/// contract states only the documented range of a `Duration` (at most
/// `u64::MAX` seconds and 999 999 999 nanoseconds); the durations here
/// come from the clock.
#[verifier::external_body]
fn duration_nanos(d: &Duration) -> (r: u128)
    ensures
        r <= MAX_DURATION_NANOS,
{
    d.as_nanos()
}

/// Frame timing: the frames completed, the time since the clock started
/// and the time between the last two frames, in nanoseconds.
///
/// Advanced once per frame, before systems run.
pub struct FrameClock {
    startup: Instant,
    frames: u64,
    elapsed: u128,
    delta: u128,
}

impl FrameClock {
    /// The number of completed frames.
    pub closed spec fn frames(&self) -> u64 {
        self.frames
    }

    /// The time from the clock's start to the last frame, in nanoseconds.
    pub closed spec fn elapsed_nanos(&self) -> u128 {
        self.elapsed
    }

    /// The time between the last two frames, in nanoseconds.
    pub closed spec fn delta_nanos(&self) -> u128 {
        self.delta
    }

    /// Starts a clock now: no frame completed, no time elapsed.
    pub fn new() -> (r: Self)
        ensures
            r.frames() == 0,
            r.elapsed_nanos() == 0,
            r.delta_nanos() == 0,
    {
        FrameClock { startup: instant_now(), frames: 0, elapsed: 0, delta: 0 }
    }

    /// Records a frame at `now_nanos` after the clock's start: the delta
    /// is the time since the previous frame, and one more frame is counted.
    pub fn advance(&mut self, now_nanos: u128)
        requires
            old(self).frames() < u64::MAX,
            now_nanos >= old(self).elapsed_nanos(),
        ensures
            final(self).frames() == old(self).frames() + 1,
            final(self).delta_nanos() == now_nanos - old(self).elapsed_nanos(),
            final(self).elapsed_nanos() == now_nanos,
            Self::records(*old(self), *final(self), now_nanos),
    {
        self.delta = now_nanos - self.elapsed;
        self.elapsed = now_nanos;
        self.frames = self.frames + 1;
    }

    /// `c1` is `c0` with a frame recorded at `t` nanoseconds after the
    /// clock's start: one more frame, the elapsed time is `t`, and the
    /// delta is the time from `c0`'s last frame to `t` (zero should `t`
    /// lie before it).
    pub open spec fn records(c0: FrameClock, c1: FrameClock, t: u128) -> bool {
        &&& c1.frames() == c0.frames() + 1
        &&& c1.elapsed_nanos() == t
        &&& c1.delta_nanos() == if t >= c0.elapsed_nanos() {
            t - c0.elapsed_nanos()
        } else {
            0
        }
    }

    /// Reads the wall clock and records a frame at that time; returns the
    /// reading, in nanoseconds since the clock's start. Should the reading
    /// lie before the previous frame, the delta is zero.
    pub fn tick(&mut self) -> (reading: u128)
        requires
            old(self).frames() < u64::MAX,
        ensures
            reading <= MAX_DURATION_NANOS,
            Self::records(*old(self), *final(self), reading),
            final(self).frames() == old(self).frames() + 1,
            final(self).elapsed_nanos() == reading,
            final(self).delta_nanos() == if final(self).elapsed_nanos() >= old(self).elapsed_nanos() {
                final(self).elapsed_nanos() - old(self).elapsed_nanos()
            } else {
                0
            },
    {
        let since = elapsed_since(&self.startup);
        let reading = duration_nanos(&since);
        if reading >= self.elapsed {
            self.advance(reading);
        } else {
            self.delta = 0;
            self.elapsed = reading;
            self.frames = self.frames + 1;
        }
        reading
    }

    /// The number of completed frames.
    pub fn frame_count(&self) -> (r: u64)
        ensures
            r == self.frames(),
    {
        self.frames
    }

    /// The time from the clock's start to the last frame, in nanoseconds.
    pub fn elapsed(&self) -> (r: u128)
        ensures
            r == self.elapsed_nanos(),
    {
        self.elapsed
    }

    /// The time between the last two frames, in nanoseconds.
    pub fn delta(&self) -> (r: u128)
        ensures
            r == self.delta_nanos(),
    {
        self.delta
    }
}

/// Nanoseconds in one second.
pub const NANOS_PER_SEC: u128 = 1_000_000_000;

/// The longest span a `std::time::Duration` can hold, in nanoseconds:
/// `u64::MAX` seconds and 999 999 999 nanoseconds.
pub const MAX_DURATION_NANOS: u128 = 18_446_744_073_709_551_615 * 1_000_000_000 + 999_999_999;

/// The step of the default 60 Hz fixed timestep, in whole nanoseconds.
pub const DEFAULT_STEP_NANOS: u128 = 1_000_000_000 / 60;

/// Starting from `acc` accumulated nanoseconds and a step of `step`,
/// consecutive calls of [`FixedTime::expend`] succeed exactly
/// `acc / step` times: before the `k`-th call (counting from 0) the
/// accumulator holds `acc - k * step`, which covers a whole step exactly
/// when `k < acc / step`; what is left at the end is `acc % step`.
pub proof fn law_expend_consumes_whole_steps(acc: nat, step: nat, k: nat)
    requires
        step > 0,
        k <= acc / step,
    ensures
        acc - k * step >= 0,
        (acc - k * step >= step) == (k < acc / step),
        acc - (acc / step) * step == acc % step,
{
    let q = acc / step;
    let r = acc % step;
    assert(acc == q * step + r && 0 <= r < step) by (nonlinear_arith)
        requires
            step > 0,
            q == acc / step,
            r == acc % step,
    ;
    assert(acc - k * step == (q - k) * step + r) by (nonlinear_arith)
        requires
            acc == q * step + r,
    ;
    assert((q - k) * step >= 0) by (nonlinear_arith)
        requires
            k <= q,
            step > 0,
    ;
    assert(((q - k) * step + r >= step) == (k < q)) by (nonlinear_arith)
        requires
            k <= q,
            step > 0,
            0 <= r < step,
    ;
}

/// Fixed-timestep configuration for deterministic simulation stages.
///
/// Durations are held in nanoseconds. Systems in the fixed-update stage
/// conceptually run at this fixed rate: real elapsed time is added to an
/// accumulator, from which whole steps are expended, zero or more per
/// frame.
pub struct FixedTime {
    /// The fixed timestep.
    step: u128,
    /// Accumulated real time waiting to be consumed.
    accumulator: u128,
}

impl FixedTime {
    /// The fixed step, in nanoseconds.
    pub closed spec fn step_nanos(&self) -> nat {
        self.step as nat
    }

    /// The accumulated time, in nanoseconds.
    pub closed spec fn accumulated(&self) -> nat {
        self.accumulator as nat
    }

    /// Both values fit in a duration.
    pub closed spec fn wf(&self) -> bool {
        &&& self.step <= MAX_DURATION_NANOS
        &&& self.accumulator <= MAX_DURATION_NANOS
    }

    /// Creates a `FixedTime` with the given step (nanoseconds) and an
    /// empty accumulator.
    pub fn new(step: u128) -> (r: Self)
        requires
            step <= MAX_DURATION_NANOS,
        ensures
            r.wf(),
            r.step_nanos() == step,
            r.accumulated() == 0,
    {
        FixedTime { step, accumulator: 0 }
    }

    /// The fixed step, in nanoseconds.
    pub fn step(&self) -> (r: u128)
        ensures
            r == self.step_nanos(),
    {
        self.step
    }

    /// The accumulated real time, in nanoseconds.
    pub fn accumulator(&self) -> (r: u128)
        ensures
            r == self.accumulated(),
    {
        self.accumulator
    }

    /// Adds real elapsed time (nanoseconds) to the accumulator. The sum
    /// must still fit in a duration.
    pub fn accumulate(&mut self, delta: u128)
        requires
            old(self).wf(),
            old(self).accumulated() + delta <= MAX_DURATION_NANOS,
        ensures
            final(self).wf(),
            final(self).step_nanos() == old(self).step_nanos(),
            final(self).accumulated() == old(self).accumulated() + delta,
    {
        self.accumulator = self.accumulator + delta;
    }

    /// Returns `true` and subtracts one step if the accumulator holds at
    /// least one full step; returns `false` and changes nothing otherwise.
    pub fn expend(&mut self) -> (r: bool)
        requires
            old(self).wf(),
        ensures
            final(self).wf(),
            r == (old(self).accumulated() >= old(self).step_nanos()),
            final(self).step_nanos() == old(self).step_nanos(),
            final(self).accumulated() == if r {
                old(self).accumulated() - old(self).step_nanos()
            } else {
                old(self).accumulated() as int
            },
    {
        if self.accumulator >= self.step {
            self.accumulator = self.accumulator - self.step;
            true
        } else {
            false
        }
    }
}

impl Default for FixedTime {
    /// The 60 Hz timestep, in whole nanoseconds, with an empty accumulator.
    fn default() -> (r: Self)
        ensures
            r.wf(),
            r.step_nanos() == DEFAULT_STEP_NANOS,
            r.accumulated() == 0,
    {
        Self::new(DEFAULT_STEP_NANOS)
    }
}

/// The elapsed time of a clock is the reading of its last frame, not a
/// sum of readings: over frames recorded at readings that never go
/// backwards, the deltas add up to the time between the first and the
/// last reading, and each frame counts once.
pub proof fn law_frame_deltas_add_up_to_elapsed_time(
    c0: FrameClock,
    c1: FrameClock,
    c2: FrameClock,
    t1: u128,
    t2: u128,
)
    requires
        FrameClock::records(c0, c1, t1),
        FrameClock::records(c1, c2, t2),
        c0.elapsed_nanos() <= t1 <= t2,
    ensures
        c2.elapsed_nanos() == t2,
        c1.delta_nanos() + c2.delta_nanos() == c2.elapsed_nanos() - c0.elapsed_nanos(),
        c2.delta_nanos() == t2 - t1,
        c2.frames() == c0.frames() + 2,
{
}

} // verus!

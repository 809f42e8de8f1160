//! The fixed-tick schedule: a step, a sleep, a step, a sleep, without end.
//!
//! The loop itself belongs to the host, which owns the step and the sleep.
//! What is decided here is what the host does next and for how long it sleeps.

use vstd::prelude::*;
use crate::arith::{from_whole, quotient};
use crate::scalar::{Scalar, ONE_BITS};

verus! {

/// The nanoseconds of one second.
pub const NANOS_PER_SECOND: u64 = 1_000_000_000;

/// The frame rate that a builder starts with.
pub const DEFAULT_FPS: u32 = 60;

/// The configuration of a loop: its frame rate, and the time of one frame in
/// seconds.
#[derive(Debug, Clone, Copy)]
pub struct EventLoopConfig {
    /// Frames per second.
    pub fps: u32,
    /// The time of one frame: 1 divided by `fps`, where a builder made it.
    pub delta_time: Scalar,
}

/// The time of one frame at `fps` frames per second: 1 divided by the scalar
/// nearest to `fps`. At no frames per second that is infinite.
pub open spec fn frame_time(fps: u32) -> Scalar {
    quotient(Scalar { bits: ONE_BITS }, from_whole(fps as nat))
}

/// The configuration for `fps` frames per second.
pub open spec fn config_for(fps: u32) -> EventLoopConfig {
    EventLoopConfig { fps, delta_time: frame_time(fps) }
}

/// A loop that has not started.
pub struct EventLoop {
    /// The configuration of the loop.
    pub config: EventLoopConfig,
}

/// What the host does next.
#[derive(Debug, Clone, Copy)]
pub enum Action {
    /// Run the step once, with this configuration.
    Step(EventLoopConfig),
    /// Sleep for this many nanoseconds.
    Sleep(u64),
}

/// A loop that runs. It hands out a step, then a sleep, then a step again, and
/// never ends: a host that wants to stop stops asking.
#[derive(Debug, Clone, Copy)]
pub struct Schedule {
    /// The configuration that every step is given.
    pub config: EventLoopConfig,
    /// A step was handed out, and the sleep that follows it was not yet.
    pub stepped: bool,
}

/// The sleep between two steps, in nanoseconds: one second divided by the
/// frame rate, down to the nanosecond.
pub open spec fn period_of(config: EventLoopConfig) -> nat {
    (NANOS_PER_SECOND as nat) / (config.fps as nat)
}

impl Schedule {
    /// The action that is due.
    pub open spec fn due(self) -> Action {
        if self.stepped {
            Action::Sleep(period_of(self.config) as u64)
        } else {
            Action::Step(self.config)
        }
    }

    /// The schedule once the due action was handed out.
    pub open spec fn after(self) -> Schedule {
        Schedule { stepped: !self.stepped, ..self }
    }

    /// The schedule after `count` actions were handed out.
    pub open spec fn skip(self, count: nat) -> Schedule
        decreases count,
    {
        if count == 0 {
            self
        } else {
            self.after().skip((count - 1) as nat)
        }
    }

    /// Hands out the action that is due, and moves on.
    pub fn next(&mut self) -> (action: Action)
        requires
            old(self).config.fps > 0,
        ensures
            action == old(self).due(),
            *final(self) == old(self).after(),
    {
        if self.stepped {
            self.stepped = false;
            Action::Sleep(NANOS_PER_SECOND / (self.config.fps as u64))
        } else {
            self.stepped = true;
            Action::Step(self.config)
        }
    }
}

impl EventLoop {
    /// The loop with the given configuration.
    #[must_use]
    pub fn new(config: EventLoopConfig) -> (r: EventLoop)
        ensures
            r.config == config,
    {
        EventLoop { config }
    }

    /// The schedule of the loop at its start: a step is due.
    pub open spec fn started(self) -> Schedule {
        Schedule { config: self.config, stepped: false }
    }

    /// Starts the loop, for a step that changes nothing outside itself. A loop
    /// of no frames per second has no period and cannot start.
    pub fn start(&self) -> (r: Schedule)
        requires
            self.config.fps > 0,
        ensures
            r == self.started(),
    {
        Schedule { config: self.config, stepped: false }
    }

    /// Starts the loop, for a step that carries state of its own from tick to
    /// tick. The schedule is that of `start`.
    pub fn start_mut(&self) -> (r: Schedule)
        requires
            self.config.fps > 0,
        ensures
            r == self.started(),
    {
        self.start()
    }
}

/// A loop in the making.
#[derive(Debug)]
pub struct EventLoopBuilder {
    config: EventLoopConfig,
}

impl EventLoopBuilder {
    /// The configuration that `build` would give its loop.
    pub closed spec fn pending(self) -> EventLoopConfig {
        self.config
    }

    /// A builder at the default frame rate.
    pub fn new() -> (r: EventLoopBuilder)
        ensures
            r.pending() == config_for(DEFAULT_FPS),
    {
        EventLoopBuilder { config: configure(DEFAULT_FPS) }
    }

    /// Sets the frame rate, and with it the time of one frame.
    pub fn fps(self, fps: u32) -> (r: EventLoopBuilder)
        ensures
            r.pending() == config_for(fps),
    {
        EventLoopBuilder { config: configure(fps) }
    }

    /// The loop with the configuration that was built.
    pub fn build(&self) -> (r: EventLoop)
        ensures
            r.config == self.pending(),
    {
        EventLoop { config: self.config }
    }
}

impl Default for EventLoopBuilder {
    fn default() -> (r: EventLoopBuilder)
        ensures
            r.pending() == config_for(DEFAULT_FPS),
    {
        EventLoopBuilder::new()
    }
}

/// The configuration for `fps` frames per second.
pub fn configure(fps: u32) -> (r: EventLoopConfig)
    ensures
        r == config_for(fps),
{
    EventLoopConfig { fps, delta_time: Scalar::from_bits(ONE_BITS) / Scalar::from_u32(fps) }
}

/// The actions of a running loop alternate: counted from its start, every
/// action at an even place is a step with the loop's configuration, and every
/// action at an odd place is the sleep for the loop's period. So each sleep
/// follows exactly one step, and each step but the first follows one sleep.
pub proof fn lemma_schedule_alternates(el: EventLoop, place: nat)
    ensures
        el.started().skip(place).config == el.config,
        place % 2 == 0 ==> el.started().skip(place).due() == Action::Step(el.config),
        place % 2 == 1 ==> el.started().skip(place).due() == Action::Sleep(
            period_of(el.config) as u64,
        ),
{
    lemma_skip(el.started(), place);
}

/// Skipping keeps the configuration, and flips `stepped` once per action.
proof fn lemma_skip(s: Schedule, count: nat)
    ensures
        s.skip(count).config == s.config,
        s.skip(count).stepped == (if count % 2 == 0 {
            s.stepped
        } else {
            !s.stepped
        }),
    decreases count,
{
    if count > 0 {
        lemma_skip(s.after(), (count - 1) as nat);
    }
}

} // verus!

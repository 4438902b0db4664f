//! One tick: the interleave of the cores until the reference core has
//! finished one video frame.
//!
//! A tick latches the keys of every core, reads the reference core's frame
//! counter, and then makes passes over the cores until that counter has
//! moved on by one. In a pass every core that its driver has not put to
//! sleep runs one timing slice. A pass in which nobody runs is a deadlock; a
//! tick that has run more than [`MAX_SLICES_PER_TICK`] slices after a pass,
//! and has still not finished the frame, is a livelock.
//!
//! The tick asks for one [`TickAction`] at a time and is told its outcome as
//! a [`TickEvent`].

use vstd::prelude::*;

use crate::error::CallError;
use crate::peripheral::MAX_PLAYERS;

verus! {

/// Which core a tick treats as the frame-boundary reference. Player 0 is
/// also the lockstep clock owner.
pub const REFERENCE: usize = 0;

/// The slices after which a tick that has not finished its frame makes no
/// further pass, turning a lockstep livelock (which would otherwise spin
/// forever) into an error. A maximally chatty link of four takes about 3200
/// slices for a tick.
pub const MAX_SLICES_PER_TICK: usize = 100_000;

/// What a tick wants done next.
#[derive(Clone, Copy, PartialEq, Eq, Debug, Structural)]
pub enum TickAction {
    /// Latch `keys` for core `core`.
    SetKeys { core: usize, keys: u32 },
    /// Read the frame counter of the reference core.
    ReadFrameCounter,
    /// Ask the driver of core `core` whether it has put the core to sleep.
    PollAsleep { core: usize },
    /// Run one timing slice of core `core`.
    RunLoop { core: usize },
    /// Nothing: the tick is over after this many slices.
    Finished { slices: usize },
    /// Nothing: the tick has failed.
    Failed { error: CallError },
}

/// What came of a [`TickAction`].
#[derive(Clone, Copy, PartialEq, Eq, Debug, Structural)]
pub enum TickEvent {
    /// Keys were latched, or a slice was run.
    Done,
    /// The frame counter of the reference core.
    FrameCounter(u32),
    /// Whether the driver has put the core to sleep.
    Asleep(bool),
}

/// Where a tick stands.
#[derive(Clone, Copy, PartialEq, Eq, Debug, Structural)]
pub enum Phase {
    /// Latching the keys of a core.
    Latch { core: usize },
    /// Reading the frame counter that the tick starts from.
    Aim,
    /// Reading the frame counter between two passes.
    Check,
    /// Asking whether a core is asleep.
    Poll { core: usize },
    /// Reading the frame counter before the reference core runs.
    Recheck,
    /// Running a slice of a core.
    Run { core: usize },
    /// The reference core has finished its frame.
    Finished,
    /// A pass went by in which no core ran.
    Deadlock,
    /// A pass ended with too many slices and the frame unfinished.
    Livelock,
}

/// The state of a tick: the keys of the cores, how many of the cores have a
/// driver, and how far the tick has come.
pub struct TickState {
    /// One key set per core.
    pub keys: Seq<u32>,
    /// Cores `0..drivers` have a driver.
    pub drivers: nat,
    /// Where the tick stands.
    pub phase: Phase,
    /// The frame counter that ends the tick.
    pub target: u32,
    /// Slices run so far.
    pub slices: nat,
    /// Whether a core has run in the present pass.
    pub progressed: bool,
}

impl TickState {
    /// The tick that is about to latch the first core's keys.
    pub open spec fn begin(keys: Seq<u32>, drivers: nat) -> TickState {
        TickState {
            keys,
            drivers,
            phase: Phase::Latch { core: 0 },
            target: 0,
            slices: 0,
            progressed: false,
        }
    }

    /// The frame counter after one more frame; counters wrap.
    pub open spec fn next_frame(count: u32) -> u32 {
        if count == u32::MAX {
            0
        } else {
            (count + 1) as u32
        }
    }

    /// Number of cores.
    pub open spec fn cores(self) -> nat {
        self.keys.len()
    }

    /// What every tick keeps: there is a core, no core index is out of range,
    /// and a pass begins within the bound on slices.
    pub open spec fn valid(self) -> bool {
        &&& 1 <= self.cores() <= MAX_PLAYERS
        &&& self.drivers <= self.cores()
        &&& !self.progressed ==> self.slices <= MAX_SLICES_PER_TICK
        &&& match self.phase {
            Phase::Latch { core } => core < self.cores() && self.slices == 0,
            Phase::Aim => self.slices == 0,
            Phase::Check => self.slices <= MAX_SLICES_PER_TICK + self.cores(),
            Phase::Poll { core } => {
                &&& core < self.drivers
                &&& self.slices <= MAX_SLICES_PER_TICK + core
            },
            Phase::Recheck => self.slices <= MAX_SLICES_PER_TICK,
            Phase::Run { core } => {
                &&& core < self.cores()
                &&& self.slices <= MAX_SLICES_PER_TICK + core
            },
            Phase::Finished => self.slices <= MAX_SLICES_PER_TICK + self.cores(),
            Phase::Deadlock => !self.progressed,
            Phase::Livelock => self.progressed && {
                MAX_SLICES_PER_TICK < self.slices <= MAX_SLICES_PER_TICK + self.cores()
            },
        }
    }

    /// Whether the tick has ended, well or badly.
    pub open spec fn over(self) -> bool {
        self.phase is Finished || self.phase is Deadlock || self.phase is Livelock
    }

    /// What the tick wants done in this state.
    pub open spec fn action(self) -> TickAction {
        match self.phase {
            Phase::Latch { core } => TickAction::SetKeys { core, keys: self.keys[core as int] },
            Phase::Aim => TickAction::ReadFrameCounter,
            Phase::Check => TickAction::ReadFrameCounter,
            Phase::Poll { core } => TickAction::PollAsleep { core },
            Phase::Recheck => TickAction::ReadFrameCounter,
            Phase::Run { core } => TickAction::RunLoop { core },
            Phase::Finished => TickAction::Finished { slices: self.slices as usize },
            Phase::Deadlock => TickAction::Failed { error: CallError::Deadlock },
            Phase::Livelock => TickAction::Failed { error: CallError::Livelock },
        }
    }

    /// Whether `event` answers what the tick wants done.
    pub open spec fn accepts(self, event: TickEvent) -> bool {
        match self.action() {
            TickAction::SetKeys { .. } => event is Done,
            TickAction::ReadFrameCounter => event is FrameCounter,
            TickAction::PollAsleep { .. } => event is Asleep,
            TickAction::RunLoop { .. } => event is Done,
            TickAction::Finished { .. } => false,
            TickAction::Failed { .. } => false,
        }
    }

    /// The same tick at another point.
    pub open spec fn at(self, phase: Phase) -> TickState {
        TickState { phase, ..self }
    }

    /// A core that is awake comes to its slice: the reference core only if
    /// its frame is not over yet.
    pub open spec fn wake(self, core: usize) -> TickState {
        if core == REFERENCE {
            self.at(Phase::Recheck)
        } else {
            self.at(Phase::Run { core })
        }
    }

    /// The pass comes to core `core`, or to its end when there is none.
    pub open spec fn visit(self, core: nat) -> TickState {
        if core < self.drivers {
            self.at(Phase::Poll { core: core as usize })
        } else if core < self.cores() {
            self.wake(core as usize)
        } else if !self.progressed {
            self.at(Phase::Deadlock)
        } else {
            self.at(Phase::Check)
        }
    }

    /// The state after `event` has answered the action of this one.
    pub open spec fn step(self, event: TickEvent) -> TickState {
        match (self.phase, event) {
            (Phase::Latch { core }, TickEvent::Done) => {
                if core + 1 < self.cores() {
                    self.at(Phase::Latch { core: (core + 1) as usize })
                } else {
                    self.at(Phase::Aim)
                }
            },
            (Phase::Aim, TickEvent::FrameCounter(count)) => {
                TickState { phase: Phase::Check, target: Self::next_frame(count), ..self }
            },
            (Phase::Check, TickEvent::FrameCounter(count)) => {
                if count == self.target {
                    self.at(Phase::Finished)
                } else if self.slices > MAX_SLICES_PER_TICK {
                    self.at(Phase::Livelock)
                } else {
                    TickState { progressed: false, ..self }.visit(0)
                }
            },
            (Phase::Poll { core }, TickEvent::Asleep(asleep)) => {
                if asleep {
                    self.visit((core + 1) as nat)
                } else {
                    self.wake(core)
                }
            },
            (Phase::Recheck, TickEvent::FrameCounter(count)) => {
                if count == self.target {
                    self.visit((REFERENCE + 1) as nat)
                } else {
                    self.at(Phase::Run { core: REFERENCE })
                }
            },
            (Phase::Run { core }, TickEvent::Done) => {
                TickState { slices: self.slices + 1, progressed: true, ..self }.visit(
                    (core + 1) as nat,
                )
            },
            _ => self,
        }
    }
}

/// A tick under way.
pub struct Tick {
    keys: Vec<u32>,
    drivers: usize,
    phase: Phase,
    target: u32,
    slices: usize,
    progressed: bool,
}

impl View for Tick {
    type V = TickState;

    closed spec fn view(&self) -> TickState {
        TickState {
            keys: self.keys@,
            drivers: self.drivers as nat,
            phase: self.phase,
            target: self.target,
            slices: self.slices as nat,
            progressed: self.progressed,
        }
    }
}

impl Tick {
    /// A tick of the cores that `keys` has one key set each for, of which the
    /// first `drivers` have a driver.
    pub fn begin(keys: Vec<u32>, drivers: usize) -> (tick: Tick)
        requires
            1 <= keys.len() <= MAX_PLAYERS,
            drivers <= keys.len(),
        ensures
            tick@ == TickState::begin(keys@, drivers as nat),
            tick@.valid(),
    {
        Tick {
            keys,
            drivers,
            phase: Phase::Latch { core: 0 },
            target: 0,
            slices: 0,
            progressed: false,
        }
    }

    /// What the tick wants done next.
    pub fn action(&self) -> (action: TickAction)
        requires
            self@.valid(),
        ensures
            action == self@.action(),
    {
        match self.phase {
            Phase::Latch { core } => TickAction::SetKeys { core, keys: self.keys[core] },
            Phase::Aim => TickAction::ReadFrameCounter,
            Phase::Check => TickAction::ReadFrameCounter,
            Phase::Poll { core } => TickAction::PollAsleep { core },
            Phase::Recheck => TickAction::ReadFrameCounter,
            Phase::Run { core } => TickAction::RunLoop { core },
            Phase::Finished => TickAction::Finished { slices: self.slices },
            Phase::Deadlock => TickAction::Failed { error: CallError::Deadlock },
            Phase::Livelock => TickAction::Failed { error: CallError::Livelock },
        }
    }

    /// Tells the tick what came of its action.
    pub fn advance(&mut self, event: TickEvent)
        requires
            old(self)@.valid(),
            old(self)@.accepts(event),
        ensures
            final(self)@ == old(self)@.step(event),
            final(self)@.valid(),
    {
        match (self.phase, event) {
            (Phase::Latch { core }, TickEvent::Done) => {
                if core + 1 < self.keys.len() {
                    self.phase = Phase::Latch { core: core + 1 };
                } else {
                    self.phase = Phase::Aim;
                }
            },
            (Phase::Aim, TickEvent::FrameCounter(count)) => {
                self.target = count.wrapping_add(1);
                self.phase = Phase::Check;
            },
            (Phase::Check, TickEvent::FrameCounter(count)) => {
                if count == self.target {
                    self.phase = Phase::Finished;
                } else if self.slices > MAX_SLICES_PER_TICK {
                    self.phase = Phase::Livelock;
                } else {
                    self.progressed = false;
                    self.visit(0);
                }
            },
            (Phase::Poll { core }, TickEvent::Asleep(asleep)) => {
                if asleep {
                    self.visit(core + 1);
                } else {
                    self.wake(core);
                }
            },
            (Phase::Recheck, TickEvent::FrameCounter(count)) => {
                if count == self.target {
                    self.visit(REFERENCE + 1);
                } else {
                    self.phase = Phase::Run { core: REFERENCE };
                }
            },
            (Phase::Run { core }, TickEvent::Done) => {
                self.slices = self.slices + 1;
                self.progressed = true;
                self.visit(core + 1);
            },
            _ => {},
        }
    }

    /// Brings an awake core to its slice.
    fn wake(&mut self, core: usize)
        ensures
            final(self)@ == old(self)@.wake(core),
    {
        if core == REFERENCE {
            self.phase = Phase::Recheck;
        } else {
            self.phase = Phase::Run { core };
        }
    }

    /// Brings the pass to core `core`, or to its end.
    fn visit(&mut self, core: usize)
        ensures
            final(self)@ == old(self)@.visit(core as nat),
    {
        if core < self.drivers {
            self.phase = Phase::Poll { core };
        } else if core < self.keys.len() {
            self.wake(core);
        } else if !self.progressed {
            self.phase = Phase::Deadlock;
        } else {
            self.phase = Phase::Check;
        }
    }

    /// How the tick ended: the number of slices it ran, or why it failed.
    /// `None` while it is under way.
    pub fn outcome(&self) -> (outcome: Option<Result<usize, CallError>>)
        ensures
            outcome == match self@.phase {
                Phase::Finished => Some(Ok::<usize, CallError>(self@.slices as usize)),
                Phase::Deadlock => Some(Err::<usize, CallError>(CallError::Deadlock)),
                Phase::Livelock => Some(Err::<usize, CallError>(CallError::Livelock)),
                _ => None,
            },
            outcome is Some <==> self@.over(),
            outcome == match self@.action() {
                TickAction::Finished { slices } => Some(Ok::<usize, CallError>(slices)),
                TickAction::Failed { error } => Some(Err::<usize, CallError>(error)),
                _ => None,
            },
    {
        match self.phase {
            Phase::Finished => Some(Ok(self.slices)),
            Phase::Deadlock => Some(Err(CallError::Deadlock)),
            Phase::Livelock => Some(Err(CallError::Livelock)),
            _ => None,
        }
    }
}

} // verus!

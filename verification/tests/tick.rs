use mgba_siolink::{CallError, Tick, TickAction, TickEvent, MAX_SLICES_PER_TICK};

/// Cores that finish a reference frame after so many of their own slices.
struct Machine {
    frame: u32,
    slices_in_frame: usize,
    reference_slices: usize,
    asleep: Vec<bool>,
    log: Vec<TickAction>,
}

impl Machine {
    fn new(frame: u32, slices_in_frame: usize, asleep: Vec<bool>) -> Machine {
        Machine {
            frame,
            slices_in_frame,
            reference_slices: 0,
            asleep,
            log: Vec::new(),
        }
    }

    fn perform(&mut self, action: TickAction) -> TickEvent {
        self.log.push(action);
        match action {
            TickAction::SetKeys { .. } => TickEvent::Done,
            TickAction::ReadFrameCounter => TickEvent::FrameCounter(self.frame),
            TickAction::PollAsleep { core } => TickEvent::Asleep(self.asleep[core]),
            TickAction::RunLoop { core } => {
                if core == 0 {
                    self.reference_slices += 1;
                    if self.reference_slices % self.slices_in_frame == 0 {
                        self.frame = self.frame.wrapping_add(1);
                    }
                }
                TickEvent::Done
            }
            _ => panic!("the tick is over"),
        }
    }

    fn run(&mut self, mut tick: Tick) -> Result<usize, CallError> {
        loop {
            if let Some(outcome) = tick.outcome() {
                return outcome;
            }
            let event = self.perform(tick.action());
            tick.advance(event);
        }
    }

    fn runs_of(&self, wanted: usize) -> usize {
        self.log
            .iter()
            .filter(|action| **action == TickAction::RunLoop { core: wanted })
            .count()
    }
}

#[test]
fn a_tick_latches_keys_then_interleaves() {
    let mut machine = Machine::new(10, 2, vec![false, false]);
    let slices = machine.run(Tick::begin(vec![0x11, 0x22], 2));
    assert_eq!(slices, Ok(4));
    assert_eq!(
        machine.log,
        vec![
            TickAction::SetKeys { core: 0, keys: 0x11 },
            TickAction::SetKeys { core: 1, keys: 0x22 },
            TickAction::ReadFrameCounter,
            TickAction::ReadFrameCounter,
            TickAction::PollAsleep { core: 0 },
            TickAction::ReadFrameCounter,
            TickAction::RunLoop { core: 0 },
            TickAction::PollAsleep { core: 1 },
            TickAction::RunLoop { core: 1 },
            TickAction::ReadFrameCounter,
            TickAction::PollAsleep { core: 0 },
            TickAction::ReadFrameCounter,
            TickAction::RunLoop { core: 0 },
            TickAction::PollAsleep { core: 1 },
            TickAction::RunLoop { core: 1 },
            TickAction::ReadFrameCounter,
        ]
    );
    assert_eq!(machine.frame, 11);
}

#[test]
fn a_solo_core_without_a_driver_is_never_polled() {
    let mut machine = Machine::new(0, 3, vec![]);
    assert_eq!(machine.run(Tick::begin(vec![0x3ff], 0)), Ok(3));
    assert!(!machine
        .log
        .iter()
        .any(|action| matches!(action, TickAction::PollAsleep { .. })));
    assert_eq!(machine.runs_of(0), 3);
}

#[test]
fn the_frame_counter_wraps() {
    let mut machine = Machine::new(u32::MAX, 5, vec![false]);
    assert_eq!(machine.run(Tick::begin(vec![0], 1)), Ok(5));
    assert_eq!(machine.frame, 0);
}

#[test]
fn a_sleeping_core_does_not_run() {
    let mut machine = Machine::new(0, 4, vec![false, true, false]);
    assert_eq!(machine.run(Tick::begin(vec![0, 0, 0], 3)), Ok(8));
    assert_eq!(machine.runs_of(0), 4);
    assert_eq!(machine.runs_of(1), 0);
    assert_eq!(machine.runs_of(2), 4);
}

#[test]
fn all_cores_asleep_is_a_deadlock() {
    let mut machine = Machine::new(0, 1, vec![true, true]);
    let outcome = machine.run(Tick::begin(vec![0, 0], 2));
    assert_eq!(outcome, Err(CallError::Deadlock));
    assert_eq!(
        CallError::Deadlock.call(),
        "Link::tick (lockstep deadlock: all cores asleep)"
    );
    // Two keys, the counter twice, two polls: a single pass was enough.
    assert_eq!(machine.log.len(), 6);
}

#[test]
fn a_reference_that_never_finishes_is_a_livelock() {
    let mut machine = Machine::new(0, usize::MAX, vec![false; 4]);
    let outcome = machine.run(Tick::begin(vec![0; 4], 4));
    assert_eq!(outcome, Err(CallError::Livelock));
    assert_eq!(
        CallError::Livelock.call(),
        "Link::tick (lockstep livelock: slice cap exceeded)"
    );
    // 25001 passes of four cores: the first pass over the cap ends the tick.
    let runs: usize = (0..4).map(|core| machine.runs_of(core)).sum();
    assert_eq!(runs, 100_004);
    assert!(machine.log.len() <= 4 + 2 + (MAX_SLICES_PER_TICK + 1) * (2 * 4 + 2));
}

#[test]
fn a_tick_may_use_the_whole_slice_budget() {
    let mut machine = Machine::new(7, MAX_SLICES_PER_TICK / 4, vec![false; 4]);
    assert_eq!(machine.run(Tick::begin(vec![0; 4], 4)), Ok(100_000));
}

#[test]
fn a_frame_that_ends_in_the_pass_over_the_cap_is_finished() {
    // A solo core whose frame ends with the slice that exceeds the cap.
    let mut solo = Machine::new(7, MAX_SLICES_PER_TICK + 1, vec![]);
    assert_eq!(solo.run(Tick::begin(vec![0], 0)), Ok(100_001));
    assert_eq!(solo.frame, 8);
    // One slice more, and the tick is given up.
    let mut slower = Machine::new(7, MAX_SLICES_PER_TICK + 2, vec![]);
    assert_eq!(
        slower.run(Tick::begin(vec![0], 0)),
        Err(CallError::Livelock)
    );
    assert_eq!(slower.runs_of(0), 100_001);

    let mut four = Machine::new(7, 25_001, vec![false; 4]);
    assert_eq!(four.run(Tick::begin(vec![0; 4], 4)), Ok(100_004));
}

#[test]
fn a_sleeping_reference_waits_for_the_others() {
    // The reference sleeps for a pass while the other core catches up.
    let mut tick = Tick::begin(vec![1, 2], 2);
    for event in [
        TickEvent::Done,
        TickEvent::Done,
        TickEvent::FrameCounter(100),
        TickEvent::FrameCounter(100),
        TickEvent::Asleep(true),
        TickEvent::Asleep(false),
        TickEvent::Done,
    ] {
        tick.advance(event);
    }
    assert_eq!(tick.action(), TickAction::ReadFrameCounter);
    assert_eq!(tick.outcome(), None);
    tick.advance(TickEvent::FrameCounter(101));
    assert_eq!(tick.action(), TickAction::Finished { slices: 1 });
    assert_eq!(tick.outcome(), Some(Ok(1)));
}

#[test]
fn a_reference_at_its_frame_is_passed_over() {
    let mut tick = Tick::begin(vec![1, 2], 2);
    for event in [
        TickEvent::Done,
        TickEvent::Done,
        TickEvent::FrameCounter(100),
        TickEvent::FrameCounter(100),
        TickEvent::Asleep(false),
        TickEvent::FrameCounter(101),
    ] {
        tick.advance(event);
    }
    assert_eq!(tick.action(), TickAction::PollAsleep { core: 1 });
    // Nobody has run: were the other core asleep too, this were a deadlock.
    tick.advance(TickEvent::Asleep(true));
    assert_eq!(
        tick.action(),
        TickAction::Failed {
            error: CallError::Deadlock
        }
    );
}

#[test]
fn equal_machines_replay_equal_ticks() {
    let mut first = Machine::new(3, 7, vec![false, true, false, false]);
    let mut second = Machine::new(3, 7, vec![false, true, false, false]);
    let keys = vec![0x11, 0x17, 0x1d, 0x23];
    let a = first.run(Tick::begin(keys.clone(), 4));
    let b = second.run(Tick::begin(keys, 4));
    assert_eq!(a, Ok(21));
    assert_eq!(a, b);
    assert_eq!(first.log, second.log);
}

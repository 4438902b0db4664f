//! What holds of every tick, whatever the emulator answers.
//!
//! A run is a tick together with the events that have answered its actions
//! so far; the laws speak of the states that it went through.

use vstd::prelude::*;

use crate::error::CallError;
use crate::peripheral::MAX_PLAYERS;
use crate::tick::{
    Phase, TickAction, TickEvent, TickState, MAX_SLICES_PER_TICK, REFERENCE,
};

verus! {

/// The state of the tick after the first `k` events.
pub open spec fn state_at(start: TickState, events: Seq<TickEvent>, k: nat) -> TickState
    decreases k,
{
    if k == 0 {
        start
    } else {
        state_at(start, events, (k - 1) as nat).step(events[k - 1])
    }
}

/// Whether every event answers the action it was given for.
pub open spec fn is_run(start: TickState, events: Seq<TickEvent>) -> bool {
    forall|k: nat|
        k < events.len() ==> #[trigger] state_at(start, events, k).accepts(events[k as int])
}

/// A tick of `keys.len()` cores of which the first `drivers` have a driver,
/// run through `events`.
pub open spec fn is_tick(keys: Seq<u32>, drivers: nat, events: Seq<TickEvent>) -> bool {
    &&& 1 <= keys.len() <= MAX_PLAYERS
    &&& drivers <= keys.len()
    &&& is_run(TickState::begin(keys, drivers), events)
}

/// The phase of such a tick after the first `k` events.
pub open spec fn phase_at(
    keys: Seq<u32>,
    drivers: nat,
    events: Seq<TickEvent>,
    k: nat,
) -> Phase {
    state_at(TickState::begin(keys, drivers), events, k).phase
}

/// How many slices were run by the first `k` events.
pub open spec fn slices_run(start: TickState, events: Seq<TickEvent>, k: nat) -> nat
    decreases k,
{
    if k == 0 {
        0
    } else {
        let before = (k - 1) as nat;
        slices_run(start, events, before) + (if state_at(start, events, before).action() is RunLoop {
            1nat
        } else {
            0nat
        })
    }
}

/// Whether an event is a frame counter one frame past `first`; counters are of
/// 32 bits and wrap.
pub open spec fn one_frame_on(first: TickEvent, event: TickEvent) -> bool {
    match (first, event) {
        (TickEvent::FrameCounter(first), TickEvent::FrameCounter(count)) => {
            count == (first + 1) % 0x1_0000_0000
        },
        _ => false,
    }
}

/// The most events that a tick of `cores` cores takes.
pub open spec fn tick_bound(cores: nat) -> nat {
    cores + 2 + (MAX_SLICES_PER_TICK as nat + 1) * pass_bound(cores)
}

/// The most events between the starts of two passes.
pub open spec fn pass_bound(cores: nat) -> nat {
    2 * cores + 2
}

/// Every state of a tick is valid, and keeps the keys and the drivers.
pub proof fn law_valid(keys: Seq<u32>, drivers: nat, events: Seq<TickEvent>, k: nat)
    requires
        is_tick(keys, drivers, events),
        k <= events.len(),
    ensures
        state_at(TickState::begin(keys, drivers), events, k).valid(),
        state_at(TickState::begin(keys, drivers), events, k).keys == keys,
        state_at(TickState::begin(keys, drivers), events, k).drivers == drivers,
    decreases k,
{
    if k > 0 {
        let before = (k - 1) as nat;
        law_valid(keys, drivers, events, before);
        assert(state_at(TickState::begin(keys, drivers), events, before).accepts(
            events[before as int],
        ));
    }
}

/// What a tick asks for is told by where it stands, and what answers it by
/// what it asks for: keys that are latched and slices that are run are done,
/// a counter that is read is a counter, a driver that is polled says whether
/// it sleeps, and nothing answers a tick that is over.
pub proof fn law_phases_tell_actions(state: TickState, event: TickEvent)
    requires
        state.valid(),
    ensures
        match state.phase {
            Phase::Latch { core } => state.action() == (TickAction::SetKeys {
                core,
                keys: state.keys[core as int],
            }),
            Phase::Aim | Phase::Check | Phase::Recheck => {
                state.action() == TickAction::ReadFrameCounter
            },
            Phase::Poll { core } => state.action() == (TickAction::PollAsleep { core }),
            Phase::Run { core } => state.action() == (TickAction::RunLoop { core }),
            Phase::Finished => state.action() matches TickAction::Finished { slices } && slices
                == state.slices,
            Phase::Deadlock => state.action() == (TickAction::Failed {
                error: CallError::Deadlock,
            }),
            Phase::Livelock => state.action() == (TickAction::Failed {
                error: CallError::Livelock,
            }),
        },
        state.over() <==> state.action() is Finished || state.action() is Failed,
        state.accepts(event) <==> match event {
            TickEvent::Done => state.action() is SetKeys || state.action() is RunLoop,
            TickEvent::FrameCounter(_) => state.action() is ReadFrameCounter,
            TickEvent::Asleep(_) => state.action() is PollAsleep,
        },
{
}

/// How many events a tick between two passes can still take, after which no
/// more than `left` passes begin.
#[verifier::opaque]
spec fn passes(cores: nat, left: int) -> int {
    if left > 0 {
        left * pass_bound(cores) + 1
    } else {
        1
    }
}

/// How many events a tick can still take.
spec fn fuel(state: TickState) -> nat {
    let cores = state.cores();
    let rest = |core: int| 2 * (cores - core);
    let later = later(state);
    match state.phase {
        Phase::Latch { core } => {
            (cores - core + 1 + passes(cores, MAX_SLICES_PER_TICK + 1)) as nat
        },
        Phase::Aim => (1 + passes(cores, MAX_SLICES_PER_TICK + 1)) as nat,
        Phase::Check => passes(cores, MAX_SLICES_PER_TICK + 1 - state.slices) as nat,
        Phase::Poll { core } => {
            (rest(core as int) + (if core == REFERENCE {
                1int
            } else {
                0int
            }) + later) as nat
        },
        Phase::Recheck => (rest(0) + later) as nat,
        Phase::Run { core } => (rest(core as int) - 1 + later) as nat,
        _ => 0,
    }
}

/// One pass more takes so many events more.
proof fn lemma_passes(cores: nat, left: int)
    ensures
        passes(cores, left) >= 1,
        left > 0 ==> passes(cores, left) == passes(cores, left - 1) + pass_bound(cores),
        left <= 0 ==> passes(cores, left) == 1,
{
    reveal(passes);
    let width = pass_bound(cores) as int;
    assert(left * width == (left - 1) * width + width) by (nonlinear_arith);
    assert(left > 0 ==> left * width >= 0) by (nonlinear_arith)
        requires
            width >= 0,
    ;
}

/// How many events a tick can still take after the present pass.
spec fn later(state: TickState) -> int {
    passes(
        state.cores(),
        if state.progressed {
            MAX_SLICES_PER_TICK + 1 - state.slices
        } else {
            MAX_SLICES_PER_TICK - state.slices
        },
    )
}

/// What a pass has left when it comes to core `core`.
proof fn lemma_visit_fuel(state: TickState, core: nat)
    requires
        core <= state.cores() <= usize::MAX,
        later(state) >= 1,
        state.progressed ==> later(state) == passes(
            state.cores(),
            MAX_SLICES_PER_TICK + 1 - state.slices,
        ),
    ensures
        fuel(state.visit(core)) <= 2 * (state.cores() - core) + (if core == 0 {
            1int
        } else {
            0int
        }) + later(state),
{
}

/// One event uses fuel up.
proof fn lemma_fuel(state: TickState, event: TickEvent)
    requires
        state.valid(),
        state.accepts(event),
    ensures
        fuel(state.step(event)) < fuel(state),
{
    let cores = state.cores();
    lemma_passes(cores, MAX_SLICES_PER_TICK + 1 - state.slices);
    lemma_passes(cores, MAX_SLICES_PER_TICK - state.slices);
    match (state.phase, event) {
        (Phase::Check, TickEvent::FrameCounter(_)) => {
            lemma_visit_fuel(TickState { progressed: false, ..state }, 0);
        },
        (Phase::Poll { core }, TickEvent::Asleep(_)) => {
            lemma_visit_fuel(state, (core + 1) as nat);
        },
        (Phase::Recheck, TickEvent::FrameCounter(_)) => {
            lemma_visit_fuel(state, 1);
        },
        (Phase::Run { core }, TickEvent::Done) => {
            let after = TickState { slices: state.slices + 1, progressed: true, ..state };
            lemma_passes(cores, MAX_SLICES_PER_TICK + 1 - after.slices);
            lemma_visit_fuel(after, (core + 1) as nat);
        },
        _ => {},
    }
}

/// A tick ends, whatever the emulator does: it takes no more than
/// [`tick_bound`] events.
pub proof fn law_tick_ends(keys: Seq<u32>, drivers: nat, events: Seq<TickEvent>)
    requires
        is_tick(keys, drivers, events),
    ensures
        events.len() <= tick_bound(keys.len()),
{
    lemma_fuel_spent(keys, drivers, events, events.len());
}

/// The events so far and the fuel left make up no more than the fuel at the
/// start.
proof fn lemma_fuel_spent(keys: Seq<u32>, drivers: nat, events: Seq<TickEvent>, k: nat)
    requires
        is_tick(keys, drivers, events),
        k <= events.len(),
    ensures
        k + fuel(state_at(TickState::begin(keys, drivers), events, k)) <= tick_bound(keys.len()),
    decreases k,
{
    let start = TickState::begin(keys, drivers);
    if k > 0 {
        let before = (k - 1) as nat;
        lemma_fuel_spent(keys, drivers, events, before);
        law_valid(keys, drivers, events, before);
        assert(state_at(start, events, before).accepts(events[before as int]));
        lemma_fuel(state_at(start, events, before), events[before as int]);
    } else {
        reveal(passes);
    }
}

/// The slices that a tick reports are the slices that were run.
pub proof fn law_slices_counted(keys: Seq<u32>, drivers: nat, events: Seq<TickEvent>, k: nat)
    requires
        is_tick(keys, drivers, events),
        k <= events.len(),
    ensures
        state_at(TickState::begin(keys, drivers), events, k).slices == slices_run(
            TickState::begin(keys, drivers),
            events,
            k,
        ),
    decreases k,
{
    let start = TickState::begin(keys, drivers);
    if k > 0 {
        let before = (k - 1) as nat;
        law_slices_counted(keys, drivers, events, before);
        law_valid(keys, drivers, events, before);
        assert(state_at(start, events, before).accepts(events[before as int]));
    }
}

/// The cap on slices is an error only where it is exceeded without finishing
/// a reference frame: a tick livelocks right when, between two passes, more
/// slices were run than the cap allows and the counter is not one frame past
/// the first. One that finishes its frame in the very pass that exceeds the
/// cap is no livelock. Either way the cap is exceeded by one pass at most.
pub proof fn law_slice_cap(keys: Seq<u32>, drivers: nat, events: Seq<TickEvent>, k: nat)
    requires
        is_tick(keys, drivers, events),
        k < events.len(),
    ensures
        phase_at(keys, drivers, events, k + 1) is Livelock <==> {
            &&& keys.len() < k
            &&& phase_at(keys, drivers, events, k) is Check
            &&& !one_frame_on(events[keys.len() as int], events[k as int])
            &&& slices_run(TickState::begin(keys, drivers), events, k) > MAX_SLICES_PER_TICK
        },
        slices_run(TickState::begin(keys, drivers), events, k + 1) <= MAX_SLICES_PER_TICK
            + keys.len(),
{
    let start = TickState::begin(keys, drivers);
    law_valid(keys, drivers, events, k);
    law_valid(keys, drivers, events, k + 1);
    law_slices_counted(keys, drivers, events, k);
    law_slices_counted(keys, drivers, events, k + 1);
    law_keys_latched_first(keys, drivers, events, k);
    assert(state_at(start, events, k).accepts(events[k as int]));
    if keys.len() < k {
        law_target(keys, drivers, events, k);
    }
}

/// The keys are latched at a fixed point: the first actions of a tick latch
/// every core's keys, in the order of the cores, and none is latched later.
pub proof fn law_keys_latched_first(
    keys: Seq<u32>,
    drivers: nat,
    events: Seq<TickEvent>,
    k: nat,
)
    requires
        is_tick(keys, drivers, events),
        k <= events.len(),
    ensures
        k < keys.len() ==> state_at(TickState::begin(keys, drivers), events, k).action()
            == (TickAction::SetKeys { core: k as usize, keys: keys[k as int] }),
        k == keys.len() ==> phase_at(keys, drivers, events, k) is Aim,
        k >= keys.len() ==> !(state_at(
            TickState::begin(keys, drivers),
            events,
            k,
        ).action() is SetKeys),
        k > keys.len() ==> !(phase_at(keys, drivers, events, k) is Aim),
        k == keys.len() + 1 ==> phase_at(keys, drivers, events, k) is Check,
    decreases k,
{
    let start = TickState::begin(keys, drivers);
    law_valid(keys, drivers, events, k);
    if k > 0 {
        let before = (k - 1) as nat;
        law_keys_latched_first(keys, drivers, events, before);
        law_valid(keys, drivers, events, before);
        assert(state_at(start, events, before).accepts(events[before as int]));
    }
}

/// A tick aims one frame past the counter that it read first, and keeps to
/// that aim.
pub proof fn law_target(keys: Seq<u32>, drivers: nat, events: Seq<TickEvent>, k: nat)
    requires
        is_tick(keys, drivers, events),
        keys.len() < k <= events.len(),
    ensures
        events[keys.len() as int] is FrameCounter,
        one_frame_on(
            events[keys.len() as int],
            TickEvent::FrameCounter(state_at(TickState::begin(keys, drivers), events, k).target),
        ),
    decreases k,
{
    let start = TickState::begin(keys, drivers);
    let before = (k - 1) as nat;
    law_keys_latched_first(keys, drivers, events, before);
    law_valid(keys, drivers, events, before);
    assert(state_at(start, events, before).accepts(events[before as int]));
    if before > keys.len() {
        law_target(keys, drivers, events, before);
    }
}

/// A tick advances the link by exactly one frame of the reference core: it
/// finishes right when the counter read between two passes is one frame past
/// the counter read at its start.
pub proof fn law_one_reference_frame(
    keys: Seq<u32>,
    drivers: nat,
    events: Seq<TickEvent>,
    k: nat,
)
    requires
        is_tick(keys, drivers, events),
        k < events.len(),
    ensures
        phase_at(keys, drivers, events, k + 1) is Finished <==> {
            &&& keys.len() < k
            &&& phase_at(keys, drivers, events, k) is Check
            &&& one_frame_on(events[keys.len() as int], events[k as int])
        },
{
    let start = TickState::begin(keys, drivers);
    law_valid(keys, drivers, events, k);
    law_keys_latched_first(keys, drivers, events, k);
    assert(state_at(start, events, k).accepts(events[k as int]));
    if keys.len() < k {
        law_target(keys, drivers, events, k);
    }
}

/// A sleeping core never runs: before a core with a driver runs, that driver
/// has just said that the core is awake.
pub proof fn law_sleepers_do_not_run(
    keys: Seq<u32>,
    drivers: nat,
    events: Seq<TickEvent>,
    k: nat,
    core: usize,
)
    requires
        is_tick(keys, drivers, events),
        k <= events.len(),
        core < drivers,
        phase_at(keys, drivers, events, k) == (Phase::Run { core }),
    ensures
        core != REFERENCE ==> {
            &&& k >= 1
            &&& phase_at(keys, drivers, events, (k - 1) as nat) == (Phase::Poll { core })
            &&& events[k - 1] == TickEvent::Asleep(false)
        },
        core == REFERENCE ==> {
            &&& k >= 2
            &&& phase_at(keys, drivers, events, (k - 1) as nat) is Recheck
            &&& phase_at(keys, drivers, events, (k - 2) as nat) == (Phase::Poll { core })
            &&& events[k - 2] == TickEvent::Asleep(false)
        },
{
    let start = TickState::begin(keys, drivers);
    let before = (k - 1) as nat;
    law_valid(keys, drivers, events, before);
    assert(state_at(start, events, before).accepts(events[before as int]));
    if core == REFERENCE {
        assert(state_at(start, events, before).phase is Recheck);
        let earlier = (k - 2) as nat;
        assert(before >= 1);
        law_valid(keys, drivers, events, earlier);
        assert(state_at(start, events, earlier).accepts(events[earlier as int]));
        assert(state_at(start, events, before) == state_at(start, events, earlier).step(
            events[earlier as int],
        ));
    }
}

/// The reference core never runs past its frame: right before each of its
/// slices its counter was read and had not reached the aim.
pub proof fn law_reference_stops_at_its_frame(
    keys: Seq<u32>,
    drivers: nat,
    events: Seq<TickEvent>,
    k: nat,
)
    requires
        is_tick(keys, drivers, events),
        k <= events.len(),
        phase_at(keys, drivers, events, k) == (Phase::Run { core: REFERENCE }),
    ensures
        k > keys.len() + 1,
        phase_at(keys, drivers, events, (k - 1) as nat) is Recheck,
        events[k - 1] is FrameCounter,
        !one_frame_on(events[keys.len() as int], events[k - 1]),
{
    let start = TickState::begin(keys, drivers);
    let before = (k - 1) as nat;
    law_keys_latched_first(keys, drivers, events, k);
    law_valid(keys, drivers, events, before);
    law_keys_latched_first(keys, drivers, events, before);
    assert(state_at(start, events, before).accepts(events[before as int]));
    law_target(keys, drivers, events, before);
}

/// What the tick has asked for before its event `k`, and with it.
pub open spec fn actions_to(start: TickState, events: Seq<TickEvent>, k: nat) -> Seq<TickAction> {
    Seq::new(k + 1, |j: int| state_at(start, events, j as nat).action())
}

/// Whether the events are what `emulator` answers, an emulator whose answers
/// depend on nothing but what was asked of it since the tick began.
pub open spec fn answered_by(
    start: TickState,
    events: Seq<TickEvent>,
    emulator: spec_fn(Seq<TickAction>) -> TickEvent,
) -> bool {
    forall|k: nat|
        k < events.len() ==> #[trigger] events[k as int] == emulator(actions_to(start, events, k))
}

/// The interleave replays: two ticks with the same keys, on an emulator that
/// was brought into the same state for both, see the same events and ask for
/// the same actions.
pub proof fn law_replay(
    keys: Seq<u32>,
    drivers: nat,
    emulator: spec_fn(Seq<TickAction>) -> TickEvent,
    first: Seq<TickEvent>,
    second: Seq<TickEvent>,
    k: nat,
)
    requires
        is_tick(keys, drivers, first),
        is_tick(keys, drivers, second),
        answered_by(TickState::begin(keys, drivers), first, emulator),
        answered_by(TickState::begin(keys, drivers), second, emulator),
        k <= first.len(),
        k <= second.len(),
    ensures
        first.take(k as int) == second.take(k as int),
        forall|j: nat|
            j <= k ==> #[trigger] state_at(TickState::begin(keys, drivers), first, j) == state_at(
                TickState::begin(keys, drivers),
                second,
                j,
            ),
    decreases k,
{
    let start = TickState::begin(keys, drivers);
    if k > 0 {
        let before = (k - 1) as nat;
        law_replay(keys, drivers, emulator, first, second, before);
        assert(actions_to(start, first, before) =~= actions_to(start, second, before));
        assert(first[before as int] == emulator(actions_to(start, first, before)));
        assert(second[before as int] == emulator(actions_to(start, second, before)));
        assert(first.take(k as int) =~= first.take(before as int).push(first[before as int]));
        assert(second.take(k as int) =~= second.take(before as int).push(second[before as int]));
        assert(state_at(start, first, before) == state_at(start, second, before));
        assert(state_at(start, first, k) == state_at(start, second, k));
    } else {
        assert(first.take(0) =~= second.take(0));
    }
}

/// Where the pass began that the tick is in, or has just ended, after `k`
/// events: at the last counter read between two passes.
pub open spec fn pass_start(start: TickState, events: Seq<TickEvent>, k: nat) -> nat
    decreases k,
{
    if k == 0 {
        0
    } else if state_at(start, events, (k - 1) as nat).phase is Check {
        (k - 1) as nat
    } else {
        pass_start(start, events, (k - 1) as nat)
    }
}

/// Whether a pass that began at `from` had passed core `core` over by event
/// `k`: its driver said that it sleeps, or it is the reference core and its
/// frame was over.
pub open spec fn passed_over(
    start: TickState,
    events: Seq<TickEvent>,
    from: nat,
    k: nat,
    core: nat,
) -> bool {
    exists|j: nat|
        from < j < k && {
            ||| {
                &&& #[trigger] state_at(start, events, j).phase == (Phase::Poll {
                    core: core as usize,
                })
                &&& events[j as int] == TickEvent::Asleep(true)
            }
            ||| {
                &&& core == REFERENCE
                &&& state_at(start, events, j).phase is Recheck
                &&& events[j as int] == TickEvent::FrameCounter(
                    state_at(start, events, j).target,
                )
            }
        }
}

/// How far the pass of a state has come: the cores before this one have had
/// their turn.
pub open spec fn turn(state: TickState) -> nat {
    match state.phase {
        Phase::Poll { core } => core as nat,
        Phase::Recheck => 0,
        Phase::Run { core } => core as nat,
        _ => state.cores(),
    }
}

/// What a pass has come to: while no core has run in it, every core that had
/// its turn was passed over; once one has run, there is its slice to show.
proof fn lemma_pass(keys: Seq<u32>, drivers: nat, events: Seq<TickEvent>, k: nat)
    requires
        is_tick(keys, drivers, events),
        keys.len() + 1 < k <= events.len(),
        !(phase_at(keys, drivers, events, k) is Finished),
        !(phase_at(keys, drivers, events, k) is Livelock),
    ensures
        ({
            let start = TickState::begin(keys, drivers);
            let from = pass_start(start, events, k);
            let state = state_at(start, events, k);
            &&& keys.len() < from < k
            &&& state_at(start, events, from).phase is Check
            &&& !state.progressed ==> forall|j: nat|
                from < j < k ==> !(#[trigger] state_at(start, events, j).phase is Run)
            &&& !state.progressed ==> forall|core: nat|
                core < turn(state) ==> #[trigger] passed_over(start, events, from, k, core)
            &&& state.progressed ==> exists|j: nat|
                from < j < k && #[trigger] state_at(start, events, j).phase is Run
        }),
    decreases k,
{
    let start = TickState::begin(keys, drivers);
    let before = (k - 1) as nat;
    let prior = state_at(start, events, before);
    let state = state_at(start, events, k);
    let event = events[before as int];
    law_valid(keys, drivers, events, before);
    law_valid(keys, drivers, events, k);
    law_keys_latched_first(keys, drivers, events, before);
    assert(prior.accepts(event));
    assert(state == prior.step(event));
    let from = pass_start(start, events, k);
    if prior.phase is Check {
        assert(from == before);
    } else {
        assert(before > keys.len());
        if before == keys.len() + 1 {
            law_keys_latched_first(keys, drivers, events, keys.len());
            assert(state_at(start, events, keys.len()).accepts(events[keys.len() as int]));
            assert(prior.phase is Check);
        }
        lemma_pass(keys, drivers, events, before);
        assert(pass_start(start, events, before) == from);
        if state.progressed {
            if prior.phase is Run {
                assert(from < before < k);
            } else {
                let j = choose|j: nat|
                    from < j < before && #[trigger] state_at(start, events, j).phase is Run;
                assert(from < j < k);
            }
        } else {
            assert forall|core: nat| core < turn(state) implies #[trigger] passed_over(
                start,
                events,
                from,
                k,
                core,
            ) by {
                if core < turn(prior) {
                    assert(passed_over(start, events, from, before, core));
                    let j = choose|j: nat|
                        from < j < before && {
                            ||| {
                                &&& #[trigger] state_at(start, events, j).phase == (Phase::Poll {
                                    core: core as usize,
                                })
                                &&& events[j as int] == TickEvent::Asleep(true)
                            }
                            ||| {
                                &&& core == REFERENCE
                                &&& state_at(start, events, j).phase is Recheck
                                &&& events[j as int] == TickEvent::FrameCounter(
                                    state_at(start, events, j).target,
                                )
                            }
                        };
                    assert(from < j < k);
                } else {
                    assert(core == turn(prior));
                    assert(from < before < k);
                }
            }
        }
    }
}

/// A deadlock is what it says: in the pass that it ended no core ran, and
/// every core was passed over.
pub proof fn law_deadlock(keys: Seq<u32>, drivers: nat, events: Seq<TickEvent>, k: nat)
    requires
        is_tick(keys, drivers, events),
        k <= events.len(),
        phase_at(keys, drivers, events, k) is Deadlock,
    ensures
        ({
            let start = TickState::begin(keys, drivers);
            let from = pass_start(start, events, k);
            &&& from < k
            &&& state_at(start, events, from).phase is Check
            &&& forall|j: nat|
                from < j < k ==> !(#[trigger] state_at(start, events, j).phase is Run)
            &&& forall|core: nat|
                core < keys.len() ==> #[trigger] passed_over(start, events, from, k, core)
        }),
{
    let start = TickState::begin(keys, drivers);
    law_keys_latched_first(keys, drivers, events, k);
    law_valid(keys, drivers, events, k);
    if k == keys.len() + 1 {
        lemma_first_check(keys, drivers, events);
    }
    lemma_pass(keys, drivers, events, k);
}

/// Right after the keys and the first counter a tick is between two passes.
proof fn lemma_first_check(keys: Seq<u32>, drivers: nat, events: Seq<TickEvent>)
    requires
        is_tick(keys, drivers, events),
        keys.len() < events.len(),
    ensures
        phase_at(keys, drivers, events, keys.len() + 1) is Check,
{
    let start = TickState::begin(keys, drivers);
    law_keys_latched_first(keys, drivers, events, keys.len());
    assert(state_at(start, events, keys.len()).accepts(events[keys.len() as int]));
}

/// A pass that ends without a deadlock has run a core.
pub proof fn law_pass_makes_progress(
    keys: Seq<u32>,
    drivers: nat,
    events: Seq<TickEvent>,
    k: nat,
)
    requires
        is_tick(keys, drivers, events),
        keys.len() + 1 < k <= events.len(),
        phase_at(keys, drivers, events, k) is Check,
    ensures
        ({
            let start = TickState::begin(keys, drivers);
            let from = pass_start(start, events, k);
            &&& from < k
            &&& state_at(start, events, from).phase is Check
            &&& exists|j: nat| from < j < k && #[trigger] state_at(start, events, j).phase is Run
        }),
{
    let start = TickState::begin(keys, drivers);
    let before = (k - 1) as nat;
    law_valid(keys, drivers, events, k);
    law_valid(keys, drivers, events, before);
    law_keys_latched_first(keys, drivers, events, before);
    assert(state_at(start, events, before).accepts(events[before as int]));
    assert(state_at(start, events, k) == state_at(start, events, before).step(
        events[before as int],
    ));
    lemma_pass(keys, drivers, events, k);
}

} // verus!

//! What a pass of a tick is made of.
//!
//! A pass gives every core its turn, one after the other. A core with a
//! driver is polled. A core that is awake runs one slice, the reference core
//! only if its counter, read once more, has not come to the end of its frame.
//! Nothing else is asked for in a pass.

use vstd::prelude::*;

use crate::error::CallError;
use crate::tick::{Phase, TickAction, TickEvent, TickState, MAX_SLICES_PER_TICK};
use crate::tick_laws::{law_slices_counted, law_target, law_valid};

verus! {

/// Whether event `from` begins a pass: it is a counter read between two
/// passes, not yet one frame past the first, with the slices within their
/// cap.
pub open spec fn begins_pass(
    keys: Seq<u32>,
    drivers: nat,
    events: Seq<TickEvent>,
    from: nat,
) -> bool {
    &&& crate::tick_laws::is_tick(keys, drivers, events)
    &&& keys.len() < from < events.len()
    &&& crate::tick_laws::phase_at(keys, drivers, events, from) is Check
    &&& !crate::tick_laws::one_frame_on(events[keys.len() as int], events[from as int])
    &&& crate::tick_laws::slices_run(TickState::begin(keys, drivers), events, from)
        <= MAX_SLICES_PER_TICK
}

/// What is asked for in the turn of core `core` that begins at event `at`.
pub open spec fn turn_from(
    keys: Seq<u32>,
    drivers: nat,
    events: Seq<TickEvent>,
    core: nat,
    at: nat,
) -> Seq<TickAction> {
    let poll = seq![TickAction::PollAsleep { core: core as usize }];
    let run = seq![TickAction::RunLoop { core: core as usize }];
    let first = events[keys.len() as int];
    if core < drivers && events[at as int] == TickEvent::Asleep(true) {
        poll
    } else {
        let polled = if core < drivers {
            poll
        } else {
            Seq::empty()
        };
        if core > 0 {
            polled + run
        } else if crate::tick_laws::one_frame_on(first, events[(at + polled.len()) as int]) {
            polled + seq![TickAction::ReadFrameCounter]
        } else {
            polled + seq![TickAction::ReadFrameCounter] + run
        }
    }
}

/// Where the turn of core `core` begins in the pass that event `from` begins:
/// right after the turn of the core before it.
pub open spec fn turn_at(
    keys: Seq<u32>,
    drivers: nat,
    events: Seq<TickEvent>,
    from: nat,
    core: nat,
) -> nat
    decreases core,
{
    if core == 0 {
        from + 1
    } else {
        let before = (core - 1) as nat;
        let at = turn_at(keys, drivers, events, from, before);
        at + turn_from(keys, drivers, events, before, at).len()
    }
}

/// The turn of core `core` in the pass that event `from` begins.
pub open spec fn turn_of(
    keys: Seq<u32>,
    drivers: nat,
    events: Seq<TickEvent>,
    from: nat,
    core: nat,
) -> Seq<TickAction> {
    turn_from(keys, drivers, events, core, turn_at(keys, drivers, events, from, core))
}

/// Whether core `core` runs a slice in its turn.
pub open spec fn runs_in(
    keys: Seq<u32>,
    drivers: nat,
    events: Seq<TickEvent>,
    from: nat,
    core: nat,
) -> bool {
    turn_of(keys, drivers, events, from, core).last() is RunLoop
}

/// Where a pass stands when it comes to core `core`.
spec fn phase_of_turn(keys: Seq<u32>, drivers: nat, core: nat, progressed: bool) -> Phase {
    if core < drivers {
        Phase::Poll { core: core as usize }
    } else if core < keys.len() {
        if core == 0 {
            Phase::Recheck
        } else {
            Phase::Run { core: core as usize }
        }
    } else if progressed {
        Phase::Check
    } else {
        Phase::Deadlock
    }
}

spec fn state_of(keys: Seq<u32>, drivers: nat, events: Seq<TickEvent>, k: nat) -> TickState {
    crate::tick_laws::state_at(TickState::begin(keys, drivers), events, k)
}

/// What comes of a poll.
proof fn lemma_polled(keys: Seq<u32>, drivers: nat, events: Seq<TickEvent>, k: nat, core: nat)
    requires
        crate::tick_laws::is_tick(keys, drivers, events),
        k < events.len(),
        core < drivers,
        state_of(keys, drivers, events, k).phase == (Phase::Poll { core: core as usize }),
    ensures
        ({
            let prior = state_of(keys, drivers, events, k);
            let state = state_of(keys, drivers, events, k + 1);
            &&& events[k as int] is Asleep
            &&& state.progressed == prior.progressed
            &&& state.phase == (if events[k as int] == TickEvent::Asleep(true) {
                phase_of_turn(keys, drivers, core + 1, prior.progressed)
            } else if core == 0 {
                Phase::Recheck
            } else {
                Phase::Run { core: core as usize }
            })
        }),
{
    law_valid(keys, drivers, events, k);
    assert(state_of(keys, drivers, events, k).accepts(events[k as int]));
}

/// What comes of reading the counter before the reference core runs.
proof fn lemma_rechecked(keys: Seq<u32>, drivers: nat, events: Seq<TickEvent>, k: nat)
    requires
        crate::tick_laws::is_tick(keys, drivers, events),
        keys.len() < k < events.len(),
        state_of(keys, drivers, events, k).phase is Recheck,
    ensures
        ({
            let prior = state_of(keys, drivers, events, k);
            let state = state_of(keys, drivers, events, k + 1);
            &&& state.progressed == prior.progressed
            &&& state.phase == (if crate::tick_laws::one_frame_on(
                events[keys.len() as int],
                events[k as int],
            ) {
                phase_of_turn(keys, drivers, 1, prior.progressed)
            } else {
                Phase::Run { core: 0 }
            })
        }),
{
    law_valid(keys, drivers, events, k);
    law_target(keys, drivers, events, k);
    assert(state_of(keys, drivers, events, k).accepts(events[k as int]));
}

/// What comes of a slice.
proof fn lemma_ran(keys: Seq<u32>, drivers: nat, events: Seq<TickEvent>, k: nat, core: nat)
    requires
        crate::tick_laws::is_tick(keys, drivers, events),
        k < events.len(),
        core < keys.len(),
        state_of(keys, drivers, events, k).phase == (Phase::Run { core: core as usize }),
    ensures
        ({
            let state = state_of(keys, drivers, events, k + 1);
            &&& state.progressed
            &&& state.phase == phase_of_turn(keys, drivers, core + 1, true)
        }),
{
    law_valid(keys, drivers, events, k);
    assert(state_of(keys, drivers, events, k).accepts(events[k as int]));
}

/// A turn that begins as it should goes as it should.
proof fn lemma_turn(
    keys: Seq<u32>,
    drivers: nat,
    events: Seq<TickEvent>,
    core: nat,
    at: nat,
)
    requires
        crate::tick_laws::is_tick(keys, drivers, events),
        core < keys.len(),
        keys.len() < at <= events.len(),
        state_of(keys, drivers, events, at).phase == phase_of_turn(
            keys,
            drivers,
            core,
            state_of(keys, drivers, events, at).progressed,
        ),
    ensures
        ({
            let turn = turn_from(keys, drivers, events, core, at);
            let prior = state_of(keys, drivers, events, at);
            let state = state_of(keys, drivers, events, at + turn.len());
            &&& 1 <= turn.len() <= 3
            &&& state_of(keys, drivers, events, at).action() == turn[0]
            &&& 1 < turn.len() && at + 1 <= events.len() ==> state_of(
                keys,
                drivers,
                events,
                at + 1,
            ).action() == turn[1]
            &&& 2 < turn.len() && at + 2 <= events.len() ==> state_of(
                keys,
                drivers,
                events,
                at + 2,
            ).action() == turn[2]
            &&& at + turn.len() <= events.len() ==> {
                &&& state.progressed == (prior.progressed || turn.last() is RunLoop)
                &&& state.phase == phase_of_turn(keys, drivers, core + 1, state.progressed)
            }
        }),
{
    if at < events.len() {
        let first = if core < drivers {
            lemma_polled(keys, drivers, events, at, core);
            at + 1
        } else {
            at
        };
        if !(core < drivers && events[at as int] == TickEvent::Asleep(true)) {
            if core == 0 {
                if first < events.len() {
                    lemma_rechecked(keys, drivers, events, first);
                    if !crate::tick_laws::one_frame_on(
                        events[keys.len() as int],
                        events[first as int],
                    ) && first + 1 < events.len() {
                        lemma_ran(keys, drivers, events, first + 1, 0);
                    }
                }
            } else if first < events.len() {
                lemma_ran(keys, drivers, events, first, core);
            }
        }
    }
}

/// What a pass has come to where the turn of core `core` is to begin.
proof fn lemma_at_turn(
    keys: Seq<u32>,
    drivers: nat,
    events: Seq<TickEvent>,
    from: nat,
    core: nat,
)
    requires
        begins_pass(keys, drivers, events, from),
        core <= keys.len(),
        turn_at(keys, drivers, events, from, core) <= events.len(),
    ensures
        ({
            let at = turn_at(keys, drivers, events, from, core);
            let state = state_of(keys, drivers, events, at);
            &&& at > from
            &&& state.progressed <==> exists|c: nat|
                c < core && #[trigger] runs_in(keys, drivers, events, from, c)
            &&& state.phase == phase_of_turn(keys, drivers, core, state.progressed)
        }),
    decreases core,
{
    if core == 0 {
        law_valid(keys, drivers, events, from);
        law_target(keys, drivers, events, from);
        law_slices_counted(keys, drivers, events, from);
        assert(state_of(keys, drivers, events, from).accepts(events[from as int]));
    } else {
        let before = (core - 1) as nat;
        let at = turn_at(keys, drivers, events, from, before);
        lemma_at_turn(keys, drivers, events, from, before);
        lemma_turn(keys, drivers, events, before, at);
        let state = state_of(keys, drivers, events, turn_at(keys, drivers, events, from, core));
        if state.progressed {
            if runs_in(keys, drivers, events, from, before) {
                assert(before < core);
            } else {
                let c = choose|c: nat|
                    c < before && #[trigger] runs_in(keys, drivers, events, from, c);
                assert(c < core);
            }
        }
    }
}

/// In every pass every core has its turn exactly once, in the order of the
/// cores: one turn follows right on the other, and a turn asks for exactly
/// what is due. A core with a driver is polled; one that is awake runs one
/// slice, and nothing runs that sleeps; the reference core's counter is read
/// once more before it runs, and it does not run if its frame is over.
pub proof fn law_every_core_has_its_turn(
    keys: Seq<u32>,
    drivers: nat,
    events: Seq<TickEvent>,
    from: nat,
    core: nat,
    j: nat,
)
    requires
        begins_pass(keys, drivers, events, from),
        core < keys.len(),
        j < turn_of(keys, drivers, events, from, core).len(),
        turn_at(keys, drivers, events, from, core) + j <= events.len(),
    ensures
        crate::tick_laws::state_at(
            TickState::begin(keys, drivers),
            events,
            turn_at(keys, drivers, events, from, core) + j,
        ).action() == turn_of(keys, drivers, events, from, core)[j as int],
{
    lemma_at_turn(keys, drivers, events, from, core);
    lemma_turn(keys, drivers, events, core, turn_at(keys, drivers, events, from, core));
}

/// After the turn of the last core a pass is over: if a core ran in it, the
/// counter is read, and if none did, the tick is deadlocked.
pub proof fn law_pass_ends_after_the_last_core(
    keys: Seq<u32>,
    drivers: nat,
    events: Seq<TickEvent>,
    from: nat,
)
    requires
        begins_pass(keys, drivers, events, from),
        turn_at(keys, drivers, events, from, keys.len()) <= events.len(),
    ensures
        ({
            let to = turn_at(keys, drivers, events, from, keys.len());
            let state = crate::tick_laws::state_at(TickState::begin(keys, drivers), events, to);
            if exists|core: nat|
                core < keys.len() && #[trigger] runs_in(keys, drivers, events, from, core) {
                state.phase is Check && state.action() is ReadFrameCounter
            } else {
                state.action() == (TickAction::Failed { error: CallError::Deadlock })
            }
        }),
{
    lemma_at_turn(keys, drivers, events, from, keys.len());
}

/// A core that is awake runs exactly one slice in every pass, whatever the
/// other cores do, but for the reference core at the end of its frame: it is
/// asked to run at the end of its own turn, and nowhere else in the pass. A
/// core that sleeps is not.
pub proof fn law_awake_cores_run_once(
    keys: Seq<u32>,
    drivers: nat,
    events: Seq<TickEvent>,
    from: nat,
    core: nat,
    other: nat,
    j: nat,
)
    requires
        begins_pass(keys, drivers, events, from),
        core < keys.len(),
        other < keys.len(),
        turn_at(keys, drivers, events, from, keys.len()) <= events.len(),
        j < turn_of(keys, drivers, events, from, other).len(),
        keys.len() <= crate::peripheral::MAX_PLAYERS,
    ensures
        ({
            let at = turn_at(keys, drivers, events, from, core);
            let k = turn_at(keys, drivers, events, from, other) + j;
            let action = crate::tick_laws::state_at(
                TickState::begin(keys, drivers),
                events,
                k,
            ).action();
            &&& k < turn_at(keys, drivers, events, from, keys.len())
            &&& action == (TickAction::RunLoop { core: core as usize }) ==> {
                &&& other == core
                &&& k + 1 == turn_at(keys, drivers, events, from, core + 1)
            }
            &&& core > 0 && (core < drivers ==> events[at as int] == TickEvent::Asleep(false))
                ==> runs_in(keys, drivers, events, from, core)
            &&& core == 0 && (core < drivers ==> events[at as int] == TickEvent::Asleep(false)) ==> (
            runs_in(keys, drivers, events, from, core) <==> !crate::tick_laws::one_frame_on(
                events[keys.len() as int],
                events[if core < drivers {
                    (at + 1) as int
                } else {
                    at as int
                }],
            ))
            &&& core < drivers && events[at as int] == TickEvent::Asleep(true) ==> !runs_in(
                keys,
                drivers,
                events,
                from,
                core,
            )
        }),
{
    lemma_turns_follow(keys, drivers, events, from, other + 1, keys.len());
    law_every_core_has_its_turn(keys, drivers, events, from, other, j);
}

/// Later turns begin later.
proof fn lemma_turns_follow(
    keys: Seq<u32>,
    drivers: nat,
    events: Seq<TickEvent>,
    from: nat,
    core: nat,
    later: nat,
)
    requires
        core <= later,
    ensures
        turn_at(keys, drivers, events, from, core) <= turn_at(
            keys,
            drivers,
            events,
            from,
            later,
        ),
    decreases later,
{
    if core < later {
        lemma_turns_follow(keys, drivers, events, from, core, (later - 1) as nat);
    }
}

} // verus!

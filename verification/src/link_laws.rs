//! What holds of the scripts of a link.

use std::time::SystemTime;
use vstd::prelude::*;

use crate::bytes::{
    lemma_chain_alike, lemma_chain_all, lemma_chain_contains, lemma_sum_alike,
    lemma_sum_contains,
};
use crate::driver::{Driver, ANY_SEAT};
use crate::error::CallError;
use crate::gba::Gba;
use crate::link::LinkView;
use crate::options::BootSide;
use crate::peripheral::Peripheral;
use crate::plan::Side;
use crate::script::{Failure, Next, Reply, Step};
use crate::snapshot::{CoreState, SnapshotView};
use crate::snapshot_laws::law_digest_is_comparable;

verus! {

/// A running link as a restore changes it: the savestate that each core would
/// give, each console's state, and the blob that each driver would give.
pub struct World {
    pub states: Seq<CoreState>,
    pub gbas: Seq<Gba>,
    pub blobs: Seq<Vec<u8>>,
}

impl World {
    /// Whether there are as many of everything as in `other`.
    pub open spec fn same_size(self, other: World) -> bool {
        &&& self.states.len() == other.states.len()
        &&& self.gbas.len() == other.gbas.len()
        &&& self.blobs.len() == other.blobs.len()
        &&& self.states.len() == self.gbas.len()
    }

    /// The link after a step of a restore. A savestate that is loaded takes
    /// the console with it, and leaves it as `leaves` says: the savestate does
    /// not hold all of its channels truly.
    pub open spec fn perform(self, step: Step<'_>, leaves: spec_fn(int) -> Gba) -> World {
        match step {
            Step::RestoreState { core, state } => World {
                states: self.states.update(core as int, *state),
                gbas: self.gbas.update(core as int, leaves(core as int)),
                blobs: self.blobs,
            },
            Step::RestoreAudioFifos { core, fifos } => World {
                gbas: self.gbas.update(
                    core as int,
                    Gba { ch_a: fifos[0], ch_b: fifos[1], ..self.gbas[core as int] },
                ),
                ..self
            },
            Step::RestoreDmas { core, dmas } => World {
                gbas: self.gbas.update(
                    core as int,
                    Gba { dma: *dmas, ..self.gbas[core as int] },
                ),
                ..self
            },
            Step::LoadDriverState { index, blob } => World {
                blobs: self.blobs.update(index as int, *blob),
                ..self
            },
            _ => self,
        }
    }

    /// The link after several steps of a restore.
    pub open spec fn perform_all(
        self,
        steps: Seq<Step<'_>>,
        leaves: spec_fn(int) -> Gba,
    ) -> World
        decreases steps.len(),
    {
        if steps.len() == 0 {
            self
        } else {
            self.perform_all(steps.drop_last(), leaves).perform(steps.last(), leaves)
        }
    }
}

/// Whether the snapshot is what [`crate::Link::save`] makes of the link.
pub open spec fn snapshot_of(snapshot: SnapshotView, world: World) -> bool {
    &&& snapshot.valid()
    &&& world.gbas.len() == world.states.len()
    &&& snapshot.cores == world.states
    &&& snapshot.drivers == world.blobs
    &&& forall|i: int|
        0 <= i < world.gbas.len() ==> (#[trigger] snapshot.audio_fifos[i])@ == seq![
            world.gbas[i].ch_a,
            world.gbas[i].ch_b,
        ]
    &&& forall|i: int|
        0 <= i < world.gbas.len() ==> #[trigger] snapshot.dmas[i] == world.gbas[i].dma
}

/// Steps done after steps.
proof fn lemma_perform_append(
    world: World,
    first: Seq<Step<'_>>,
    second: Seq<Step<'_>>,
    leaves: spec_fn(int) -> Gba,
)
    ensures
        world.perform_all(first + second, leaves) == world.perform_all(
            first,
            leaves,
        ).perform_all(second, leaves),
    decreases second.len(),
{
    if second.len() == 0 {
        assert(first + second =~= first);
    } else {
        assert((first + second).drop_last() =~= first + second.drop_last());
        lemma_perform_append(world, first, second.drop_last(), leaves);
    }
}

/// The first `k` cores after their restore.
proof fn lemma_restored_cores(
    saved: World,
    snapshot: SnapshotView,
    now: World,
    leaves: spec_fn(int) -> Gba,
    k: nat,
)
    requires
        snapshot_of(snapshot, saved),
        now.same_size(saved),
        k <= saved.states.len(),
        saved.states.len() <= usize::MAX,
    ensures
        ({
            let after = now.perform_all(
                crate::bytes::chain(
                    k,
                    |i: int| crate::plan::restore_core(snapshot, i),
                ),
                leaves,
            );
            &&& after.same_size(now)
            &&& after.blobs == now.blobs
            &&& forall|i: int|
                0 <= i < k ==> #[trigger] after.states[i] == saved.states[i]
            &&& forall|i: int|
                0 <= i < k ==> #[trigger] after.gbas[i] == (Gba {
                    ch_a: saved.gbas[i].ch_a,
                    ch_b: saved.gbas[i].ch_b,
                    dma: saved.gbas[i].dma,
                    ..leaves(i)
                })
        }),
    decreases k,
{
    if k > 0 {
        let before = (k - 1) as nat;
        let last = before as int;
        lemma_restored_cores(saved, snapshot, now, leaves, before);
        let pieces = |i: int| crate::plan::restore_core(snapshot, i);
        let steps = pieces(last);
        let world = now.perform_all(crate::bytes::chain(before, pieces), leaves);
        lemma_perform_append(now, crate::bytes::chain(before, pieces), steps, leaves);
        let a = world.perform(steps[0], leaves);
        let b = a.perform(steps[1], leaves);
        let c = b.perform(steps[2], leaves);
        assert(steps.drop_last().drop_last().drop_last() =~= Seq::empty());
        assert(steps.last() == steps[2]);
        assert(steps.drop_last().last() == steps[1]);
        assert(steps.drop_last().drop_last().last() == steps[0]);
        reveal_with_fuel(World::perform_all, 4);
        assert(world.perform_all(steps, leaves) == c);
        let fifos = snapshot.audio_fifos[last];
        assert(fifos@[0] == saved.gbas[last].ch_a);
        assert(fifos@[1] == saved.gbas[last].ch_b);
    }
}

/// The first `k` drivers after their restore.
proof fn lemma_restored_drivers(
    snapshot: SnapshotView,
    now: World,
    leaves: spec_fn(int) -> Gba,
    k: nat,
)
    requires
        now.blobs.len() == snapshot.drivers.len(),
        k <= snapshot.drivers.len(),
        snapshot.drivers.len() <= usize::MAX,
    ensures
        ({
            let after = now.perform_all(
                Seq::new(
                    k,
                    |i: int|
                        Step::LoadDriverState { index: i as usize, blob: &snapshot.drivers[i] },
                ),
                leaves,
            );
            &&& after.states == now.states
            &&& after.gbas == now.gbas
            &&& after.blobs.len() == now.blobs.len()
            &&& forall|i: int| 0 <= i < k ==> #[trigger] after.blobs[i] == snapshot.drivers[i]
        }),
    decreases k,
{
    let blobs = |i: int|
        Step::LoadDriverState { index: i as usize, blob: &snapshot.drivers[i] };
    if k > 0 {
        let before = (k - 1) as nat;
        lemma_restored_drivers(snapshot, now, leaves, before);
        assert(Seq::new(k, blobs).drop_last() =~= Seq::new(before, blobs));
    }
}

/// A restore brings a link back to where it was saved: every core's
/// savestate, every driver's blob, and every console's FIFO and DMA channels,
/// whatever the link has become since and whatever the savestates leave of
/// the channels. All else of a console is left as its savestate leaves it.
pub proof fn law_restore_is_exact(
    saved: World,
    snapshot: SnapshotView,
    now: World,
    leaves: spec_fn(int) -> Gba,
)
    requires
        snapshot_of(snapshot, saved),
        now.same_size(saved),
        saved.states.len() <= crate::peripheral::MAX_PLAYERS,
    ensures
        ({
            let after = now.perform_all(
                crate::plan::restore_plan(saved.blobs.len(), snapshot),
                leaves,
            );
            &&& after.states == saved.states
            &&& after.blobs == saved.blobs
            &&& after.gbas.len() == saved.gbas.len()
            &&& forall|i: int|
                0 <= i < saved.gbas.len() ==> #[trigger] after.gbas[i] == (Gba {
                    ch_a: saved.gbas[i].ch_a,
                    ch_b: saved.gbas[i].ch_b,
                    dma: saved.gbas[i].dma,
                    ..leaves(i)
                })
        }),
{
    let players = saved.states.len();
    let cores = crate::bytes::chain(
        snapshot.cores.len(),
        |i: int| crate::plan::restore_core(snapshot, i),
    );
    let drivers: Seq<Step<'_>> = Seq::new(
        saved.blobs.len(),
        |i: int| Step::LoadDriverState { index: i as usize, blob: &snapshot.drivers[i] },
    );
    lemma_restored_cores(saved, snapshot, now, leaves, players);
    let between = now.perform_all(cores, leaves);
    lemma_restored_drivers(snapshot, between, leaves, saved.blobs.len());
    lemma_perform_append(now, cores, drivers, leaves);
    assert(crate::plan::restore_plan(saved.blobs.len(), snapshot) =~= cores + drivers);
    let after = now.perform_all(cores + drivers, leaves);
    assert(after.states =~= saved.states);
    assert(after.blobs =~= saved.blobs);
}

/// Two snapshots of one link agree in all that is digested.
pub proof fn law_snapshots_of_one_link(world: World, one: SnapshotView, two: SnapshotView)
    requires
        snapshot_of(one, world),
        snapshot_of(two, world),
    ensures
        crate::snapshot_laws::same_link(one, two),
        crate::checksum::crc32(one.stream()) == crate::checksum::crc32(two.stream()),
{
    assert forall|i: int| 0 <= i < world.gbas.len() implies #[trigger] one.audio_fifos[i]
        == two.audio_fifos[i] by {
        assert(one.audio_fifos[i]@ == two.audio_fifos[i]@);
        assert(one.audio_fifos[i] =~= two.audio_fifos[i]);
    }
    assert forall|i: int| 0 <= i < world.gbas.len() implies #[trigger] one.dmas[i]
        == two.dmas[i] by {}
    assert(one.audio_fifos =~= two.audio_fifos);
    assert(one.dmas =~= two.dmas);
    law_digest_is_comparable(one, two);
}

/// A restored link shows the digest of the snapshot: a snapshot taken right
/// after the restore agrees with the restored one in all that is digested.
pub proof fn law_restored_digest(
    saved: World,
    snapshot: SnapshotView,
    now: World,
    leaves: spec_fn(int) -> Gba,
    again: SnapshotView,
)
    requires
        snapshot_of(snapshot, saved),
        now.same_size(saved),
        saved.states.len() <= crate::peripheral::MAX_PLAYERS,
        snapshot_of(
            again,
            now.perform_all(crate::plan::restore_plan(saved.blobs.len(), snapshot), leaves),
        ),
    ensures
        crate::snapshot_laws::same_link(again, snapshot),
        crate::checksum::crc32(again.stream()) == crate::checksum::crc32(snapshot.stream()),
{
    law_restore_is_exact(saved, snapshot, now, leaves);
    let after = now.perform_all(
        crate::plan::restore_plan(saved.blobs.len(), snapshot),
        leaves,
    );
    assert forall|i: int| 0 <= i < after.gbas.len() implies (#[trigger] snapshot.audio_fifos[i])@
        == seq![after.gbas[i].ch_a, after.gbas[i].ch_b] by {
        assert(after.gbas[i].ch_a == saved.gbas[i].ch_a);
    }
    assert forall|i: int| 0 <= i < after.gbas.len() implies #[trigger] snapshot.dmas[i]
        == after.gbas[i].dma by {
        assert(after.gbas[i].dma == saved.gbas[i].dma);
    }
    law_snapshots_of_one_link(after, again, snapshot);
}

/// A restore does not fail by itself: it finishes when the emulator and the
/// drivers do every step.
pub proof fn law_restore_succeeds<'a>(
    drivers: nat,
    snapshot: SnapshotView,
    replies: Seq<Reply>,
)
    requires
        forall|k: int| 0 <= k < replies.len() ==> replies[k] == Reply::Done,
        replies.len() >= crate::plan::restore_plan::<'a>(drivers, snapshot).len() + 2,
    ensures
        ({
            let plan: Seq<Step<'a>> = crate::plan::restore_plan(drivers, snapshot);
            crate::script::script_at(plan, replies, plan.len() + 2).next()
                == Next::<'a>::Finished
        }),
{
    let plan: Seq<Step<'a>> = crate::plan::restore_plan(drivers, snapshot);
    let pieces = |i: int| crate::plan::restore_core(snapshot, i);
    let cores: Seq<Step<'a>> = crate::bytes::chain(snapshot.cores.len(), pieces);
    lemma_chain_all(snapshot.cores.len(), pieces, |step: Step<'a>| !(step is Fail));
    assert forall|j: int| 0 <= j < plan.len() implies !(#[trigger] plan[j] is Fail) by {
        if j < cores.len() {
            assert(plan[j] == cores[j]);
        }
    }
    lemma_all_done(plan, replies, plan.len());
}

/// A restore loads every core before any driver: a core load rebuilds the
/// timing list that a driver blob schedules its event into.
pub proof fn law_cores_restore_first(drivers: nat, snapshot: SnapshotView, p: int, q: int)
    requires
        0 <= p < crate::plan::restore_plan(drivers, snapshot).len(),
        0 <= q < crate::plan::restore_plan(drivers, snapshot).len(),
        crate::plan::restore_plan(drivers, snapshot)[p] is LoadDriverState,
        !(crate::plan::restore_plan(drivers, snapshot)[q] is LoadDriverState),
    ensures
        q < p,
{
    let plan: Seq<Step<'_>> = crate::plan::restore_plan(drivers, snapshot);
    let pieces = |i: int| crate::plan::restore_core(snapshot, i);
    let cores: Seq<Step<'_>> = crate::bytes::chain(snapshot.cores.len(), pieces);
    lemma_chain_all(snapshot.cores.len(), pieces, |step: Step<'_>| !(step is LoadDriverState));
    if p < cores.len() {
        assert(plan[p] == cores[p]);
    }
}

/// A fresh boot does not fail by itself: it finishes when the emulator does
/// every step.
pub proof fn law_power_on_succeeds<'a>(
    peripheral: Peripheral,
    sides: Seq<Side<'a>>,
    rtc: Option<SystemTime>,
    replies: Seq<Reply>,
)
    requires
        forall|k: int| 0 <= k < replies.len() ==> replies[k] == Reply::Done,
        replies.len() > crate::plan::power_on_plan(peripheral, sides, rtc).len(),
    ensures
        crate::script::script_at(
            crate::plan::power_on_plan(peripheral, sides, rtc),
            replies,
            crate::plan::power_on_plan(peripheral, sides, rtc).len() + 1,
        ).next() == Next::<'a>::Finished,
{
    let plan = crate::plan::power_on_plan(peripheral, sides, rtc);
    let drivers = crate::driver::drivers_of(
        peripheral,
        crate::driver::positions(sides.len()),
    );
    let pieces = |i: int| crate::plan::power_on(i, sides[i], rtc, i < drivers.len());
    lemma_chain_all(sides.len(), pieces, |step: Step<'a>| !(step is Fail));
    let head = crate::plan::hardware(peripheral, drivers) + crate::plan::new_cores(
        sides.len(),
    );
    let tail = crate::bytes::chain(sides.len(), pieces);
    assert(plan == head + tail);
    assert forall|j: int| 0 <= j < plan.len() implies #[trigger] crate::script::done_well(
        plan,
        replies,
        j,
    ) by {
        if j >= head.len() {
            assert(plan[j] == tail[j - head.len()]);
        }
        assert(replies[j + 1] == Reply::Done);
    }
    crate::script::law_script_performs_in_order(plan, replies, plan.len());
}

/// The parts of a rebuild.
spec fn resumes<'a>(
    peripheral: Peripheral,
    sides: Seq<BootSide>,
    rtc: Option<SystemTime>,
    state_size: nat,
) -> Seq<Step<'a>> {
    crate::bytes::chain(
        sides.len(),
        |i: int| crate::plan::resume(i, peripheral, &sides[i], rtc, state_size),
    )
}

spec fn sessions<'a>(drivers: Seq<Driver>, sides: Seq<BootSide>) -> Seq<Step<'a>> {
    crate::bytes::chain(
        drivers.len(),
        |i: int| crate::plan::adapter_session(i, drivers[i], &sides[i]),
    )
}

/// Captured states are loaded while no driver is plugged in, so that a load
/// cannot call into a half-built link: every state is loaded before any
/// driver is made or plugged in.
pub proof fn law_states_load_unplugged<'a>(
    peripheral: Peripheral,
    sides: Seq<BootSide>,
    rtc: Option<SystemTime>,
    recorded: Seq<Option<i32>>,
    state_size: nat,
    p: int,
    q: int,
)
    requires
        ({
            let plan: Seq<Step<'a>> = crate::plan::rebuild_plan(
                peripheral,
                sides,
                rtc,
                recorded,
                state_size,
            );
            &&& 0 <= p < plan.len()
            &&& 0 <= q < plan.len()
            &&& plan[p] is LoadState
            &&& plan[q] is NewDriver || plan[q] is InstallDriver || plan[q] is LoadAdapterState
        }),
    ensures
        p < q,
{
    let plan: Seq<Step<'a>> = crate::plan::rebuild_plan(
        peripheral,
        sides,
        rtc,
        recorded,
        state_size,
    );
    let drivers = crate::driver::drivers_of(
        peripheral,
        crate::plan::recorded_seats(sides, recorded),
    );
    let a: Seq<Step<'a>> = crate::plan::new_cores(sides.len());
    let b: Seq<Step<'a>> = resumes(peripheral, sides, rtc, state_size);
    let c: Seq<Step<'a>> = crate::plan::hardware(peripheral, drivers);
    let d: Seq<Step<'a>> = crate::plan::attach(drivers.len());
    let e: Seq<Step<'a>> = sessions(drivers, sides);
    assert(plan == a + b + c + d + e);
    lemma_chain_all(
        sides.len(),
        |i: int| crate::plan::resume(i, peripheral, &sides[i], rtc, state_size),
        |step: Step<'a>|
            !(step is NewDriver || step is InstallDriver || step is LoadAdapterState),
    );
    lemma_chain_all(
        drivers.len(),
        |i: int| crate::plan::adapter_session(i, drivers[i], &sides[i]),
        |step: Step<'a>| !(step is LoadState),
    );
    let middle = a.len() + b.len();
    assert(p < middle) by {
        let k = p - middle;
        if p >= middle + c.len() + d.len() {
            assert(plan[p] == e[k - c.len() - d.len()]);
        } else if p >= middle + c.len() {
            assert(plan[p] == d[k - c.len()]);
        } else if p >= middle {
            assert(plan[p] == c[k]);
        }
    }
    assert(q >= middle) by {
        if q < a.len() {
            assert(plan[q] == a[q]);
        } else if q < middle {
            assert(plan[q] == b[q - a.len()]);
        }
    }
}

/// Whether a rebuild comes to this failure by itself, if nothing else stops
/// it first.
pub open spec fn rebuild_fails<'a>(
    peripheral: Peripheral,
    sides: Seq<BootSide>,
    rtc: Option<SystemTime>,
    recorded: Seq<Option<i32>>,
    state_size: nat,
    error: CallError,
) -> bool {
    let plan: Seq<Step<'a>> = crate::plan::rebuild_plan(
        peripheral,
        sides,
        rtc,
        recorded,
        state_size,
    );
    plan.contains(Step::Fail { error })
}

/// A rebuild fails by itself for two reasons only: a capture that is not as
/// long as a savestate, and an adapter session handed to a cable link that
/// has drivers.
pub proof fn law_rebuild_failures<'a>(
    peripheral: Peripheral,
    sides: Seq<BootSide>,
    rtc: Option<SystemTime>,
    recorded: Seq<Option<i32>>,
    state_size: nat,
    error: CallError,
)
    ensures
        rebuild_fails(peripheral, sides, rtc, recorded, state_size, error) <==> match error {
            CallError::BootStateLength => exists|i: int|
                0 <= i < sides.len() && (#[trigger] sides[i]).state.len() != state_size,
            CallError::AdapterState => peripheral is Cable && sides.len() > 1 && exists|i: int|
                0 <= i < sides.len() && (#[trigger] sides[i]).adapter is Some,
            _ => false,
        },
{
    let fail: Step<'a> = Step::Fail { error };
    let drivers = crate::driver::drivers_of(
        peripheral,
        crate::plan::recorded_seats(sides, recorded),
    );
    let a: Seq<Step<'a>> = crate::plan::new_cores(sides.len());
    let b: Seq<Step<'a>> = resumes(peripheral, sides, rtc, state_size);
    let c: Seq<Step<'a>> = crate::plan::hardware(peripheral, drivers);
    let d: Seq<Step<'a>> = crate::plan::attach(drivers.len());
    let e: Seq<Step<'a>> = sessions(drivers, sides);
    lemma_sum_contains(a, b, fail);
    lemma_sum_contains(a + b, c, fail);
    lemma_sum_contains(a + b + c, d, fail);
    lemma_sum_contains(a + b + c + d, e, fail);
    assert(!a.contains(fail));
    assert(!c.contains(fail));
    assert(!d.contains(fail));
    let resume = |i: int| crate::plan::resume(i, peripheral, &sides[i], rtc, state_size);
    let session = |i: int| crate::plan::adapter_session(i, drivers[i], &sides[i]);
    lemma_chain_contains(sides.len(), resume, fail);
    lemma_chain_contains(drivers.len(), session, fail);
    assert forall|i: int| 0 <= i < sides.len() implies (#[trigger] resume(i)).contains(fail)
        == (error == CallError::BootStateLength && sides[i].state.len() != state_size) by {
        lemma_resume_contains_fail(i, peripheral, &sides[i], rtc, state_size, error);
    }
    assert forall|i: int| 0 <= i < drivers.len() implies (#[trigger] session(i)).contains(fail)
        == (error == CallError::AdapterState && peripheral is Cable && sides[i].adapter
        is Some) by {
        let steps: Seq<Step<'a>> = session(i);
        if steps.len() == 1 {
            assert(steps.contains(fail) == (steps[0] == fail)) by {
                if steps.contains(fail) {
                    let k = choose|k: int| 0 <= k < steps.len() && steps[k] == fail;
                    assert(k == 0);
                }
            }
        }
    }
    match error {
        CallError::BootStateLength => {
            if exists|i: int|
                0 <= i < sides.len() && (#[trigger] sides[i]).state.len() != state_size {
                let i = choose|i: int|
                    0 <= i < sides.len() && (#[trigger] sides[i]).state.len() != state_size;
                assert(resume(i).contains(fail));
            }
        },
        CallError::AdapterState => {
            if peripheral is Cable && sides.len() > 1 && exists|i: int|
                0 <= i < sides.len() && (#[trigger] sides[i]).adapter is Some {
                let i = choose|i: int|
                    0 <= i < sides.len() && (#[trigger] sides[i]).adapter is Some;
                assert(session(i).contains(fail));
            }
        },
        _ => {},
    }
}

proof fn lemma_resume_contains_fail<'a>(
    core: int,
    peripheral: Peripheral,
    side: &'a BootSide,
    rtc: Option<SystemTime>,
    state_size: nat,
    error: CallError,
)
    ensures
        crate::plan::resume(core, peripheral, side, rtc, state_size).contains(
            Step::Fail { error },
        ) == (error == CallError::BootStateLength && side.state.len() != state_size),
{
    let fail: Step<'a> = Step::Fail { error };
    let head: Seq<Step<'a>> = crate::plan::cartridge(core, crate::plan::captured_side(side), rtc)
        + seq![Step::Reset { core: core as usize }];
    let tail: Seq<Step<'a>> = crate::plan::boot_state(core, peripheral, &side.state, state_size);
    lemma_sum_contains(head, tail, fail);
    assert(!head.contains(fail));
    if side.state.len() != state_size {
        assert(tail[0] == (Step::Fail { error: CallError::BootStateLength }));
        assert(tail.contains(fail) == (tail[0] == fail));
    } else {
        assert(!tail.contains(fail));
    }
}

/// The first failing step at or before `p`.
proof fn lemma_first_failure<'a>(steps: Seq<Step<'a>>, p: int) -> (k: int)
    requires
        0 <= p < steps.len(),
        steps[p] is Fail,
    ensures
        0 <= k <= p,
        steps[k] is Fail,
        forall|j: int| 0 <= j < k ==> !(#[trigger] steps[j] is Fail),
    decreases p,
{
    if exists|j: int| 0 <= j < p && #[trigger] steps[j] is Fail {
        lemma_first_failure(steps, choose|j: int| 0 <= j < p && #[trigger] steps[j] is Fail)
    } else {
        p
    }
}

/// A script whose every step is done ends at its first failing step, or
/// finishes if there is none.
proof fn lemma_all_done<'a>(steps: Seq<Step<'a>>, replies: Seq<Reply>, k: nat)
    requires
        k <= steps.len(),
        forall|j: int| 0 <= j < k ==> !(#[trigger] steps[j] is Fail),
        k < steps.len() ==> steps[k as int] is Fail,
        forall|j: int| 0 <= j < replies.len() ==> replies[j] == Reply::Done,
        replies.len() >= steps.len() + 2,
    ensures
        crate::script::script_at(steps, replies, steps.len() + 2).next() == (if k < steps.len() {
            Next::<'a>::Failed(Failure::Call(steps[k as int]->Fail_error))
        } else {
            Next::Finished
        }),
{
    assert forall|j: int| 0 <= j < k implies #[trigger] crate::script::done_well(
        steps,
        replies,
        j,
    ) by {
        assert(!(steps[j] is Fail));
        assert(replies[j + 1] == Reply::Done);
    }
    if k < steps.len() {
        crate::script::law_script_stops_at_failure(steps, replies, k, steps.len() + 2);
    } else {
        crate::script::law_script_performs_in_order(steps, replies, k);
        assert(crate::script::script_at(steps, replies, k + 2) == crate::script::script_at(
            steps,
            replies,
            k + 1,
        ).step(replies[(k + 1) as int]));
    }
}

/// What comes of a rebuild whose every step the emulator and the drivers do:
/// a capture that is not as long as a savestate is refused; failing that, an
/// adapter session handed to a cable link that has drivers is; and else the
/// rebuild finishes.
pub proof fn law_rebuild_outcome<'a>(
    peripheral: Peripheral,
    sides: Seq<BootSide>,
    rtc: Option<SystemTime>,
    recorded: Seq<Option<i32>>,
    state_size: nat,
    replies: Seq<Reply>,
)
    requires
        forall|k: int| 0 <= k < replies.len() ==> replies[k] == Reply::Done,
        replies.len() >= crate::plan::rebuild_plan::<'a>(
            peripheral,
            sides,
            rtc,
            recorded,
            state_size,
        ).len() + 2,
    ensures
        ({
            let plan: Seq<Step<'a>> = crate::plan::rebuild_plan(
                peripheral,
                sides,
                rtc,
                recorded,
                state_size,
            );
            crate::script::script_at(plan, replies, plan.len() + 2).next() == (if exists|i: int|
                0 <= i < sides.len() && (#[trigger] sides[i]).state.len() != state_size {
                Next::<'a>::Failed(Failure::Call(CallError::BootStateLength))
            } else if peripheral is Cable && sides.len() > 1 && exists|i: int|
                0 <= i < sides.len() && (#[trigger] sides[i]).adapter is Some {
                Next::Failed(Failure::Call(CallError::AdapterState))
            } else {
                Next::Finished
            })
        }),
{
    let plan: Seq<Step<'a>> = crate::plan::rebuild_plan(
        peripheral,
        sides,
        rtc,
        recorded,
        state_size,
    );
    let length = CallError::BootStateLength;
    let session = CallError::AdapterState;
    law_rebuild_failures(peripheral, sides, rtc, recorded, state_size, length);
    law_rebuild_failures(peripheral, sides, rtc, recorded, state_size, session);
    if exists|p: int| 0 <= p < plan.len() && #[trigger] plan[p] is Fail {
        let p = if plan.contains(Step::Fail { error: length }) {
            choose|p: int| 0 <= p < plan.len() && plan[p] == (Step::Fail { error: length })
        } else {
            choose|p: int| 0 <= p < plan.len() && #[trigger] plan[p] is Fail
        };
        let k = lemma_first_failure(plan, p);
        let error = plan[k]->Fail_error;
        assert(plan[k] == (Step::Fail { error }));
        assert(plan.contains(Step::Fail { error }));
        law_rebuild_failures(peripheral, sides, rtc, recorded, state_size, error);
        if plan[p] == (Step::Fail { error: length }) {
            lemma_lengths_come_first(peripheral, sides, rtc, recorded, state_size, k, p);
        }
        lemma_all_done(plan, replies, k as nat);
    } else {
        if plan.contains(Step::Fail { error: length }) {
            let p = choose|p: int|
                0 <= p < plan.len() && plan[p] == (Step::Fail { error: length });
            assert(plan[p] is Fail);
        }
        if plan.contains(Step::Fail { error: session }) {
            let p = choose|p: int|
                0 <= p < plan.len() && plan[p] == (Step::Fail { error: session });
            assert(plan[p] is Fail);
        }
        lemma_all_done(plan, replies, plan.len());
    }
}

/// A failing step before one about a capture's length is about a length too.
proof fn lemma_lengths_come_first<'a>(
    peripheral: Peripheral,
    sides: Seq<BootSide>,
    rtc: Option<SystemTime>,
    recorded: Seq<Option<i32>>,
    state_size: nat,
    k: int,
    p: int,
)
    requires
        ({
            let plan: Seq<Step<'a>> = crate::plan::rebuild_plan(
                peripheral,
                sides,
                rtc,
                recorded,
                state_size,
            );
            &&& 0 <= k <= p < plan.len()
            &&& plan[k] is Fail
            &&& plan[p] == (Step::Fail { error: CallError::BootStateLength })
        }),
    ensures
        ({
            let plan: Seq<Step<'a>> = crate::plan::rebuild_plan(
                peripheral,
                sides,
                rtc,
                recorded,
                state_size,
            );
            plan[k] == (Step::Fail { error: CallError::BootStateLength })
        }),
{
    let fail: Step<'a> = Step::Fail { error: CallError::BootStateLength };
    let plan: Seq<Step<'a>> = crate::plan::rebuild_plan(
        peripheral,
        sides,
        rtc,
        recorded,
        state_size,
    );
    let drivers = crate::driver::drivers_of(
        peripheral,
        crate::plan::recorded_seats(sides, recorded),
    );
    let a: Seq<Step<'a>> = crate::plan::new_cores(sides.len());
    let b: Seq<Step<'a>> = resumes(peripheral, sides, rtc, state_size);
    let c: Seq<Step<'a>> = crate::plan::hardware(peripheral, drivers);
    let d: Seq<Step<'a>> = crate::plan::attach(drivers.len());
    let e: Seq<Step<'a>> = sessions(drivers, sides);
    assert(plan == a + b + c + d + e);
    lemma_chain_all(
        sides.len(),
        |i: int| crate::plan::resume(i, peripheral, &sides[i], rtc, state_size),
        |step: Step<'a>| step is Fail ==> step == fail,
    );
    lemma_chain_all(
        drivers.len(),
        |i: int| crate::plan::adapter_session(i, drivers[i], &sides[i]),
        |step: Step<'a>| step != fail,
    );
    let middle = a.len() + b.len();
    assert(p < middle) by {
        if p >= middle + c.len() + d.len() {
            assert(plan[p] == e[p - middle - c.len() - d.len()]);
        } else if p >= middle + c.len() {
            assert(plan[p] == d[p - middle - c.len()]);
        } else if p >= middle {
            assert(plan[p] == c[p - middle]);
        }
    }
    if k < a.len() {
        assert(plan[k] == a[k]);
    } else {
        assert(plan[k] == b[k - a.len()]);
    }
}

/// A capture passes the length test: where a core's savestate is as long as
/// savestates are, its image resumes in a side without a failing step.
pub proof fn law_capture_resumes<'a>(
    state: CoreState,
    core: int,
    peripheral: Peripheral,
    side: &'a BootSide,
    rtc: Option<SystemTime>,
    state_size: nat,
    error: CallError,
)
    requires
        state.image.len() == state_size,
        side.state@ == state.image@,
    ensures
        !crate::plan::resume(core, peripheral, side, rtc, state_size).contains(
            Step::Fail { error },
        ),
{
    lemma_resume_contains_fail(core, peripheral, side, rtc, state_size, error);
}

/// A rebuild from captures is never refused for their length.
pub proof fn law_captures_pass_the_length_test<'a>(
    states: Seq<CoreState>,
    peripheral: Peripheral,
    sides: Seq<BootSide>,
    rtc: Option<SystemTime>,
    recorded: Seq<Option<i32>>,
    state_size: nat,
)
    requires
        states.len() == sides.len(),
        forall|i: int|
            0 <= i < sides.len() ==> {
                &&& (#[trigger] sides[i]).state@ == states[i].image@
                &&& states[i].image.len() == state_size
            },
    ensures
        !rebuild_fails(
            peripheral,
            sides,
            rtc,
            recorded,
            state_size,
            CallError::BootStateLength,
        ),
{
    law_rebuild_failures(
        peripheral,
        sides,
        rtc,
        recorded,
        state_size,
        CallError::BootStateLength,
    );
}

/// A rebuild never renumbers a surviving adapter: a side asks for the seat
/// that its own session records, wherever it now stands and whoever else is
/// on the link.
pub proof fn law_seats_survive(
    before: Seq<BootSide>,
    recorded_before: Seq<Option<i32>>,
    i: int,
    after: Seq<BootSide>,
    recorded_after: Seq<Option<i32>>,
    j: int,
)
    requires
        0 <= i < before.len(),
        0 <= j < after.len(),
        before[i].adapter is Some,
        after[j].adapter is Some,
        recorded_before[i] == recorded_after[j],
    ensures
        LinkView::seated(
            Peripheral::Wireless,
            crate::plan::recorded_seats(before, recorded_before),
        ).drivers[i] == LinkView::seated(
            Peripheral::Wireless,
            crate::plan::recorded_seats(after, recorded_after),
        ).drivers[j],
        recorded_before[i] matches Some(seat) ==> LinkView::seated(
            Peripheral::Wireless,
            crate::plan::recorded_seats(before, recorded_before),
        ).drivers[i] == (Driver::Wireless { seat }),
{
}

/// A side without an adapter session, or with one that records no seat, takes
/// any free seat.
pub proof fn law_newcomers_take_any_seat(
    sides: Seq<BootSide>,
    recorded: Seq<Option<i32>>,
    i: int,
)
    requires
        0 <= i < sides.len(),
        sides[i].adapter is None || recorded[i] is None,
    ensures
        LinkView::seated(
            Peripheral::Wireless,
            crate::plan::recorded_seats(sides, recorded),
        ).drivers[i] == (Driver::Wireless { seat: ANY_SEAT }),
{
}

/// Whether a coordinator can have handed these seats out to the adapters that
/// attached in this order: no two share one, and an adapter that asked for a
/// seat which was free got it.
pub open spec fn handed_out(drivers: Seq<Driver>, ids: Seq<i32>) -> bool {
    &&& ids.len() == drivers.len()
    &&& forall|i: int, j: int| 0 <= i < j < ids.len() ==> #[trigger] ids[i] != #[trigger] ids[j]
    &&& forall|i: int|
        0 <= i < ids.len() ==> (#[trigger] drivers[i] matches Driver::Wireless { seat } ==> {
            ||| seat == ANY_SEAT
            ||| exists|j: int| 0 <= j < i && #[trigger] ids[j] == seat
            ||| ids[i] == seat
        })
}

/// A rebuild gives a surviving adapter the seat that its session records, and
/// nobody else has it, whatever the order and the number of the sides, where
/// the coordinator hands out what is free. The sides before it are survivors
/// too, with distinct seats; who joins behind it does not matter.
pub proof fn law_recorded_seats_come_back(
    sides: Seq<BootSide>,
    recorded: Seq<Option<i32>>,
    ids: Seq<i32>,
    i: int,
)
    requires
        0 <= i < sides.len(),
        recorded.len() == sides.len(),
        forall|j: int| 0 <= j <= i ==> (#[trigger] sides[j]).adapter is Some,
        forall|j: int|
            0 <= j <= i ==> #[trigger] recorded[j] is Some && recorded[j] != Some(ANY_SEAT),
        forall|j: int, k: int|
            0 <= j < k <= i ==> #[trigger] recorded[j] != #[trigger] recorded[k],
        handed_out(
            LinkView::seated(
                Peripheral::Wireless,
                crate::plan::recorded_seats(sides, recorded),
            ).drivers,
            ids,
        ),
    ensures
        Some(ids[i]) == recorded[i],
        forall|j: int| 0 <= j < ids.len() && j != i ==> #[trigger] ids[j] != ids[i],
    decreases i,
{
    let drivers = LinkView::seated(
        Peripheral::Wireless,
        crate::plan::recorded_seats(sides, recorded),
    ).drivers;
    assert(sides[i].adapter is Some);
    assert(recorded[i] is Some);
    assert(drivers[i] == (Driver::Wireless { seat: recorded[i]->0 }));
    if exists|j: int| 0 <= j < i && #[trigger] ids[j] == recorded[i]->0 {
        let j = choose|j: int| 0 <= j < i && #[trigger] ids[j] == recorded[i]->0;
        law_recorded_seats_come_back(sides, recorded, ids, j);
        assert(recorded[j] != recorded[i]);
    }
}

/// Whether two captures hold the same bytes.
pub open spec fn same_capture(a: BootSide, b: BootSide) -> bool {
    &&& a.rom@ == b.rom@
    &&& same_bytes(a.save, b.save)
    &&& a.state@ == b.state@
    &&& same_bytes(a.adapter, b.adapter)
}

/// Whether there are bytes on both sides, and the same, or on neither.
pub open spec fn same_bytes(a: Option<Vec<u8>>, b: Option<Vec<u8>>) -> bool {
    match (a, b) {
        (Some(a), Some(b)) => a@ == b@,
        (None, None) => true,
        _ => false,
    }
}

/// Whether two steps of a boot do the same thing with the same bytes.
pub open spec fn same_step(a: Step<'_>, b: Step<'_>) -> bool {
    match (a, b) {
        (Step::LoadRom { core: i, rom: x }, Step::LoadRom { core: j, rom: y }) => {
            i == j && x@ == y@
        },
        (Step::LoadSave { core: i, save: x }, Step::LoadSave { core: j, save: y }) => {
            i == j && x@ == y@
        },
        (Step::LoadState { core: i, image: x }, Step::LoadState { core: j, image: y }) => {
            i == j && x@ == y@
        },
        (
            Step::LoadAdapterState { index: i, blob: x },
            Step::LoadAdapterState { index: j, blob: y },
        ) => { i == j && x@ == y@ },
        _ => a == b,
    }
}

/// Identical captures resume alike.
proof fn lemma_same_resume<'a>(
    core: int,
    peripheral: Peripheral,
    mine: &'a BootSide,
    theirs: &'a BootSide,
    rtc: Option<SystemTime>,
    state_size: nat,
)
    requires
        same_capture(*mine, *theirs),
    ensures
        crate::bytes::alike(
            crate::plan::resume(core, peripheral, mine, rtc, state_size),
            crate::plan::resume(core, peripheral, theirs, rtc, state_size),
            |a: Step<'a>, b: Step<'a>| same_step(a, b),
        ),
{
    let same = |a: Step<'a>, b: Step<'a>| same_step(a, b);
    let reset: Seq<Step<'a>> = seq![Step::Reset { core: core as usize }];
    let a: Seq<Step<'a>> = crate::plan::cartridge(core, crate::plan::captured_side(mine), rtc);
    let b: Seq<Step<'a>> = crate::plan::cartridge(core, crate::plan::captured_side(theirs), rtc);
    let c: Seq<Step<'a>> = crate::plan::boot_state(core, peripheral, &mine.state, state_size);
    let d: Seq<Step<'a>> = crate::plan::boot_state(core, peripheral, &theirs.state, state_size);
    lemma_sum_alike(a, reset, b, reset, same);
    lemma_sum_alike(a + reset, c, b + reset, d, same);
}

/// Peers that rebuild a link from identical captures do the same things with
/// the same bytes in the same order, whatever else their machines have gone
/// through.
pub proof fn law_identical_captures<'a>(
    peripheral: Peripheral,
    mine: Seq<BootSide>,
    theirs: Seq<BootSide>,
    rtc: Option<SystemTime>,
    recorded: Seq<Option<i32>>,
    state_size: nat,
)
    requires
        mine.len() == theirs.len(),
        forall|i: int| 0 <= i < mine.len() ==> same_capture(#[trigger] mine[i], theirs[i]),
    ensures
        crate::bytes::alike(
            crate::plan::rebuild_plan::<'a>(peripheral, mine, rtc, recorded, state_size),
            crate::plan::rebuild_plan::<'a>(peripheral, theirs, rtc, recorded, state_size),
            |a: Step<'a>, b: Step<'a>| same_step(a, b),
        ),
{
    let same = |a: Step<'a>, b: Step<'a>| same_step(a, b);
    let seats = crate::plan::recorded_seats(mine, recorded);
    assert forall|i: int| 0 <= i < mine.len() implies #[trigger] seats[i]
        == crate::plan::recorded_seats(theirs, recorded)[i] by {
        assert(same_capture(mine[i], theirs[i]));
    }
    assert(seats =~= crate::plan::recorded_seats(theirs, recorded));
    let drivers = crate::driver::drivers_of(peripheral, seats);
    let a: Seq<Step<'a>> = crate::plan::new_cores(mine.len());
    let b: Seq<Step<'a>> = resumes(peripheral, mine, rtc, state_size);
    let b2: Seq<Step<'a>> = resumes(peripheral, theirs, rtc, state_size);
    let c: Seq<Step<'a>> = crate::plan::hardware(peripheral, drivers);
    let d: Seq<Step<'a>> = crate::plan::attach(drivers.len());
    let e: Seq<Step<'a>> = sessions(drivers, mine);
    let e2: Seq<Step<'a>> = sessions(drivers, theirs);
    let left = |i: int| crate::plan::resume(i, peripheral, &mine[i], rtc, state_size);
    let right = |i: int| crate::plan::resume(i, peripheral, &theirs[i], rtc, state_size);
    assert forall|i: int| 0 <= i < mine.len() implies crate::bytes::alike(
        #[trigger] left(i),
        right(i),
        same,
    ) by {
        assert(same_capture(mine[i], theirs[i]));
        lemma_same_resume(i, peripheral, &mine[i], &theirs[i], rtc, state_size);
    }
    lemma_chain_alike(mine.len(), left, right, same);
    let ours = |i: int| crate::plan::adapter_session(i, drivers[i], &mine[i]);
    let others = |i: int| crate::plan::adapter_session(i, drivers[i], &theirs[i]);
    assert forall|i: int| 0 <= i < drivers.len() implies crate::bytes::alike(
        #[trigger] ours(i),
        others(i),
        same,
    ) by {
        assert(same_capture(mine[i], theirs[i]));
    }
    lemma_chain_alike(drivers.len(), ours, others, same);
    lemma_sum_alike(a, b, a, b2, same);
    lemma_sum_alike(a + b, c, a + b2, c, same);
    lemma_sum_alike(a + b + c, d, a + b2 + c, d, same);
    lemma_sum_alike(a + b + c + d, e, a + b2 + c + d, e2, same);
}

/// Whether two sides power on with the same bytes.
pub open spec fn same_side(a: Side<'_>, b: Side<'_>) -> bool {
    &&& a.rom@ == b.rom@
    &&& match (a.save, b.save) {
        (Some(a), Some(b)) => a@ == b@,
        (None, None) => true,
        _ => false,
    }
}

/// Identical sides power on alike.
proof fn lemma_same_power_on<'a>(
    core: int,
    mine: Side<'a>,
    theirs: Side<'a>,
    rtc: Option<SystemTime>,
    driver: bool,
)
    requires
        same_side(mine, theirs),
    ensures
        crate::bytes::alike(
            crate::plan::power_on(core, mine, rtc, driver),
            crate::plan::power_on(core, theirs, rtc, driver),
            |a: Step<'a>, b: Step<'a>| same_step(a, b),
        ),
{
    let same = |a: Step<'a>, b: Step<'a>| same_step(a, b);
    let a: Seq<Step<'a>> = crate::plan::cartridge(core, mine, rtc);
    let b: Seq<Step<'a>> = crate::plan::cartridge(core, theirs, rtc);
    let install: Seq<Step<'a>> = if driver {
        seq![Step::InstallDriver { index: core as usize }]
    } else {
        Seq::empty()
    };
    let reset: Seq<Step<'a>> = seq![Step::Reset { core: core as usize }];
    lemma_sum_alike(a, install, b, install, same);
    lemma_sum_alike(a + install, reset, b + install, reset, same);
}

/// Peers that power a link on from identical sides do the same things with
/// the same bytes in the same order.
pub proof fn law_identical_power_on<'a>(
    peripheral: Peripheral,
    mine: Seq<Side<'a>>,
    theirs: Seq<Side<'a>>,
    rtc: Option<SystemTime>,
)
    requires
        mine.len() == theirs.len(),
        forall|i: int| 0 <= i < mine.len() ==> same_side(#[trigger] mine[i], theirs[i]),
    ensures
        crate::bytes::alike(
            crate::plan::power_on_plan(peripheral, mine, rtc),
            crate::plan::power_on_plan(peripheral, theirs, rtc),
            |a: Step<'a>, b: Step<'a>| same_step(a, b),
        ),
{
    let same = |a: Step<'a>, b: Step<'a>| same_step(a, b);
    let drivers = crate::driver::drivers_of(
        peripheral,
        crate::driver::positions(mine.len()),
    );
    let head: Seq<Step<'a>> = crate::plan::hardware(peripheral, drivers)
        + crate::plan::new_cores(mine.len());
    let left = |i: int| crate::plan::power_on(i, mine[i], rtc, i < drivers.len());
    let right = |i: int| crate::plan::power_on(i, theirs[i], rtc, i < drivers.len());
    assert forall|i: int| 0 <= i < mine.len() implies crate::bytes::alike(
        #[trigger] left(i),
        right(i),
        same,
    ) by {
        assert(same_side(mine[i], theirs[i]));
        lemma_same_power_on(i, mine[i], theirs[i], rtc, i < drivers.len());
    }
    lemma_chain_alike(mine.len(), left, right, same);
    lemma_sum_alike(
        head,
        crate::bytes::chain(mine.len(), left),
        head,
        crate::bytes::chain(theirs.len(), right),
        same,
    );
}

/// Drivers are plugged in in the order of the players.
pub proof fn law_attach_in_player_order<'a>(
    peripheral: Peripheral,
    sides: Seq<BootSide>,
    rtc: Option<SystemTime>,
    recorded: Seq<Option<i32>>,
    state_size: nat,
    p: int,
    q: int,
)
    requires
        sides.len() <= crate::peripheral::MAX_PLAYERS,
        ({
            let plan: Seq<Step<'a>> = crate::plan::rebuild_plan(
                peripheral,
                sides,
                rtc,
                recorded,
                state_size,
            );
            &&& 0 <= p < q < plan.len()
            &&& plan[p] is InstallDriver
            &&& plan[q] is InstallDriver
        }),
    ensures
        ({
            let plan: Seq<Step<'a>> = crate::plan::rebuild_plan(
                peripheral,
                sides,
                rtc,
                recorded,
                state_size,
            );
            plan[p]->InstallDriver_index < plan[q]->InstallDriver_index
        }),
{
    let plan: Seq<Step<'a>> = crate::plan::rebuild_plan(
        peripheral,
        sides,
        rtc,
        recorded,
        state_size,
    );
    let drivers = crate::driver::drivers_of(
        peripheral,
        crate::plan::recorded_seats(sides, recorded),
    );
    let a: Seq<Step<'a>> = crate::plan::new_cores(sides.len());
    let b: Seq<Step<'a>> = resumes(peripheral, sides, rtc, state_size);
    let c: Seq<Step<'a>> = crate::plan::hardware(peripheral, drivers);
    let d: Seq<Step<'a>> = crate::plan::attach(drivers.len());
    let e: Seq<Step<'a>> = sessions(drivers, sides);
    lemma_chain_all(
        sides.len(),
        |i: int| crate::plan::resume(i, peripheral, &sides[i], rtc, state_size),
        |step: Step<'a>| !(step is InstallDriver),
    );
    lemma_chain_all(
        drivers.len(),
        |i: int| crate::plan::adapter_session(i, drivers[i], &sides[i]),
        |step: Step<'a>| !(step is InstallDriver),
    );
    let from = a.len() + b.len() + c.len();
    assert(plan == a + b + c + d + e);
    assert forall|k: int| k == p || k == q implies from <= k < from + d.len() && #[trigger] plan[k]
        == d[k - from] by {
        if k < a.len() {
            assert(plan[k] == a[k]);
        } else if k < a.len() + b.len() {
            assert(plan[k] == b[k - a.len()]);
        } else if k < from {
            assert(plan[k] == c[k - a.len() - b.len()]);
        } else if k >= from + d.len() {
            assert(plan[k] == e[k - from - d.len()]);
        }
    }
    assert(plan[p] == d[p - from] && plan[q] == d[q - from]);
}

/// Whether a step makes a driver, plugs one in, or hands one a session.
pub open spec fn touches_driver(step: Step<'_>) -> bool {
    step is NewDriver || step is InstallDriver || step is LoadAdapterState
}

/// A solo cable is unplugged: its boot neither makes nor plugs in a driver.
pub proof fn law_solo_cable_boots_unplugged<'a>(
    sides: Seq<Side<'a>>,
    rtc: Option<SystemTime>,
    k: int,
)
    requires
        sides.len() == 1,
        0 <= k < crate::plan::power_on_plan(Peripheral::Cable, sides, rtc).len(),
    ensures
        !touches_driver(crate::plan::power_on_plan(Peripheral::Cable, sides, rtc)[k]),
{
    let drivers = crate::driver::drivers_of(
        Peripheral::Cable,
        crate::driver::positions(sides.len()),
    );
    let pieces = |i: int| crate::plan::power_on(i, sides[i], rtc, i < drivers.len());
    let plan = crate::plan::power_on_plan(Peripheral::Cable, sides, rtc);
    let a: Seq<Step<'a>> = crate::plan::hardware(Peripheral::Cable, drivers);
    let b: Seq<Step<'a>> = crate::plan::new_cores(sides.len());
    let c = crate::bytes::chain(sides.len(), pieces);
    lemma_chain_all(sides.len(), pieces, |step: Step<'a>| !touches_driver(step));
    assert(plan == a + b + c);
    if k >= a.len() + b.len() {
        assert(plan[k] == c[k - a.len() - b.len()]);
    } else if k >= a.len() {
        assert(plan[k] == b[k - a.len()]);
    } else {
        assert(plan[k] == a[k]);
    }
}

/// A solo cable capture continues unplugged: no driver is made, plugged in,
/// or handed an adapter session.
pub proof fn law_solo_cable_resumes_unplugged<'a>(
    sides: Seq<BootSide>,
    rtc: Option<SystemTime>,
    recorded: Seq<Option<i32>>,
    state_size: nat,
    k: int,
)
    requires
        sides.len() == 1,
        0 <= k < crate::plan::rebuild_plan::<'a>(
            Peripheral::Cable,
            sides,
            rtc,
            recorded,
            state_size,
        ).len(),
    ensures
        !touches_driver(
            crate::plan::rebuild_plan::<'a>(
                Peripheral::Cable,
                sides,
                rtc,
                recorded,
                state_size,
            )[k],
        ),
{
    let plan: Seq<Step<'a>> = crate::plan::rebuild_plan(
        Peripheral::Cable,
        sides,
        rtc,
        recorded,
        state_size,
    );
    let drivers = crate::driver::drivers_of(
        Peripheral::Cable,
        crate::plan::recorded_seats(sides, recorded),
    );
    let a: Seq<Step<'a>> = crate::plan::new_cores(sides.len());
    let b: Seq<Step<'a>> = resumes(Peripheral::Cable, sides, rtc, state_size);
    let c: Seq<Step<'a>> = crate::plan::hardware(Peripheral::Cable, drivers);
    let d: Seq<Step<'a>> = crate::plan::attach(drivers.len());
    let e: Seq<Step<'a>> = sessions(drivers, sides);
    lemma_chain_all(
        sides.len(),
        |i: int| crate::plan::resume(i, Peripheral::Cable, &sides[i], rtc, state_size),
        |step: Step<'a>| !touches_driver(step),
    );
    assert(plan == a + b + c + d + e);
    if k >= a.len() + b.len() {
        assert(plan[k] == c[k - a.len() - b.len()]);
    } else if k >= a.len() {
        assert(plan[k] == b[k - a.len()]);
    } else {
        assert(plan[k] == a[k]);
    }
}

/// An adapter is the same adapter: a wireless rebuild neutralizes nothing.
pub proof fn law_wireless_rebuild_is_verbatim<'a>(
    sides: Seq<BootSide>,
    rtc: Option<SystemTime>,
    recorded: Seq<Option<i32>>,
    state_size: nat,
    k: int,
)
    ensures
        ({
            let plan: Seq<Step<'a>> = crate::plan::rebuild_plan(
                Peripheral::Wireless,
                sides,
                rtc,
                recorded,
                state_size,
            );
            0 <= k < plan.len() ==> !(plan[k] is NeutralizeSio)
        }),
{
    let drivers = crate::driver::drivers_of(
        Peripheral::Wireless,
        crate::plan::recorded_seats(sides, recorded),
    );
    lemma_chain_all(
        sides.len(),
        |i: int| crate::plan::resume(i, Peripheral::Wireless, &sides[i], rtc, state_size),
        |step: Step<'a>| !(step is NeutralizeSio),
    );
    lemma_chain_all(
        drivers.len(),
        |i: int| crate::plan::adapter_session(i, drivers[i], &sides[i]),
        |step: Step<'a>| !(step is NeutralizeSio),
    );
}

} // verus!

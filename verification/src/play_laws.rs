//! What holds of a link over any number of ticks.
//!
//! The emulator behind a link is whatever it is, so long as what it does
//! follows from the state of the link: equal links that are asked the same
//! give the same answers and become equal links again.

use std::time::SystemTime;
use vstd::prelude::*;

use crate::gba::Gba;
use crate::link::LinkView;
use crate::link_laws::{
    law_identical_captures, law_identical_power_on, law_restore_is_exact,
    law_snapshots_of_one_link, World,
};
use crate::options::BootSide;
use crate::peripheral::Peripheral;
use crate::plan::Side;
use crate::script::Step;
use crate::snapshot::SnapshotView;
use crate::tick::{TickAction, TickEvent, TickState};
use crate::tick_laws::{law_tick_ends, law_valid};

verus! {

/// An emulator: what it answers to an action of a tick, and what the link is
/// after it.
pub struct Emulator {
    pub answer: spec_fn(World, TickAction) -> TickEvent,
    pub after: spec_fn(World, TickAction) -> World,
}

impl Emulator {
    /// Whether it answers what it is asked.
    pub open spec fn answers_what_is_asked(self) -> bool {
        forall|world: World, tick: TickState|
            tick.valid() && !tick.over() ==> #[trigger] tick.accepts(
                (self.answer)(world, tick.action()),
            )
    }

    /// The link after the first `k` events of a tick.
    pub open spec fn world_at(
        self,
        world: World,
        start: TickState,
        events: Seq<TickEvent>,
        k: nat,
    ) -> World
        decreases k,
    {
        if k == 0 {
            world
        } else {
            let before = (k - 1) as nat;
            (self.after)(
                self.world_at(world, start, events, before),
                crate::tick_laws::state_at(start, events, before).action(),
            )
        }
    }

    /// Whether event `k` of a tick is this emulator's answer.
    pub open spec fn gives(
        self,
        world: World,
        start: TickState,
        events: Seq<TickEvent>,
        k: nat,
    ) -> bool {
        events[k as int] == (self.answer)(
            self.world_at(world, start, events, k),
            crate::tick_laws::state_at(start, events, k).action(),
        )
    }

    /// Whether the events are a tick on this emulator, as far as they go.
    pub open spec fn runs(
        self,
        world: World,
        keys: Seq<u32>,
        drivers: nat,
        events: Seq<TickEvent>,
    ) -> bool {
        &&& crate::tick_laws::is_tick(keys, drivers, events)
        &&& forall|k: nat|
            k < events.len() ==> #[trigger] self.gives(
                world,
                TickState::begin(keys, drivers),
                events,
                k,
            )
    }

    /// Whether the events are a whole tick on this emulator.
    pub open spec fn ticks(
        self,
        world: World,
        keys: Seq<u32>,
        drivers: nat,
        events: Seq<TickEvent>,
    ) -> bool {
        &&& self.runs(world, keys, drivers, events)
        &&& crate::tick_laws::state_at(
            TickState::begin(keys, drivers),
            events,
            events.len(),
        ).over()
    }
}

/// One thing that is done to a running link.
pub enum Move {
    /// A tick with these keys.
    Tick { keys: Seq<u32> },
    /// A change from outside, such as a write into a core's memory.
    Poke { change: spec_fn(World) -> World },
    /// A look from outside, such as a snapshot or a capture, the audio samples
    /// so far, or the player id that a driver says.
    Read { look: spec_fn(World) -> Seq<int> },
}

/// What is seen of a move.
pub enum Outcome {
    /// How a tick ended: the slices it ran, or its error.
    Ticked { end: TickAction },
    /// Nothing.
    Poked,
    /// What was read.
    Seen { seen: Seq<int> },
}

/// A link at play: the emulator, the link at the outset, how many of its
/// cores have a driver, what is done, and the events of each tick.
pub struct Play {
    pub emulator: Emulator,
    pub world: World,
    pub drivers: nat,
    pub moves: Seq<Move>,
    pub ticks: Seq<Seq<TickEvent>>,
}

impl Play {
    /// The link after the first `t` moves.
    pub open spec fn world_after(self, t: nat) -> World
        decreases t,
    {
        if t == 0 {
            self.world
        } else {
            let before = self.world_after((t - 1) as nat);
            match self.moves[t - 1] {
                Move::Tick { keys } => self.emulator.world_at(
                    before,
                    TickState::begin(keys, self.drivers),
                    self.ticks[t - 1],
                    self.ticks[t - 1].len(),
                ),
                Move::Poke { change } => change(before),
                Move::Read { .. } => before,
            }
        }
    }

    /// Whether move `t` was carried out on the emulator.
    pub open spec fn carries_out(self, t: nat) -> bool {
        match self.moves[t as int] {
            Move::Tick { keys } => self.emulator.ticks(
                self.world_after(t),
                keys,
                self.drivers,
                self.ticks[t as int],
            ),
            _ => self.ticks[t as int] == Seq::<TickEvent>::empty(),
        }
    }

    /// Whether all moves were carried out on the emulator.
    pub open spec fn valid(self) -> bool {
        &&& self.ticks.len() == self.moves.len()
        &&& forall|t: nat| t < self.moves.len() ==> #[trigger] self.carries_out(t)
    }

    /// What is seen of move `t`.
    pub open spec fn outcome(self, t: nat) -> Outcome {
        match self.moves[t as int] {
            Move::Tick { keys } => Outcome::Ticked {
                end: crate::tick_laws::state_at(
                    TickState::begin(keys, self.drivers),
                    self.ticks[t as int],
                    self.ticks[t as int].len(),
                ).action(),
            },
            Move::Poke { .. } => Outcome::Poked,
            Move::Read { look } => Outcome::Seen { seen: look(self.world_after(t)) },
        }
    }

    /// Whether `other` does the same things on the same emulator.
    pub open spec fn same_moves(self, other: Play) -> bool {
        &&& self.emulator == other.emulator
        &&& self.drivers == other.drivers
        &&& self.moves == other.moves
    }
}

/// Whether two plays show the same: equal outcomes of all moves, and equal
/// digests of snapshots taken at the outset and after any of the moves.
pub open spec fn go_on_alike(first: Play, second: Play) -> bool {
    &&& forall|t: nat| t < first.moves.len() ==> #[trigger] first.outcome(t) == second.outcome(t)
    &&& forall|t: nat, one: SnapshotView, two: SnapshotView|
        t <= first.moves.len() && #[trigger] crate::link_laws::snapshot_of(
            one,
            first.world_after(t),
        ) && #[trigger] crate::link_laws::snapshot_of(two, second.world_after(t))
            ==> crate::checksum::crc32(one.stream()) == crate::checksum::crc32(two.stream())
}

/// Two ticks on equal links go the same way, as far as both go.
proof fn lemma_same_way(
    emulator: Emulator,
    world: World,
    keys: Seq<u32>,
    drivers: nat,
    first: Seq<TickEvent>,
    second: Seq<TickEvent>,
    k: nat,
)
    requires
        emulator.runs(world, keys, drivers, first),
        emulator.runs(world, keys, drivers, second),
        k <= first.len(),
        k <= second.len(),
    ensures
        ({
            let start = TickState::begin(keys, drivers);
            &&& crate::tick_laws::state_at(start, first, k) == crate::tick_laws::state_at(
                start,
                second,
                k,
            )
            &&& emulator.world_at(world, start, first, k) == emulator.world_at(
                world,
                start,
                second,
                k,
            )
            &&& forall|j: int| 0 <= j < k ==> first[j] == second[j]
        }),
    decreases k,
{
    if k > 0 {
        let before = (k - 1) as nat;
        let start = TickState::begin(keys, drivers);
        lemma_same_way(emulator, world, keys, drivers, first, second, before);
        assert(emulator.gives(world, start, first, before));
        assert(emulator.gives(world, start, second, before));
    }
}

/// A tick on an emulator is determined: two whole ticks with the same keys,
/// on equal links, are made of the same events.
pub proof fn law_tick_is_determined(
    emulator: Emulator,
    world: World,
    keys: Seq<u32>,
    drivers: nat,
    first: Seq<TickEvent>,
    second: Seq<TickEvent>,
)
    requires
        emulator.ticks(world, keys, drivers, first),
        emulator.ticks(world, keys, drivers, second),
    ensures
        first == second,
{
    let start = TickState::begin(keys, drivers);
    let both = if first.len() <= second.len() {
        first.len()
    } else {
        second.len()
    };
    lemma_same_way(emulator, world, keys, drivers, first, second, both);
    if first.len() < second.len() {
        assert(crate::tick_laws::state_at(start, second, both).accepts(second[both as int]));
    }
    if second.len() < first.len() {
        assert(crate::tick_laws::state_at(start, first, both).accepts(first[both as int]));
    }
    assert(first =~= second);
}

/// States and links before an event do not depend on it.
proof fn lemma_push(
    emulator: Emulator,
    world: World,
    start: TickState,
    events: Seq<TickEvent>,
    event: TickEvent,
    k: nat,
)
    requires
        k <= events.len(),
    ensures
        crate::tick_laws::state_at(start, events.push(event), k) == crate::tick_laws::state_at(
            start,
            events,
            k,
        ),
        emulator.world_at(world, start, events.push(event), k) == emulator.world_at(
            world,
            start,
            events,
            k,
        ),
    decreases k,
{
    if k > 0 {
        lemma_push(emulator, world, start, events, event, (k - 1) as nat);
    }
}

/// A tick can always be carried to its end.
pub proof fn law_tick_completes(
    emulator: Emulator,
    world: World,
    keys: Seq<u32>,
    drivers: nat,
    events: Seq<TickEvent>,
) -> (whole: Seq<TickEvent>)
    requires
        emulator.answers_what_is_asked(),
        emulator.runs(world, keys, drivers, events),
    ensures
        emulator.ticks(world, keys, drivers, whole),
    decreases crate::tick_laws::tick_bound(keys.len()) + 1 - events.len(),
{
    let start = TickState::begin(keys, drivers);
    let len = events.len();
    let state = crate::tick_laws::state_at(start, events, len);
    law_valid(keys, drivers, events, len);
    if state.over() {
        events
    } else {
        let event = (emulator.answer)(
            emulator.world_at(world, start, events, len),
            state.action(),
        );
        let more = events.push(event);
        assert(state.accepts(event));
        assert forall|k: nat| k < more.len() implies #[trigger] crate::tick_laws::state_at(
            start,
            more,
            k,
        ).accepts(more[k as int]) by {
            lemma_push(emulator, world, start, events, event, k);
            if k < len {
                assert(crate::tick_laws::state_at(start, events, k).accepts(events[k as int]));
            }
        }
        assert forall|k: nat| k < more.len() implies #[trigger] emulator.gives(
            world,
            start,
            more,
            k,
        ) by {
            lemma_push(emulator, world, start, events, event, k);
            if k < len {
                assert(emulator.gives(world, start, events, k));
            }
        }
        law_tick_ends(keys, drivers, more);
        law_tick_completes(emulator, world, keys, drivers, more)
    }
}

/// On equal links the same moves are made of the same events, and leave equal
/// links.
proof fn lemma_same_worlds(first: Play, second: Play, t: nat)
    requires
        first.valid(),
        second.valid(),
        first.same_moves(second),
        first.world == second.world,
        t <= first.moves.len(),
    ensures
        first.world_after(t) == second.world_after(t),
        forall|j: nat| j < t ==> first.ticks[j as int] == second.ticks[j as int],
    decreases t,
{
    if t > 0 {
        let before = (t - 1) as nat;
        lemma_same_worlds(first, second, before);
        assert(first.carries_out(before));
        assert(second.carries_out(before));
        if let Move::Tick { keys } = first.moves[before as int] {
            law_tick_is_determined(
                first.emulator,
                first.world_after(before),
                keys,
                first.drivers,
                first.ticks[before as int],
                second.ticks[before as int],
            );
        }
    }
}

/// The joypads are the only inputs: links in equal states that are ticked
/// with the same keys, and otherwise treated the same, give the same slice
/// counts and errors and show the same digests, after any number of ticks.
pub proof fn law_equal_links_go_on_alike(first: Play, second: Play)
    requires
        first.valid(),
        second.valid(),
        first.same_moves(second),
        first.world == second.world,
    ensures
        first.ticks == second.ticks,
        go_on_alike(first, second),
{
    lemma_same_worlds(first, second, first.moves.len());
    assert forall|t: int| 0 <= t < first.ticks.len() implies #[trigger] first.ticks[t]
        == second.ticks[t] by {
        let j = t as nat;
        assert(first.ticks[j as int] == second.ticks[j as int]);
    }
    assert(first.ticks =~= second.ticks);
    assert forall|t: nat| t < first.moves.len() implies #[trigger] first.outcome(t)
        == second.outcome(t) by {
        lemma_same_worlds(first, second, t);
    }
    assert forall|t: nat, one: SnapshotView, two: SnapshotView|
        t <= first.moves.len() && #[trigger] crate::link_laws::snapshot_of(
            one,
            first.world_after(t),
        ) && #[trigger] crate::link_laws::snapshot_of(
            two,
            second.world_after(t),
        ) implies crate::checksum::crc32(one.stream()) == crate::checksum::crc32(
        two.stream(),
    ) by {
        lemma_same_worlds(first, second, t);
        law_snapshots_of_one_link(first.world_after(t), one, two);
    }
}

/// What the first `t` moves do to a link: the looks among them left out.
pub open spec fn deeds(moves: Seq<Move>, t: nat) -> Seq<Move>
    decreases t,
{
    if t == 0 {
        Seq::empty()
    } else if moves[t - 1] is Read {
        deeds(moves, (t - 1) as nat)
    } else {
        deeds(moves, (t - 1) as nat).push(moves[t - 1])
    }
}

/// Whether two plays do the same things to equal links on the same emulator,
/// with any looks in between.
pub open spec fn same_deeds(first: Play, second: Play) -> bool {
    &&& first.emulator == second.emulator
    &&& first.drivers == second.drivers
    &&& first.world == second.world
    &&& deeds(first.moves, first.moves.len()) == deeds(second.moves, second.moves.len())
}

/// What is done first is done first.
proof fn lemma_deeds_prefix(moves: Seq<Move>, t: nat, u: nat)
    requires
        t <= u <= moves.len(),
    ensures
        deeds(moves, t).len() <= deeds(moves, u).len(),
        deeds(moves, t) == deeds(moves, u).take(deeds(moves, t).len() as int),
    decreases u,
{
    if t < u {
        lemma_deeds_prefix(moves, t, (u - 1) as nat);
    }
    let n = deeds(moves, t).len() as int;
    assert(deeds(moves, t) =~= deeds(moves, u).take(n));
}

/// The deeds that come next in two plays of the same deeds are the same.
proof fn lemma_same_deed(first: Play, second: Play, t: nat, u: nat)
    requires
        same_deeds(first, second),
        t < first.moves.len(),
        u < second.moves.len(),
        deeds(first.moves, t).len() == deeds(second.moves, u).len(),
        !(first.moves[t as int] is Read),
        !(second.moves[u as int] is Read),
    ensures
        first.moves[t as int] == second.moves[u as int],
{
    let n = deeds(first.moves, t).len() as int;
    let all = deeds(first.moves, first.moves.len());
    lemma_deeds_prefix(first.moves, t + 1, first.moves.len());
    lemma_deeds_prefix(second.moves, u + 1, second.moves.len());
    assert(deeds(first.moves, t + 1)[n] == all.take(n + 1)[n]);
    assert(deeds(second.moves, u + 1)[n] == all.take(n + 1)[n]);
}

/// After equally many deeds the links of two plays are equal.
proof fn lemma_looks_change_nothing(first: Play, second: Play, t: nat, u: nat)
    requires
        first.valid(),
        second.valid(),
        same_deeds(first, second),
        t <= first.moves.len(),
        u <= second.moves.len(),
        deeds(first.moves, t).len() == deeds(second.moves, u).len(),
    ensures
        first.world_after(t) == second.world_after(u),
    decreases t + u,
{
    if t > 0 && first.moves[t - 1] is Read {
        lemma_looks_change_nothing(first, second, (t - 1) as nat, u);
    } else if u > 0 && second.moves[u - 1] is Read {
        lemma_looks_change_nothing(first, second, t, (u - 1) as nat);
    } else if t > 0 && u > 0 {
        let i = (t - 1) as nat;
        let j = (u - 1) as nat;
        lemma_looks_change_nothing(first, second, i, j);
        lemma_same_deed(first, second, i, j);
        assert(first.carries_out(i));
        assert(second.carries_out(j));
        if let Move::Tick { keys } = first.moves[i as int] {
            law_tick_is_determined(
                first.emulator,
                first.world_after(i),
                keys,
                first.drivers,
                first.ticks[i as int],
                second.ticks[j as int],
            );
        }
    }
}

/// Looks leave play as it was: a link that is saved, captured or otherwise
/// looked at, at any points and any number of times, goes on exactly as one
/// that is not. After equally many deeds, `t` moves into the one play and `u`
/// into the other, the links are equal and their snapshots have equal
/// digests; if a deed comes next in both, it is the same, is made of the same
/// events and has the same outcome; and the same look sees the same.
pub proof fn law_looks_leave_play_as_it_was(first: Play, second: Play, t: nat, u: nat)
    requires
        first.valid(),
        second.valid(),
        same_deeds(first, second),
        t <= first.moves.len(),
        u <= second.moves.len(),
        deeds(first.moves, t).len() == deeds(second.moves, u).len(),
    ensures
        first.world_after(t) == second.world_after(u),
        forall|one: SnapshotView, two: SnapshotView| #[trigger]
            crate::link_laws::snapshot_of(one, first.world_after(t))
                && #[trigger] crate::link_laws::snapshot_of(two, second.world_after(u))
                ==> crate::checksum::crc32(one.stream()) == crate::checksum::crc32(two.stream()),
        t < first.moves.len() && u < second.moves.len() && !(first.moves[t as int] is Read) && !(
        second.moves[u as int] is Read) ==> {
            &&& first.moves[t as int] == second.moves[u as int]
            &&& first.ticks[t as int] == second.ticks[u as int]
            &&& first.outcome(t) == second.outcome(u)
        },
        t < first.moves.len() && u < second.moves.len() && first.moves[t as int]
            == second.moves[u as int] ==> first.outcome(t) == second.outcome(u),
{
    lemma_looks_change_nothing(first, second, t, u);
    assert forall|one: SnapshotView, two: SnapshotView| #[trigger]
        crate::link_laws::snapshot_of(one, first.world_after(t))
            && #[trigger] crate::link_laws::snapshot_of(
            two,
            second.world_after(u),
        ) implies crate::checksum::crc32(one.stream()) == crate::checksum::crc32(
        two.stream(),
    ) by {
        law_snapshots_of_one_link(first.world_after(t), one, two);
    }
    if t < first.moves.len() && u < second.moves.len() {
        if !(first.moves[t as int] is Read) && !(second.moves[u as int] is Read) {
            lemma_same_deed(first, second, t, u);
            assert(first.carries_out(t));
            assert(second.carries_out(u));
            if let Move::Tick { keys } = first.moves[t as int] {
                law_tick_is_determined(
                    first.emulator,
                    first.world_after(t),
                    keys,
                    first.drivers,
                    first.ticks[t as int],
                    second.ticks[u as int],
                );
            }
        }
    }
}

/// Whether savestates hold all of a console but its FIFO and DMA channels:
/// what a load leaves of a console is what was saved, the channels aside.
pub open spec fn leaves_all_else(leaves: spec_fn(int) -> Gba, saved: World) -> bool {
    forall|i: int|
        0 <= i < saved.gbas.len() ==> #[trigger] saved.gbas[i] == (Gba {
            ch_a: saved.gbas[i].ch_a,
            ch_b: saved.gbas[i].ch_b,
            dma: saved.gbas[i].dma,
            ..leaves(i)
        })
}

/// A restore undoes all that was done since the save: a link that is restored
/// plays on as the saved one did, whatever it has become in between. The same
/// moves have the same outcomes and show the same digests, however many there
/// are; and a link that is saved and restored at once plays on as if neither
/// had happened.
pub proof fn law_play_after_restore(
    saved: World,
    snapshot: SnapshotView,
    now: World,
    leaves: spec_fn(int) -> Gba,
    first: Play,
    second: Play,
)
    requires
        crate::link_laws::snapshot_of(snapshot, saved),
        now.same_size(saved),
        saved.states.len() <= crate::peripheral::MAX_PLAYERS,
        leaves_all_else(leaves, saved),
        first.valid(),
        second.valid(),
        first.same_moves(second),
        first.world == saved,
        second.world == now.perform_all(
            crate::plan::restore_plan(saved.blobs.len(), snapshot),
            leaves,
        ),
    ensures
        second.world == saved,
        first.ticks == second.ticks,
        go_on_alike(first, second),
{
    law_restore_is_exact(saved, snapshot, now, leaves);
    let after = second.world;
    assert forall|i: int| 0 <= i < saved.gbas.len() implies #[trigger] after.gbas[i]
        == saved.gbas[i] by {
        assert(saved.gbas[i] == (Gba {
            ch_a: saved.gbas[i].ch_a,
            ch_b: saved.gbas[i].ch_b,
            dma: saved.gbas[i].dma,
            ..leaves(i)
        }));
    }
    assert(after.gbas =~= saved.gbas);
    law_equal_links_go_on_alike(first, second);
}

/// Whether the link that an emulator boots follows from what is done to it,
/// and with which bytes.
pub open spec fn boots_by_bytes<'a>(boots: spec_fn(Seq<Step<'a>>) -> World) -> bool {
    forall|a: Seq<Step<'a>>, b: Seq<Step<'a>>|
        crate::bytes::alike(a, b, |x: Step<'a>, y: Step<'a>| crate::link_laws::same_step(x, y))
            ==> #[trigger] boots(a) == #[trigger] boots(b)
}

/// The seat that each side's adapter session records, as `seat` reads it.
pub open spec fn read_seats(
    sides: Seq<BootSide>,
    seat: spec_fn(Seq<u8>) -> Option<i32>,
) -> Seq<Option<i32>> {
    Seq::new(
        sides.len(),
        |i: int|
            match sides[i].adapter {
                Some(blob) => seat(blob@),
                None => None,
            },
    )
}

/// Peers that rebuild a link from identical captures get identical machines:
/// the same drivers ask for the same seats, the links are equal, and they go
/// on alike, over any number of ticks with the same keys.
pub proof fn law_rebuilt_links_go_on_alike<'a>(
    peripheral: Peripheral,
    mine: Seq<BootSide>,
    theirs: Seq<BootSide>,
    rtc: Option<SystemTime>,
    seat: spec_fn(Seq<u8>) -> Option<i32>,
    state_size: nat,
    boots: spec_fn(Seq<Step<'a>>) -> World,
    first: Play,
    second: Play,
)
    requires
        mine.len() == theirs.len(),
        forall|i: int|
            0 <= i < mine.len() ==> crate::link_laws::same_capture(#[trigger] mine[i], theirs[i]),
        boots_by_bytes(boots),
        first.valid(),
        second.valid(),
        first.same_moves(second),
        first.world == boots(
            crate::plan::rebuild_plan(
                peripheral,
                mine,
                rtc,
                read_seats(mine, seat),
                state_size,
            ),
        ),
        second.world == boots(
            crate::plan::rebuild_plan(
                peripheral,
                theirs,
                rtc,
                read_seats(theirs, seat),
                state_size,
            ),
        ),
    ensures
        LinkView::seated(
            peripheral,
            crate::plan::recorded_seats(mine, read_seats(mine, seat)),
        ) == LinkView::seated(
            peripheral,
            crate::plan::recorded_seats(theirs, read_seats(theirs, seat)),
        ),
        first.world == second.world,
        first.ticks == second.ticks,
        go_on_alike(first, second),
{
    let recorded = read_seats(mine, seat);
    assert forall|i: int| 0 <= i < mine.len() implies #[trigger] recorded[i] == read_seats(
        theirs,
        seat,
    )[i] by {
        assert(crate::link_laws::same_capture(mine[i], theirs[i]));
    }
    assert(recorded =~= read_seats(theirs, seat));
    let seats = crate::plan::recorded_seats(mine, recorded);
    assert forall|i: int| 0 <= i < mine.len() implies #[trigger] seats[i]
        == crate::plan::recorded_seats(theirs, recorded)[i] by {
        assert(crate::link_laws::same_capture(mine[i], theirs[i]));
    }
    assert(seats =~= crate::plan::recorded_seats(theirs, recorded));
    law_identical_captures(peripheral, mine, theirs, rtc, recorded, state_size);
    law_equal_links_go_on_alike(first, second);
}

/// Links that power on from identical sides, with the same clock, are equal
/// and go on alike, over any number of ticks with the same keys.
pub proof fn law_fresh_links_go_on_alike<'a>(
    peripheral: Peripheral,
    mine: Seq<Side<'a>>,
    theirs: Seq<Side<'a>>,
    rtc: Option<SystemTime>,
    boots: spec_fn(Seq<Step<'a>>) -> World,
    first: Play,
    second: Play,
)
    requires
        mine.len() == theirs.len(),
        forall|i: int|
            0 <= i < mine.len() ==> crate::link_laws::same_side(#[trigger] mine[i], theirs[i]),
        boots_by_bytes(boots),
        first.valid(),
        second.valid(),
        first.same_moves(second),
        first.world == boots(crate::plan::power_on_plan(peripheral, mine, rtc)),
        second.world == boots(crate::plan::power_on_plan(peripheral, theirs, rtc)),
    ensures
        first.world == second.world,
        first.ticks == second.ticks,
        go_on_alike(first, second),
{
    law_identical_power_on(peripheral, mine, theirs, rtc);
    law_equal_links_go_on_alike(first, second);
}

} // verus!

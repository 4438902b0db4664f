//! What the scripts of a link hold, and in which order.
//!
//! A script is told by two things: which steps are in it, and which of any
//! two of them comes sooner. The laws here say both, in terms of what a link
//! is built from or restored from. Where the order is strict no step can be
//! in a script twice.

use std::time::SystemTime;
use vstd::prelude::*;

use crate::bytes::{lemma_chain_all, lemma_chain_contains, lemma_sum_contains};
use crate::driver::Driver;
use crate::error::CallError;
use crate::link::LinkView;
use crate::options::{BootSide, LinkOptions};
use crate::peripheral::Peripheral;
use crate::plan::Side;
use crate::script::Step;
use crate::snapshot::SnapshotView;

verus! {

/// Where a step has its place in a script: the part of the script, the core
/// or driver within it, and the turn within what is done to that one.
pub struct Place {
    pub part: int,
    pub index: int,
    pub turn: int,
}

impl Place {
    /// Whether this place is before another.
    pub open spec fn before(self, other: Place) -> bool {
        ||| self.part < other.part
        ||| self.part == other.part && self.index < other.index
        ||| self.part == other.part && self.index == other.index && self.turn < other.turn
    }
}

/// Whether every step comes strictly before all that have a later place.
pub open spec fn in_order<'a>(
    steps: Seq<Step<'a>>,
    place: spec_fn(Step<'a>) -> Place,
) -> bool {
    forall|p: int, q: int|
        0 <= p < q < steps.len() ==> place(#[trigger] steps[p]).before(place(#[trigger] steps[q]))
}

/// Whether the steps of a sequence are those that are wanted, each of them and
/// no other.
pub open spec fn holds_exactly<'a>(
    steps: Seq<Step<'a>>,
    wanted: spec_fn(Step<'a>) -> bool,
) -> bool {
    forall|step: Step<'a>| #[trigger] steps.contains(step) <==> wanted(step)
}

/// Whether the core of index `i` has a driver on its port, on a link of
/// `players`: every core has one, but a solo cable has none.
pub open spec fn has_driver(peripheral: Peripheral, players: nat, i: int) -> bool {
    0 <= i < players && (peripheral is Wireless || players > 1)
}

/// The place of a step of a power-on: the coordinator is made first, then the
/// drivers, then the cores; then each core in turn gets its video buffer, its
/// ROM, its save, its clock and its driver, and is reset at the end.
pub open spec fn power_on_place(step: Step<'_>) -> Place {
    match step {
        Step::NewCoordinator { .. } => Place { part: 0, index: 0, turn: 0 },
        Step::NewDriver { index, .. } => Place { part: 1, index: index as int, turn: 0 },
        Step::NewCore { core } => Place { part: 2, index: core as int, turn: 0 },
        Step::EnableVideoBuffer { core } => Place { part: 3, index: core as int, turn: 0 },
        Step::LoadRom { core, .. } => Place { part: 3, index: core as int, turn: 1 },
        Step::LoadSave { core, .. } => Place { part: 3, index: core as int, turn: 2 },
        Step::SetRtcFixed { core, .. } => Place { part: 3, index: core as int, turn: 3 },
        Step::InstallDriver { index } => Place { part: 3, index: index as int, turn: 4 },
        Step::Reset { core } => Place { part: 3, index: core as int, turn: 5 },
        _ => Place { part: 4, index: 0, turn: 0 },
    }
}

/// Whether a step belongs to the power-on of these sides.
pub open spec fn of_power_on(
    peripheral: Peripheral,
    sides: Seq<Side<'_>>,
    rtc: Option<SystemTime>,
    step: Step<'_>,
) -> bool {
    let players = sides.len();
    match step {
        Step::NewCoordinator { peripheral: kind } => kind == peripheral,
        Step::NewDriver { index, driver } => {
            &&& has_driver(peripheral, players, index as int)
            &&& match (peripheral, driver) {
                (Peripheral::Cable, Driver::Cable { player }) => player == index,
                (Peripheral::Wireless, Driver::Wireless { seat }) => seat == index,
                _ => false,
            }
        },
        Step::NewCore { core } => core < players,
        Step::EnableVideoBuffer { core } => core < players,
        Step::LoadRom { core, rom } => core < players && rom == sides[core as int].rom,
        Step::LoadSave { core, save } => core < players && sides[core as int].save == Some(save),
        Step::SetRtcFixed { core, rtc: clock } => core < players && rtc == Some(clock),
        Step::InstallDriver { index } => has_driver(peripheral, players, index as int),
        Step::Reset { core } => core < players,
        _ => false,
    }
}

/// The place of a step of a rebuild: the cores are made first; then each core
/// in turn gets its video buffer, its ROM, its save and its clock, is reset,
/// has its captured state loaded, and is taken off its old cable; then the
/// coordinator is made, and the drivers, which are plugged in in the order of
/// the players; and at the end the adapter sessions go back.
pub open spec fn rebuild_place(step: Step<'_>) -> Place {
    match step {
        Step::NewCore { core } => Place { part: 0, index: core as int, turn: 0 },
        Step::EnableVideoBuffer { core } => Place { part: 1, index: core as int, turn: 0 },
        Step::LoadRom { core, .. } => Place { part: 1, index: core as int, turn: 1 },
        Step::LoadSave { core, .. } => Place { part: 1, index: core as int, turn: 2 },
        Step::SetRtcFixed { core, .. } => Place { part: 1, index: core as int, turn: 3 },
        Step::Reset { core } => Place { part: 1, index: core as int, turn: 4 },
        Step::LoadState { core, .. } => Place { part: 1, index: core as int, turn: 5 },
        Step::NeutralizeSio { core } => Place { part: 1, index: core as int, turn: 6 },
        Step::NewCoordinator { .. } => Place { part: 2, index: 0, turn: 0 },
        Step::NewDriver { index, .. } => Place { part: 3, index: index as int, turn: 0 },
        Step::InstallDriver { index } => Place { part: 4, index: index as int, turn: 0 },
        Step::LoadAdapterState { index, .. } => Place { part: 5, index: index as int, turn: 0 },
        _ => Place { part: 6, index: 0, turn: 0 },
    }
}

/// Whether a step belongs to a rebuild from these captures that nothing
/// stops.
pub open spec fn of_rebuild(
    peripheral: Peripheral,
    sides: Seq<BootSide>,
    rtc: Option<SystemTime>,
    recorded: Seq<Option<i32>>,
    step: Step<'_>,
) -> bool {
    let players = sides.len();
    match step {
        Step::NewCore { core } => core < players,
        Step::EnableVideoBuffer { core } => core < players,
        Step::LoadRom { core, rom } => core < players && *rom == sides[core as int].rom,
        Step::LoadSave { core, save } => core < players && sides[core as int].save == Some(*save),
        Step::SetRtcFixed { core, rtc: clock } => core < players && rtc == Some(clock),
        Step::Reset { core } => core < players,
        Step::LoadState { core, image } => core < players && *image == sides[core as int].state,
        Step::NeutralizeSio { core } => core < players && peripheral is Cable,
        Step::NewCoordinator { peripheral: kind } => kind == peripheral,
        Step::NewDriver { index, driver } => {
            &&& has_driver(peripheral, players, index as int)
            &&& match (peripheral, driver) {
                (Peripheral::Cable, Driver::Cable { player }) => player == index,
                (Peripheral::Wireless, Driver::Wireless { seat }) => match (
                    sides[index as int].adapter,
                    recorded[index as int],
                ) {
                    (Some(_), Some(own)) => seat == own,
                    _ => seat == -1,
                },
                _ => false,
            }
        },
        Step::InstallDriver { index } => has_driver(peripheral, players, index as int),
        Step::LoadAdapterState { index, blob } => {
            &&& peripheral is Wireless
            &&& index < players
            &&& sides[index as int].adapter == Some(*blob)
        },
        _ => false,
    }
}

/// The place of a step of a restore: the cores in turn, each with its
/// savestate first, then its FIFO channels, then its DMA channels; and then
/// the drivers.
pub open spec fn restore_place(step: Step<'_>) -> Place {
    match step {
        Step::RestoreState { core, .. } => Place { part: 0, index: core as int, turn: 0 },
        Step::RestoreAudioFifos { core, .. } => Place { part: 0, index: core as int, turn: 1 },
        Step::RestoreDmas { core, .. } => Place { part: 0, index: core as int, turn: 2 },
        Step::LoadDriverState { index, .. } => Place { part: 1, index: index as int, turn: 0 },
        _ => Place { part: 2, index: 0, turn: 0 },
    }
}

/// Whether a step belongs to the restore of a snapshot into a link with this
/// many drivers.
pub open spec fn of_restore(drivers: nat, snapshot: SnapshotView, step: Step<'_>) -> bool {
    match step {
        Step::RestoreState { core, state } => {
            core < snapshot.cores.len() && *state == snapshot.cores[core as int]
        },
        Step::RestoreAudioFifos { core, fifos } => {
            core < snapshot.cores.len() && *fifos == snapshot.audio_fifos[core as int]
        },
        Step::RestoreDmas { core, dmas } => {
            core < snapshot.cores.len() && *dmas == snapshot.dmas[core as int]
        },
        Step::LoadDriverState { index, blob } => {
            &&& index < drivers
            &&& index < snapshot.drivers.len()
            &&& *blob == snapshot.drivers[index as int]
        },
        _ => false,
    }
}

/// Two sequences in order are in order one after the other, where all of the
/// first comes before all of the second.
proof fn lemma_sum_in_order<'a>(
    a: Seq<Step<'a>>,
    b: Seq<Step<'a>>,
    place: spec_fn(Step<'a>) -> Place,
)
    requires
        in_order(a, place),
        in_order(b, place),
        forall|p: int, q: int|
            0 <= p < a.len() && 0 <= q < b.len() ==> place(#[trigger] a[p]).before(
                place(#[trigger] b[q]),
            ),
    ensures
        in_order(a + b, place),
{
    assert forall|p: int, q: int| 0 <= p < q < (a + b).len() implies place(
        #[trigger] (a + b)[p],
    ).before(place(#[trigger] (a + b)[q])) by {
        if q < a.len() {
            assert(place(a[p]).before(place(a[q])));
        } else if p < a.len() {
            assert(place(a[p]).before(place(b[q - a.len()])));
        } else {
            assert(place(b[p - a.len()]).before(place(b[q - a.len()])));
        }
    }
}

/// Pieces in order are in order one after the other, where each has its own
/// index in one part.
proof fn lemma_chain_in_order<'a>(
    count: nat,
    piece: spec_fn(int) -> Seq<Step<'a>>,
    place: spec_fn(Step<'a>) -> Place,
    part: int,
)
    requires
        forall|i: int| 0 <= i < count ==> in_order(#[trigger] piece(i), place),
        forall|i: int, j: int|
            0 <= i < count && 0 <= j < piece(i).len() ==> {
                &&& place(#[trigger] piece(i)[j]).part == part
                &&& place(piece(i)[j]).index == i
            },
    ensures
        in_order(crate::bytes::chain(count, piece), place),
        forall|k: int|
            0 <= k < crate::bytes::chain(count, piece).len() ==> {
                &&& place(#[trigger] crate::bytes::chain(count, piece)[k]).part == part
                &&& 0 <= place(crate::bytes::chain(count, piece)[k]).index < count
            },
    decreases count,
{
    if count > 0 {
        let last = count - 1;
        let head = crate::bytes::chain(last as nat, piece);
        lemma_chain_in_order(last as nat, piece, place, part);
        lemma_sum_in_order(head, piece(last), place);
        assert forall|k: int| 0 <= k < crate::bytes::chain(count, piece).len() implies {
            &&& place(#[trigger] crate::bytes::chain(count, piece)[k]).part == part
            &&& 0 <= place(crate::bytes::chain(count, piece)[k]).index < count
        } by {
            if k < head.len() {
                assert(crate::bytes::chain(count, piece)[k] == head[k]);
            } else {
                assert(crate::bytes::chain(count, piece)[k] == piece(last)[k - head.len()]);
            }
        }
    }
}

/// What a core gets with its cartridge.
spec fn of_cartridge(
    core: int,
    side: Side<'_>,
    rtc: Option<SystemTime>,
    step: Step<'_>,
) -> bool {
    match step {
        Step::EnableVideoBuffer { core: i } => i == core,
        Step::LoadRom { core: i, rom } => i == core && rom == side.rom,
        Step::LoadSave { core: i, save } => i == core && side.save == Some(save),
        Step::SetRtcFixed { core: i, rtc: clock } => i == core && rtc == Some(clock),
        _ => false,
    }
}

proof fn lemma_cartridge<'a>(core: int, side: Side<'a>, rtc: Option<SystemTime>)
    requires
        0 <= core <= usize::MAX,
    ensures
        ({
            let steps: Seq<Step<'a>> = crate::plan::cartridge(core, side, rtc);
            &&& holds_exactly(steps, |step: Step<'a>| of_cartridge(core, side, rtc, step))
            &&& in_order(steps, |step: Step<'a>| power_on_place(step))
            &&& forall|k: int|
                0 <= k < steps.len() ==> {
                    &&& power_on_place(#[trigger] steps[k]).part == 3
                    &&& power_on_place(steps[k]).index == core
                    &&& power_on_place(steps[k]).turn <= 3
                    &&& of_cartridge(core, side, rtc, steps[k])
                }
            &&& in_order(steps, |step: Step<'a>| rebuild_place(step))
            &&& forall|k: int|
                0 <= k < steps.len() ==> {
                    &&& rebuild_place(#[trigger] steps[k]).part == 1
                    &&& rebuild_place(steps[k]).index == core
                    &&& rebuild_place(steps[k]).turn <= 3
                }
        }),
{
    let steps: Seq<Step<'a>> = crate::plan::cartridge(core, side, rtc);
    let i = core as usize;
    assert forall|step: Step<'a>| #[trigger] steps.contains(step) <==> of_cartridge(
        core,
        side,
        rtc,
        step,
    ) by {
        if of_cartridge(core, side, rtc, step) {
            match step {
                Step::EnableVideoBuffer { .. } => {
                    assert(steps[0] == step);
                },
                Step::LoadRom { .. } => {
                    assert(steps[1] == step);
                },
                Step::LoadSave { .. } => {
                    assert(steps[2] == step);
                },
                _ => {
                    let k = if side.save is Some {
                        3int
                    } else {
                        2int
                    };
                    assert(steps[k] == step);
                },
            }
        }
    }
}

spec fn of_one_power_on(
    core: int,
    side: Side<'_>,
    rtc: Option<SystemTime>,
    driver: bool,
    step: Step<'_>,
) -> bool {
    ||| of_cartridge(core, side, rtc, step)
    ||| driver && step == (Step::InstallDriver { index: core as usize })
    ||| step == (Step::Reset { core: core as usize })
}

proof fn lemma_power_on<'a>(core: int, side: Side<'a>, rtc: Option<SystemTime>, driver: bool)
    requires
        0 <= core <= usize::MAX,
    ensures
        ({
            let steps: Seq<Step<'a>> = crate::plan::power_on(core, side, rtc, driver);
            &&& holds_exactly(
                steps,
                |step: Step<'a>| of_one_power_on(core, side, rtc, driver, step),
            )
            &&& in_order(steps, |step: Step<'a>| power_on_place(step))
            &&& forall|k: int|
                0 <= k < steps.len() ==> {
                    &&& power_on_place(#[trigger] steps[k]).part == 3
                    &&& power_on_place(steps[k]).index == core
                }
        }),
{
    let place = |step: Step<'a>| power_on_place(step);
    let a: Seq<Step<'a>> = crate::plan::cartridge(core, side, rtc);
    let b: Seq<Step<'a>> = if driver {
        seq![Step::InstallDriver { index: core as usize }]
    } else {
        Seq::empty()
    };
    let c: Seq<Step<'a>> = seq![Step::Reset { core: core as usize }];
    lemma_cartridge(core, side, rtc);
    lemma_sum_in_order(a, b, place);
    assert forall|p: int, q: int| 0 <= p < (a + b).len() && 0 <= q < c.len() implies place(
        #[trigger] (a + b)[p],
    ).before(place(#[trigger] c[q])) by {
        if p < a.len() {
            assert((a + b)[p] == a[p]);
        }
    }
    lemma_sum_in_order(a + b, c, place);
    let steps = a + b + c;
    assert forall|k: int| 0 <= k < steps.len() implies {
        &&& power_on_place(#[trigger] steps[k]).part == 3
        &&& power_on_place(steps[k]).index == core
    } by {
        if k < a.len() {
            assert(steps[k] == a[k]);
        }
    }
    assert forall|step: Step<'a>| #[trigger] steps.contains(step) <==> of_one_power_on(
        core,
        side,
        rtc,
        driver,
        step,
    ) by {
        lemma_sum_contains(a + b, c, step);
        lemma_sum_contains(a, b, step);
        lemma_one(Step::Reset { core: core as usize }, step);
        lemma_one(Step::InstallDriver { index: core as usize }, step);
        assert(a.contains(step) <==> of_cartridge(core, side, rtc, step));
    }
}

/// A single step holds itself.
proof fn lemma_one<'a>(only: Step<'a>, step: Step<'a>)
    ensures
        seq![only].contains(step) <==> only == step,
{
    assert(seq![only][0] == only);
}

/// The hardware of a link, its coordinator and its drivers.
proof fn lemma_hardware<'a>(peripheral: Peripheral, drivers: Seq<Driver>, step: Step<'a>)
    requires
        drivers.len() <= usize::MAX,
    ensures
        crate::plan::hardware::<'a>(peripheral, drivers).contains(step) <==> match step {
            Step::NewCoordinator { peripheral: kind } => kind == peripheral,
            Step::NewDriver { index, driver } => index < drivers.len() && driver
                == drivers[index as int],
            _ => false,
        },
{
    let steps: Seq<Step<'a>> = crate::plan::hardware(peripheral, drivers);
    match step {
        Step::NewCoordinator { .. } => {
            assert(steps[0] == (Step::NewCoordinator { peripheral }));
        },
        Step::NewDriver { index, driver } => {
            if index < drivers.len() && driver == drivers[index as int] {
                assert(steps[index + 1] == step);
            }
        },
        _ => {},
    }
}

/// The cores of a link.
proof fn lemma_new_cores<'a>(players: nat, step: Step<'a>)
    requires
        players <= usize::MAX,
    ensures
        crate::plan::new_cores::<'a>(players).contains(step) <==> match step {
            Step::NewCore { core } => core < players,
            _ => false,
        },
{
    let steps: Seq<Step<'a>> = crate::plan::new_cores(players);
    if let Step::NewCore { core } = step {
        if core < players {
            assert(steps[core as int] == step);
        }
    }
}

/// What a power-on does: these steps, in this order, and nothing else. The
/// coordinator, every driver and every core are made, each core gets exactly
/// what its side has, and every core that has a driver has it plugged in
/// before it is reset, on either hardware.
pub proof fn law_power_on<'a>(
    peripheral: Peripheral,
    sides: Seq<Side<'a>>,
    rtc: Option<SystemTime>,
)
    requires
        sides.len() <= i32::MAX,
    ensures
        in_order(
            crate::plan::power_on_plan(peripheral, sides, rtc),
            |step: Step<'a>| power_on_place(step),
        ),
        holds_exactly(
            crate::plan::power_on_plan(peripheral, sides, rtc),
            |step: Step<'a>| of_power_on(peripheral, sides, rtc, step),
        ),
{
    let place = |step: Step<'a>| power_on_place(step);
    let players = sides.len();
    let drivers = crate::driver::drivers_of(peripheral, crate::driver::positions(players));
    let a: Seq<Step<'a>> = crate::plan::hardware(peripheral, drivers);
    let b: Seq<Step<'a>> = crate::plan::new_cores(players);
    let piece = |i: int| crate::plan::power_on(i, sides[i], rtc, i < drivers.len());
    let c: Seq<Step<'a>> = crate::bytes::chain(players, piece);
    let plan: Seq<Step<'a>> = crate::plan::power_on_plan(peripheral, sides, rtc);
    assert(plan == a + b + c);
    assert forall|i: int| 0 <= i < players implies {
        &&& in_order(#[trigger] piece(i), place)
        &&& forall|j: int|
            0 <= j < piece(i).len() ==> place(#[trigger] piece(i)[j]).part == 3 && place(
                piece(i)[j],
            ).index == i
    } by {
        lemma_power_on(i, sides[i], rtc, i < drivers.len());
    }
    lemma_chain_in_order(players, piece, place, 3);
    assert(in_order(a, place));
    assert(in_order(b, place));
    lemma_sum_in_order(a, b, place);
    assert forall|p: int, q: int| 0 <= p < (a + b).len() && 0 <= q < c.len() implies place(
        #[trigger] (a + b)[p],
    ).before(place(#[trigger] c[q])) by {
        if p < a.len() {
            assert((a + b)[p] == a[p]);
        } else {
            assert((a + b)[p] == b[p - a.len()]);
        }
    }
    lemma_sum_in_order(a + b, c, place);
    assert forall|step: Step<'a>| #[trigger] plan.contains(step) <==> of_power_on(
        peripheral,
        sides,
        rtc,
        step,
    ) by {
        lemma_sum_contains(a + b, c, step);
        lemma_sum_contains(a, b, step);
        lemma_hardware(peripheral, drivers, step);
        lemma_new_cores(players, step);
        lemma_chain_contains(players, piece, step);
        assert forall|i: int| 0 <= i < players implies (#[trigger] piece(i)).contains(step)
            == of_one_power_on(i, sides[i], rtc, i < drivers.len(), step) by {
            lemma_power_on(i, sides[i], rtc, i < drivers.len());
        }
        let i = power_on_place(step).index;
        if 0 <= i < players {
            assert(piece(i).contains(step) == of_one_power_on(
                i,
                sides[i],
                rtc,
                i < drivers.len(),
                step,
            ));
        }
    }
}

/// What is done to a captured core before its state is loaded.
spec fn prepare<'a>(core: int, side: &'a BootSide, rtc: Option<SystemTime>) -> Seq<Step<'a>> {
    crate::plan::cartridge(core, crate::plan::captured_side(side), rtc) + seq![
        Step::Reset { core: core as usize },
    ]
}

spec fn of_prepare(
    core: int,
    side: &BootSide,
    rtc: Option<SystemTime>,
    step: Step<'_>,
) -> bool {
    match step {
        Step::EnableVideoBuffer { core: i } => i == core,
        Step::LoadRom { core: i, rom } => i == core && *rom == side.rom,
        Step::LoadSave { core: i, save } => i == core && side.save == Some(*save),
        Step::SetRtcFixed { core: i, rtc: clock } => i == core && rtc == Some(clock),
        Step::Reset { core: i } => i == core,
        _ => false,
    }
}

proof fn lemma_prepare<'a>(core: int, side: &'a BootSide, rtc: Option<SystemTime>)
    requires
        0 <= core <= usize::MAX,
    ensures
        ({
            let steps: Seq<Step<'a>> = prepare(core, side, rtc);
            &&& holds_exactly(steps, |step: Step<'a>| of_prepare(core, side, rtc, step))
            &&& in_order(steps, |step: Step<'a>| rebuild_place(step))
            &&& forall|k: int|
                0 <= k < steps.len() ==> {
                    &&& rebuild_place(#[trigger] steps[k]).part == 1
                    &&& rebuild_place(steps[k]).index == core
                    &&& rebuild_place(steps[k]).turn <= 4
                    &&& !(steps[k] is Fail)
                }
        }),
{
    let place = |step: Step<'a>| rebuild_place(step);
    let captured: Side<'a> = crate::plan::captured_side(side);
    let a: Seq<Step<'a>> = crate::plan::cartridge(core, captured, rtc);
    let b: Seq<Step<'a>> = seq![Step::Reset { core: core as usize }];
    lemma_cartridge(core, captured, rtc);
    lemma_sum_in_order(a, b, place);
    let steps = a + b;
    assert forall|k: int| 0 <= k < steps.len() implies {
        &&& rebuild_place(#[trigger] steps[k]).part == 1
        &&& rebuild_place(steps[k]).index == core
        &&& rebuild_place(steps[k]).turn <= 4
        &&& !(steps[k] is Fail)
    } by {
        if k < a.len() {
            assert(steps[k] == a[k]);
            assert(of_cartridge(core, captured, rtc, a[k]));
        }
    }
    assert forall|step: Step<'a>| #[trigger] steps.contains(step) <==> of_prepare(
        core,
        side,
        rtc,
        step,
    ) by {
        lemma_sum_contains(a, b, step);
        lemma_one(Step::Reset { core: core as usize }, step);
        assert(a.contains(step) <==> of_cartridge(core, captured, rtc, step));
    }
}

spec fn of_resume(
    core: int,
    peripheral: Peripheral,
    side: &BootSide,
    rtc: Option<SystemTime>,
    step: Step<'_>,
) -> bool {
    match step {
        Step::LoadState { core: i, image } => i == core && *image == side.state,
        Step::NeutralizeSio { core: i } => i == core && peripheral is Cable,
        _ => of_prepare(core, side, rtc, step),
    }
}

proof fn lemma_resume<'a>(
    core: int,
    peripheral: Peripheral,
    side: &'a BootSide,
    rtc: Option<SystemTime>,
    state_size: nat,
)
    requires
        0 <= core <= usize::MAX,
        side.state.len() == state_size,
    ensures
        ({
            let steps: Seq<Step<'a>> = crate::plan::resume(
                core,
                peripheral,
                side,
                rtc,
                state_size,
            );
            &&& holds_exactly(
                steps,
                |step: Step<'a>| of_resume(core, peripheral, side, rtc, step),
            )
            &&& in_order(steps, |step: Step<'a>| rebuild_place(step))
            &&& forall|k: int|
                0 <= k < steps.len() ==> {
                    &&& rebuild_place(#[trigger] steps[k]).part == 1
                    &&& rebuild_place(steps[k]).index == core
                    &&& !(steps[k] is Fail)
                }
        }),
{
    let place = |step: Step<'a>| rebuild_place(step);
    let load: Step<'a> = Step::LoadState { core: core as usize, image: &side.state };
    let neutralize: Step<'a> = Step::NeutralizeSio { core: core as usize };
    let a: Seq<Step<'a>> = prepare(core, side, rtc);
    let b: Seq<Step<'a>> = crate::plan::boot_state(core, peripheral, &side.state, state_size);
    let steps: Seq<Step<'a>> = crate::plan::resume(core, peripheral, side, rtc, state_size);
    assert(steps == a + b);
    lemma_prepare(core, side, rtc);
    assert(b[0] == load);
    if peripheral is Cable {
        assert(b =~= seq![load, neutralize]);
    } else {
        assert(b =~= seq![load]);
    }
    assert(in_order(b, place));
    lemma_sum_in_order(a, b, place);
    assert forall|k: int| 0 <= k < steps.len() implies {
        &&& rebuild_place(#[trigger] steps[k]).part == 1
        &&& rebuild_place(steps[k]).index == core
        &&& !(steps[k] is Fail)
    } by {
        if k < a.len() {
            assert(steps[k] == a[k]);
        } else {
            assert(steps[k] == b[k - a.len()]);
        }
    }
    assert forall|step: Step<'a>| #[trigger] steps.contains(step) <==> of_resume(
        core,
        peripheral,
        side,
        rtc,
        step,
    ) by {
        lemma_sum_contains(a, b, step);
        assert(a.contains(step) <==> of_prepare(core, side, rtc, step));
        assert(b.contains(step) <==> step == load || peripheral is Cable && step == neutralize)
            by {
            if peripheral is Cable {
                assert(b[1] == neutralize);
            }
        }
    }
}

/// The captured cores before core `count`, resumed one after the other.
proof fn lemma_resumes<'a>(
    count: nat,
    peripheral: Peripheral,
    sides: Seq<BootSide>,
    rtc: Option<SystemTime>,
    state_size: nat,
)
    requires
        count <= sides.len() <= usize::MAX,
        forall|i: int| 0 <= i < count ==> (#[trigger] sides[i]).state.len() == state_size,
    ensures
        ({
            let steps: Seq<Step<'a>> = crate::bytes::chain(
                count,
                |i: int| crate::plan::resume(i, peripheral, &sides[i], rtc, state_size),
            );
            &&& in_order(steps, |step: Step<'a>| rebuild_place(step))
            &&& forall|k: int|
                0 <= k < steps.len() ==> {
                    &&& rebuild_place(#[trigger] steps[k]).part == 1
                    &&& 0 <= rebuild_place(steps[k]).index < count
                    &&& !(steps[k] is Fail)
                }
            &&& forall|step: Step<'a>| #[trigger]
                steps.contains(step) <==> {
                    let i = rebuild_place(step).index;
                    0 <= i < count && of_resume(i, peripheral, &sides[i], rtc, step)
                }
        }),
{
    let place = |step: Step<'a>| rebuild_place(step);
    let piece = |i: int| crate::plan::resume(i, peripheral, &sides[i], rtc, state_size);
    let steps: Seq<Step<'a>> = crate::bytes::chain(count, piece);
    assert forall|i: int| 0 <= i < count implies {
        &&& in_order(#[trigger] piece(i), place)
        &&& holds_exactly(
            piece(i),
            |step: Step<'a>| of_resume(i, peripheral, &sides[i], rtc, step),
        )
        &&& forall|j: int|
            0 <= j < piece(i).len() ==> {
                &&& place(#[trigger] piece(i)[j]).part == 1
                &&& place(piece(i)[j]).index == i
                &&& !(piece(i)[j] is Fail)
            }
    } by {
        assert(sides[i].state.len() == state_size);
        lemma_resume(i, peripheral, &sides[i], rtc, state_size);
    }
    lemma_chain_in_order(count, piece, place, 1);
    lemma_chain_all(count, piece, |step: Step<'a>| !(step is Fail));
    assert forall|step: Step<'a>| #[trigger] steps.contains(step) <==> {
        let i = rebuild_place(step).index;
        0 <= i < count && of_resume(i, peripheral, &sides[i], rtc, step)
    } by {
        lemma_chain_contains(count, piece, step);
        let i = rebuild_place(step).index;
        if 0 <= i < count {
            assert(piece(i).contains(step) <==> of_resume(i, peripheral, &sides[i], rtc, step));
        }
        if steps.contains(step) {
            let j = choose|j: int| 0 <= j < count && (#[trigger] piece(j)).contains(step);
            assert(of_resume(j, peripheral, &sides[j], rtc, step));
            assert(i == j);
        }
    }
}

/// The drivers being plugged in.
proof fn lemma_attach<'a>(drivers: nat, step: Step<'a>)
    requires
        drivers <= usize::MAX,
    ensures
        crate::plan::attach::<'a>(drivers).contains(step) <==> match step {
            Step::InstallDriver { index } => index < drivers,
            _ => false,
        },
{
    let steps: Seq<Step<'a>> = crate::plan::attach(drivers);
    if let Step::InstallDriver { index } = step {
        if index < drivers {
            assert(steps[index as int] == step);
        }
    }
}

/// The part of a rebuild before the adapter sessions.
spec fn machines<'a>(
    peripheral: Peripheral,
    sides: Seq<BootSide>,
    rtc: Option<SystemTime>,
    recorded: Seq<Option<i32>>,
    state_size: nat,
) -> Seq<Step<'a>> {
    let drivers = crate::driver::drivers_of(
        peripheral,
        crate::plan::recorded_seats(sides, recorded),
    );
    crate::plan::new_cores(sides.len()) + crate::bytes::chain(
        sides.len(),
        |i: int| crate::plan::resume(i, peripheral, &sides[i], rtc, state_size),
    ) + crate::plan::hardware(peripheral, drivers) + crate::plan::attach(drivers.len())
}

proof fn lemma_machines<'a>(
    peripheral: Peripheral,
    sides: Seq<BootSide>,
    rtc: Option<SystemTime>,
    recorded: Seq<Option<i32>>,
    state_size: nat,
)
    requires
        sides.len() <= i32::MAX,
        recorded.len() == sides.len(),
        forall|i: int| 0 <= i < sides.len() ==> (#[trigger] sides[i]).state.len() == state_size,
    ensures
        ({
            let steps: Seq<Step<'a>> = machines(peripheral, sides, rtc, recorded, state_size);
            &&& in_order(steps, |step: Step<'a>| rebuild_place(step))
            &&& forall|k: int|
                0 <= k < steps.len() ==> {
                    &&& rebuild_place(#[trigger] steps[k]).part <= 4
                    &&& !(steps[k] is Fail)
                }
            &&& forall|step: Step<'a>| #[trigger]
                steps.contains(step) <==> !(step is LoadAdapterState) && of_rebuild(
                    peripheral,
                    sides,
                    rtc,
                    recorded,
                    step,
                )
        }),
{
    let place = |step: Step<'a>| rebuild_place(step);
    let players = sides.len();
    let drivers = crate::driver::drivers_of(
        peripheral,
        crate::plan::recorded_seats(sides, recorded),
    );
    let a: Seq<Step<'a>> = crate::plan::new_cores(players);
    let b: Seq<Step<'a>> = crate::bytes::chain(
        players,
        |i: int| crate::plan::resume(i, peripheral, &sides[i], rtc, state_size),
    );
    let c: Seq<Step<'a>> = crate::plan::hardware(peripheral, drivers);
    let d: Seq<Step<'a>> = crate::plan::attach(drivers.len());
    let steps: Seq<Step<'a>> = machines(peripheral, sides, rtc, recorded, state_size);
    assert(steps == a + b + c + d);
    lemma_resumes(players, peripheral, sides, rtc, state_size);
    assert(in_order(a, place));
    assert(in_order(c, place));
    assert(in_order(d, place));
    lemma_sum_in_order(a, b, place);
    assert forall|k: int| 0 <= k < (a + b).len() implies place(#[trigger] (a + b)[k]).part
        <= 1 by {
        if k < a.len() {
            assert((a + b)[k] == a[k]);
        } else {
            assert((a + b)[k] == b[k - a.len()]);
        }
    }
    lemma_sum_in_order(a + b, c, place);
    assert forall|k: int| 0 <= k < (a + b + c).len() implies place(
        #[trigger] (a + b + c)[k],
    ).part <= 3 by {
        if k < (a + b).len() {
            assert((a + b + c)[k] == (a + b)[k]);
        } else {
            assert((a + b + c)[k] == c[k - (a + b).len()]);
        }
    }
    lemma_sum_in_order(a + b + c, d, place);
    assert forall|k: int| 0 <= k < steps.len() implies {
        &&& rebuild_place(#[trigger] steps[k]).part <= 4
        &&& !(steps[k] is Fail)
    } by {
        if k < (a + b + c).len() {
            assert(steps[k] == (a + b + c)[k]);
        } else {
            assert(steps[k] == d[k - (a + b + c).len()]);
        }
    }
    assert forall|step: Step<'a>| #[trigger] steps.contains(step) <==> !(step is LoadAdapterState)
        && of_rebuild(peripheral, sides, rtc, recorded, step) by {
        lemma_sum_contains(a + b + c, d, step);
        lemma_sum_contains(a + b, c, step);
        lemma_sum_contains(a, b, step);
        lemma_new_cores(players, step);
        lemma_hardware(peripheral, drivers, step);
        lemma_attach(drivers.len(), step);
        let i = rebuild_place(step).index;
        assert(b.contains(step) <==> 0 <= i < players && of_resume(
            i,
            peripheral,
            &sides[i],
            rtc,
            step,
        ));
    }
}

/// The adapter sessions that go back on a link whose drivers take them.
proof fn lemma_sessions<'a>(
    peripheral: Peripheral,
    sides: Seq<BootSide>,
    recorded: Seq<Option<i32>>,
)
    requires
        sides.len() <= i32::MAX,
        recorded.len() == sides.len(),
        peripheral is Wireless || sides.len() <= 1 || forall|i: int|
            0 <= i < sides.len() ==> (#[trigger] sides[i]).adapter is None,
    ensures
        ({
            let drivers = crate::driver::drivers_of(
                peripheral,
                crate::plan::recorded_seats(sides, recorded),
            );
            let steps: Seq<Step<'a>> = crate::bytes::chain(
                drivers.len(),
                |i: int| crate::plan::adapter_session(i, drivers[i], &sides[i]),
            );
            &&& in_order(steps, |step: Step<'a>| rebuild_place(step))
            &&& forall|k: int| 0 <= k < steps.len() ==> rebuild_place(#[trigger] steps[k]).part == 5
            &&& forall|step: Step<'a>| #[trigger]
                steps.contains(step) <==> match step {
                    Step::LoadAdapterState { index, blob } => {
                        &&& peripheral is Wireless
                        &&& index < sides.len()
                        &&& sides[index as int].adapter == Some(*blob)
                    },
                    _ => false,
                }
        }),
{
    let place = |step: Step<'a>| rebuild_place(step);
    let drivers = crate::driver::drivers_of(
        peripheral,
        crate::plan::recorded_seats(sides, recorded),
    );
    let piece = |i: int| crate::plan::adapter_session(i, drivers[i], &sides[i]);
    let steps: Seq<Step<'a>> = crate::bytes::chain(drivers.len(), piece);
    assert forall|i: int| 0 <= i < drivers.len() implies {
        &&& in_order(#[trigger] piece(i), place)
        &&& forall|j: int|
            0 <= j < piece(i).len() ==> {
                &&& place(#[trigger] piece(i)[j]).part == 5
                &&& place(piece(i)[j]).index == i
            }
    } by {
        assert(peripheral is Cable ==> sides[i].adapter is None);
    }
    lemma_chain_in_order(drivers.len(), piece, place, 5);
    assert forall|step: Step<'a>| #[trigger] steps.contains(step) <==> match step {
        Step::LoadAdapterState { index, blob } => {
            &&& peripheral is Wireless
            &&& index < sides.len()
            &&& sides[index as int].adapter == Some(*blob)
        },
        _ => false,
    } by {
        lemma_chain_contains(drivers.len(), piece, step);
        if steps.contains(step) {
            let i = choose|i: int| 0 <= i < drivers.len() && (#[trigger] piece(i)).contains(step);
            assert(peripheral is Cable ==> sides[i].adapter is None);
            let turn: Seq<Step<'a>> = piece(i);
            let k = choose|k: int| 0 <= k < turn.len() && turn[k] == step;
            assert(k == 0);
        } else if let Step::LoadAdapterState { index, blob } = step {
            if peripheral is Wireless && index < sides.len() && sides[index as int].adapter
                == Some(*blob) {
                assert(piece(index as int)[0] == step);
                assert(piece(index as int).contains(step));
            }
        }
    }
}

/// What a rebuild does whose captures are all as long as a savestate, with no
/// adapter session for a cable link that has drivers: these steps, in this
/// order, and nothing else. On either hardware every core is reset once, has
/// the very state of its own capture loaded once, after the reset, and is not
/// reset again; on a cable, and only there, it is taken off its old cable
/// after that; every driver asks for what it should, is plugged in, and gets
/// its own session back.
pub proof fn law_rebuild<'a>(
    peripheral: Peripheral,
    sides: Seq<BootSide>,
    rtc: Option<SystemTime>,
    recorded: Seq<Option<i32>>,
    state_size: nat,
)
    requires
        sides.len() <= i32::MAX,
        recorded.len() == sides.len(),
        forall|i: int| 0 <= i < sides.len() ==> (#[trigger] sides[i]).state.len() == state_size,
        peripheral is Wireless || sides.len() <= 1 || forall|i: int|
            0 <= i < sides.len() ==> (#[trigger] sides[i]).adapter is None,
    ensures
        in_order(
            crate::plan::rebuild_plan::<'a>(peripheral, sides, rtc, recorded, state_size),
            |step: Step<'a>| rebuild_place(step),
        ),
        holds_exactly(
            crate::plan::rebuild_plan::<'a>(peripheral, sides, rtc, recorded, state_size),
            |step: Step<'a>| of_rebuild(peripheral, sides, rtc, recorded, step),
        ),
{
    let place = |step: Step<'a>| rebuild_place(step);
    let drivers = crate::driver::drivers_of(
        peripheral,
        crate::plan::recorded_seats(sides, recorded),
    );
    let plan: Seq<Step<'a>> = crate::plan::rebuild_plan(
        peripheral,
        sides,
        rtc,
        recorded,
        state_size,
    );
    let a: Seq<Step<'a>> = machines(peripheral, sides, rtc, recorded, state_size);
    let b: Seq<Step<'a>> = crate::bytes::chain(
        drivers.len(),
        |i: int| crate::plan::adapter_session(i, drivers[i], &sides[i]),
    );
    assert(plan == a + b);
    lemma_machines(peripheral, sides, rtc, recorded, state_size);
    lemma_sessions(peripheral, sides, recorded);
    lemma_sum_in_order(a, b, place);
    assert forall|step: Step<'a>| #[trigger] plan.contains(step) <==> of_rebuild(
        peripheral,
        sides,
        rtc,
        recorded,
        step,
    ) by {
        lemma_sum_contains(a, b, step);
        assert(a.contains(step) <==> !(step is LoadAdapterState) && of_rebuild(
            peripheral,
            sides,
            rtc,
            recorded,
            step,
        ));
        assert(b.contains(step) <==> step is LoadAdapterState && of_rebuild(
            peripheral,
            sides,
            rtc,
            recorded,
            step,
        ));
    }
}

/// A rebuild stops at the first capture of the wrong length, right where its
/// state were to be loaded: all that has its place before that was done, as
/// in a rebuild that nothing stops, and nothing else was.
pub proof fn law_rebuild_stops_at_wrong_length<'a>(
    peripheral: Peripheral,
    sides: Seq<BootSide>,
    rtc: Option<SystemTime>,
    recorded: Seq<Option<i32>>,
    state_size: nat,
    bad: int,
) -> (stop: int)
    requires
        sides.len() <= i32::MAX,
        recorded.len() == sides.len(),
        0 <= bad < sides.len(),
        forall|i: int| 0 <= i < bad ==> (#[trigger] sides[i]).state.len() == state_size,
        sides[bad].state.len() != state_size,
    ensures
        ({
            let plan: Seq<Step<'a>> = crate::plan::rebuild_plan(
                peripheral,
                sides,
                rtc,
                recorded,
                state_size,
            );
            &&& 0 <= stop < plan.len()
            &&& plan[stop] == (Step::Fail { error: CallError::BootStateLength })
            &&& in_order(plan.take(stop), |step: Step<'a>| rebuild_place(step))
            &&& holds_exactly(
                plan.take(stop),
                |step: Step<'a>|
                    of_rebuild(peripheral, sides, rtc, recorded, step) && rebuild_place(
                        step,
                    ).before(Place { part: 1, index: bad, turn: 5 }),
            )
        }),
{
    let place = |step: Step<'a>| rebuild_place(step);
    let plan: Seq<Step<'a>> = crate::plan::rebuild_plan(
        peripheral,
        sides,
        rtc,
        recorded,
        state_size,
    );
    let piece = |i: int| crate::plan::resume(i, peripheral, &sides[i], rtc, state_size);
    let a: Seq<Step<'a>> = crate::plan::new_cores(sides.len());
    let b: Seq<Step<'a>> = crate::bytes::chain(bad as nat, piece);
    let c: Seq<Step<'a>> = prepare(bad, &sides[bad], rtc);
    let done = a + b + c;
    let stop = done.len() as int;
    let fail: Step<'a> = Step::Fail { error: CallError::BootStateLength };
    lemma_resumes(bad as nat, peripheral, sides, rtc, state_size);
    lemma_prepare(bad, &sides[bad], rtc);
    assert(piece(bad) == c + seq![fail]);
    lemma_chain_prefix(sides.len(), piece, (bad + 1) as nat);
    let resumed: Seq<Step<'a>> = crate::bytes::chain(sides.len(), piece);
    let upto: Seq<Step<'a>> = crate::bytes::chain((bad + 1) as nat, piece);
    assert(upto == b + piece(bad));
    assert(plan.take(stop) =~= done) by {
        assert forall|k: int| 0 <= k < stop implies plan[k] == #[trigger] done[k] by {
            if k >= a.len() {
                assert(plan[k] == resumed[k - a.len()]);
                assert(resumed[k - a.len()] == upto[k - a.len()]);
            }
        }
    }
    assert(plan[stop] == fail) by {
        assert(plan[stop] == resumed[stop - a.len()]);
        assert(resumed[stop - a.len()] == upto[stop - a.len()]);
        assert(upto[stop - a.len()] == piece(bad)[c.len() as int]);
    }
    assert(in_order(a, place));
    lemma_sum_in_order(a, b, place);
    assert forall|p: int, q: int| 0 <= p < (a + b).len() && 0 <= q < c.len() implies place(
        #[trigger] (a + b)[p],
    ).before(place(#[trigger] c[q])) by {
        if p < a.len() {
            assert((a + b)[p] == a[p]);
        } else {
            assert((a + b)[p] == b[p - a.len()]);
        }
    }
    lemma_sum_in_order(a + b, c, place);
    assert forall|step: Step<'a>| #[trigger] done.contains(step) <==> of_rebuild(
        peripheral,
        sides,
        rtc,
        recorded,
        step,
    ) && rebuild_place(step).before(Place { part: 1, index: bad, turn: 5 }) by {
        lemma_sum_contains(a + b, c, step);
        lemma_sum_contains(a, b, step);
        lemma_new_cores(sides.len(), step);
        let i = rebuild_place(step).index;
        assert(b.contains(step) <==> 0 <= i < bad && of_resume(
            i,
            peripheral,
            &sides[i],
            rtc,
            step,
        ));
        assert(c.contains(step) <==> of_prepare(bad, &sides[bad], rtc, step));
    }
    stop
}

/// A chain begins with the chain of its first pieces.
proof fn lemma_chain_prefix<'a>(count: nat, piece: spec_fn(int) -> Seq<Step<'a>>, first: nat)
    requires
        first <= count,
    ensures
        crate::bytes::chain(first, piece).len() <= crate::bytes::chain(count, piece).len(),
        forall|k: int|
            0 <= k < crate::bytes::chain(first, piece).len() ==> #[trigger] crate::bytes::chain(
                count,
                piece,
            )[k] == crate::bytes::chain(first, piece)[k],
    decreases count,
{
    if first < count {
        lemma_chain_prefix((count - 1) as nat, piece, first);
        let head = crate::bytes::chain((count - 1) as nat, piece);
        assert forall|k: int| 0 <= k < crate::bytes::chain(first, piece).len() implies #[trigger]
            crate::bytes::chain(count, piece)[k] == crate::bytes::chain(first, piece)[k] by {
            assert(crate::bytes::chain(count, piece)[k] == head[k]);
        }
    }
}

/// A rebuild of a cable link that has drivers stops at the first adapter
/// session, after everything else was done: all cores are resumed and all
/// drivers plugged in.
pub proof fn law_rebuild_stops_at_stray_session<'a>(
    sides: Seq<BootSide>,
    rtc: Option<SystemTime>,
    recorded: Seq<Option<i32>>,
    state_size: nat,
    stray: int,
) -> (stop: int)
    requires
        1 < sides.len() <= i32::MAX,
        recorded.len() == sides.len(),
        forall|i: int| 0 <= i < sides.len() ==> (#[trigger] sides[i]).state.len() == state_size,
        0 <= stray < sides.len(),
        sides[stray].adapter is Some,
    ensures
        ({
            let plan: Seq<Step<'a>> = crate::plan::rebuild_plan(
                Peripheral::Cable,
                sides,
                rtc,
                recorded,
                state_size,
            );
            &&& 0 <= stop < plan.len()
            &&& plan[stop] == (Step::Fail { error: CallError::AdapterState })
            &&& in_order(plan.take(stop), |step: Step<'a>| rebuild_place(step))
            &&& holds_exactly(
                plan.take(stop),
                |step: Step<'a>| of_rebuild(Peripheral::Cable, sides, rtc, recorded, step),
            )
        }),
{
    let drivers = crate::driver::drivers_of(
        Peripheral::Cable,
        crate::plan::recorded_seats(sides, recorded),
    );
    let plan: Seq<Step<'a>> = crate::plan::rebuild_plan(
        Peripheral::Cable,
        sides,
        rtc,
        recorded,
        state_size,
    );
    let fail: Step<'a> = Step::Fail { error: CallError::AdapterState };
    let piece = |i: int| crate::plan::adapter_session(i, drivers[i], &sides[i]);
    let a: Seq<Step<'a>> = machines(Peripheral::Cable, sides, rtc, recorded, state_size);
    let b: Seq<Step<'a>> = crate::bytes::chain(drivers.len(), piece);
    assert(plan == a + b);
    lemma_machines(Peripheral::Cable, sides, rtc, recorded, state_size);
    lemma_chain_all(drivers.len(), piece, |step: Step<'a>| step == fail);
    lemma_chain_contains(drivers.len(), piece, fail);
    assert(piece(stray)[0] == fail);
    assert(piece(stray).contains(fail));
    assert(b.len() > 0);
    let stop = a.len() as int;
    assert(plan[stop] == b[0]);
    assert(plan.take(stop) =~= a);
    stop
}

/// What a restore does: these steps, in this order, and nothing else. Every
/// core gets its own savestate, its FIFO channels and its DMA channels, and
/// nothing that would undo them; and every driver that there is a blob for
/// gets its own.
pub proof fn law_restore<'a>(drivers: nat, snapshot: SnapshotView)
    requires
        snapshot.valid(),
        snapshot.cores.len() <= usize::MAX,
    ensures
        in_order(
            crate::plan::restore_plan::<'a>(drivers, snapshot),
            |step: Step<'a>| restore_place(step),
        ),
        holds_exactly(
            crate::plan::restore_plan::<'a>(drivers, snapshot),
            |step: Step<'a>| of_restore(drivers, snapshot, step),
        ),
{
    let place = |step: Step<'a>| restore_place(step);
    let cores = snapshot.cores.len();
    let plan: Seq<Step<'a>> = crate::plan::restore_plan(drivers, snapshot);
    let piece = |i: int| crate::plan::restore_core(snapshot, i);
    let a: Seq<Step<'a>> = crate::bytes::chain(cores, piece);
    let count = if drivers <= snapshot.drivers.len() {
        drivers
    } else {
        snapshot.drivers.len()
    };
    let b: Seq<Step<'a>> = Seq::new(
        count,
        |i: int| Step::LoadDriverState { index: i as usize, blob: &snapshot.drivers[i] },
    );
    assert(plan =~= a + b);
    assert forall|i: int| 0 <= i < cores implies {
        &&& in_order(#[trigger] piece(i), place)
        &&& forall|j: int|
            0 <= j < piece(i).len() ==> {
                &&& place(#[trigger] piece(i)[j]).part == 0
                &&& place(piece(i)[j]).index == i
            }
    } by {}
    lemma_chain_in_order(cores, piece, place, 0);
    assert(in_order(b, place));
    lemma_sum_in_order(a, b, place);
    assert forall|step: Step<'a>| #[trigger] plan.contains(step) <==> of_restore(
        drivers,
        snapshot,
        step,
    ) by {
        lemma_sum_contains(a, b, step);
        lemma_chain_contains(cores, piece, step);
        let i = restore_place(step).index;
        if of_restore(drivers, snapshot, step) {
            if let Step::LoadDriverState { .. } = step {
                assert(b[i] == step);
            } else {
                assert(piece(i)[restore_place(step).turn] == step);
                assert(piece(i).contains(step));
            }
        }
        if a.contains(step) {
            let j = choose|j: int| 0 <= j < cores && (#[trigger] piece(j)).contains(step);
            let turn: Seq<Step<'a>> = piece(j);
            let k = choose|k: int| 0 <= k < turn.len() && turn[k] == step;
            assert(0 <= k < 3);
        }
    }
}

/// Every driver of a fresh link is plugged into its own core, exactly once:
/// after it was made, and before the core is reset.
pub proof fn law_drivers_are_plugged_in<'a>(
    peripheral: Peripheral,
    sides: Seq<Side<'a>>,
    rtc: Option<SystemTime>,
    i: int,
) -> (at: int)
    requires
        sides.len() <= i32::MAX,
        0 <= i < sides.len(),
        peripheral is Wireless || sides.len() > 1,
    ensures
        ({
            let plan: Seq<Step<'a>> = crate::plan::power_on_plan(peripheral, sides, rtc);
            &&& 0 <= at < plan.len()
            &&& plan[at] == (Step::InstallDriver { index: i as usize })
            &&& forall|p: int|
                0 <= p < plan.len() ==> {
                    &&& #[trigger] plan[p] == (Step::InstallDriver { index: i as usize }) ==> p
                        == at
                    &&& plan[p] is NewDriver && plan[p]->NewDriver_index == i ==> p < at
                    &&& plan[p] == (Step::Reset { core: i as usize }) ==> p > at
                }
            &&& plan.contains(Step::Reset { core: i as usize })
            &&& exists|p: int|
                0 <= p < at && #[trigger] plan[p] is NewDriver && plan[p]->NewDriver_index == i
        }),
{
    law_power_on(peripheral, sides, rtc);
    let plan: Seq<Step<'a>> = crate::plan::power_on_plan(peripheral, sides, rtc);
    let index = i as usize;
    let install: Step<'a> = Step::InstallDriver { index };
    let driver = match peripheral {
        Peripheral::Cable => Driver::Cable { player: i as i32 },
        Peripheral::Wireless => Driver::Wireless { seat: i as i32 },
    };
    let make: Step<'a> = Step::NewDriver { index, driver };
    assert(of_power_on(peripheral, sides, rtc, install));
    assert(of_power_on(peripheral, sides, rtc, make));
    assert(plan.contains(install));
    assert(plan.contains(make));
    assert(of_power_on(peripheral, sides, rtc, Step::Reset { core: index }));
    assert(plan.contains(Step::Reset { core: index }));
    let at = choose|p: int| 0 <= p < plan.len() && plan[p] == install;
    let made = choose|p: int| 0 <= p < plan.len() && plan[p] == make;
    let place = |step: Step<'a>| power_on_place(step);
    assert forall|p: int| 0 <= p < plan.len() implies {
        &&& #[trigger] plan[p] == (Step::InstallDriver { index: i as usize }) ==> p == at
        &&& plan[p] is NewDriver && plan[p]->NewDriver_index == i ==> p < at
        &&& plan[p] == (Step::Reset { core: i as usize }) ==> p > at
    } by {
        if p < at {
            assert(place(plan[p]).before(place(plan[at])));
        } else if at < p {
            assert(place(plan[at]).before(place(plan[p])));
        }
    }
    assert(plan[made] is NewDriver);
    at
}

/// Every captured core has the state of its own capture loaded, on either
/// hardware, exactly once: after it was reset, and it is not reset again.
pub proof fn law_captured_states_are_loaded<'a>(
    peripheral: Peripheral,
    sides: Seq<BootSide>,
    rtc: Option<SystemTime>,
    recorded: Seq<Option<i32>>,
    state_size: nat,
    i: int,
) -> (at: int)
    requires
        sides.len() <= i32::MAX,
        recorded.len() == sides.len(),
        forall|j: int| 0 <= j < sides.len() ==> (#[trigger] sides[j]).state.len() == state_size,
        peripheral is Wireless || sides.len() <= 1 || forall|j: int|
            0 <= j < sides.len() ==> (#[trigger] sides[j]).adapter is None,
        0 <= i < sides.len(),
    ensures
        ({
            let plan: Seq<Step<'a>> = crate::plan::rebuild_plan(
                peripheral,
                sides,
                rtc,
                recorded,
                state_size,
            );
            &&& 0 <= at < plan.len()
            &&& plan[at] matches Step::LoadState { core, image } && core == i && *image
                == sides[i].state
            &&& plan.contains(Step::Reset { core: i as usize })
            &&& forall|p: int|
                0 <= p < plan.len() ==> {
                    &&& #[trigger] plan[p] is LoadState && plan[p]->LoadState_core == i ==> p == at
                    &&& plan[p] == (Step::Reset { core: i as usize }) ==> p < at
                }
        }),
{
    law_rebuild(peripheral, sides, rtc, recorded, state_size);
    let plan: Seq<Step<'a>> = crate::plan::rebuild_plan(
        peripheral,
        sides,
        rtc,
        recorded,
        state_size,
    );
    let load: Step<'a> = Step::LoadState { core: i as usize, image: &sides[i].state };
    assert(of_rebuild(peripheral, sides, rtc, recorded, load));
    assert(plan.contains(load));
    assert(of_rebuild(
        peripheral,
        sides,
        rtc,
        recorded,
        Step::Reset { core: i as usize },
    ));
    assert(plan.contains(Step::Reset { core: i as usize }));
    let at = choose|p: int| 0 <= p < plan.len() && plan[p] == load;
    let place = |step: Step<'a>| rebuild_place(step);
    assert forall|p: int| 0 <= p < plan.len() implies {
        &&& #[trigger] plan[p] is LoadState && plan[p]->LoadState_core == i ==> p == at
        &&& plan[p] == (Step::Reset { core: i as usize }) ==> p < at
    } by {
        if p < at {
            assert(place(plan[p]).before(place(plan[at])));
        } else if at < p {
            assert(place(plan[at]).before(place(plan[p])));
        }
    }
    at
}

/// A restore only restores: it loads savestates, FIFO channels, DMA channels
/// and driver blobs, and does nothing else to the link.
pub proof fn law_restore_only_restores<'a>(drivers: nat, snapshot: SnapshotView, p: int)
    requires
        snapshot.valid(),
        snapshot.cores.len() <= usize::MAX,
        0 <= p < crate::plan::restore_plan::<'a>(drivers, snapshot).len(),
    ensures
        ({
            let step = crate::plan::restore_plan::<'a>(drivers, snapshot)[p];
            ||| step is RestoreState
            ||| step is RestoreAudioFifos
            ||| step is RestoreDmas
            ||| step is LoadDriverState
        }),
{
    law_restore(drivers, snapshot);
    let plan: Seq<Step<'a>> = crate::plan::restore_plan(drivers, snapshot);
    assert(plan.contains(plan[p]));
    assert(of_restore(drivers, snapshot, plan[p]));
}

/// The seats of captured sides: each side's own, as its session records it,
/// and -1, which stands for any, for a side that has none.
pub proof fn law_seats_of_captures(
    sides: Seq<BootSide>,
    recorded: Seq<Option<i32>>,
    i: int,
)
    requires
        0 <= i < sides.len(),
    ensures
        crate::plan::recorded_seats(sides, recorded).len() == sides.len(),
        crate::plan::recorded_seats(sides, recorded)[i] == match (sides[i].adapter, recorded[i]) {
            (Some(_), Some(own)) => own as int,
            _ => -1,
        },
{
}

/// A link powers on with what its options say, side by side.
pub proof fn law_power_on_sides(options: &LinkOptions, i: int)
    requires
        0 <= i < options.sides@.len(),
    ensures
        crate::link::power_on_sides(options).len() == options.sides@.len(),
        *crate::link::power_on_sides(options)[i].rom == options.sides@[i].rom,
        match (crate::link::power_on_sides(options)[i].save, options.sides@[i].save) {
            (Some(save), Some(given)) => *save == given,
            (None, None) => true,
            _ => false,
        },
{
}

/// Whether a step belongs to the power-on of a link with these options.
pub open spec fn of_options(options: &LinkOptions, step: Step<'_>) -> bool {
    let sides = options.sides@;
    let players = sides.len();
    match step {
        Step::NewCoordinator { peripheral } => peripheral == options.peripheral,
        Step::NewDriver { index, driver } => {
            &&& has_driver(options.peripheral, players, index as int)
            &&& match (options.peripheral, driver) {
                (Peripheral::Cable, Driver::Cable { player }) => player == index,
                (Peripheral::Wireless, Driver::Wireless { seat }) => seat == index,
                _ => false,
            }
        },
        Step::NewCore { core } => core < players,
        Step::EnableVideoBuffer { core } => core < players,
        Step::LoadRom { core, rom } => core < players && *rom == sides[core as int].rom,
        Step::LoadSave { core, save } => core < players && sides[core as int].save == Some(*save),
        Step::SetRtcFixed { core, rtc } => core < players && options.rtc == Some(rtc),
        Step::InstallDriver { index } => has_driver(options.peripheral, players, index as int),
        Step::Reset { core } => core < players,
        _ => false,
    }
}

/// What the power-on of a link with given options does: these steps, in this
/// order, and nothing else.
pub proof fn law_power_on_with_options<'a>(options: &'a LinkOptions)
    requires
        options.sides@.len() <= i32::MAX,
    ensures
        in_order(
            crate::plan::power_on_plan(
                options.peripheral,
                crate::link::power_on_sides(options),
                options.rtc,
            ),
            |step: Step<'a>| power_on_place(step),
        ),
        holds_exactly(
            crate::plan::power_on_plan(
                options.peripheral,
                crate::link::power_on_sides(options),
                options.rtc,
            ),
            |step: Step<'a>| of_options(options, step),
        ),
{
    let sides = crate::link::power_on_sides(options);
    let plan = crate::plan::power_on_plan(options.peripheral, sides, options.rtc);
    law_power_on(options.peripheral, sides, options.rtc);
    assert forall|step: Step<'a>| #[trigger] plan.contains(step) <==> of_options(
        options,
        step,
    ) by {
        assert(plan.contains(step) <==> of_power_on(
            options.peripheral,
            sides,
            options.rtc,
            step,
        ));
    }
}

/// Whether these captures make a rebuild that nothing stops.
pub open spec fn rebuilds(
    peripheral: Peripheral,
    sides: Seq<BootSide>,
    state_size: nat,
) -> bool {
    &&& forall|i: int| 0 <= i < sides.len() ==> (#[trigger] sides[i]).state.len() == state_size
    &&& peripheral is Wireless || sides.len() <= 1 || forall|i: int|
        0 <= i < sides.len() ==> (#[trigger] sides[i]).adapter is None
}

/// Whether a script does what a rebuild from these captures is to do: all of
/// it where nothing stops it; all that comes before the first state of the
/// wrong length where there is one, and then it fails; and everything where an
/// adapter session is handed to a cable link that has drivers, and then it
/// fails.
pub open spec fn is_rebuild<'a>(
    peripheral: Peripheral,
    sides: Seq<BootSide>,
    rtc: Option<SystemTime>,
    recorded: Seq<Option<i32>>,
    state_size: nat,
    steps: Seq<Step<'a>>,
) -> bool {
    &&& rebuilds(peripheral, sides, state_size) ==> {
        &&& in_order(steps, |step: Step<'a>| rebuild_place(step))
        &&& holds_exactly(
            steps,
            |step: Step<'a>| of_rebuild(peripheral, sides, rtc, recorded, step),
        )
    }
    &&& forall|bad: int|
        0 <= bad < sides.len() && (#[trigger] sides[bad]).state.len() != state_size && (forall|
            i: int,
        |
            0 <= i < bad ==> (#[trigger] sides[i]).state.len() == state_size) ==> exists|stop: int|
            {
                &&& 0 <= stop < steps.len()
                &&& #[trigger] steps[stop] == (Step::Fail { error: CallError::BootStateLength })
                &&& in_order(steps.take(stop), |step: Step<'a>| rebuild_place(step))
                &&& holds_exactly(
                    steps.take(stop),
                    |step: Step<'a>|
                        of_rebuild(peripheral, sides, rtc, recorded, step) && rebuild_place(
                            step,
                        ).before(Place { part: 1, index: bad, turn: 5 }),
                )
            }
    &&& peripheral is Cable && sides.len() > 1 && (forall|i: int|
        0 <= i < sides.len() ==> (#[trigger] sides[i]).state.len() == state_size) && (exists|
        stray: int,
    |
        0 <= stray < sides.len() && (#[trigger] sides[stray]).adapter is Some) ==> exists|stop: int|
        {
            &&& 0 <= stop < steps.len()
            &&& #[trigger] steps[stop] == (Step::Fail { error: CallError::AdapterState })
            &&& in_order(steps.take(stop), |step: Step<'a>| rebuild_place(step))
            &&& holds_exactly(
                steps.take(stop),
                |step: Step<'a>| of_rebuild(peripheral, sides, rtc, recorded, step),
            )
        }
}

/// What a rebuild does, whatever its captures are.
pub proof fn law_every_rebuild<'a>(
    peripheral: Peripheral,
    sides: Seq<BootSide>,
    rtc: Option<SystemTime>,
    recorded: Seq<Option<i32>>,
    state_size: nat,
)
    requires
        sides.len() <= i32::MAX,
        recorded.len() == sides.len(),
    ensures
        is_rebuild(
            peripheral,
            sides,
            rtc,
            recorded,
            state_size,
            crate::plan::rebuild_plan::<'a>(peripheral, sides, rtc, recorded, state_size),
        ),
{
    let steps: Seq<Step<'a>> = crate::plan::rebuild_plan(
        peripheral,
        sides,
        rtc,
        recorded,
        state_size,
    );
    if rebuilds(peripheral, sides, state_size) {
        law_rebuild(peripheral, sides, rtc, recorded, state_size);
    }
    assert forall|bad: int|
        0 <= bad < sides.len() && (#[trigger] sides[bad]).state.len() != state_size && (forall|
            i: int,
        |
            0 <= i < bad ==> (#[trigger] sides[i]).state.len() == state_size) implies exists|
        stop: int,
    |
        {
            &&& 0 <= stop < steps.len()
            &&& #[trigger] steps[stop] == (Step::Fail { error: CallError::BootStateLength })
            &&& in_order(steps.take(stop), |step: Step<'a>| rebuild_place(step))
            &&& holds_exactly(
                steps.take(stop),
                |step: Step<'a>|
                    of_rebuild(peripheral, sides, rtc, recorded, step) && rebuild_place(
                        step,
                    ).before(Place { part: 1, index: bad, turn: 5 }),
            )
        } by {
        let stop = law_rebuild_stops_at_wrong_length(
            peripheral,
            sides,
            rtc,
            recorded,
            state_size,
            bad,
        );
        assert(steps[stop] == (Step::Fail { error: CallError::BootStateLength }));
    }
    if peripheral is Cable && sides.len() > 1 && (forall|i: int|
        0 <= i < sides.len() ==> (#[trigger] sides[i]).state.len() == state_size) && (exists|
        stray: int,
    |
        0 <= stray < sides.len() && (#[trigger] sides[stray]).adapter is Some) {
        let stray = choose|stray: int|
            0 <= stray < sides.len() && (#[trigger] sides[stray]).adapter is Some;
        let stop = law_rebuild_stops_at_stray_session(sides, rtc, recorded, state_size, stray);
        assert(steps[stop] == (Step::Fail { error: CallError::AdapterState }));
    }
}

/// A link is what it was asked to be: the hardware that was asked for, as many
/// players as there are seats, and the drivers that those take.
pub proof fn law_link_shape(peripheral: Peripheral, seats: Seq<i32>)
    ensures
        LinkView::seated(peripheral, seats).peripheral == peripheral,
        LinkView::seated(peripheral, seats).players == seats.len(),
        LinkView::seated(peripheral, seats).drivers.len() == (if peripheral is Wireless
            || seats.len() > 1 {
            seats.len()
        } else {
            0
        }),
        forall|i: int|
            has_driver(peripheral, seats.len(), i) ==> match (
                peripheral,
                #[trigger] LinkView::seated(peripheral, seats).drivers[i],
            ) {
                (Peripheral::Cable, Driver::Cable { player }) => player == i as i32,
                (Peripheral::Wireless, Driver::Wireless { seat }) => seat == seats[i],
                _ => false,
            },
{
}

} // verus!

//! The scripts of a link: power-on, a rebuild from captures, and the restore
//! of a snapshot.

use std::time::SystemTime;
use vstd::prelude::*;

use crate::driver::{build_drivers, fresh_seats, Driver, ANY_SEAT};
use crate::error::CallError;
use crate::options::BootSide;
use crate::peripheral::Peripheral;
use crate::script::Step;
use crate::snapshot::{Snapshot, SnapshotView};

verus! {

/// What a core powers on with.
#[derive(Clone, Copy)]
pub struct Side<'a> {
    pub rom: &'a Vec<u8>,
    pub save: Option<&'a Vec<u8>>,
}

/// The cores of a link are created one after the other.
pub open spec fn new_cores<'a>(players: nat) -> Seq<Step<'a>> {
    Seq::new(players, |i: int| Step::NewCore { core: i as usize })
}

/// The hardware of a link: a coordinator, and its drivers one after the
/// other.
pub open spec fn hardware<'a>(peripheral: Peripheral, drivers: Seq<Driver>) -> Seq<Step<'a>> {
    seq![Step::NewCoordinator { peripheral }] + Seq::new(
        drivers.len(),
        |i: int| Step::NewDriver { index: i as usize, driver: drivers[i] },
    )
}

/// Every driver is plugged in, in the order of the players.
pub open spec fn attach<'a>(drivers: nat) -> Seq<Step<'a>> {
    Seq::new(drivers, |i: int| Step::InstallDriver { index: i as usize })
}

/// A core gets its cartridge: the ROM, the save if there is one, and a pinned
/// clock if there is one.
pub open spec fn cartridge<'a>(
    core: int,
    side: Side<'a>,
    rtc: Option<SystemTime>,
) -> Seq<Step<'a>> {
    seq![
        Step::EnableVideoBuffer { core: core as usize },
        Step::LoadRom { core: core as usize, rom: side.rom },
    ] + (match side.save {
        Some(save) => seq![Step::LoadSave { core: core as usize, save }],
        None => Seq::empty(),
    }) + (match rtc {
        Some(rtc) => seq![Step::SetRtcFixed { core: core as usize, rtc }],
        None => Seq::empty(),
    })
}

/// A core powers on: it gets its cartridge, its driver if it has one, and is
/// reset.
pub open spec fn power_on<'a>(
    core: int,
    side: Side<'a>,
    rtc: Option<SystemTime>,
    driver: bool,
) -> Seq<Step<'a>> {
    cartridge(core, side, rtc) + (if driver {
        seq![Step::InstallDriver { index: core as usize }]
    } else {
        Seq::empty()
    }) + seq![Step::Reset { core: core as usize }]
}

/// A whole link powers on.
pub open spec fn power_on_plan<'a>(
    peripheral: Peripheral,
    sides: Seq<Side<'a>>,
    rtc: Option<SystemTime>,
) -> Seq<Step<'a>> {
    let drivers = crate::driver::drivers_of(peripheral, crate::driver::positions(sides.len()));
    hardware(peripheral, drivers) + new_cores(sides.len()) + crate::bytes::chain(
        sides.len(),
        |i: int| power_on(i, sides[i], rtc, i < drivers.len()),
    )
}

/// What a captured core powers on with, before its state is loaded.
pub open spec fn captured_side<'a>(side: &'a BootSide) -> Side<'a> {
    Side {
        rom: &side.rom,
        save: match side.save {
            Some(save) => Some(&save),
            None => None,
        },
    }
}

/// A captured state is loaded into a core that no driver is plugged into. A
/// cable capture describes the old cable, and is neutralized. An adapter is
/// the same adapter, and nothing is touched. A capture of the wrong length is
/// an error.
pub open spec fn boot_state<'a>(
    core: int,
    peripheral: Peripheral,
    image: &'a Vec<u8>,
    state_size: nat,
) -> Seq<Step<'a>> {
    if image.len() != state_size {
        seq![Step::Fail { error: CallError::BootStateLength }]
    } else if peripheral is Cable {
        seq![
            Step::LoadState { core: core as usize, image },
            Step::NeutralizeSio { core: core as usize },
        ]
    } else {
        seq![Step::LoadState { core: core as usize, image }]
    }
}

/// A captured core resumes: it boots fresh, and its state is loaded.
pub open spec fn resume<'a>(
    core: int,
    peripheral: Peripheral,
    side: &'a BootSide,
    rtc: Option<SystemTime>,
    state_size: nat,
) -> Seq<Step<'a>> {
    cartridge(core, captured_side(side), rtc) + seq![Step::Reset { core: core as usize }]
        + boot_state(core, peripheral, &side.state, state_size)
}

/// A captured adapter session goes back into the driver, if there is one. A
/// cable driver takes none.
pub open spec fn adapter_session<'a>(
    index: int,
    driver: Driver,
    side: &'a BootSide,
) -> Seq<Step<'a>> {
    match side.adapter {
        Some(blob) => match driver {
            Driver::Wireless { .. } => seq![
                Step::LoadAdapterState { index: index as usize, blob: &blob },
            ],
            Driver::Cable { .. } => seq![Step::Fail { error: CallError::AdapterState }],
        },
        None => Seq::empty(),
    }
}

/// The seat that a captured side asks for: the one recorded in its adapter
/// session. A side without a session, or with one that records no seat, takes
/// any.
pub open spec fn recorded_seat(side: BootSide, recorded: Option<i32>) -> i32 {
    match (side.adapter, recorded) {
        (Some(_), Some(seat)) => seat,
        _ => ANY_SEAT,
    }
}

/// The seats that captured sides ask for.
pub open spec fn recorded_seats(sides: Seq<BootSide>, recorded: Seq<Option<i32>>) -> Seq<i32> {
    Seq::new(sides.len(), |i: int| recorded_seat(sides[i], recorded[i]))
}

/// A whole link is rebuilt from captures: every core resumes, then the
/// drivers are made and plugged in, and then the adapter sessions go back.
pub open spec fn rebuild_plan<'a>(
    peripheral: Peripheral,
    sides: Seq<BootSide>,
    rtc: Option<SystemTime>,
    recorded: Seq<Option<i32>>,
    state_size: nat,
) -> Seq<Step<'a>> {
    let drivers = crate::driver::drivers_of(peripheral, recorded_seats(sides, recorded));
    new_cores(sides.len()) + crate::bytes::chain(
        sides.len(),
        |i: int| resume(i, peripheral, &sides[i], rtc, state_size),
    ) + hardware(peripheral, drivers) + attach(drivers.len()) + crate::bytes::chain(
        drivers.len(),
        |i: int| adapter_session(i, drivers[i], &sides[i]),
    )
}

/// A core is restored: its savestate is loaded, and then the channels that
/// the savestate does not hold truly are forced back.
pub open spec fn restore_core<'a>(snapshot: SnapshotView, i: int) -> Seq<Step<'a>> {
    seq![
        Step::RestoreState { core: i as usize, state: &snapshot.cores[i] },
        Step::RestoreAudioFifos { core: i as usize, fifos: &snapshot.audio_fifos[i] },
        Step::RestoreDmas { core: i as usize, dmas: &snapshot.dmas[i] },
    ]
}

/// A whole link is restored: the cores first, and then the drivers, as far as
/// there are blobs for them.
pub open spec fn restore_plan<'a>(drivers: nat, snapshot: SnapshotView) -> Seq<Step<'a>> {
    crate::bytes::chain(snapshot.cores.len(), |i: int| restore_core(snapshot, i)) + Seq::new(
        if drivers <= snapshot.drivers.len() {
            drivers
        } else {
            snapshot.drivers.len()
        },
        |i: int| Step::LoadDriverState { index: i as usize, blob: &snapshot.drivers[i] },
    )
}

fn push_new_cores<'a>(steps: &mut Vec<Step<'a>>, players: usize)
    ensures
        final(steps)@ == old(steps)@ + new_cores(players as nat),
{
    let mut i: usize = 0;
    while i < players
        invariant
            i <= players,
            steps@ == old(steps)@ + new_cores(i as nat),
        decreases players - i,
    {
        steps.push(Step::NewCore { core: i });
        i = i + 1;
        assert(steps@ =~= old(steps)@ + new_cores(i as nat));
    }
}

fn push_hardware<'a>(steps: &mut Vec<Step<'a>>, peripheral: Peripheral, drivers: &Vec<Driver>)
    ensures
        final(steps)@ == old(steps)@ + hardware(peripheral, drivers@),
{
    steps.push(Step::NewCoordinator { peripheral });
    let mut i: usize = 0;
    assert(steps@ =~= old(steps)@ + hardware(peripheral, drivers@.take(0)));
    while i < drivers.len()
        invariant
            i <= drivers.len(),
            steps@ == old(steps)@ + hardware(peripheral, drivers@.take(i as int)),
        decreases drivers.len() - i,
    {
        steps.push(Step::NewDriver { index: i, driver: drivers[i] });
        i = i + 1;
        assert(steps@ =~= old(steps)@ + hardware(peripheral, drivers@.take(i as int)));
    }
    assert(drivers@.take(drivers.len() as int) =~= drivers@);
}

fn push_attach<'a>(steps: &mut Vec<Step<'a>>, drivers: usize)
    ensures
        final(steps)@ == old(steps)@ + attach(drivers as nat),
{
    let mut i: usize = 0;
    while i < drivers
        invariant
            i <= drivers,
            steps@ == old(steps)@ + attach(i as nat),
        decreases drivers - i,
    {
        steps.push(Step::InstallDriver { index: i });
        i = i + 1;
        assert(steps@ =~= old(steps)@ + attach(i as nat));
    }
}

fn push_cartridge<'a>(
    steps: &mut Vec<Step<'a>>,
    core: usize,
    side: Side<'a>,
    rtc: Option<SystemTime>,
)
    ensures
        final(steps)@ == old(steps)@ + cartridge(core as int, side, rtc),
{
    steps.push(Step::EnableVideoBuffer { core });
    steps.push(Step::LoadRom { core, rom: side.rom });
    if let Some(save) = side.save {
        steps.push(Step::LoadSave { core, save });
    }
    if let Some(rtc) = rtc {
        steps.push(Step::SetRtcFixed { core, rtc });
    }
    assert(steps@ =~= old(steps)@ + cartridge(core as int, side, rtc));
}

/// The drivers of a fresh link, and the script that powers it on.
pub fn plan_power_on<'a>(
    peripheral: Peripheral,
    sides: &Vec<Side<'a>>,
    rtc: Option<SystemTime>,
) -> (plan: (Vec<Driver>, Vec<Step<'a>>))
    ensures
        plan.0@ == crate::driver::drivers_of(
            peripheral,
            crate::driver::positions(sides@.len()),
        ),
        plan.1@ == power_on_plan(peripheral, sides@, rtc),
{
    let drivers: Vec<Driver> = build_drivers(peripheral, &fresh_seats(sides.len()));
    let mut steps: Vec<Step<'a>> = Vec::new();
    push_hardware(&mut steps, peripheral, &drivers);
    push_new_cores(&mut steps, sides.len());
    let ghost head = steps@;
    let ghost pieces = |i: int| power_on(i, sides@[i], rtc, i < drivers@.len());
    let mut i: usize = 0;
    assert(steps@ =~= head + crate::bytes::chain(0, pieces));
    while i < sides.len()
        invariant
            i <= sides.len(),
            pieces == (|i: int| power_on(i, sides@[i], rtc, i < drivers@.len())),
            steps@ == head + crate::bytes::chain(i as nat, pieces),
        decreases sides.len() - i,
    {
        let ghost before = steps@;
        push_cartridge(&mut steps, i, sides[i], rtc);
        if i < drivers.len() {
            steps.push(Step::InstallDriver { index: i });
        }
        steps.push(Step::Reset { core: i });
        assert(steps@ =~= before + pieces(i as int));
        i = i + 1;
        assert(steps@ =~= head + crate::bytes::chain(i as nat, pieces));
    }
    assert(steps@ =~= power_on_plan(peripheral, sides@, rtc));
    (drivers, steps)
}

/// Loads a captured state into a core that is about to be on a new cable.
fn load_boot_state<'a>(
    steps: &mut Vec<Step<'a>>,
    core: usize,
    image: &'a Vec<u8>,
    state_size: usize,
)
    ensures
        final(steps)@ == old(steps)@ + boot_state(
            core as int,
            Peripheral::Cable,
            image,
            state_size as nat,
        ),
{
    if image.len() != state_size {
        steps.push(Step::Fail { error: CallError::BootStateLength });
    } else {
        steps.push(Step::LoadState { core, image });
        steps.push(Step::NeutralizeSio { core });
    }
    assert(steps@ =~= old(steps)@ + boot_state(
        core as int,
        Peripheral::Cable,
        image,
        state_size as nat,
    ));
}

/// Loads a captured state exactly as captured: the adapter on the port is the
/// one that the capture was talking to, and a pending completion belongs to a
/// local exchange that is being restored with it.
fn load_boot_state_verbatim<'a>(
    steps: &mut Vec<Step<'a>>,
    core: usize,
    image: &'a Vec<u8>,
    state_size: usize,
)
    ensures
        final(steps)@ == old(steps)@ + boot_state(
            core as int,
            Peripheral::Wireless,
            image,
            state_size as nat,
        ),
{
    if image.len() != state_size {
        steps.push(Step::Fail { error: CallError::BootStateLength });
    } else {
        steps.push(Step::LoadState { core, image });
    }
    assert(steps@ =~= old(steps)@ + boot_state(
        core as int,
        Peripheral::Wireless,
        image,
        state_size as nat,
    ));
}

fn push_resume<'a>(
    steps: &mut Vec<Step<'a>>,
    core: usize,
    peripheral: Peripheral,
    side: &'a BootSide,
    rtc: Option<SystemTime>,
    state_size: usize,
)
    ensures
        final(steps)@ == old(steps)@ + resume(
            core as int,
            peripheral,
            side,
            rtc,
            state_size as nat,
        ),
{
    let save: Option<&'a Vec<u8>> = match &side.save {
        Some(save) => Some(save),
        None => None,
    };
    push_cartridge(steps, core, Side { rom: &side.rom, save }, rtc);
    steps.push(Step::Reset { core });
    match peripheral {
        Peripheral::Cable => load_boot_state(steps, core, &side.state, state_size),
        Peripheral::Wireless => load_boot_state_verbatim(steps, core, &side.state, state_size),
    }
    assert(steps@ =~= old(steps)@ + resume(
        core as int,
        peripheral,
        side,
        rtc,
        state_size as nat,
    ));
}

fn push_adapter_session<'a>(
    steps: &mut Vec<Step<'a>>,
    index: usize,
    driver: Driver,
    side: &'a BootSide,
)
    ensures
        final(steps)@ == old(steps)@ + adapter_session(index as int, driver, side),
{
    if let Some(blob) = &side.adapter {
        if driver.has_adapter() {
            steps.push(Step::LoadAdapterState { index, blob });
        } else {
            steps.push(Step::Fail { error: CallError::AdapterState });
        }
    }
    assert(steps@ =~= old(steps)@ + adapter_session(index as int, driver, side));
}

/// The seats that captured sides ask for, given the seat that each adapter
/// session records.
pub fn seats_of(sides: &Vec<BootSide>, recorded: &Vec<Option<i32>>) -> (seats: Vec<i32>)
    requires
        recorded.len() == sides.len(),
    ensures
        seats@ == recorded_seats(sides@, recorded@),
{
    let mut seats: Vec<i32> = Vec::new();
    let mut i: usize = 0;
    while i < sides.len()
        invariant
            i <= sides.len(),
            recorded.len() == sides.len(),
            seats@.len() == i,
            forall|j: int|
                0 <= j < i ==> #[trigger] seats@[j] == recorded_seat(sides@[j], recorded@[j]),
        decreases sides.len() - i,
    {
        let seat: i32 = match (&sides[i].adapter, recorded[i]) {
            (Some(_), Some(seat)) => seat,
            _ => ANY_SEAT,
        };
        seats.push(seat);
        i = i + 1;
    }
    assert(seats@ =~= recorded_seats(sides@, recorded@));
    seats
}

/// The drivers of a link that is rebuilt from captures, and the script that
/// rebuilds it.
pub fn plan_rebuild<'a>(
    peripheral: Peripheral,
    sides: &'a Vec<BootSide>,
    rtc: Option<SystemTime>,
    recorded: &Vec<Option<i32>>,
    state_size: usize,
) -> (plan: (Vec<Driver>, Vec<Step<'a>>))
    requires
        recorded.len() == sides.len(),
    ensures
        plan.0@ == crate::driver::drivers_of(peripheral, recorded_seats(sides@, recorded@)),
        plan.1@ == rebuild_plan(peripheral, sides@, rtc, recorded@, state_size as nat),
{
    let drivers: Vec<Driver> = build_drivers(peripheral, &seats_of(sides, recorded));
    let mut steps: Vec<Step<'a>> = Vec::new();
    push_new_cores(&mut steps, sides.len());
    let ghost head = steps@;
    let ghost pieces = |i: int| resume(i, peripheral, &sides@[i], rtc, state_size as nat);
    let mut i: usize = 0;
    assert(steps@ =~= head + crate::bytes::chain(0, pieces));
    while i < sides.len()
        invariant
            i <= sides.len(),
            pieces == (|i: int| resume(i, peripheral, &sides@[i], rtc, state_size as nat)),
            steps@ == head + crate::bytes::chain(i as nat, pieces),
        decreases sides.len() - i,
    {
        push_resume(&mut steps, i, peripheral, &sides[i], rtc, state_size);
        i = i + 1;
        assert(steps@ =~= head + crate::bytes::chain(i as nat, pieces));
    }
    push_hardware(&mut steps, peripheral, &drivers);
    push_attach(&mut steps, drivers.len());
    let ghost body = steps@;
    let ghost sessions = |i: int| adapter_session(i, drivers@[i], &sides@[i]);
    let mut d: usize = 0;
    assert(steps@ =~= body + crate::bytes::chain(0, sessions));
    while d < drivers.len()
        invariant
            d <= drivers.len() <= sides.len(),
            sessions == (|i: int| adapter_session(i, drivers@[i], &sides@[i])),
            steps@ == body + crate::bytes::chain(d as nat, sessions),
        decreases drivers.len() - d,
    {
        push_adapter_session(&mut steps, d, drivers[d], &sides[d]);
        d = d + 1;
        assert(steps@ =~= body + crate::bytes::chain(d as nat, sessions));
    }
    assert(steps@ =~= rebuild_plan(peripheral, sides@, rtc, recorded@, state_size as nat));
    (drivers, steps)
}

/// The script that restores a snapshot into a link with this many drivers.
pub fn plan_restore<'a>(drivers: usize, snapshot: &'a Snapshot) -> (steps: Vec<Step<'a>>)
    requires
        snapshot@.valid(),
    ensures
        steps@ == restore_plan(drivers as nat, snapshot@),
{
    let ghost pieces = |i: int| restore_core(snapshot@, i);
    let mut steps: Vec<Step<'a>> = Vec::new();
    let mut i: usize = 0;
    while i < snapshot.num_players()
        invariant
            i <= snapshot@.cores.len(),
            snapshot@.valid(),
            pieces == (|i: int| restore_core(snapshot@, i)),
            steps@ == crate::bytes::chain(i as nat, pieces),
        decreases snapshot@.cores.len() - i,
    {
        steps.push(Step::RestoreState { core: i, state: snapshot.core_state(i) });
        steps.push(Step::RestoreAudioFifos { core: i, fifos: snapshot.audio_fifos(i) });
        steps.push(Step::RestoreDmas { core: i, dmas: snapshot.dmas(i) });
        i = i + 1;
        assert(steps@ =~= crate::bytes::chain(i as nat, pieces));
    }
    let ghost body = steps@;
    let ghost blobs = |i: int|
        Step::LoadDriverState { index: i as usize, blob: &snapshot@.drivers[i] };
    let mut d: usize = 0;
    while d < drivers && d < snapshot.num_drivers()
        invariant
            d <= drivers,
            d <= snapshot@.drivers.len(),
            blobs == (|i: int|
                Step::LoadDriverState { index: i as usize, blob: &snapshot@.drivers[i] }),
            steps@ == body + Seq::new(d as nat, blobs),
        decreases drivers - d,
    {
        steps.push(Step::LoadDriverState { index: d, blob: snapshot.driver_blob(d) });
        d = d + 1;
        assert(steps@ =~= body + Seq::new(d as nat, blobs));
    }
    assert(steps@ =~= restore_plan(drivers as nat, snapshot@));
    steps
}

} // verus!

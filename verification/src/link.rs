//! A link: the cores of all players, wired to one kind of link hardware.
//!
//! A link of one is valid. For a cable that is a single core with no driver,
//! a GBA with nothing plugged in; a solo wireless link still has its adapter.
//! Together with captures that makes the cable itself dynamic: a solo machine
//! runs until peers appear, the captures are exchanged, and every peer
//! rebuilds the full link mid-game; when the session ends, the local capture
//! continues as a solo link again.

use std::time::SystemTime;
use vstd::prelude::*;

use crate::driver::Driver;
use crate::gba::{audio_fifo_state, dma_state, DmaLane, FifoLane, Gba};
use crate::options::{BootSide, LinkOptions};
use crate::peripheral::Peripheral;
use crate::plan::{plan_power_on, plan_rebuild, plan_restore, Side};
use crate::script::{Next, Reply, Script, ScriptState, Status, Step};
use crate::snapshot::{CoreState, Snapshot};
use crate::tick::{Tick, TickAction, TickState};

verus! {

/// The shape of a running link.
pub struct Link {
    peripheral: Peripheral,
    players: usize,
    drivers: Vec<Driver>,
}

/// What a link is.
pub struct LinkView {
    /// The link hardware.
    pub peripheral: Peripheral,
    /// Number of players.
    pub players: nat,
    /// The drivers, by the player that each asked to be.
    pub drivers: Seq<Driver>,
}

impl View for Link {
    type V = LinkView;

    closed spec fn view(&self) -> LinkView {
        LinkView {
            peripheral: self.peripheral,
            players: self.players as nat,
            drivers: self.drivers@,
        }
    }
}

impl LinkView {
    /// What every link keeps: its hardware holds its players, and there are
    /// as many drivers as the hardware takes for them, all of its kind.
    pub open spec fn valid(self) -> bool {
        &&& self.peripheral.holds(self.players)
        &&& self.drivers.len() == crate::driver::driver_count(self.peripheral, self.players)
        &&& forall|i: int|
            0 <= i < self.drivers.len() ==> (#[trigger] self.drivers[i] is Wireless <==> self.peripheral
                is Wireless)
    }

    /// A link of these players whose adapters asked for these seats.
    pub open spec fn seated(peripheral: Peripheral, seats: Seq<i32>) -> LinkView {
        LinkView {
            peripheral,
            players: seats.len(),
            drivers: crate::driver::drivers_of(peripheral, seats),
        }
    }
}

/// What the sides of a link power on with.
pub open spec fn power_on_sides<'a>(options: &'a LinkOptions) -> Seq<Side<'a>> {
    Seq::new(
        options.sides@.len(),
        |i: int|
            Side {
                rom: &options.sides@[i].rom,
                save: match options.sides@[i].save {
                    Some(save) => Some(&save),
                    None => None,
                },
            },
    )
}

/// A link that is being booted: the link it will be, and the script that
/// boots it.
pub struct Boot<'a> {
    link: Link,
    script: Script<'a>,
}

/// What a boot is.
pub struct BootView<'a> {
    pub link: LinkView,
    pub script: ScriptState<'a>,
}

impl<'a> View for Boot<'a> {
    type V = BootView<'a>;

    closed spec fn view(&self) -> BootView<'a> {
        BootView { link: self.link@, script: self.script@ }
    }
}

impl<'a> Boot<'a> {
    /// Tells the boot what came of the step that it handed out last, and hands
    /// out the next. The first call takes [`Reply::Done`].
    pub fn advance(&mut self, reply: Reply) -> (next: Next<'a>)
        requires
            old(self)@.script.valid(),
            old(self)@.script.accepts(reply),
        ensures
            final(self)@.link == old(self)@.link,
            final(self)@.script == old(self)@.script.step(reply),
            final(self)@.script.valid(),
            next == final(self)@.script.next(),
    {
        self.script.advance(reply)
    }

    /// The link, once every step of its boot was done.
    pub fn finish(self) -> (link: Option<Link>)
        ensures
            link is Some <==> self@.script.status is Finished,
            link matches Some(link) ==> link@ == self@.link,
    {
        match self.script.status() {
            Status::Finished => Some(self.link),
            _ => None,
        }
    }
}

impl Link {
    /// Boots a cable link from ROM images, one per player (1 to
    /// [`crate::MAX_CABLE_PLAYERS`]). Core 0 requests lockstep player 0
    /// (primary), core `i` requests player `i`.
    pub fn new<'a>(roms: &'a Vec<Vec<u8>>) -> (boot: Boot<'a>)
        requires
            Peripheral::Cable.holds(roms@.len()),
        ensures
            boot@.link == LinkView::seated(
                Peripheral::Cable,
                crate::driver::positions(roms@.len()),
            ),
            boot@.link.valid(),
            boot@.script == ScriptState::begin(
                crate::plan::power_on_plan(
                    Peripheral::Cable,
                    Seq::new(roms@.len(), |i: int| Side { rom: &roms@[i], save: None }),
                    None,
                ),
            ),
            boot@.script.valid(),
            crate::plan_laws::in_order(
                boot@.script.steps,
                |step: Step<'a>| crate::plan_laws::power_on_place(step),
            ),
            crate::plan_laws::holds_exactly(
                boot@.script.steps,
                |step: Step<'a>|
                    crate::plan_laws::of_power_on(
                        Peripheral::Cable,
                        Seq::new(roms@.len(), |i: int| Side { rom: &roms@[i], save: None }),
                        None,
                        step,
                    ),
            ),
            boot@.script.at == 0,
            boot@.script.status is Running,
            boot@.link.peripheral is Cable,
            boot@.link.players == roms@.len(),
            boot@.link.drivers.len() == (if roms@.len() > 1 {
                roms@.len()
            } else {
                0
            }),
    {
        let mut sides: Vec<Side<'a>> = Vec::new();
        let ghost wanted = Seq::new(roms@.len(), |i: int| Side { rom: &roms@[i], save: None });
        let mut i: usize = 0;
        while i < roms.len()
            invariant
                i <= roms.len(),
                wanted == Seq::new(roms@.len(), |i: int| Side { rom: &roms@[i], save: None }),
                sides@ == wanted.take(i as int),
            decreases roms.len() - i,
        {
            sides.push(Side { rom: &roms[i], save: None });
            i = i + 1;
            assert(sides@ =~= wanted.take(i as int));
        }
        assert(sides@ =~= wanted);
        proof {
            crate::plan_laws::law_power_on(Peripheral::Cable, wanted, None);
        }
        Self::boot(Peripheral::Cable, &sides, None)
    }

    /// Boots a link. One side per player, 1 to what the peripheral holds.
    pub fn with_options<'a>(options: &'a LinkOptions) -> (boot: Boot<'a>)
        requires
            options.peripheral.holds(options.sides@.len()),
        ensures
            boot@.link == LinkView::seated(
                options.peripheral,
                crate::driver::positions(options.sides@.len()),
            ),
            boot@.link.valid(),
            boot@.script == ScriptState::begin(
                crate::plan::power_on_plan(
                    options.peripheral,
                    power_on_sides(options),
                    options.rtc,
                ),
            ),
            boot@.script.valid(),
            crate::plan_laws::in_order(
                boot@.script.steps,
                |step: Step<'a>| crate::plan_laws::power_on_place(step),
            ),
            crate::plan_laws::holds_exactly(
                boot@.script.steps,
                |step: Step<'a>| crate::plan_laws::of_options(options, step),
            ),
            boot@.script.at == 0,
            boot@.script.status is Running,
            boot@.link.peripheral == options.peripheral,
            boot@.link.players == options.sides@.len(),
            boot@.link.drivers.len() == (if options.peripheral is Wireless || options.sides@.len()
                > 1 {
                options.sides@.len()
            } else {
                0
            }),
    {
        let mut sides: Vec<Side<'a>> = Vec::new();
        let mut i: usize = 0;
        while i < options.sides.len()
            invariant
                i <= options.sides.len(),
                sides@ == power_on_sides(options).take(i as int),
            decreases options.sides.len() - i,
        {
            let side = &options.sides[i];
            let save: Option<&'a Vec<u8>> = match &side.save {
                Some(save) => Some(save),
                None => None,
            };
            sides.push(Side { rom: &side.rom, save });
            i = i + 1;
            assert(sides@ =~= power_on_sides(options).take(i as int));
        }
        assert(sides@ =~= power_on_sides(options));
        proof {
            crate::plan_laws::law_power_on_with_options(options);
        }
        Self::boot(options.peripheral, &sides, options.rtc)
    }

    /// Boots a link of these sides.
    fn boot<'a>(
        peripheral: Peripheral,
        sides: &Vec<Side<'a>>,
        rtc: Option<SystemTime>,
    ) -> (boot: Boot<'a>)
        requires
            peripheral.holds(sides@.len()),
        ensures
            boot@.link == LinkView::seated(
                peripheral,
                crate::driver::positions(sides@.len()),
            ),
            boot@.link.valid(),
            boot@.script == ScriptState::begin(
                crate::plan::power_on_plan(peripheral, sides@, rtc),
            ),
            boot@.script.valid(),
    {
        let (drivers, steps) = plan_power_on(peripheral, sides, rtc);
        Boot {
            link: Link { peripheral, players: sides.len(), drivers },
            script: Script::begin(steps),
        }
    }

    /// Boots a link mid-game from per-side captures: the emulated equivalent
    /// of plugging a link cable into machines that are already running. Peers
    /// that build a link from identical captures get identical machines,
    /// including the building peer itself, whose own side must load from its
    /// serialized capture rather than continue its live core.
    ///
    /// A single cable side is the unplugged continuation of a capture: no
    /// driver. A single wireless side keeps its adapter and its session.
    ///
    /// `recorded` holds, for every side, the seat that its adapter session
    /// records, if any; `state_size` is the length of a core savestate.
    pub fn from_states<'a>(
        sides: &'a Vec<BootSide>,
        rtc: Option<SystemTime>,
        peripheral: Peripheral,
        recorded: &Vec<Option<i32>>,
        state_size: usize,
    ) -> (boot: Boot<'a>)
        requires
            peripheral.holds(sides@.len()),
            recorded.len() == sides.len(),
        ensures
            boot@.link == LinkView::seated(
                peripheral,
                crate::plan::recorded_seats(sides@, recorded@),
            ),
            boot@.link.valid(),
            boot@.script == ScriptState::begin(
                crate::plan::rebuild_plan(
                    peripheral,
                    sides@,
                    rtc,
                    recorded@,
                    state_size as nat,
                ),
            ),
            boot@.script.valid(),
            crate::plan_laws::is_rebuild(
                peripheral,
                sides@,
                rtc,
                recorded@,
                state_size as nat,
                boot@.script.steps,
            ),
            boot@.script.at == 0,
            boot@.script.status is Running,
            boot@.link.peripheral == peripheral,
            boot@.link.players == sides@.len(),
            boot@.link.drivers.len() == (if peripheral is Wireless || sides@.len() > 1 {
                sides@.len()
            } else {
                0
            }),
    {
        let (drivers, steps) = plan_rebuild(peripheral, sides, rtc, recorded, state_size);
        proof {
            crate::plan_laws::law_every_rebuild(
                peripheral,
                sides@,
                rtc,
                recorded@,
                state_size as nat,
            );
        }
        Boot {
            link: Link { peripheral, players: sides.len(), drivers },
            script: Script::begin(steps),
        }
    }

    /// Number of players (cores) on this link.
    pub fn num_players(&self) -> (players: usize)
        ensures
            players == self@.players,
    {
        self.players
    }

    /// The link hardware.
    pub fn peripheral(&self) -> (peripheral: Peripheral)
        ensures
            peripheral == self@.peripheral,
    {
        self.peripheral
    }

    /// Number of drivers on this link: drivers `0..num_drivers` are on the
    /// ports of the cores of the same index.
    pub fn num_drivers(&self) -> (drivers: usize)
        ensures
            drivers == self@.drivers.len(),
    {
        self.drivers.len()
    }

    /// The player id of core `i`, given what its driver says, if it has one. A
    /// core without a driver is player 0.
    pub fn player_id(&self, i: usize, reported: Option<i32>) -> (id: i32)
        requires
            reported is Some <==> i < self@.drivers.len(),
        ensures
            i < self@.drivers.len() ==> Some(id) == reported,
            i >= self@.drivers.len() ==> id == 0,
    {
        match reported {
            Some(id) => id,
            None => 0,
        }
    }

    /// A capture of core `i` for [`Link::from_states`]: the serialized image
    /// of its savestate. Valid at any tick boundary.
    pub fn capture_boot_state(&self, i: usize, state: CoreState) -> (capture: Vec<u8>)
        requires
            i < self@.players,
        ensures
            capture == state.image,
    {
        state.image
    }

    /// The driver whose adapter session is the wireless pair to core `i`'s
    /// capture. `None` on a cable link, which has no adapter.
    pub fn capture_adapter_state(&self, i: usize) -> (adapter: Option<usize>)
        requires
            self@.valid(),
        ensures
            adapter == (if self@.peripheral is Wireless && i < self@.players {
                Some(i)
            } else {
                None
            }),
    {
        if i < self.drivers.len() && self.drivers[i].has_adapter() {
            Some(i)
        } else {
            None
        }
    }

    /// How many bytes of core `i`'s savedata buffer are its save image, given
    /// the size of its savedata and whether there is a buffer. `None` if the
    /// game has no savedata.
    pub fn export_save(&self, i: usize, size: usize, present: bool) -> (bytes: Option<usize>)
        requires
            i < self@.players,
        ensures
            bytes == (if size > 0 && present {
                Some(size)
            } else {
                None
            }),
    {
        if size == 0 || !present {
            None
        } else {
            Some(size)
        }
    }

    /// Starts a tick: the link advances by one frame of the reference core.
    /// `keys[i]` is latched for core `i` at the start of the tick. A corrupt
    /// lockstep state comes back as an error.
    pub fn try_tick(&self, keys: Vec<u32>) -> (tick: Tick)
        requires
            self@.valid(),
            keys@.len() == self@.players,
        ensures
            tick@ == TickState::begin(keys@, self@.drivers.len()),
            tick@.valid(),
            tick@.keys == keys@,
            tick@.drivers == self@.drivers.len(),
            tick@.action() == (TickAction::SetKeys { core: 0, keys: keys@[0] }),
    {
        Tick::begin(keys, self.drivers.len())
    }

    /// A snapshot of the full link, from the cores' savestates, the drivers'
    /// blobs, and the consoles' channels. Valid at any tick boundary,
    /// including with a transfer in flight or any core parked.
    pub fn save(
        &self,
        cores: Vec<CoreState>,
        drivers: Vec<Vec<u8>>,
        gbas: &Vec<Gba>,
    ) -> (snapshot: Snapshot)
        requires
            self@.valid(),
            cores@.len() == self@.players,
            drivers@.len() == self@.drivers.len(),
            gbas@.len() == self@.players,
        ensures
            snapshot@.valid(),
            snapshot@.cores == cores@,
            snapshot@.drivers == drivers@,
            forall|i: int|
                0 <= i < self@.players ==> (#[trigger] snapshot@.audio_fifos[i])@ == seq![
                    gbas@[i].ch_a,
                    gbas@[i].ch_b,
                ],
            forall|i: int|
                0 <= i < self@.players ==> #[trigger] snapshot@.dmas[i] == gbas@[i].dma,
    {
        let mut audio_fifos: Vec<[FifoLane; 2]> = Vec::new();
        let mut dmas: Vec<[DmaLane; 4]> = Vec::new();
        let mut i: usize = 0;
        while i < gbas.len()
            invariant
                i <= gbas.len(),
                audio_fifos@.len() == i,
                dmas@.len() == i,
                forall|j: int|
                    0 <= j < i ==> (#[trigger] audio_fifos@[j])@ == seq![
                        gbas@[j].ch_a,
                        gbas@[j].ch_b,
                    ],
                forall|j: int| 0 <= j < i ==> #[trigger] dmas@[j] == gbas@[j].dma,
            decreases gbas.len() - i,
        {
            audio_fifos.push(audio_fifo_state(&gbas[i]));
            dmas.push(dma_state(&gbas[i]));
            i = i + 1;
        }
        Snapshot::new(cores, drivers, audio_fifos, dmas)
    }

    /// Starts the restore of a snapshot taken from this link. Core states load
    /// first, since a core load rebuilds its timing list, and the driver blobs
    /// then re-schedule each lockstep event into it.
    pub fn load<'a>(&self, snapshot: &'a Snapshot) -> (script: Script<'a>)
        requires
            snapshot@.valid(),
            snapshot@.cores.len() == self@.players,
        ensures
            script@ == ScriptState::begin(
                crate::plan::restore_plan(self@.drivers.len(), snapshot@),
            ),
            script@.valid(),
            crate::plan_laws::in_order(
                script@.steps,
                |step: Step<'a>| crate::plan_laws::restore_place(step),
            ),
            crate::plan_laws::holds_exactly(
                script@.steps,
                |step: Step<'a>|
                    crate::plan_laws::of_restore(self@.drivers.len(), snapshot@, step),
            ),
            script@.at == 0,
            script@.status is Running,
    {
        proof {
            crate::plan_laws::law_restore(self@.drivers.len(), snapshot@);
        }
        Script::begin(plan_restore(self.drivers.len(), snapshot))
    }
}

} // verus!

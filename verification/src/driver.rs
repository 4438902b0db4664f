//! The drivers that wire the cores of a link to its hardware.

use vstd::prelude::*;

use crate::peripheral::Peripheral;

verus! {

/// The seat that an adapter asks for when any free one will do.
pub const ANY_SEAT: i32 = -1;

/// A link driver, by the player that it asks to be.
#[derive(Clone, Copy, PartialEq, Eq, Debug, Structural)]
pub enum Driver {
    /// A lockstep cable driver. Player ids on a cable are positions.
    Cable { player: i32 },
    /// A wireless adapter, asking for a seat on the airwaves, or for any
    /// ([`ANY_SEAT`]).
    Wireless { seat: i32 },
}

impl Driver {
    /// Whether there is an adapter session to save and load: a cable has no
    /// adapter.
    pub fn has_adapter(self) -> (adapter: bool)
        ensures
            adapter == (self is Wireless),
    {
        match self {
            Driver::Cable { .. } => false,
            Driver::Wireless { .. } => true,
        }
    }
}

/// How many drivers a link of `players` cores has: one per core, except that
/// a solo cable has none.
pub open spec fn driver_count(peripheral: Peripheral, players: nat) -> nat {
    if peripheral is Cable && players <= 1 {
        0
    } else {
        players
    }
}

/// The drivers of a link whose adapters ask for `seats`.
pub open spec fn drivers_of(peripheral: Peripheral, seats: Seq<i32>) -> Seq<Driver> {
    Seq::new(
        driver_count(peripheral, seats.len()),
        |i: int|
            match peripheral {
                Peripheral::Cable => Driver::Cable { player: i as i32 },
                Peripheral::Wireless => Driver::Wireless { seat: seats[i] },
            },
    )
}

/// One driver per player for the chosen peripheral. A solo cable has no
/// driver at all (a GBA with nothing plugged in); a solo wireless link still
/// gets its adapter.
///
/// `seats` has one entry per player: the wireless seat that each adapter asks
/// for. A fresh link passes positions; a rebuild passes each capture's
/// recorded seat, so that every adapter keeps its airwaves identity. Cable
/// player ids are positions regardless.
pub fn build_drivers(peripheral: Peripheral, seats: &Vec<i32>) -> (drivers: Vec<Driver>)
    ensures
        drivers@ == drivers_of(peripheral, seats@),
{
    let mut drivers: Vec<Driver> = Vec::new();
    match peripheral {
        Peripheral::Cable => {
            if seats.len() > 1 {
                let mut i: usize = 0;
                while i < seats.len()
                    invariant
                        i <= seats.len(),
                        drivers@.len() == i,
                        forall|j: int|
                            0 <= j < i ==> drivers@[j] == (Driver::Cable { player: j as i32 }),
                    decreases seats.len() - i,
                {
                    drivers.push(Driver::Cable { player: i as i32 });
                    i = i + 1;
                }
            }
        },
        Peripheral::Wireless => {
            let mut i: usize = 0;
            while i < seats.len()
                invariant
                    i <= seats.len(),
                    drivers@.len() == i,
                    forall|j: int|
                        0 <= j < i ==> drivers@[j] == (Driver::Wireless { seat: seats@[j] }),
                decreases seats.len() - i,
            {
                drivers.push(Driver::Wireless { seat: seats[i] });
                i = i + 1;
            }
        },
    }
    assert(drivers@ =~= drivers_of(peripheral, seats@));
    drivers
}

/// The positions of `players` players, as the seats that a fresh link asks
/// for.
pub open spec fn positions(players: nat) -> Seq<i32> {
    Seq::new(players, |i: int| i as i32)
}

/// The seats that a fresh link asks for: every player its position.
pub fn fresh_seats(players: usize) -> (seats: Vec<i32>)
    ensures
        seats@ == positions(players as nat),
{
    let mut seats: Vec<i32> = Vec::new();
    let mut i: usize = 0;
    while i < players
        invariant
            i <= players,
            seats@.len() == i,
            forall|j: int| 0 <= j < i ==> seats@[j] == j as i32,
        decreases players - i,
    {
        seats.push(i as i32);
        i = i + 1;
    }
    assert(seats@ =~= positions(players as nat));
    seats
}

/// A solo cable has no driver, a solo wireless link has one, and any larger
/// link has one for each of its players.
pub proof fn law_driver_count(peripheral: Peripheral, seats: Seq<i32>)
    requires
        seats.len() >= 1,
    ensures
        peripheral is Cable && seats.len() == 1 ==> drivers_of(peripheral, seats).len() == 0,
        peripheral is Wireless || seats.len() > 1 ==> drivers_of(peripheral, seats).len()
            == seats.len(),
{
}

/// Every core of a link that has drivers gets one, of the link's own kind: on
/// a cable the player that it asks to be is its position, and an adapter asks
/// for the seat that it was given. A fresh link gives every player its
/// position, and the seat that stands for any is -1.
pub proof fn law_drivers(peripheral: Peripheral, seats: Seq<i32>, i: int)
    requires
        peripheral is Wireless || seats.len() > 1,
        0 <= i < seats.len() <= i32::MAX,
    ensures
        drivers_of(peripheral, seats).len() == seats.len(),
        peripheral is Cable ==> {
            &&& drivers_of(peripheral, seats)[i] matches Driver::Cable { player }
            &&& player == i
        },
        peripheral is Wireless ==> {
            &&& drivers_of(peripheral, seats)[i] matches Driver::Wireless { seat }
            &&& seat == seats[i]
        },
        positions(seats.len()).len() == seats.len(),
        positions(seats.len())[i] == i,
        ANY_SEAT == -1,
{
}

/// The players of a cable are numbered by position, whatever seats were
/// recorded.
pub proof fn law_cable_positions(seats: Seq<i32>, i: int)
    requires
        1 < seats.len(),
        0 <= i < seats.len(),
    ensures
        drivers_of(Peripheral::Cable, seats)[i] == (Driver::Cable { player: i as i32 }),
{
}

} // verus!

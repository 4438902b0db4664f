//! The link hardware, and how many players it takes.

use vstd::prelude::*;

verus! {

/// The most players a cable link supports: the size of a real multi-cable
/// chain (the SIO multi protocol has two player-id bits).
pub const MAX_CABLE_PLAYERS: usize = 4;

/// The most players a wireless link supports. The airwaves themselves are
/// uncapped, but the coordinator parks players on a 64-bit bitmask, so one
/// link holds at most 63 GBAs.
pub const MAX_WIRELESS_PLAYERS: usize = 63;

/// The most players any link supports (the wireless bound; cable links cap
/// lower, see [`Peripheral::max_players`]).
pub const MAX_PLAYERS: usize = MAX_WIRELESS_PLAYERS;

/// Which link hardware a link's cores are wired to.
#[derive(Clone, Copy, PartialEq, Eq, Debug, Structural)]
pub enum Peripheral {
    /// The multi-cable, through the lockstep SIO driver.
    Cable,
    /// The wireless adapter (AGB-015): one emulated adapter per core, one
    /// shared airwaves.
    Wireless,
}

impl Default for Peripheral {
    /// The cable.
    fn default() -> (peripheral: Peripheral)
        ensures
            peripheral is Cable,
    {
        Peripheral::Cable
    }
}

impl Peripheral {
    /// The most players a link built on this peripheral holds.
    pub open spec fn capacity(self) -> nat {
        match self {
            Peripheral::Cable => 4,
            Peripheral::Wireless => 63,
        }
    }

    /// Whether a link of `players` cores can be built on this peripheral.
    pub open spec fn holds(self, players: nat) -> bool {
        1 <= players <= self.capacity()
    }

    /// The most players a link built on this peripheral holds.
    pub fn max_players(self) -> (players: usize)
        ensures
            players == self.capacity(),
    {
        match self {
            Peripheral::Cable => MAX_CABLE_PLAYERS,
            Peripheral::Wireless => MAX_WIRELESS_PLAYERS,
        }
    }
}

/// No peripheral holds more than [`MAX_PLAYERS`] players, and only the
/// wireless one holds as many: a cable link caps lower, at
/// [`MAX_CABLE_PLAYERS`]. Every peripheral takes a link of one, and of any
/// number up to its capacity, and of no other.
pub proof fn law_capacity(peripheral: Peripheral)
    ensures
        1 <= peripheral.capacity() <= MAX_PLAYERS,
        peripheral.capacity() == MAX_PLAYERS <==> peripheral is Wireless,
        Peripheral::Cable.capacity() == MAX_CABLE_PLAYERS,
        Peripheral::Wireless.capacity() == MAX_WIRELESS_PLAYERS,
        Peripheral::Cable.capacity() == 4,
        Peripheral::Wireless.capacity() == 63,
        peripheral.holds(1),
        forall|players: nat| #[trigger]
            peripheral.holds(players) <==> match peripheral {
                Peripheral::Cable => 1 <= players <= 4,
                Peripheral::Wireless => 1 <= players <= 63,
            },
{
}

} // verus!

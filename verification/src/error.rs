//! The failures that a link finds by itself.

use vstd::prelude::*;

verus! {

/// A call that failed, as opposed to a failure that the emulator reported.
#[derive(Clone, Copy, PartialEq, Eq, Debug, Structural)]
pub enum CallError {
    /// A pass of a tick in which no core could run.
    Deadlock,
    /// A tick that ran more slices than [`crate::MAX_SLICES_PER_TICK`]
    /// without finishing a reference frame.
    Livelock,
    /// A boot capture that is not as long as a core savestate.
    BootStateLength,
    /// An adapter session that the driver did not take.
    AdapterState,
    /// A driver blob that the driver did not take.
    DriverState,
}

impl CallError {
    /// The failed call, in words.
    pub open spec fn text(self) -> Seq<char> {
        match self {
            CallError::Deadlock => "Link::tick (lockstep deadlock: all cores asleep)"@,
            CallError::Livelock => "Link::tick (lockstep livelock: slice cap exceeded)"@,
            CallError::BootStateLength => "boot state has the wrong length"@,
            CallError::AdapterState => "GBASIOWirelessDriverLoadAdapterState"@,
            CallError::DriverState => "GBASIOLockstepDriver::loadState"@,
        }
    }

    /// The name of the call that failed.
    pub fn call(self) -> (name: &'static str)
        ensures
            name@ == self.text(),
    {
        match self {
            CallError::Deadlock => "Link::tick (lockstep deadlock: all cores asleep)",
            CallError::Livelock => "Link::tick (lockstep livelock: slice cap exceeded)",
            CallError::BootStateLength => "boot state has the wrong length",
            CallError::AdapterState => "GBASIOWirelessDriverLoadAdapterState",
            CallError::DriverState => "GBASIOLockstepDriver::loadState",
        }
    }
}

} // verus!

//! What a link is built from.

use std::time::SystemTime;
use vstd::prelude::*;

use crate::peripheral::Peripheral;

verus! {

/// [`std::time::SystemTime`], carried through to the consoles' clocks.
/// Nothing is known of a value of it.
#[verifier::external_type_specification]
#[verifier::external_body]
pub struct ExSystemTime(SystemTime);

/// Per-core boot configuration beyond the link itself.
#[derive(Default)]
pub struct SideOptions {
    pub rom: Vec<u8>,
    /// SRAM/flash image, if resuming from an existing save.
    pub save: Option<Vec<u8>>,
}

/// What a link is booted from.
#[derive(Default)]
pub struct LinkOptions {
    /// One entry per player, 1 to [`crate::MAX_PLAYERS`]. Core `i` runs
    /// `sides[i]` and requests player `i`. A single cable side boots with no
    /// SIO driver at all, as a GBA with nothing plugged in; a single wireless
    /// side still gets its adapter.
    pub sides: Vec<SideOptions>,
    /// Pins every cart's RTC to a fixed clock. All peers of a match must use
    /// the same one, or the link diverges on the first RTC read.
    pub rtc: Option<SystemTime>,
    /// The link hardware on every core's port. All sides share one
    /// peripheral.
    pub peripheral: Peripheral,
}

/// One side of a link booted from a live capture instead of power-on: the
/// ROM, the SRAM/flash image at capture time, the serialized core state, and,
/// for a wireless link, the adapter session, so that the machine's adapter
/// resumes where it was instead of power-cycling.
pub struct BootSide {
    pub rom: Vec<u8>,
    pub save: Option<Vec<u8>>,
    pub state: Vec<u8>,
    pub adapter: Option<Vec<u8>>,
}

} // verus!

//! Rollback netplay over an emulated link cable or wireless adapter.
//!
//! All of the GBAs on a link run locally, and the link as a whole is the
//! rollback unit: the only true inputs are the joypads, and everything on
//! the wire is derived from them. This crate holds the decisions of such a
//! link. It touches no emulator: it says which steps to perform on the
//! cores and the link drivers, is told what came back, and says what
//! follows. Whoever owns the emulator performs the steps.
//!
//! - [`Link`] describes a running link and starts its operations.
//! - [`Boot`] and [`Script`] run a fixed sequence of steps: power-on, a
//!   rebuild from captures, the restore of a snapshot.
//! - [`Tick`] advances the link by one frame of the reference core.
//! - [`Snapshot`] holds everything a rollback restores, and its digest.
//! - [`Gba`] is the part of a console's state that is read and rewritten
//!   behind the emulator's own savestates.

pub mod bytes;
pub mod checksum;
pub mod digest_laws;
pub mod driver;
pub mod error;
pub mod gba;
pub mod link;
pub mod link_laws;
pub mod options;
pub mod pass_laws;
pub mod peripheral;
pub mod plan;
pub mod plan_laws;
pub mod play_laws;
pub mod script;
pub mod script_laws;
pub mod snapshot;
pub mod snapshot_laws;
pub mod stream_laws;
pub mod tick;
pub mod tick_laws;

pub use crate::driver::Driver;
pub use crate::error::CallError;
pub use crate::gba::{DmaLane, FifoLane, Gba, Sio};
pub use crate::link::{Boot, Link};
pub use crate::options::{BootSide, LinkOptions, SideOptions};
pub use crate::peripheral::{
    Peripheral, MAX_CABLE_PLAYERS, MAX_PLAYERS, MAX_WIRELESS_PLAYERS,
};
pub use crate::script::{Failure, Next, Reply, Script, Status, Step};
pub use crate::snapshot::{CoreState, Snapshot};
pub use crate::tick::{Tick, TickAction, TickEvent, MAX_SLICES_PER_TICK};

//! Snapshots of a whole link, and their digest.

use vstd::prelude::*;

use crate::bytes::{push_bytes, push_le16, push_le32, push_le32_signed};
use crate::gba::{DmaLane, FifoLane};

verus! {

/// One core's savestate: the serialized image that a restore loads, and what
/// the digest reads out of it. The image as a whole is not comparable: the
/// emulator serializes without touching reserved regions.
#[derive(PartialEq, Eq, Debug)]
pub struct CoreState {
    /// The general purpose registers.
    pub gprs: [i32; 16],
    /// The program status register.
    pub cpsr: i32,
    /// The external work RAM.
    pub wram: Vec<u8>,
    /// The internal work RAM.
    pub iwram: Vec<u8>,
    /// The serialized state, as a restore loads it.
    pub image: Vec<u8>,
}

/// A consistent snapshot of the whole linked system: every core plus every
/// driver blob (the coordinator's shared state rides in player 0's blob).
/// Core savestates alone are not sufficient: the lockstep event queues, sleep
/// flags, and in-flight transfer data live outside them.
pub struct Snapshot {
    cores: Vec<CoreState>,
    drivers: Vec<Vec<u8>>,
    audio_fifos: Vec<[FifoLane; 2]>,
    dmas: Vec<[DmaLane; 4]>,
}

/// What a snapshot holds.
pub struct SnapshotView {
    /// Each core's savestate.
    pub cores: Seq<CoreState>,
    /// Each driver's blob.
    pub drivers: Seq<Vec<u8>>,
    /// Each core's direct-sound FIFO channels (A, B).
    pub audio_fifos: Seq<[FifoLane; 2]>,
    /// Each core's DMA channels.
    pub dmas: Seq<[DmaLane; 4]>,
}

impl View for Snapshot {
    type V = SnapshotView;

    closed spec fn view(&self) -> SnapshotView {
        SnapshotView {
            cores: self.cores@,
            drivers: self.drivers@,
            audio_fifos: self.audio_fifos@,
            dmas: self.dmas@,
        }
    }
}

impl SnapshotView {
    /// What every snapshot keeps: the FIFO and DMA lanes of every core, and no
    /// more driver blobs than cores.
    pub open spec fn valid(self) -> bool {
        &&& self.audio_fifos.len() == self.cores.len()
        &&& self.dmas.len() == self.cores.len()
        &&& self.drivers.len() <= self.cores.len()
    }

    /// The bytes that the digest is the checksum of: those of each player in
    /// turn.
    pub open spec fn stream(self) -> Seq<u8> {
        crate::bytes::chain(self.cores.len(), |i: int| self.player_stream(i))
    }

    /// One player's share of the digested bytes: the core, its driver's blob
    /// if it has one, the FIFO channels and the DMA channels.
    pub open spec fn player_stream(self, i: int) -> Seq<u8> {
        core_stream(self.cores[i]) + self.blob_stream(i) + fifos_stream(self.audio_fifos[i])
            + dmas_stream(self.dmas[i])
    }

    /// The blob of player `i`'s driver; nothing for a player without one.
    pub open spec fn blob_stream(self, i: int) -> Seq<u8> {
        if i < self.drivers.len() {
            self.drivers[i]@
        } else {
            Seq::empty()
        }
    }
}

/// The digested bytes of a core: the registers and both work RAMs.
pub open spec fn core_stream(core: CoreState) -> Seq<u8> {
    crate::bytes::chain(16, |r: int| crate::bytes::le32(core.gprs[r] as int))
        + crate::bytes::le32(core.cpsr as int) + core.wram@ + core.iwram@
}

/// The digested bytes of a FIFO channel.
pub open spec fn fifo_stream(lane: FifoLane) -> Seq<u8> {
    crate::bytes::chain(8, |w: int| crate::bytes::le32(lane.fifo[w] as int))
        + crate::bytes::le32(lane.write as int) + crate::bytes::le32(lane.read as int)
        + crate::bytes::le32(lane.internal_remaining as int)
}

/// The digested bytes of a core's FIFO channels.
pub open spec fn fifos_stream(lanes: [FifoLane; 2]) -> Seq<u8> {
    crate::bytes::chain(2, |l: int| fifo_stream(lanes[l]))
}

/// The digested bytes of a DMA channel.
pub open spec fn dma_stream(lane: DmaLane) -> Seq<u8> {
    crate::bytes::le16(lane.reg as int) + crate::bytes::le32(lane.cycles as int)
        + crate::bytes::le32(lane.source_offset as int) + crate::bytes::le32(
        lane.dest_offset as int,
    )
}

/// The digested bytes of a core's DMA channels.
pub open spec fn dmas_stream(lanes: [DmaLane; 4]) -> Seq<u8> {
    crate::bytes::chain(4, |l: int| dma_stream(lanes[l]))
}

fn push_core(out: &mut Vec<u8>, core: &CoreState)
    ensures
        final(out)@ == old(out)@ + core_stream(*core),
{
    let ghost words = |r: int| crate::bytes::le32(core.gprs[r] as int);
    let mut r: usize = 0;
    while r < 16
        invariant
            r <= 16,
            words == (|r: int| crate::bytes::le32(core.gprs[r] as int)),
            out@ == old(out)@ + crate::bytes::chain(r as nat, words),
        decreases 16 - r,
    {
        push_le32_signed(out, core.gprs[r]);
        r = r + 1;
        assert(out@ =~= old(out)@ + crate::bytes::chain(r as nat, words));
    }
    push_le32_signed(out, core.cpsr);
    push_bytes(out, &core.wram);
    push_bytes(out, &core.iwram);
    assert(out@ =~= old(out)@ + core_stream(*core));
}

fn push_fifo(out: &mut Vec<u8>, lane: &FifoLane)
    ensures
        final(out)@ == old(out)@ + fifo_stream(*lane),
{
    let ghost words = |w: int| crate::bytes::le32(lane.fifo[w] as int);
    let mut w: usize = 0;
    while w < 8
        invariant
            w <= 8,
            words == (|w: int| crate::bytes::le32(lane.fifo[w] as int)),
            out@ == old(out)@ + crate::bytes::chain(w as nat, words),
        decreases 8 - w,
    {
        push_le32(out, lane.fifo[w]);
        w = w + 1;
        assert(out@ =~= old(out)@ + crate::bytes::chain(w as nat, words));
    }
    push_le32_signed(out, lane.write);
    push_le32_signed(out, lane.read);
    push_le32_signed(out, lane.internal_remaining);
    assert(out@ =~= old(out)@ + fifo_stream(*lane));
}

fn push_fifos(out: &mut Vec<u8>, lanes: &[FifoLane; 2])
    ensures
        final(out)@ == old(out)@ + fifos_stream(*lanes),
{
    let ghost pieces = |l: int| fifo_stream(lanes[l]);
    let mut l: usize = 0;
    while l < 2
        invariant
            l <= 2,
            pieces == (|l: int| fifo_stream(lanes[l])),
            out@ == old(out)@ + crate::bytes::chain(l as nat, pieces),
        decreases 2 - l,
    {
        push_fifo(out, &lanes[l]);
        l = l + 1;
        assert(out@ =~= old(out)@ + crate::bytes::chain(l as nat, pieces));
    }
}

fn push_dmas(out: &mut Vec<u8>, lanes: &[DmaLane; 4])
    ensures
        final(out)@ == old(out)@ + dmas_stream(*lanes),
{
    let ghost pieces = |l: int| dma_stream(lanes[l]);
    let mut l: usize = 0;
    while l < 4
        invariant
            l <= 4,
            pieces == (|l: int| dma_stream(lanes[l])),
            out@ == old(out)@ + crate::bytes::chain(l as nat, pieces),
        decreases 4 - l,
    {
        let ghost before = out@;
        push_le16(out, lanes[l].reg);
        push_le32_signed(out, lanes[l].cycles);
        push_le32_signed(out, lanes[l].source_offset);
        push_le32_signed(out, lanes[l].dest_offset);
        assert(out@ =~= before + dma_stream(lanes[l as int]));
        l = l + 1;
        assert(out@ =~= old(out)@ + crate::bytes::chain(l as nat, pieces));
    }
}

impl Snapshot {
    /// A snapshot of the cores' savestates, the drivers' blobs, and the
    /// cores' FIFO and DMA channels.
    pub(crate) fn new(
        cores: Vec<CoreState>,
        drivers: Vec<Vec<u8>>,
        audio_fifos: Vec<[FifoLane; 2]>,
        dmas: Vec<[DmaLane; 4]>,
    ) -> (snapshot: Snapshot)
        ensures
            snapshot@.cores == cores@,
            snapshot@.drivers == drivers@,
            snapshot@.audio_fifos == audio_fifos@,
            snapshot@.dmas == dmas@,
    {
        Snapshot { cores, drivers, audio_fifos, dmas }
    }

    /// Number of players (cores) this snapshot covers.
    pub fn num_players(&self) -> (players: usize)
        ensures
            players == self@.cores.len(),
    {
        self.cores.len()
    }

    /// Number of driver blobs in this snapshot.
    pub fn num_drivers(&self) -> (drivers: usize)
        ensures
            drivers == self@.drivers.len(),
    {
        self.drivers.len()
    }

    /// The savestate of core `i`.
    pub fn core_state(&self, i: usize) -> (state: &CoreState)
        requires
            i < self@.cores.len(),
        ensures
            *state == self@.cores[i as int],
    {
        &self.cores[i]
    }

    /// The blob of driver `i`.
    pub fn driver_blob(&self, i: usize) -> (blob: &Vec<u8>)
        requires
            i < self@.drivers.len(),
        ensures
            *blob == self@.drivers[i as int],
    {
        &self.drivers[i]
    }

    /// Mutable view of a driver blob, to set up lockstep states through the
    /// serialized form (the same bytes that a rollback restore replays).
    pub fn driver_blob_mut(&mut self, i: usize) -> (blob: &mut Vec<u8>)
        requires
            i < old(self)@.drivers.len(),
        ensures
            *blob == old(self)@.drivers[i as int],
            final(self)@.drivers == old(self)@.drivers.update(i as int, *final(blob)),
            final(self)@.cores == old(self)@.cores,
            final(self)@.audio_fifos == old(self)@.audio_fifos,
            final(self)@.dmas == old(self)@.dmas,
    {
        &mut self.drivers[i]
    }

    /// The direct-sound FIFO channels of core `i`.
    pub fn audio_fifos(&self, i: usize) -> (lanes: &[FifoLane; 2])
        requires
            i < self@.audio_fifos.len(),
        ensures
            *lanes == self@.audio_fifos[i as int],
    {
        &self.audio_fifos[i]
    }

    /// The DMA channels of core `i`.
    pub fn dmas(&self, i: usize) -> (lanes: &[DmaLane; 4])
        requires
            i < self@.dmas.len(),
        ensures
            *lanes == self@.dmas[i as int],
    {
        &self.dmas[i]
    }

    /// Digest of the rollback-relevant state, comparable across peers that
    /// simulate the same link. It is built from discrete savestate fields
    /// rather than from the serialized images: registers, both RAMs, the
    /// drivers' blobs and the channels' state expose any divergence within a
    /// tick or two.
    pub fn digest(&self) -> (digest: u32)
        requires
            self@.valid(),
        ensures
            digest == crate::checksum::crc32(self@.stream()),
    {
        let ghost pieces = |i: int| self@.player_stream(i);
        let mut out: Vec<u8> = Vec::new();
        let mut i: usize = 0;
        while i < self.cores.len()
            invariant
                i <= self.cores.len(),
                self@.valid(),
                self@.cores == self.cores@,
                pieces == (|i: int| self@.player_stream(i)),
                out@ == crate::bytes::chain(i as nat, pieces),
            decreases self.cores.len() - i,
        {
            let ghost before = out@;
            push_core(&mut out, &self.cores[i]);
            if i < self.drivers.len() {
                push_bytes(&mut out, &self.drivers[i]);
            }
            push_fifos(&mut out, &self.audio_fifos[i]);
            push_dmas(&mut out, &self.dmas[i]);
            assert(out@ =~= before + self@.player_stream(i as int));
            i = i + 1;
            assert(out@ =~= crate::bytes::chain(i as nat, pieces));
        }
        crc32fast::hash(out.as_slice())
    }
}

} // verus!

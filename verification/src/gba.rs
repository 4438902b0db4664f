//! The part of a console's state that a link reads and rewrites behind the
//! emulator's savestates.
//!
//! A core savestate is lossy in two places that a rollback must carry by
//! itself. It packs the sample countdown of each direct-sound FIFO into two
//! bits, so a restored core would refill its FIFO at another time than the
//! live one did. And it rebuilds the DMA control state from the io block,
//! which is not the truth while a FIFO refill is under way. So a snapshot
//! holds both verbatim, and a restore forces them back.
//!
//! A boot capture that is loaded onto a new cable describes the old one. Its
//! cable-dependent SIO state is neutralized, so that the game announces its
//! link mode to the new cable.

use vstd::prelude::*;

verus! {

/// The io block index of SIOCNT (register address 0x128).
pub const REG_SIOCNT: usize = 0x128 / 2;

/// The io block index of RCNT (register address 0x134).
pub const REG_RCNT: usize = 0x134 / 2;

/// The SIOCNT bits that describe a cable: the mode bits 12 and 13, and the
/// line and status bits 2 to 7 (slave, ready, multi-ID, error, busy).
pub const SIOCNT_CABLE_BITS: u16 = 0x30fc;

/// Raw image of one direct-sound FIFO channel: ring contents, absolute ring
/// pointers, and the internal sample countdown.
#[derive(Clone, Copy, PartialEq, Eq, Debug)]
pub struct FifoLane {
    pub fifo: [u32; 8],
    pub write: i32,
    pub read: i32,
    pub internal_remaining: i32,
}

/// Raw image of one DMA channel's control state: the internal control
/// register plus the values derived from it.
#[derive(Clone, Copy, PartialEq, Eq, Debug, Structural)]
pub struct DmaLane {
    pub reg: u16,
    pub cycles: i32,
    pub source_offset: i32,
    pub dest_offset: i32,
}

/// A console's serial port.
#[derive(Clone, Copy, PartialEq, Eq, Debug, Structural)]
pub struct Sio {
    /// The shadow of SIOCNT.
    pub siocnt: u16,
    /// The shadow of RCNT.
    pub rcnt: u16,
    /// The link mode, as the number that the emulator gives it.
    pub mode: u16,
    /// Whether the completion of a transfer is scheduled.
    pub completion_scheduled: bool,
}

/// The part of a console's state that is read and rewritten here.
#[derive(PartialEq, Eq, Debug)]
pub struct Gba {
    /// The io block, by register address over two.
    pub io: Vec<u16>,
    /// The serial port.
    pub sio: Sio,
    /// Direct-sound channel A.
    pub ch_a: FifoLane,
    /// Direct-sound channel B.
    pub ch_b: FifoLane,
    /// The DMA channels.
    pub dma: [DmaLane; 4],
}

/// The link mode that a serial port is in: JOYBUS (12) or GPIO (8) where RCNT
/// says so, else the mode bits of SIOCNT.
pub open spec fn sio_mode(siocnt: u16, rcnt: u16) -> u16 {
    if rcnt >= 0xc000 {
        12
    } else if rcnt >= 0x8000 {
        8
    } else {
        (siocnt as int / 0x1000 % 4) as u16
    }
}

/// A serial port that was taken off its cable: the registers are those of
/// the io block without the bits that describe a cable, the mode follows
/// from them, and no transfer is about to complete.
pub open spec fn neutral_sio(io_siocnt: u16, io_rcnt: u16) -> Sio {
    Sio {
        siocnt: io_siocnt & !SIOCNT_CABLE_BITS,
        rcnt: io_rcnt,
        mode: sio_mode(io_siocnt & !SIOCNT_CABLE_BITS, io_rcnt),
        completion_scheduled: false,
    }
}

/// The link mode that a serial port is in, from its two registers.
pub fn derive_mode(siocnt: u16, rcnt: u16) -> (mode: u16)
    ensures
        mode == sio_mode(siocnt, rcnt),
{
    let bits: u16 = ((rcnt & 0xc000) | (siocnt & 0x3000)) >> 12;
    let mode: u16 = if bits < 8 {
        bits & 0x3
    } else {
        bits & 0xc
    };
    assert(mode == sio_mode(siocnt, rcnt)) by {
        let ghost b = ((rcnt & 0xc000) | (siocnt & 0x3000)) >> 12;
        assert(rcnt >= 0xc000 ==> b >= 8 && (b & 0xc) == 12) by (bit_vector)
            requires
                b == ((rcnt & 0xc000) | (siocnt & 0x3000)) >> 12,
        ;
        assert(0x8000 <= rcnt < 0xc000 ==> b >= 8 && (b & 0xc) == 8) by (bit_vector)
            requires
                b == ((rcnt & 0xc000) | (siocnt & 0x3000)) >> 12,
        ;
        assert(rcnt < 0x8000 ==> b < 8 && (b & 0x3) == (siocnt / 0x1000) % 4) by (bit_vector)
            requires
                b == ((rcnt & 0xc000) | (siocnt & 0x3000)) >> 12,
        ;
    }
    mode
}

/// Deschedules the completion of a transfer: on a new cable it belongs to a
/// transfer on the old one, and must not fire.
pub fn deschedule_sio_complete(gba: &mut Gba)
    ensures
        *final(gba) == (Gba {
            sio: Sio { completion_scheduled: false, ..old(gba).sio },
            ..*old(gba)
        }),
{
    gba.sio.completion_scheduled = false;
}

/// Neutralizes the cable-dependent state of a console that a boot capture
/// was just loaded into.
pub fn neutralize_sio(gba: &mut Gba)
    requires
        old(gba).io.len() > REG_RCNT,
    ensures
        *final(gba) == (Gba {
            sio: neutral_sio(old(gba).io[REG_SIOCNT as int], old(gba).io[REG_RCNT as int]),
            ..*old(gba)
        }),
        !final(gba).sio.completion_scheduled,
        final(gba).sio.siocnt == old(gba).io[0x94] & 0xcf03,
        final(gba).sio.rcnt == old(gba).io[0x9a],
        old(gba).io[0x9a] & 0x8000 == 0 ==> final(gba).sio.mode == 0,
        old(gba).io[0x9a] & 0x8000 != 0 ==> final(gba).sio.mode == (old(gba).io[0x9a] & 0xc000)
            >> 12,
        final(gba).io@ == old(gba).io@,
        final(gba).ch_a == old(gba).ch_a,
        final(gba).ch_b == old(gba).ch_b,
        final(gba).dma == old(gba).dma,
{
    let ghost siocnt = gba.io[REG_SIOCNT as int];
    assert(siocnt & !0x30fcu16 == siocnt & 0xcf03) by (bit_vector);
    proof {
        law_neutral_mode(siocnt, gba.io[REG_RCNT as int]);
    }
    deschedule_sio_complete(gba);
    gba.sio.siocnt = gba.io[REG_SIOCNT] & !SIOCNT_CABLE_BITS;
    gba.sio.rcnt = gba.io[REG_RCNT];
    gba.sio.mode = derive_mode(gba.sio.siocnt, gba.sio.rcnt);
}

/// The direct-sound FIFO channels A and B, verbatim.
pub fn audio_fifo_state(gba: &Gba) -> (lanes: [FifoLane; 2])
    ensures
        lanes@ == seq![gba.ch_a, gba.ch_b],
{
    let lanes: [FifoLane; 2] = [gba.ch_a, gba.ch_b];
    assert(lanes@ =~= seq![gba.ch_a, gba.ch_b]);
    lanes
}

/// Forces the direct-sound FIFO channels back to what was recorded.
pub fn restore_audio_fifos(gba: &mut Gba, lanes: &[FifoLane; 2])
    ensures
        *final(gba) == (Gba { ch_a: lanes[0], ch_b: lanes[1], ..*old(gba) }),
        seq![final(gba).ch_a, final(gba).ch_b] == lanes@,
        final(gba).io@ == old(gba).io@,
        final(gba).sio == old(gba).sio,
        final(gba).dma == old(gba).dma,
{
    gba.ch_a = lanes[0];
    gba.ch_b = lanes[1];
}

/// The internal DMA control state, verbatim.
pub fn dma_state(gba: &Gba) -> (lanes: [DmaLane; 4])
    ensures
        lanes == gba.dma,
{
    gba.dma
}

/// Forces the internal DMA control state back to what was recorded.
pub fn restore_dmas(gba: &mut Gba, lanes: &[DmaLane; 4])
    ensures
        *final(gba) == (Gba { dma: *lanes, ..*old(gba) }),
        final(gba).dma@ == lanes@,
        final(gba).io@ == old(gba).io@,
        final(gba).sio == old(gba).sio,
        final(gba).ch_a == old(gba).ch_a,
        final(gba).ch_b == old(gba).ch_b,
{
    gba.dma = *lanes;
}

/// A neutralized port carries none of the bits that describe a cable, and
/// keeps all others.
pub proof fn law_neutral_bits(io_siocnt: u16, io_rcnt: u16)
    ensures
        neutral_sio(io_siocnt, io_rcnt).siocnt & SIOCNT_CABLE_BITS == 0,
        neutral_sio(io_siocnt, io_rcnt).siocnt & !SIOCNT_CABLE_BITS == io_siocnt
            & !SIOCNT_CABLE_BITS,
        neutral_sio(io_siocnt, io_rcnt).rcnt == io_rcnt,
        SIOCNT_CABLE_BITS == 0x30fc,
        neutral_sio(io_siocnt, io_rcnt).siocnt == io_siocnt & 0xcf03,
{
    assert(io_siocnt & !0x30fcu16 == io_siocnt & 0xcf03) by (bit_vector);
    assert((io_siocnt & !0x30fcu16) & 0x30fc == 0) by (bit_vector);
    assert((io_siocnt & !0x30fcu16) & !0x30fcu16 == io_siocnt & !0x30fcu16) by (bit_vector);
}

/// Nothing of the old cable fires on the new one: whatever a capture's
/// registers hold, a neutralized port has no transfer about to complete.
pub proof fn law_nothing_completes(io_siocnt: u16, io_rcnt: u16)
    ensures
        !neutral_sio(io_siocnt, io_rcnt).completion_scheduled,
{
}

/// The link mode is what the hardware makes of the registers: the two bits
/// that RCNT has on top decide where the highest of them is set, and the mode
/// bits of SIOCNT where it is not.
pub proof fn law_mode_follows_the_bits(siocnt: u16, rcnt: u16)
    ensures
        rcnt & 0x8000 != 0 ==> sio_mode(siocnt, rcnt) == (rcnt & 0xc000) >> 12,
        rcnt & 0x8000 == 0 ==> sio_mode(siocnt, rcnt) == (siocnt & 0x3000) >> 12,
{
    let high = (rcnt & 0xc000) >> 12;
    let low = (siocnt & 0x3000) >> 12;
    assert(rcnt & 0x8000 != 0 <==> rcnt >= 0x8000) by (bit_vector);
    assert(rcnt >= 0xc000 ==> high == 12) by (bit_vector)
        requires
            high == (rcnt & 0xc000) >> 12,
    ;
    assert(0x8000 <= rcnt < 0xc000 ==> high == 8) by (bit_vector)
        requires
            high == (rcnt & 0xc000) >> 12,
    ;
    assert(low == (siocnt / 0x1000) % 4) by (bit_vector)
        requires
            low == (siocnt & 0x3000) >> 12,
    ;
}

/// No status bit of the old cable survives: the emulator ORs bits 2 to 7 of
/// the shadow back into every SIOCNT write, and a neutralized shadow adds
/// nothing to what is written.
pub proof fn law_no_stale_status(io_siocnt: u16, io_rcnt: u16, written: u16)
    ensures
        (written & !0xfcu16) | (neutral_sio(io_siocnt, io_rcnt).siocnt & 0xfc) == written
            & !0xfcu16,
{
    assert((written & !0xfcu16) | ((io_siocnt & !0x30fcu16) & 0xfc) == written & !0xfcu16)
        by (bit_vector);
}

/// The game announces its link mode to the new cable: whatever mode a game
/// sets through SIOCNT, other than mode 0, it is not the mode that a
/// neutralized port is in, so the write is a mode switch.
pub proof fn law_mode_is_announced(io_siocnt: u16, io_rcnt: u16, written: u16)
    requires
        io_rcnt < 0x8000,
        written & 0x3000 != 0,
    ensures
        neutral_sio(io_siocnt, io_rcnt).mode == 0,
        sio_mode(written, io_rcnt) != neutral_sio(io_siocnt, io_rcnt).mode,
{
    assert(((io_siocnt & !0x30fcu16) / 0x1000) % 4 == 0) by (bit_vector);
    assert((written / 0x1000) % 4 != 0) by (bit_vector)
        requires
            written & 0x3000 != 0,
    ;
}

/// The mode of a neutralized port follows from RCNT alone.
pub proof fn law_neutral_mode(io_siocnt: u16, io_rcnt: u16)
    ensures
        neutral_sio(io_siocnt, io_rcnt).mode == sio_mode(0, io_rcnt),
        io_rcnt & 0x8000 == 0 ==> neutral_sio(io_siocnt, io_rcnt).mode == 0,
        io_rcnt & 0x8000 != 0 ==> neutral_sio(io_siocnt, io_rcnt).mode == (io_rcnt & 0xc000)
            >> 12,
{
    law_mode_follows_the_bits(0, io_rcnt);
    assert((0u16 & 0x3000) >> 12 == 0) by (bit_vector);
    assert(((io_siocnt & !0x30fcu16) / 0x1000) % 4 == 0) by (bit_vector);
}

} // verus!

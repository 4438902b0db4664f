use mgba_siolink::gba::{
    audio_fifo_state, derive_mode, deschedule_sio_complete, dma_state, neutralize_sio,
    restore_audio_fifos, restore_dmas, REG_RCNT, REG_SIOCNT,
};
use mgba_siolink::{DmaLane, FifoLane, Gba, Sio};

fn lane(seed: u32) -> FifoLane {
    FifoLane {
        fifo: [seed, seed + 1, seed + 2, seed + 3, seed + 4, seed + 5, seed + 6, seed + 7],
        write: 3,
        read: 1,
        internal_remaining: 4,
    }
}

fn dma(reg: u16) -> DmaLane {
    DmaLane {
        reg,
        cycles: 2,
        source_offset: 4,
        dest_offset: -4,
    }
}

fn gba(siocnt: u16, rcnt: u16) -> Gba {
    let mut io = vec![0u16; 0x200];
    io[REG_SIOCNT] = siocnt;
    io[REG_RCNT] = rcnt;
    Gba {
        io,
        sio: Sio {
            siocnt: 0xffff,
            rcnt: 0xffff,
            mode: 2,
            completion_scheduled: true,
        },
        ch_a: lane(10),
        ch_b: lane(20),
        dma: [dma(1), dma(2), dma(3), dma(4)],
    }
}

#[test]
fn the_registers_sit_where_the_hardware_has_them() {
    assert_eq!(REG_SIOCNT, 0x94);
    assert_eq!(REG_RCNT, 0x9a);
}

#[test]
fn a_multi_capture_is_taken_off_its_cable() {
    // MULTI mode, slave, ready, player 1, busy, IRQ enabled, 115200 bps.
    let mut gba = gba(0x6000 | 0x80 | 0x10 | 0x0c | 0x03, 0);
    neutralize_sio(&mut gba);
    assert_eq!(
        gba.sio,
        Sio {
            siocnt: 0x4003,
            rcnt: 0,
            mode: 0,
            completion_scheduled: false,
        }
    );
    // The io block, the channels and the DMAs are left alone.
    assert_eq!(gba.io[REG_SIOCNT], 0x609f);
    assert_eq!(gba.ch_a, lane(10));
    assert_eq!(gba.ch_b, lane(20));
    assert_eq!(gba.dma, [dma(1), dma(2), dma(3), dma(4)]);
    // Setting MULTI mode again is a mode switch.
    assert_eq!(derive_mode(0x6003, 0), 2);
}

#[test]
fn modes_follow_the_registers() {
    assert_eq!(derive_mode(0x0000, 0x0000), 0);
    assert_eq!(derive_mode(0x1000, 0x0000), 1);
    assert_eq!(derive_mode(0x2000, 0x0000), 2);
    assert_eq!(derive_mode(0x3000, 0x0000), 3);
    assert_eq!(derive_mode(0x3000, 0x4000), 3);
    assert_eq!(derive_mode(0x3000, 0x8000), 8);
    assert_eq!(derive_mode(0x1000, 0xc000), 12);
    assert_eq!(derive_mode(0xffff, 0xffff), 12);
}

#[test]
fn gpio_and_joybus_captures_keep_their_mode() {
    let mut gpio = gba(0x1003, 0x80a2);
    neutralize_sio(&mut gpio);
    assert_eq!(gpio.sio.mode, 8);
    assert_eq!(gpio.sio.rcnt, 0x80a2);
    assert_eq!(gpio.sio.siocnt, 0x0003);
    let mut joybus = gba(0, 0xc000);
    neutralize_sio(&mut joybus);
    assert_eq!(joybus.sio.mode, 12);
}

#[test]
fn no_status_bit_survives() {
    for siocnt in [0x0000u16, 0x00fc, 0x30fc, 0xffff, 0x2080] {
        let mut gba = gba(siocnt, 0);
        neutralize_sio(&mut gba);
        let written = 0x2003u16;
        assert_eq!((written & !0xfc) | (gba.sio.siocnt & 0xfc), 0x2003);
    }
}

#[test]
fn descheduling_touches_nothing_else() {
    let mut gba = gba(0x1234, 0x5678);
    deschedule_sio_complete(&mut gba);
    assert_eq!(
        gba.sio,
        Sio {
            siocnt: 0xffff,
            rcnt: 0xffff,
            mode: 2,
            completion_scheduled: false,
        }
    );
}

#[test]
fn channels_come_back_as_recorded() {
    let live = gba(0, 0);
    let fifos = audio_fifo_state(&live);
    let dmas = dma_state(&live);
    assert_eq!(fifos, [lane(10), lane(20)]);
    assert_eq!(dmas, [dma(1), dma(2), dma(3), dma(4)]);

    // A lossy load: the countdown became 0, a control register its io image.
    let mut loaded = gba(0x77, 0x88);
    loaded.ch_a.internal_remaining = 0;
    loaded.ch_b = lane(99);
    loaded.dma[1].reg = 0xb640;
    restore_audio_fifos(&mut loaded, &fifos);
    restore_dmas(&mut loaded, &dmas);
    assert_eq!(loaded.ch_a, live.ch_a);
    assert_eq!(loaded.ch_b, live.ch_b);
    assert_eq!(loaded.dma, live.dma);
    assert_eq!(loaded.io[REG_SIOCNT], 0x77);
    assert_eq!(loaded.sio, live.sio);
}

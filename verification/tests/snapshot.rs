use mgba_siolink::{
    CallError, CoreState, DmaLane, Failure, FifoLane, Gba, Link, LinkOptions, Next, Peripheral,
    Reply, SideOptions, Sio, Snapshot, Step,
};

fn booted(players: usize, peripheral: Peripheral) -> Link {
    let options = LinkOptions {
        sides: (0..players)
            .map(|_| SideOptions {
                rom: vec![0],
                save: None,
            })
            .collect(),
        rtc: None,
        peripheral,
    };
    let mut boot = Link::with_options(&options);
    while let Next::Perform(_) = boot.advance(Reply::Done) {}
    boot.finish().unwrap()
}

fn saved(first_gpr: i32, cpsr: i32, wram: &[u8], iwram: &[u8], image: u8) -> CoreState {
    let mut gprs = [0i32; 16];
    for (r, gpr) in gprs.iter_mut().enumerate() {
        *gpr = first_gpr + r as i32;
    }
    CoreState {
        gprs,
        cpsr,
        wram: wram.to_vec(),
        iwram: iwram.to_vec(),
        image: vec![image; 4],
    }
}

fn lane(seed: u32) -> FifoLane {
    FifoLane {
        fifo: [seed, seed + 1, seed + 2, seed + 3, seed + 4, seed + 5, seed + 6, seed + 7],
        write: 3,
        read: -1,
        internal_remaining: 4,
    }
}

fn dma(reg: u16) -> DmaLane {
    DmaLane {
        reg,
        cycles: 2,
        source_offset: -4,
        dest_offset: 0,
    }
}

fn gba(a: u32, b: u32, regs: [u16; 4]) -> Gba {
    Gba {
        io: vec![0; 0x200],
        sio: Sio {
            siocnt: 0,
            rcnt: 0,
            mode: 0,
            completion_scheduled: false,
        },
        ch_a: lane(a),
        ch_b: lane(b),
        dma: [dma(regs[0]), dma(regs[1]), dma(regs[2]), dma(regs[3])],
    }
}

fn cores(image: u8) -> Vec<CoreState> {
    vec![
        saved(100, 0x6000_001f, &[1, 2, 3], &[4, 5], image),
        saved(-200, -1, &[6, 7, 8], &[9, 10], image),
    ]
}

fn gbas() -> Vec<Gba> {
    vec![gba(10, 20, [1, 2, 3, 0xb640]), gba(30, 40, [5, 6, 7, 8])]
}

fn two_players(image: u8) -> Snapshot {
    booted(2, Peripheral::Cable).save(
        cores(image),
        vec![vec![0xaa, 0xbb], vec![0xcc, 0xdd]],
        &gbas(),
    )
}

#[test]
fn a_snapshot_holds_what_was_saved() {
    let snapshot = two_players(0);
    assert_eq!(snapshot.num_players(), 2);
    assert_eq!(snapshot.num_drivers(), 2);
    assert_eq!(*snapshot.core_state(1), cores(0)[1]);
    assert_eq!(*snapshot.driver_blob(0), vec![0xaa, 0xbb]);
    assert_eq!(*snapshot.audio_fifos(0), [lane(10), lane(20)]);
    assert_eq!(snapshot.dmas(1)[3], dma(8));
}

#[test]
fn the_digest_is_the_checksum_of_the_digested_fields() {
    assert_eq!(two_players(0).digest(), 0x8c82_e1a1);
}

#[test]
fn the_digest_of_a_solo_cable_has_no_blob() {
    let snapshot = booted(1, Peripheral::Cable).save(
        vec![saved(100, 0x6000_001f, &[1, 2, 3], &[4, 5], 0)],
        vec![],
        &vec![gba(10, 20, [1, 2, 3, 0xb640])],
    );
    assert_eq!(snapshot.num_drivers(), 0);
    assert_eq!(snapshot.digest(), 0x5996_32af);
}

#[test]
fn the_digest_equals_a_running_checksum() {
    let mut hasher = crc32fast::Hasher::new();
    let blobs = [[0xaau8, 0xbb], [0xcc, 0xdd]];
    for (i, (core, gba)) in cores(0).iter().zip(gbas().iter()).enumerate() {
        for gpr in core.gprs {
            hasher.update(&gpr.to_le_bytes());
        }
        hasher.update(&core.cpsr.to_le_bytes());
        hasher.update(&core.wram);
        hasher.update(&core.iwram);
        hasher.update(&blobs[i]);
        for lane in [gba.ch_a, gba.ch_b] {
            for word in lane.fifo {
                hasher.update(&word.to_le_bytes());
            }
            hasher.update(&lane.write.to_le_bytes());
            hasher.update(&lane.read.to_le_bytes());
            hasher.update(&lane.internal_remaining.to_le_bytes());
        }
        for dma in gba.dma {
            hasher.update(&dma.reg.to_le_bytes());
            hasher.update(&dma.cycles.to_le_bytes());
            hasher.update(&dma.source_offset.to_le_bytes());
            hasher.update(&dma.dest_offset.to_le_bytes());
        }
    }
    assert_eq!(two_players(0).digest(), hasher.finalize());
}

#[test]
fn images_do_not_show_in_the_digest() {
    assert_eq!(two_players(1).digest(), two_players(2).digest());
}

#[test]
fn a_divergence_shows_in_the_digest() {
    let plain = two_players(0).digest();
    let mut blob = two_players(0);
    blob.driver_blob_mut(1)[0] ^= 1;
    assert_ne!(blob.digest(), plain);

    let link = booted(2, Peripheral::Cable);
    let blobs = || vec![vec![0xaa, 0xbb], vec![0xcc, 0xdd]];
    let mut changed = cores(0);
    changed[1].gprs[15] += 1;
    assert_ne!(link.save(changed, blobs(), &gbas()).digest(), plain);
    let mut changed = gbas();
    changed[0].ch_b.internal_remaining = 0;
    assert_ne!(link.save(cores(0), blobs(), &changed).digest(), plain);
    let mut changed = gbas();
    changed[1].dma[2].reg = 0x1000;
    assert_ne!(link.save(cores(0), blobs(), &changed).digest(), plain);
}

/// Every kind of digested field, of either player.
#[test]
fn every_field_shows_in_the_digest() {
    let link = booted(2, Peripheral::Cable);
    let plain = two_players(0).digest();
    let fields: Vec<fn(&mut CoreState, &mut Vec<u8>, &mut Gba)> = vec![
        |core, _, _| core.gprs[0] = !core.gprs[0],
        |core, _, _| core.gprs[13] ^= 1 << 31,
        |core, _, _| core.cpsr ^= 0x20,
        |core, _, _| core.wram[2] ^= 0xff,
        |core, _, _| core.iwram[0] ^= 0x80,
        |_, blob, _| blob[1] ^= 1,
        |_, _, gba| gba.ch_a.fifo[7] ^= 0xedb8_8320,
        |_, _, gba| gba.ch_b.write -= 1,
        |_, _, gba| gba.ch_a.read = i32::MAX,
        |_, _, gba| gba.ch_b.internal_remaining = 0,
        |_, _, gba| gba.dma[0].reg ^= 0xffff,
        |_, _, gba| gba.dma[1].cycles = i32::MIN,
        |_, _, gba| gba.dma[2].source_offset = 4,
        |_, _, gba| gba.dma[3].dest_offset = -2,
    ];
    for change in fields {
        for player in 0..2 {
            let mut states = cores(0);
            let mut blobs = vec![vec![0xaa, 0xbb], vec![0xcc, 0xdd]];
            let mut consoles = gbas();
            change(&mut states[player], &mut blobs[player], &mut consoles[player]);
            assert_ne!(link.save(states, blobs, &consoles).digest(), plain);
        }
    }
}

#[test]
fn a_blob_is_written_in_place() {
    let mut snapshot = two_players(0);
    snapshot.driver_blob_mut(0).copy_from_slice(&[1, 2]);
    assert_eq!(*snapshot.driver_blob(0), vec![1, 2]);
    assert_eq!(*snapshot.driver_blob(1), vec![0xcc, 0xdd]);
    assert_eq!(*snapshot.core_state(0), cores(0)[0]);
}

#[test]
fn cores_restore_before_drivers() {
    let snapshot = two_players(0);
    let mut script = booted(2, Peripheral::Cable).load(&snapshot);
    let mut steps = Vec::new();
    let over = loop {
        match script.advance(Reply::Done) {
            Next::Perform(step) => steps.push(step),
            over => break over,
        }
    };
    assert_eq!(over, Next::Finished);
    assert_eq!(
        steps,
        vec![
            Step::RestoreState { core: 0, state: &cores(0)[0] },
            Step::RestoreAudioFifos { core: 0, fifos: &[lane(10), lane(20)] },
            Step::RestoreDmas { core: 0, dmas: &[dma(1), dma(2), dma(3), dma(0xb640)] },
            Step::RestoreState { core: 1, state: &cores(0)[1] },
            Step::RestoreAudioFifos { core: 1, fifos: &[lane(30), lane(40)] },
            Step::RestoreDmas { core: 1, dmas: &[dma(5), dma(6), dma(7), dma(8)] },
            Step::LoadDriverState { index: 0, blob: &vec![0xaa, 0xbb] },
            Step::LoadDriverState { index: 1, blob: &vec![0xcc, 0xdd] },
        ]
    );
}

/// A whole restore, on consoles whose channels a savestate load garbles.
#[test]
fn a_restore_brings_everything_back() {
    let snapshot = two_players(3);
    let link = booted(2, Peripheral::Cable);
    let mut states = vec![saved(0, 0, &[0], &[0], 0), saved(0, 0, &[0], &[0], 0)];
    let mut consoles = vec![gba(7, 7, [7; 4]), gba(7, 7, [7; 4])];
    let mut blobs = vec![vec![0u8], vec![0]];
    let mut script = link.load(&snapshot);
    while let Next::Perform(step) = script.advance(Reply::Done) {
        match step {
            Step::RestoreState { core, state } => {
                states[core] = CoreState {
                    gprs: state.gprs,
                    cpsr: state.cpsr,
                    wram: state.wram.clone(),
                    iwram: state.iwram.clone(),
                    image: state.image.clone(),
                };
                consoles[core] = gba(1, 1, [0; 4]);
            }
            Step::RestoreAudioFifos { core, fifos } => {
                mgba_siolink::gba::restore_audio_fifos(&mut consoles[core], fifos)
            }
            Step::RestoreDmas { core, dmas } => {
                mgba_siolink::gba::restore_dmas(&mut consoles[core], dmas)
            }
            Step::LoadDriverState { index, blob } => blobs[index] = blob.clone(),
            _ => panic!("not a step of a restore"),
        }
    }
    assert_eq!(script.advance(Reply::Done), Next::Finished);
    assert_eq!(states, cores(3));
    assert_eq!(consoles, gbas());
    assert_eq!(blobs, vec![vec![0xaa, 0xbb], vec![0xcc, 0xdd]]);
    let again = link.save(states, blobs, &consoles);
    assert_eq!(again.digest(), snapshot.digest());
}

#[test]
fn a_refused_blob_ends_the_restore() {
    let snapshot = two_players(0);
    let mut script = booted(2, Peripheral::Cable).load(&snapshot);
    loop {
        if let Next::Perform(Step::LoadDriverState { index: 0, .. }) = script.advance(Reply::Done)
        {
            break;
        }
    }
    assert_eq!(
        script.advance(Reply::Refused),
        Next::Failed(Failure::Call(CallError::DriverState))
    );
    assert_eq!(
        CallError::DriverState.call(),
        "GBASIOLockstepDriver::loadState"
    );
}

#[test]
fn a_failed_core_load_ends_the_restore() {
    let snapshot = two_players(0);
    let mut script = booted(2, Peripheral::Wireless).load(&snapshot);
    assert!(matches!(script.advance(Reply::Done), Next::Perform(_)));
    assert_eq!(
        script.advance(Reply::Failed),
        Next::Failed(Failure::Emulator)
    );
}

#[test]
fn a_link_ticks_with_one_key_set_per_player() {
    let link = booted(2, Peripheral::Wireless);
    let tick = link.try_tick(vec![5, 6]);
    assert_eq!(
        tick.action(),
        mgba_siolink::TickAction::SetKeys { core: 0, keys: 5 }
    );
}

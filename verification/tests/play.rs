use mgba_siolink::gba::{restore_audio_fifos, restore_dmas};
use mgba_siolink::{
    BootSide, CallError, CoreState, DmaLane, FifoLane, Gba, Link, Next, Peripheral, Reply, Sio,
    Snapshot, Step, TickAction, TickEvent,
};

/// Small machines whose every move follows from what a snapshot holds.
struct Machines {
    states: Vec<CoreState>,
    gbas: Vec<Gba>,
    blobs: Vec<Vec<u8>>,
}

fn copy(state: &CoreState) -> CoreState {
    CoreState {
        gprs: state.gprs,
        cpsr: state.cpsr,
        wram: state.wram.clone(),
        iwram: state.iwram.clone(),
        image: state.image.clone(),
    }
}

fn console() -> Gba {
    let lane = FifoLane {
        fifo: [0; 8],
        write: 0,
        read: 0,
        internal_remaining: 0,
    };
    let dma = DmaLane {
        reg: 0,
        cycles: 0,
        source_offset: 0,
        dest_offset: 0,
    };
    Gba {
        io: vec![0; 0x200],
        sio: Sio {
            siocnt: 0,
            rcnt: 0,
            mode: 0,
            completion_scheduled: false,
        },
        ch_a: lane,
        ch_b: lane,
        dma: [dma; 4],
    }
}

impl Machines {
    fn empty() -> Machines {
        Machines {
            states: Vec::new(),
            gbas: Vec::new(),
            blobs: Vec::new(),
        }
    }

    /// A step of a boot or a restore.
    fn perform(&mut self, step: Step) {
        match step {
            Step::NewCore { .. } => {
                self.states.push(CoreState {
                    gprs: [0; 16],
                    cpsr: 0x1f,
                    wram: vec![0; 4],
                    iwram: vec![0; 2],
                    image: vec![0; 4],
                });
                self.gbas.push(console());
            }
            Step::NewDriver { .. } => self.blobs.push(vec![0; 3]),
            Step::LoadRom { core, rom } => self.states[core].iwram[0] = rom[0],
            Step::LoadState { core, image } => self.states[core].gprs[2] = image[0] as i32,
            Step::LoadAdapterState { index, blob } => self.blobs[index][2] = blob[0],
            Step::RestoreState { core, state } => {
                self.states[core] = copy(state);
                self.gbas[core] = console();
            }
            Step::RestoreAudioFifos { core, fifos } => {
                restore_audio_fifos(&mut self.gbas[core], fifos)
            }
            Step::RestoreDmas { core, dmas } => restore_dmas(&mut self.gbas[core], dmas),
            Step::LoadDriverState { index, blob } => self.blobs[index] = blob.clone(),
            _ => {}
        }
    }

    fn slice(&mut self, core: usize) {
        let state = &mut self.states[core];
        state.gprs[0] = state.gprs[0]
            .wrapping_mul(31)
            .wrapping_add(state.wram[0] as i32 + state.gprs[2] + self.gbas[core].ch_a.write);
        state.cpsr += 1;
        if core == 0 && state.cpsr % 5 == 0 {
            state.gprs[1] += 1;
        }
        self.gbas[core].ch_a.write += 3;
        self.gbas[core].dma[1].cycles += state.iwram[0] as i32;
        // A slice now and then parks the core until the next poll.
        self.blobs[core][0] = (state.cpsr % 3 == 0 && core != 0) as u8;
    }

    fn answer(&mut self, action: TickAction) -> TickEvent {
        match action {
            TickAction::SetKeys { core, keys } => {
                self.states[core].wram[0] = keys as u8;
                TickEvent::Done
            }
            TickAction::ReadFrameCounter => TickEvent::FrameCounter(self.states[0].gprs[1] as u32),
            TickAction::PollAsleep { core } => {
                let asleep = self.blobs[core][0] != 0;
                self.blobs[core][0] = 0;
                TickEvent::Asleep(asleep)
            }
            TickAction::RunLoop { core } => {
                self.slice(core);
                TickEvent::Done
            }
            _ => panic!("the tick is over"),
        }
    }

    fn tick(&mut self, link: &Link, keys: Vec<u32>) -> Result<usize, CallError> {
        let mut tick = link.try_tick(keys);
        loop {
            if let Some(outcome) = tick.outcome() {
                return outcome;
            }
            let event = self.answer(tick.action());
            tick.advance(event);
        }
    }

    fn save(&self, link: &Link) -> Snapshot {
        let cores = self.states.iter().map(|state| copy(state)).collect();
        let gbas = self
            .gbas
            .iter()
            .map(|gba| Gba {
                io: gba.io.clone(),
                sio: gba.sio,
                ch_a: gba.ch_a,
                ch_b: gba.ch_b,
                dma: gba.dma,
            })
            .collect();
        link.save(cores, self.blobs.clone(), &gbas)
    }

    fn load(&mut self, link: &Link, snapshot: &Snapshot) {
        let mut script = link.load(snapshot);
        while let Next::Perform(step) = script.advance(Reply::Done) {
            self.perform(step);
        }
        assert_eq!(script.advance(Reply::Done), Next::Finished);
    }

    /// Ticks with a schedule of keys: the outcome and the digest of each.
    fn play(&mut self, link: &Link, ticks: u32) -> Vec<(Result<usize, CallError>, u32)> {
        (0..ticks)
            .map(|t| {
                let keys = vec![(t * 0x11) & 0x3ff, (t * 0x17) & 0x3ff];
                let outcome = self.tick(link, keys);
                (outcome, self.save(link).digest())
            })
            .collect()
    }
}

fn rebuilt(peripheral: Peripheral) -> (Link, Machines) {
    let side = |rom: u8| BootSide {
        rom: vec![rom],
        save: None,
        state: vec![rom + 1; 4],
        adapter: match peripheral {
            Peripheral::Cable => None,
            Peripheral::Wireless => Some(vec![rom + 2]),
        },
    };
    let sides = vec![side(1), side(5)];
    let recorded = match peripheral {
        Peripheral::Cable => vec![None, None],
        Peripheral::Wireless => vec![Some(4), Some(2)],
    };
    let mut machines = Machines::empty();
    let mut boot = Link::from_states(&sides, None, peripheral, &recorded, 4);
    while let Next::Perform(step) = boot.advance(Reply::Done) {
        machines.perform(step);
    }
    (boot.finish().unwrap(), machines)
}

#[test]
fn a_restored_link_plays_on_as_the_saved_one() {
    for peripheral in [Peripheral::Cable, Peripheral::Wireless] {
        let (link, mut machines) = rebuilt(peripheral);
        machines.play(&link, 7);
        let snapshot = machines.save(&link);
        let first = machines.play(&link, 20);
        machines.load(&link, &snapshot);
        assert_eq!(machines.save(&link).digest(), snapshot.digest());
        let second = machines.play(&link, 20);
        assert_eq!(first, second);
        // The ticks are worth comparing: the digests move.
        assert!(first.windows(2).all(|pair| pair[0].1 != pair[1].1));
        assert!(first.iter().all(|(outcome, _)| outcome.is_ok()));
    }
}

#[test]
fn a_save_and_a_load_at_once_change_nothing() {
    let (link, mut undisturbed) = rebuilt(Peripheral::Cable);
    let (_, mut disturbed) = rebuilt(Peripheral::Cable);
    for _ in 0..10 {
        let snapshot = disturbed.save(&link);
        disturbed.load(&link, &snapshot);
        assert_eq!(undisturbed.play(&link, 3), disturbed.play(&link, 3));
    }
}

#[test]
fn links_rebuilt_from_identical_captures_go_on_alike() {
    for peripheral in [Peripheral::Cable, Peripheral::Wireless] {
        let (mine, mut my_machines) = rebuilt(peripheral);
        let (theirs, mut their_machines) = rebuilt(peripheral);
        assert_eq!(
            my_machines.play(&mine, 20),
            their_machines.play(&theirs, 20)
        );
    }
}

#[test]
fn looks_leave_play_as_it_was() {
    for peripheral in [Peripheral::Cable, Peripheral::Wireless] {
        let (link, mut watched) = rebuilt(peripheral);
        let (_, mut unwatched) = rebuilt(peripheral);
        for t in 0..20 {
            let keys = vec![t, 3 * t];
            let outcome = watched.tick(&link, keys.clone());
            assert_eq!(unwatched.tick(&link, keys), outcome);
            // Two saves in a row, and a capture of each core.
            assert_eq!(watched.save(&link).digest(), watched.save(&link).digest());
            for i in 0..2 {
                let image = link.capture_boot_state(i, copy(&watched.states[i]));
                assert_eq!(image, watched.states[i].image);
            }
        }
        assert_eq!(unwatched.save(&link).digest(), watched.save(&link).digest());
    }
}

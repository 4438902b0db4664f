use mgba_siolink::driver::{build_drivers, fresh_seats, ANY_SEAT};
use mgba_siolink::plan::seats_of;
use mgba_siolink::{
    Boot, BootSide, CallError, CoreState, Driver, Failure, Link, LinkOptions, Next, Peripheral,
    Reply, SideOptions, Step,
};
use std::time::{Duration, UNIX_EPOCH};

/// Performs every step and collects them.
fn perform_all<'a>(boot: &mut Boot<'a>) -> (Vec<Step<'a>>, Next<'a>) {
    let mut steps = Vec::new();
    loop {
        match boot.advance(Reply::Done) {
            Next::Perform(step) => steps.push(step),
            over => return (steps, over),
        }
    }
}

fn side(rom: u8, save: Option<u8>) -> SideOptions {
    SideOptions {
        rom: vec![rom],
        save: save.map(|byte| vec![byte]),
    }
}

fn capture(rom: u8, state: usize, adapter: Option<u8>) -> BootSide {
    BootSide {
        rom: vec![rom],
        save: None,
        state: vec![rom; state],
        adapter: adapter.map(|byte| vec![byte]),
    }
}

#[test]
fn a_cable_link_powers_on() {
    let rtc = UNIX_EPOCH + Duration::from_secs(1_752_000_000);
    let options = LinkOptions {
        sides: vec![side(1, None), side(2, Some(9))],
        rtc: Some(rtc),
        peripheral: Peripheral::Cable,
    };
    let mut boot = Link::with_options(&options);
    let (steps, over) = perform_all(&mut boot);
    assert_eq!(over, Next::Finished);
    assert_eq!(
        steps,
        vec![
            Step::NewCoordinator { peripheral: Peripheral::Cable },
            Step::NewDriver { index: 0, driver: Driver::Cable { player: 0 } },
            Step::NewDriver { index: 1, driver: Driver::Cable { player: 1 } },
            Step::NewCore { core: 0 },
            Step::NewCore { core: 1 },
            Step::EnableVideoBuffer { core: 0 },
            Step::LoadRom { core: 0, rom: &vec![1] },
            Step::SetRtcFixed { core: 0, rtc },
            Step::InstallDriver { index: 0 },
            Step::Reset { core: 0 },
            Step::EnableVideoBuffer { core: 1 },
            Step::LoadRom { core: 1, rom: &vec![2] },
            Step::LoadSave { core: 1, save: &vec![9] },
            Step::SetRtcFixed { core: 1, rtc },
            Step::InstallDriver { index: 1 },
            Step::Reset { core: 1 },
        ]
    );
    let link = boot.finish().unwrap();
    assert_eq!(link.num_players(), 2);
    assert_eq!(link.num_drivers(), 2);
    assert_eq!(link.peripheral(), Peripheral::Cable);
}

#[test]
fn roms_alone_make_a_cable_link() {
    let roms = vec![vec![5], vec![6], vec![7]];
    let options = LinkOptions {
        sides: vec![side(5, None), side(6, None), side(7, None)],
        rtc: None,
        peripheral: Peripheral::Cable,
    };
    let mut from_roms = Link::new(&roms);
    let mut from_options = Link::with_options(&options);
    assert_eq!(perform_all(&mut from_roms), perform_all(&mut from_options));
    assert_eq!(from_roms.finish().unwrap().num_players(), 3);
}

#[test]
fn a_solo_cable_has_no_driver_and_a_solo_adapter_has_one() {
    let roms = vec![vec![5]];
    let mut cable = Link::new(&roms);
    let (steps, over) = perform_all(&mut cable);
    assert_eq!(over, Next::Finished);
    assert_eq!(
        steps,
        vec![
            Step::NewCoordinator { peripheral: Peripheral::Cable },
            Step::NewCore { core: 0 },
            Step::EnableVideoBuffer { core: 0 },
            Step::LoadRom { core: 0, rom: &vec![5] },
            Step::Reset { core: 0 },
        ]
    );
    let cable = cable.finish().unwrap();
    assert_eq!(cable.num_drivers(), 0);
    assert_eq!(cable.player_id(0, None), 0);
    assert_eq!(cable.capture_adapter_state(0), None);

    let options = LinkOptions {
        sides: vec![side(5, None)],
        rtc: None,
        peripheral: Peripheral::Wireless,
    };
    let mut wireless = Link::with_options(&options);
    let (steps, _) = perform_all(&mut wireless);
    assert!(steps.contains(&Step::NewDriver { index: 0, driver: Driver::Wireless { seat: 0 } }));
    let wireless = wireless.finish().unwrap();
    assert_eq!(wireless.num_drivers(), 1);
    assert_eq!(wireless.player_id(0, Some(3)), 3);
    assert_eq!(wireless.capture_adapter_state(0), Some(0));
    assert_eq!(wireless.capture_adapter_state(1), None);
}

#[test]
fn a_failed_step_ends_the_boot() {
    let roms = vec![vec![5], vec![6]];
    let mut boot = Link::new(&roms);
    // The coordinator, two drivers, two cores, one video buffer.
    for _ in 0..6 {
        assert!(matches!(boot.advance(Reply::Done), Next::Perform(_)));
    }
    assert_eq!(
        boot.advance(Reply::Done),
        Next::Perform(Step::LoadRom { core: 0, rom: &vec![5] })
    );
    assert_eq!(boot.advance(Reply::Failed), Next::Failed(Failure::Emulator));
    // And it stays failed.
    assert_eq!(boot.advance(Reply::Done), Next::Failed(Failure::Emulator));
    assert!(boot.finish().is_none());
}

#[test]
fn a_boot_under_way_is_no_link() {
    let roms = vec![vec![5]];
    let mut boot = Link::new(&roms);
    assert!(matches!(boot.advance(Reply::Done), Next::Perform(_)));
    assert!(boot.finish().is_none());
}

#[test]
fn a_cable_link_is_rebuilt_from_captures() {
    let sides = vec![capture(1, 8, None), capture(2, 8, None)];
    let mut boot = Link::from_states(&sides, None, Peripheral::Cable, &vec![None, None], 8);
    let (steps, over) = perform_all(&mut boot);
    assert_eq!(over, Next::Finished);
    assert_eq!(
        steps,
        vec![
            Step::NewCore { core: 0 },
            Step::NewCore { core: 1 },
            Step::EnableVideoBuffer { core: 0 },
            Step::LoadRom { core: 0, rom: &vec![1] },
            Step::Reset { core: 0 },
            Step::LoadState { core: 0, image: &vec![1; 8] },
            Step::NeutralizeSio { core: 0 },
            Step::EnableVideoBuffer { core: 1 },
            Step::LoadRom { core: 1, rom: &vec![2] },
            Step::Reset { core: 1 },
            Step::LoadState { core: 1, image: &vec![2; 8] },
            Step::NeutralizeSio { core: 1 },
            Step::NewCoordinator { peripheral: Peripheral::Cable },
            Step::NewDriver { index: 0, driver: Driver::Cable { player: 0 } },
            Step::NewDriver { index: 1, driver: Driver::Cable { player: 1 } },
            Step::InstallDriver { index: 0 },
            Step::InstallDriver { index: 1 },
        ]
    );
    assert_eq!(boot.finish().unwrap().num_players(), 2);
}

#[test]
fn a_wireless_link_is_rebuilt_in_its_seats() {
    // Players 0 and 2 survive, and a newcomer without a session joins.
    let sides = vec![capture(1, 4, Some(0xa0)), capture(2, 4, Some(0xa2)), capture(3, 4, None)];
    let recorded = vec![Some(0), Some(2), None];
    let mut boot = Link::from_states(&sides, None, Peripheral::Wireless, &recorded, 4);
    let (steps, over) = perform_all(&mut boot);
    assert_eq!(over, Next::Finished);
    assert_eq!(
        steps[steps.len() - 9..],
        [
            Step::NewCoordinator { peripheral: Peripheral::Wireless },
            Step::NewDriver { index: 0, driver: Driver::Wireless { seat: 0 } },
            Step::NewDriver { index: 1, driver: Driver::Wireless { seat: 2 } },
            Step::NewDriver { index: 2, driver: Driver::Wireless { seat: -1 } },
            Step::InstallDriver { index: 0 },
            Step::InstallDriver { index: 1 },
            Step::InstallDriver { index: 2 },
            Step::LoadAdapterState { index: 0, blob: &vec![0xa0] },
            Step::LoadAdapterState { index: 1, blob: &vec![0xa2] },
        ]
    );
    assert!(!steps
        .iter()
        .any(|step| matches!(step, Step::NeutralizeSio { .. })));
}

#[test]
fn seats_do_not_depend_on_positions() {
    assert_eq!(
        seats_of(
            &vec![capture(1, 0, Some(1)), capture(2, 0, Some(2))],
            &vec![Some(5), Some(1)]
        ),
        vec![5, 1]
    );
    // After player 5 has left, the other keeps its seat.
    assert_eq!(
        seats_of(&vec![capture(2, 0, Some(2))], &vec![Some(1)]),
        vec![1]
    );
    // No session, or one that records no seat.
    assert_eq!(
        seats_of(
            &vec![capture(1, 0, None), capture(2, 0, Some(2))],
            &vec![Some(3), None]
        ),
        vec![ANY_SEAT, ANY_SEAT]
    );
}

#[test]
fn a_capture_of_the_wrong_length_is_refused() {
    let sides = vec![capture(1, 8, None), capture(2, 7, None)];
    for peripheral in [Peripheral::Cable, Peripheral::Wireless] {
        let mut boot = Link::from_states(&sides, None, peripheral, &vec![None, None], 8);
        let (steps, over) = perform_all(&mut boot);
        assert_eq!(over, Next::Failed(Failure::Call(CallError::BootStateLength)));
        // The second core was reset before its state turned out wrong.
        assert_eq!(steps.last(), Some(&Step::Reset { core: 1 }));
        assert!(boot.finish().is_none());
    }
    assert_eq!(
        CallError::BootStateLength.call(),
        "boot state has the wrong length"
    );
}

#[test]
fn a_cable_takes_no_adapter_session() {
    let sides = vec![capture(1, 8, None), capture(2, 8, Some(3))];
    let mut boot = Link::from_states(&sides, None, Peripheral::Cable, &vec![None, Some(1)], 8);
    let (steps, over) = perform_all(&mut boot);
    assert_eq!(over, Next::Failed(Failure::Call(CallError::AdapterState)));
    assert_eq!(steps.last(), Some(&Step::InstallDriver { index: 1 }));

    // A solo cable has no driver to hand the session to.
    let solo = vec![capture(1, 8, Some(3))];
    let mut boot = Link::from_states(&solo, None, Peripheral::Cable, &vec![Some(1)], 8);
    assert_eq!(perform_all(&mut boot).1, Next::Finished);
}

#[test]
fn a_wrong_length_comes_before_a_stray_session() {
    let sides = vec![capture(1, 8, Some(3)), capture(2, 7, None)];
    let mut boot = Link::from_states(&sides, None, Peripheral::Cable, &vec![Some(0), None], 8);
    let (_, over) = perform_all(&mut boot);
    assert_eq!(over, Next::Failed(Failure::Call(CallError::BootStateLength)));
    // A boot that has failed stays so.
    assert_eq!(boot.advance(Reply::Done), over);
}

#[test]
fn a_refused_adapter_session_ends_the_boot() {
    let sides = vec![capture(1, 2, Some(3))];
    let mut boot = Link::from_states(&sides, None, Peripheral::Wireless, &vec![Some(0)], 2);
    loop {
        if let Next::Perform(Step::LoadAdapterState { .. }) = boot.advance(Reply::Done) {
            break;
        }
    }
    assert_eq!(
        boot.advance(Reply::Refused),
        Next::Failed(Failure::Call(CallError::AdapterState))
    );
    assert_eq!(
        CallError::AdapterState.call(),
        "GBASIOWirelessDriverLoadAdapterState"
    );
}

#[test]
fn a_capture_boots_again() {
    let roms = vec![vec![5]];
    let mut boot = Link::new(&roms);
    perform_all(&mut boot);
    let link = boot.finish().unwrap();
    let state = CoreState {
        gprs: [0; 16],
        cpsr: 0,
        wram: vec![],
        iwram: vec![],
        image: vec![1, 2, 3, 4],
    };
    let image = link.capture_boot_state(0, state);
    assert_eq!(image, vec![1, 2, 3, 4]);
    let sides = vec![BootSide {
        rom: vec![5],
        save: Some(vec![7]),
        state: image,
        adapter: None,
    }];
    let mut again = Link::from_states(&sides, None, Peripheral::Cable, &vec![None], 4);
    let (steps, over) = perform_all(&mut again);
    assert_eq!(over, Next::Finished);
    assert!(steps.contains(&Step::LoadSave { core: 0, save: &vec![7] }));
    assert!(steps.contains(&Step::LoadState { core: 0, image: &vec![1, 2, 3, 4] }));
}

#[test]
fn identical_captures_give_identical_boots() {
    let mine = vec![capture(1, 3, Some(4)), capture(2, 3, None)];
    let theirs = vec![capture(1, 3, Some(4)), capture(2, 3, None)];
    let recorded = vec![Some(6), None];
    let mut a = Link::from_states(&mine, None, Peripheral::Wireless, &recorded, 3);
    let mut b = Link::from_states(&theirs, None, Peripheral::Wireless, &recorded, 3);
    assert_eq!(perform_all(&mut a), perform_all(&mut b));
}

#[test]
fn drivers_follow_the_hardware() {
    assert_eq!(build_drivers(Peripheral::Cable, &vec![0]), vec![]);
    assert_eq!(
        build_drivers(Peripheral::Cable, &vec![7, 8, 9]),
        vec![
            Driver::Cable { player: 0 },
            Driver::Cable { player: 1 },
            Driver::Cable { player: 2 },
        ]
    );
    assert_eq!(
        build_drivers(Peripheral::Wireless, &vec![7, -1]),
        vec![Driver::Wireless { seat: 7 }, Driver::Wireless { seat: -1 }]
    );
    assert_eq!(fresh_seats(3), vec![0, 1, 2]);
    assert!(!Driver::Cable { player: 0 }.has_adapter());
    assert!(Driver::Wireless { seat: 0 }.has_adapter());
}

#[test]
fn a_save_is_exported_only_where_there_is_one() {
    let roms = vec![vec![5]];
    let mut boot = Link::new(&roms);
    perform_all(&mut boot);
    let link = boot.finish().unwrap();
    assert_eq!(link.export_save(0, 0x8000, true), Some(0x8000));
    assert_eq!(link.export_save(0, 0, true), None);
    assert_eq!(link.export_save(0, 0x8000, false), None);
}

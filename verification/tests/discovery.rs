use miner_factory::address::{IpAddr, Ipv4Addr};
use miner_factory::discovery::{
    constructed, discovered, identified, upgrade_window, Construction, Discovery, DiscoveryEvent,
    DiscoveryStep,
};
use miner_factory::error::FactoryError;
use miner_factory::identify::PanicPayload;
use miner_factory::probe::{MinerProbe, PortSweep, ProbeStep};
use miner_factory::time::Duration;

fn answer(firmware: usize) -> DiscoveryEvent {
    DiscoveryEvent::Answer { firmware: Some(firmware) }
}

const NOTHING: DiscoveryEvent = DiscoveryEvent::Answer { firmware: None };

fn search(requests: usize, events: &[DiscoveryEvent]) -> DiscoveryStep {
    // Firmwares 0 and 1 replace others, firmwares 2 and 3 are stock.
    let mut discovery = Discovery::new(vec![false, false, true, true], requests);
    for event in events {
        discovery.record(*event);
    }
    discovery.step()
}

#[test]
fn a_replacement_firmware_ends_the_search_at_once() {
    assert_eq!(search(3, &[]), DiscoveryStep::Search);
    assert_eq!(search(3, &[NOTHING]), DiscoveryStep::Search);
    assert_eq!(search(3, &[NOTHING, answer(1)]), DiscoveryStep::Build { firmware: 1 });
    assert_eq!(search(3, &[answer(1), answer(0)]), DiscoveryStep::Build { firmware: 1 });
}

#[test]
fn a_stock_firmware_waits_for_a_replacement() {
    assert_eq!(search(3, &[answer(2)]), DiscoveryStep::AwaitUpgrade);
    assert_eq!(search(3, &[answer(2), answer(0)]), DiscoveryStep::Build { firmware: 0 });
    assert_eq!(search(3, &[answer(2), answer(3)]), DiscoveryStep::AwaitUpgrade);
    assert_eq!(search(3, &[answer(2), NOTHING]), DiscoveryStep::AwaitUpgrade);
}

#[test]
fn a_stock_firmware_is_taken_in_the_end() {
    let stock = DiscoveryStep::Build { firmware: 2 };
    assert_eq!(search(3, &[answer(2), answer(3), NOTHING]), stock);
    assert_eq!(search(3, &[answer(2), DiscoveryEvent::UpgradeWindowElapsed]), stock);
    assert_eq!(search(3, &[answer(2), DiscoveryEvent::IdentificationTimeout]), stock);
    assert_eq!(
        search(3, &[answer(2), DiscoveryEvent::UpgradeWindowElapsed, answer(0)]),
        stock
    );
    assert_eq!(search(1, &[answer(2)]), stock);
}

#[test]
fn a_search_can_find_nothing() {
    assert_eq!(search(0, &[]), DiscoveryStep::Unidentified);
    assert_eq!(search(2, &[NOTHING, NOTHING]), DiscoveryStep::Unidentified);
    assert_eq!(
        search(2, &[DiscoveryEvent::IdentificationTimeout]),
        DiscoveryStep::Unidentified
    );
    assert_eq!(search(2, &[DiscoveryEvent::UpgradeWindowElapsed]), DiscoveryStep::Search);
    assert_eq!(
        search(2, &[DiscoveryEvent::IdentificationTimeout, answer(0)]),
        DiscoveryStep::Unidentified
    );
}

#[test]
fn the_upgrade_window_is_short() {
    assert_eq!(upgrade_window(), Duration::from_millis(300));
}

#[test]
fn a_miner_that_is_not_built_is_none() {
    assert_eq!(constructed(Construction::Built(7)), Some(7));
    assert_eq!(constructed::<u8>(Construction::Failed), None);
    assert_eq!(constructed::<u8>(Construction::TimedOut), None);
}

#[test]
fn a_panic_is_reported_as_an_error_and_scanned_over() {
    assert_eq!(discovered(Ok(Ok(Some(7)))).unwrap(), Some(7));
    let error = discovered::<u8>(Err(PanicPayload::Literal("boom"))).unwrap_err();
    assert!(matches!(&error, FactoryError::DiscoveryPanic { message } if message == "boom"));
    assert_eq!(error.message(), "internal panic during miner discovery: boom");
    assert_eq!(identified::<u8>(Err(error)), None);
    assert_eq!(identified(Ok(Some(7))), Some(7));
    assert_eq!(identified::<u8>(Ok(None)), None);
}

#[test]
fn one_open_port_makes_a_host_reachable() {
    let mut sweep = PortSweep::new();
    assert_eq!(sweep.verdict(), None);
    sweep.record(false);
    assert_eq!(sweep.verdict(), None);
    sweep.record(true);
    assert_eq!(sweep.verdict(), Some(true));
    sweep.record(false);
    assert_eq!(sweep.verdict(), Some(true));
}

#[test]
fn a_host_without_open_ports_is_unreachable() {
    let mut sweep = PortSweep::new();
    for _ in 0..3 {
        sweep.record(false);
        assert_eq!(sweep.verdict(), None);
    }
    sweep.record(false);
    assert_eq!(sweep.verdict(), Some(false));
}

fn host() -> IpAddr {
    IpAddr::V4(Ipv4Addr::new(10, 0, 0, 1))
}

#[test]
fn a_single_host_is_probed_again_with_growing_delays() {
    let mut probe = MinerProbe::new(host(), true, true, 2, Duration::from_millis(100));
    assert_eq!(probe.step, ProbeStep::Probe { delay: None });
    probe.record(false);
    assert_eq!(probe.step, ProbeStep::Probe { delay: Some(Duration::from_millis(100)) });
    probe.record(false);
    assert_eq!(probe.step, ProbeStep::Probe { delay: Some(Duration::from_millis(200)) });
    probe.record(false);
    assert_eq!(probe.step, ProbeStep::GiveUp);
    probe.record(true);
    assert_eq!(probe.step, ProbeStep::GiveUp);
}

#[test]
fn a_single_host_that_is_reached_is_identified() {
    let mut probe = MinerProbe::new(host(), true, true, 2, Duration::from_millis(100));
    probe.record(false);
    probe.record(true);
    assert_eq!(probe.step, ProbeStep::Identify);
}

#[test]
fn an_unreached_host_is_identified_where_that_is_not_strict() {
    let mut probe = MinerProbe::new(host(), true, false, 0, Duration::from_millis(100));
    probe.record(false);
    assert_eq!(probe.step, ProbeStep::Identify);

    let probe = MinerProbe::new(host(), false, true, 0, Duration::from_millis(100));
    assert_eq!(probe.step, ProbeStep::Identify);
    assert_eq!(probe.ip, host());
}

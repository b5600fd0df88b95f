use miner_factory::address::{IpAddr, Ipv4Addr, Ipv6Addr};
use miner_factory::credentials::MinerAuth;
use miner_factory::discovery::DiscoveryStep;
use miner_factory::error::FactoryError;
use miner_factory::factory::MinerFactory;
use miner_factory::identify::{Firmware, MinerCommand};
use miner_factory::limits::{calculate_optimal_concurrency, NofileOutcome};
use miner_factory::probe::ProbeStep;
use miner_factory::scan::ScanAction;
use miner_factory::time::Duration;

fn v4(a: u8, b: u8, c: u8, d: u8) -> IpAddr {
    IpAddr::V4(Ipv4Addr::new(a, b, c, d))
}

fn sorted(factory: &MinerFactory) -> Vec<u128> {
    let mut bits: Vec<u128> = factory
        .hosts()
        .iter()
        .map(|ip| match ip {
            IpAddr::V4(ip) => ip.bits as u128,
            IpAddr::V6(ip) => ip.bits,
        })
        .collect();
    bits.sort();
    bits
}

fn queued(factory: Result<MinerFactory, FactoryError>) -> MinerFactory {
    match factory {
        Ok(factory) => factory,
        Err(error) => panic!("{}", error.message()),
    }
}

fn refused(factory: Result<MinerFactory, FactoryError>) -> FactoryError {
    match factory {
        Ok(_) => panic!("accepted"),
        Err(error) => error,
    }
}

fn firmware(name: &str, stock: bool, command: &str) -> Firmware {
    let command = MinerCommand::Rpc { command: command.to_string(), parameters: String::new() };
    Firmware { name: name.to_string(), stock, commands: vec![command] }
}

#[test]
fn staged_scan_defaults_are_bounded() {
    let factory = MinerFactory::new();
    let settings = factory.settings();
    assert_eq!(calculate_optimal_concurrency(1024), 128);
    assert_eq!(settings.identification_timeout, Duration::from_secs(3));
    assert_eq!(settings.miner_construction_timeout, Duration::from_secs(5));
    assert_eq!(settings.connectivity_timeout, Duration::from_millis(500));
    assert_eq!(settings.connectivity_retries, 0);
    assert_eq!(settings.scan_retries, 0);
    assert_eq!(settings.connectivity_concurrent, 256);
    assert_eq!(settings.connectivity_retry_concurrent, 64);
    assert!(settings.strict_port_check);
    assert_eq!(
        settings.connectivity_retry_backoff,
        Duration::from_millis(100)
    );
}

#[test]
fn connectivity_retries_can_be_disabled_without_disabling_initial_attempt() {
    let factory = MinerFactory::new().with_connectivity_retries(0);
    assert_eq!(factory.settings().connectivity_retries, 0);

    let mut run = queued(factory.with_octets("10", "0", "0", "1")).scan_stream();
    assert!(matches!(
        run.advance(),
        ScanAction::Probe { delay: None, ips, concurrency: 256 } if ips == vec![v4(10, 0, 0, 1)]
    ));
}

#[test]
fn a_new_factory_has_the_other_defaults_too() {
    let factory = MinerFactory::default();
    let settings = factory.settings();
    assert_eq!(settings.scan_retry_backoff, Duration::from_millis(250));
    assert_eq!(settings.retry_concurrent, None);
    assert_eq!(settings.concurrent, None);
    assert_eq!(settings.nofile_limit, None);
    assert!(settings.nofile_adjustment);
    assert!(settings.check_port);
    assert_eq!(settings, MinerFactory::new().settings());
    let summary = factory.summary();
    assert_eq!(summary.ips, 0);
    assert_eq!(summary.search_firmwares, None);
    assert_eq!(summary.discovery_auth_by_firmware, 0);
    assert_eq!(summary.settings, settings);
}

#[test]
fn each_builder_sets_its_setting() {
    let settings = MinerFactory::new()
        .with_port_check(false)
        .with_strict_port_check(false)
        .with_concurrent_limit(10)
        .with_scan_retries(2)
        .with_retry_concurrent_limit(3)
        .with_scan_retry_backoff(Duration::from_secs(7))
        .with_nofile_limit(9000)
        .with_nofile_adjustment(false)
        .with_identification_timeout(Duration::from_secs(11))
        .with_miner_construction_timeout(Duration::from_secs(12))
        .with_connectivity_timeout(Duration::from_secs(13))
        .with_connectivity_retries(4)
        .with_connectivity_concurrent_limit(20)
        .with_connectivity_retry_concurrent_limit(30)
        .with_connectivity_retry_backoff(Duration::from_secs(14))
        .settings();
    assert!(!settings.check_port);
    assert!(!settings.strict_port_check);
    assert_eq!(settings.concurrent, Some(10));
    assert_eq!(settings.scan_retries, 2);
    assert_eq!(settings.retry_concurrent, Some(3));
    assert_eq!(settings.scan_retry_backoff, Duration::from_secs(7));
    assert_eq!(settings.nofile_limit, Some(9000));
    assert!(!settings.nofile_adjustment);
    assert_eq!(settings.identification_timeout, Duration::from_secs(11));
    assert_eq!(settings.miner_construction_timeout, Duration::from_secs(12));
    assert_eq!(settings.connectivity_timeout, Duration::from_secs(13));
    assert_eq!(settings.connectivity_retries, 4);
    assert_eq!(settings.connectivity_concurrent, 20);
    assert_eq!(settings.connectivity_retry_concurrent, 30);
    assert_eq!(settings.connectivity_retry_backoff, Duration::from_secs(14));
}

#[test]
fn times_can_be_given_in_seconds_and_milliseconds() {
    let settings = MinerFactory::new()
        .with_scan_retry_backoff_millis(1)
        .with_identification_timeout_secs(2)
        .with_miner_construction_timeout_secs(3)
        .with_connectivity_timeout_secs(4)
        .with_connectivity_retry_backoff_millis(5)
        .settings();
    assert_eq!(settings.scan_retry_backoff, Duration::from_millis(1));
    assert_eq!(settings.identification_timeout, Duration::from_secs(2));
    assert_eq!(settings.miner_construction_timeout, Duration::from_secs(3));
    assert_eq!(settings.connectivity_timeout, Duration::from_secs(4));
    assert_eq!(settings.connectivity_retry_backoff, Duration::from_millis(5));
    let settings = MinerFactory::new().with_connectivity_timeout_millis(6).settings();
    assert_eq!(settings.connectivity_timeout, Duration::from_millis(6));
}

#[test]
fn limits_let_at_least_one_host_through() {
    let settings = MinerFactory::new()
        .with_concurrent_limit(0)
        .with_retry_concurrent_limit(0)
        .with_connectivity_concurrent_limit(0)
        .with_connectivity_retry_concurrent_limit(0)
        .settings();
    assert_eq!(settings.concurrent, Some(1));
    assert_eq!(settings.retry_concurrent, Some(1));
    assert_eq!(settings.connectivity_concurrent, 1);
    assert_eq!(settings.connectivity_retry_concurrent, 1);
}

#[test]
fn adaptive_concurrency_goes_by_the_queue() {
    assert_eq!(
        MinerFactory::new().with_adaptive_concurrency().settings().concurrent,
        Some(1)
    );
    let mut factory = queued(MinerFactory::from_octets("10", "0", "0-1", "0-255"));
    factory.update_adaptive_concurrency();
    assert_eq!(factory.settings().concurrent, Some(128));
    let mut factory = queued(MinerFactory::from_octets("10", "0", "0", "1-5"));
    factory.update_adaptive_concurrency();
    assert_eq!(factory.settings().concurrent, Some(5));
    let mut factory = factory.with_concurrent_limit(99);
    factory.update_adaptive_concurrency();
    assert_eq!(factory.settings().concurrent, Some(99));
    assert_eq!(factory.with_adaptive_concurrency().settings().concurrent, Some(5));
}

#[test]
fn factories_queue_subnets_octets_and_ranges() {
    let factory = queued(MinerFactory::from_subnet("10.0.0.0/30"));
    assert_eq!(sorted(&factory), vec![0x0a000000, 0x0a000001, 0x0a000002, 0x0a000003]);
    let factory = queued(factory.with_octets("9", "0", "0", "1-2"));
    assert_eq!(factory.len(), 6);
    let factory = queued(factory.with_range("8.0.0.7"));
    assert_eq!(
        sorted(&factory),
        vec![
            0x08000007, 0x09000001, 0x09000002, 0x0a000000, 0x0a000001, 0x0a000002, 0x0a000003
        ]
    );
    assert_eq!(sorted(&queued(MinerFactory::from_range("8.0.0.7"))), vec![0x08000007]);
    assert_eq!(
        queued(MinerFactory::from_subnet("::5/128")).hosts(),
        vec![IpAddr::V6(Ipv6Addr { bits: 5 })]
    );
    assert!(!factory.is_empty());
    assert!(MinerFactory::new().is_empty());
}

#[test]
fn an_address_queued_twice_is_there_twice() {
    let factory = queued(MinerFactory::from_range("10.0.0.1"));
    let factory = queued(factory.with_range("10.0.0.1"));
    assert_eq!(factory.hosts(), vec![v4(10, 0, 0, 1), v4(10, 0, 0, 1)]);
}

#[test]
fn setting_addresses_replaces_the_queue() {
    let mut factory = queued(MinerFactory::from_range("10.0.0.1-9"));
    assert_eq!(factory.set_range("10.0.0.2").map(|factory| factory.len()).unwrap(), 1);
    assert_eq!(factory.hosts(), vec![v4(10, 0, 0, 2)]);
    assert_eq!(factory.set_octets("10", "0", "0", "3").map(MinerFactory::len).unwrap(), 1);
    assert_eq!(factory.hosts(), vec![v4(10, 0, 0, 3)]);
    assert!(factory.set_subnet("10.0.0.4/31").is_ok());
    assert_eq!(sorted(&factory), vec![0x0a000004, 0x0a000005]);
}

#[test]
fn a_refused_request_leaves_the_queue() {
    let mut factory = queued(MinerFactory::from_range("10.0.0.2"));
    assert!(matches!(factory.set_range("10"), Err(FactoryError::RangeParts)));
    assert!(matches!(factory.set_subnet("10"), Err(FactoryError::Subnet)));
    assert!(matches!(
        factory.set_octets("10", "0", "0", "2-1"),
        Err(FactoryError::RangeOrder { .. })
    ));
    assert_eq!(factory.hosts(), vec![v4(10, 0, 0, 2)]);
    assert!(matches!(refused(MinerFactory::from_subnet("10")), FactoryError::Subnet));
    assert!(matches!(
        refused(MinerFactory::from_octets("", "0", "0", "1")),
        FactoryError::Octet { .. }
    ));
    assert!(matches!(refused(MinerFactory::from_range("10")), FactoryError::RangeParts));
}

#[test]
fn queues_are_shuffled() {
    // A shuffle of 65536 addresses that leaves all of them in place has never been seen.
    let factory = queued(MinerFactory::from_subnet("10.0.0.0/16"));
    let in_order: Vec<IpAddr> =
        (0..65536u32).map(|i| IpAddr::V4(Ipv4Addr { bits: 0x0a000000 + i })).collect();
    assert_ne!(factory.hosts(), in_order);
    let expected: Vec<u128> = (0..65536u128).map(|i| 0x0a000000 + i).collect();
    assert_eq!(sorted(&factory), expected);
}

#[test]
fn a_scan_needs_addresses() {
    let error = MinerFactory::new().scan().unwrap_err();
    assert!(matches!(error, FactoryError::NoAddresses));
    assert_eq!(
        error.message(),
        "No IPs to scan. Use with_subnet, with_octets, or with_range to set IPs."
    );
    assert!(queued(MinerFactory::from_range("10.0.0.1")).scan().is_ok());
}

#[test]
fn a_scan_can_be_started_with_more_addresses() {
    let factory = queued(MinerFactory::from_range("10.0.0.1"));
    let mut run = factory.clone().scan_by_range("10.0.0.2-3").unwrap();
    assert!(matches!(run.advance(), ScanAction::Probe { ips, .. } if ips.len() == 3));
    let mut run = factory.clone().scan_by_octets("10", "0", "0", "2").unwrap();
    assert!(matches!(run.advance(), ScanAction::Probe { ips, .. } if ips.len() == 2));
    assert!(matches!(factory.clone().scan_by_range("x"), Err(FactoryError::RangeParts)));
    assert!(matches!(
        factory.scan_by_octets("10", "0", "0", "x"),
        Err(FactoryError::Octet { .. })
    ));
}

#[test]
fn scan_rules_follow_the_settings() {
    let factory = queued(MinerFactory::from_octets("10", "0", "0", "0-255"));
    let config = factory.scan_config(true);
    assert_eq!(config.identify_concurrency, 128);
    assert_eq!(config.identify_retry_concurrency, 8);
    assert_eq!(config.probe_concurrency, 256);
    assert_eq!(config.probe_retry_concurrency, 64);
    assert!(config.report_misses);
    assert!(config.strict);

    let config = factory
        .with_concurrent_limit(300)
        .with_retry_concurrent_limit(40)
        .with_strict_port_check(false)
        .scan_config(false);
    assert_eq!(config.identify_concurrency, 300);
    assert_eq!(config.identify_retry_concurrency, 40);
    assert!(!config.report_misses);
    assert!(!config.strict);

    let config = queued(MinerFactory::from_range("10.0.0.1-3")).scan_config(false);
    assert_eq!(config.identify_concurrency, 3);
    assert_eq!(config.identify_retry_concurrency, 3);
}

#[test]
fn file_descriptors_are_asked_for_unless_switched_off() {
    let factory = MinerFactory::new();
    assert_eq!(factory.desired_nofile_limit(), Some(8192));
    let few = factory.clone().with_connectivity_concurrent_limit(1);
    assert_eq!(few.desired_nofile_limit(), Some(2048));
    let many = few.with_concurrent_limit(1000);
    assert_eq!(many.desired_nofile_limit(), Some(8000));
    let off = factory.with_nofile_adjustment(false);
    assert_eq!(off.desired_nofile_limit(), None);
    assert!(off.scan_stream().nofile_outcome().is_none());
    let set = off.with_nofile_limit(64);
    assert_eq!(set.desired_nofile_limit(), Some(64));
    let run = set.scan_stream_with_ip();
    assert!(matches!(
        run.nofile_outcome(),
        Some(NofileOutcome::Raised { desired: 64, .. } | NofileOutcome::Refused { desired: 64, .. })
    ));
}

#[test]
fn a_single_host_is_looked_at_by_the_settings() {
    let ip = v4(10, 0, 0, 1);
    let factory = MinerFactory::new().with_connectivity_retries(5);
    let probe = factory.scan_miner(ip);
    assert_eq!(probe.ip, ip);
    assert_eq!(probe.step, ProbeStep::Probe { delay: None });
    assert_eq!(probe.retries, 5);
    assert_eq!(probe.initial_delay, Duration::from_millis(100));
    assert!(probe.strict);
    let probe = factory.with_port_check(false).scan_miner(ip);
    assert_eq!(probe.step, ProbeStep::Identify);
}

#[test]
fn the_default_firmwares_are_looked_for() {
    let ip = v4(10, 0, 0, 1);
    let defaults = vec![firmware("a", false, "version"), firmware("b", true, "version")];
    let search = MinerFactory::new().get_miner(ip, &defaults);
    assert_eq!(search.ip, ip);
    assert_eq!(search.commands.len(), 1);
    assert_eq!(search.discovery.step(), DiscoveryStep::Search);
    assert_eq!(search.identification_timeout, Duration::from_secs(3));
    assert_eq!(search.upgrade_window, Duration::from_millis(300));
    assert_eq!(search.construction_timeout, Duration::from_secs(5));
}

#[test]
fn other_firmwares_replace_the_default_ones() {
    let defaults = vec![firmware("a", false, "version")];
    let own = vec![firmware("b", true, "stats"), firmware("c", true, "summary")];
    let factory = MinerFactory::new().with_firmwares(own);
    assert_eq!(factory.summary().search_firmwares, Some(2));
    assert_eq!(factory.registry(&defaults)[1].name, "c");
    assert_eq!(factory.get_miner(v4(10, 0, 0, 1), &defaults).commands.len(), 2);
    let none = factory.with_firmwares(Vec::new());
    let search = none.get_miner(v4(10, 0, 0, 1), &defaults);
    assert!(search.commands.is_empty());
    assert_eq!(search.discovery.step(), DiscoveryStep::Unidentified);
}

#[test]
fn credentials_go_with_the_firmware() {
    let luxos = firmware("LuxOS", false, "version");
    let stock = firmware("Stock", true, "version");
    let auth = |username: &str| MinerAuth {
        username: username.to_string(),
        password: "SECRET-REDACTED".to_string(),
    };
    let factory = MinerFactory::new()
        .with_firmware_discovery_auth(&luxos, auth("first"))
        .with_firmware_discovery_auth(&luxos, auth("second"));
    assert_eq!(factory.summary().discovery_auth_by_firmware, 1);
    assert_eq!(factory.discovery_auth(&luxos).unwrap().username, "second");
    assert!(factory.discovery_auth(&stock).is_none());
    assert!(!format!("{:?}", factory.summary()).contains("second"));
}

#[test]
fn a_copy_of_a_factory_is_its_own() {
    let luxos = firmware("LuxOS", false, "version");
    let auth = MinerAuth { username: "root".to_string(), password: "root".to_string() };
    let factory = queued(MinerFactory::from_range("10.0.0.1-4"))
        .with_scan_retries(3)
        .with_firmwares(vec![luxos.clone()])
        .with_firmware_discovery_auth(&luxos, auth);
    let mut copy = factory.clone();
    assert_eq!(copy.summary(), factory.summary());
    assert_eq!(copy.hosts(), factory.hosts());
    assert_eq!(copy.discovery_auth(&luxos).unwrap().username, "root");
    assert!(copy.set_range("10.0.0.9").is_ok());
    assert_eq!(factory.len(), 4);
}

#[test]
fn fixing_the_adaptive_concurrency_changes_no_scan() {
    for range in ["10.0.0.1-5", "10.0.0-1.0-255"] {
        let factory = queued(MinerFactory::from_range(range));
        let fixed = factory.clone().with_adaptive_concurrency();
        assert_eq!(fixed.scan_config(true), factory.scan_config(true));
        assert_eq!(fixed.desired_nofile_limit(), factory.desired_nofile_limit());
    }
}

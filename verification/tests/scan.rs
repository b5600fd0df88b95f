use miner_factory::address::{IpAddr, Ipv4Addr};
use miner_factory::scan::{Recorded, ScanAction, ScanConfig, ScanRun};
use miner_factory::time::Duration;

fn ip(last: u8) -> IpAddr {
    IpAddr::V4(Ipv4Addr::new(10, 0, 0, last))
}

fn last(ip: &IpAddr) -> u8 {
    match ip {
        IpAddr::V4(ip) => (ip.bits & 0xff) as u8,
        IpAddr::V6(_) => unreachable!(),
    }
}

fn config() -> ScanConfig {
    ScanConfig {
        check_port: true,
        strict: true,
        probe_concurrency: 256,
        probe_retry_concurrency: 64,
        probe_retries: 0,
        probe_delay: Duration::from_millis(100),
        identify_concurrency: 128,
        identify_retry_concurrency: 8,
        scan_retries: 0,
        scan_delay: Duration::from_millis(250),
        report_misses: true,
    }
}

/// What a scan did: a line for each pass, and the hosts that were reported.
struct Log {
    passes: Vec<String>,
    outcomes: Vec<(u8, bool)>,
}

fn pass(kind: &str, delay: Option<Duration>, ips: &[IpAddr], concurrency: usize) -> String {
    let hosts: Vec<u8> = ips.iter().map(last).collect();
    let delay = delay.map(|delay| delay.as_nanos() / 1_000_000);
    format!("{kind} {hosts:?} x{concurrency} after {delay:?}")
}

/// Runs a scan of hosts 1 to `count`; the closures say in which pass, counted from one,
/// a host is reached and identified.
fn scan(
    config: ScanConfig,
    count: u8,
    reached: impl Fn(u8, u32) -> bool,
    identified: impl Fn(u8, u32) -> bool,
) -> Log {
    let mut run = ScanRun::new(config, (1..=count).map(ip).collect(), None);
    let mut log = Log { passes: Vec::new(), outcomes: Vec::new() };
    let mut probes = 0;
    let mut identifications = 0;
    loop {
        match run.advance() {
            ScanAction::Wait => unreachable!(),
            ScanAction::Probe { delay, ips, concurrency } => {
                probes += 1;
                log.passes.push(pass("probe", delay, &ips, concurrency));
                for (slot, ip) in ips.iter().enumerate() {
                    assert!(matches!(run.advance(), ScanAction::Wait));
                    assert_eq!(run.record(slot, reached(last(ip), probes)), Recorded::Kept);
                }
            }
            ScanAction::Identify { delay, ips, concurrency } => {
                identifications += 1;
                log.passes.push(pass("identify", delay, &ips, concurrency));
                for (slot, ip) in ips.iter().enumerate() {
                    let found = identified(last(ip), identifications);
                    match run.record(slot, found) {
                        Recorded::Yield => log.outcomes.push((last(ip), found)),
                        Recorded::Kept => {}
                        Recorded::Ignored => unreachable!(),
                    }
                }
            }
            ScanAction::Report { misses } => {
                log.outcomes.extend(misses.iter().map(|ip| (last(ip), false)));
            }
            ScanAction::Done => return log,
        }
    }
}

#[test]
fn probing_comes_before_identification() {
    let log = scan(config(), 3, |host, _| host != 2, |host, _| host == 3);
    assert_eq!(
        log.passes,
        vec!["probe [1, 2, 3] x256 after None", "identify [1, 3] x128 after None"]
    );
    assert_eq!(log.outcomes, vec![(3, true), (1, false), (2, false)]);
}

#[test]
fn hosts_are_identified_at_once_where_ports_are_not_checked() {
    let log = scan(
        ScanConfig { check_port: false, ..config() },
        2,
        |_, _| unreachable!(),
        |host, _| host == 1,
    );
    assert_eq!(log.passes, vec!["identify [1, 2] x128 after None"]);
    assert_eq!(log.outcomes, vec![(1, true), (2, false)]);
}

#[test]
fn unreached_hosts_are_probed_again() {
    let log = scan(
        ScanConfig { probe_retries: 3, ..config() },
        3,
        |host, attempt| host as u32 == attempt,
        |_, _| true,
    );
    assert_eq!(
        log.passes,
        vec![
            "probe [1, 2, 3] x256 after None",
            "probe [2, 3] x64 after Some(100)",
            "probe [3] x64 after Some(200)",
            "identify [1, 2, 3] x128 after None",
        ]
    );
    assert_eq!(log.outcomes, vec![(1, true), (2, true), (3, true)]);
}

#[test]
fn unidentified_hosts_are_retried_gently() {
    let log = scan(
        ScanConfig { scan_retries: 2, ..config() },
        3,
        |_, _| true,
        |host, attempt| host as u32 == attempt,
    );
    assert_eq!(
        log.passes,
        vec![
            "probe [1, 2, 3] x256 after None",
            "identify [1, 2, 3] x128 after None",
            "identify [2, 3] x8 after Some(250)",
            "identify [3] x8 after Some(500)",
        ]
    );
    assert_eq!(log.outcomes, vec![(1, true), (2, true), (3, true)]);
}

#[test]
fn retries_run_out() {
    let log = scan(
        ScanConfig { probe_retries: 1, scan_retries: 1, ..config() },
        2,
        |host, _| host == 1,
        |_, _| false,
    );
    assert_eq!(
        log.passes,
        vec![
            "probe [1, 2] x256 after None",
            "probe [2] x64 after Some(100)",
            "identify [1] x128 after None",
            "identify [1] x8 after Some(250)",
        ]
    );
    assert_eq!(log.outcomes, vec![(1, false), (2, false)]);
}

#[test]
fn unreached_hosts_get_one_attempt_where_the_check_is_not_strict() {
    let log = scan(
        ScanConfig { strict: false, scan_retries: 1, ..config() },
        4,
        |host, _| host == 1,
        |host, _| host == 3,
    );
    assert_eq!(
        log.passes,
        vec![
            "probe [1, 2, 3, 4] x256 after None",
            "identify [1] x128 after None",
            "identify [1] x8 after Some(250)",
            "identify [2, 3, 4] x128 after None",
        ]
    );
    assert_eq!(log.outcomes, vec![(1, false), (2, false), (3, true), (4, false)]);
}

#[test]
fn a_scan_for_miners_reports_nothing_else() {
    for strict in [true, false] {
        let all = ScanConfig { strict, scan_retries: 1, ..config() };
        let reached = |host: u8, _: u32| host % 2 == 1;
        let identified = |host: u8, attempt: u32| host % 3 == 0 && attempt > 1;
        let everything = scan(all, 9, reached, identified);
        let miners = scan(ScanConfig { report_misses: false, ..all }, 9, reached, identified);
        let found: Vec<(u8, bool)> =
            everything.outcomes.iter().copied().filter(|outcome| outcome.1).collect();
        assert_eq!(miners.outcomes, found);
        assert_eq!(miners.passes, everything.passes);
        assert!(!found.is_empty());
    }
}

#[test]
fn every_address_is_reported_once() {
    for strict in [true, false] {
        for check_port in [true, false] {
            let config = ScanConfig {
                strict,
                check_port,
                probe_retries: 2,
                scan_retries: 2,
                ..config()
            };
            let log = scan(
                config,
                30,
                |host, attempt| host % 5 == 0 || host as u32 % 4 == attempt,
                |host, attempt| host as u32 % 7 == attempt,
            );
            let mut hosts: Vec<u8> = log.outcomes.iter().map(|outcome| outcome.0).collect();
            hosts.sort();
            assert_eq!(hosts, (1..=30).collect::<Vec<u8>>());
        }
    }
}

#[test]
fn limits_of_zero_let_one_host_through() {
    let log = scan(
        ScanConfig {
            strict: false,
            probe_retries: 1,
            probe_concurrency: 0,
            probe_retry_concurrency: 0,
            identify_concurrency: 0,
            ..config()
        },
        1,
        |_, _| false,
        |_, _| true,
    );
    assert_eq!(
        log.passes,
        vec![
            "probe [1] x1 after None",
            "probe [1] x1 after Some(100)",
            "identify [1] x1 after None",
        ]
    );
}

#[test]
fn nothing_queued_is_soon_done() {
    let log = scan(config(), 0, |_, _| true, |_, _| true);
    assert_eq!(log.passes, vec!["probe [] x256 after None"]);
    assert!(log.outcomes.is_empty());
}

#[test]
fn a_host_is_recorded_once() {
    let mut run = ScanRun::new(config(), vec![ip(1), ip(2)], None);
    assert_eq!(run.record(0, true), Recorded::Ignored);
    assert!(matches!(run.advance(), ScanAction::Probe { .. }));
    assert_eq!(run.record(0, true), Recorded::Kept);
    assert_eq!(run.record(0, false), Recorded::Ignored);
    assert_eq!(run.record(2, true), Recorded::Ignored);
    assert!(matches!(run.advance(), ScanAction::Wait));
    assert_eq!(run.record(1, false), Recorded::Kept);
    assert!(matches!(
        run.advance(),
        ScanAction::Identify { ips, .. } if ips == vec![ip(1)]
    ));
    assert!(run.nofile_outcome().is_none());
}

/// How often each host from 1 to `count` was handed out to be identified.
fn attempts(log: &Log, count: u8) -> Vec<usize> {
    (1..=count)
        .map(|host| {
            log.passes
                .iter()
                .filter(|pass| pass.starts_with("identify"))
                .filter(|pass| {
                    let (_, rest) = pass.split_once('[').unwrap();
                    let (hosts, _) = rest.split_once(']').unwrap();
                    hosts.split(", ").any(|text| text == format!("{host}"))
                })
                .count()
        })
        .collect()
}

#[test]
fn a_host_is_tried_until_it_is_identified() {
    for check_port in [true, false] {
        // Host k is identified at its attempt k; there are three attempts.
        let log = scan(
            ScanConfig { check_port, scan_retries: 2, ..config() },
            4,
            |_, _| true,
            |host, attempt| host as u32 == attempt,
        );
        assert_eq!(attempts(&log, 4), vec![1, 2, 3, 3]);
        assert_eq!(log.outcomes, vec![(1, true), (2, true), (3, true), (4, false)]);
    }
}

#[test]
fn an_unreached_host_is_tried_at_most_once() {
    for strict in [true, false] {
        let log = scan(
            ScanConfig { strict, scan_retries: 2, ..config() },
            2,
            |host, _| host == 1,
            |host, _| host == 2,
        );
        assert_eq!(attempts(&log, 2), vec![3, if strict { 0 } else { 1 }]);
        assert_eq!(log.outcomes, vec![(1, false), (2, !strict)]);
    }
}

#[test]
fn copies_of_an_address_are_tried_one_by_one() {
    for strict in [true, false] {
        // Of three copies of one address a probe reaches two; one of these is identified
        // at its first attempt, and nothing else ever is.
        let rules = ScanConfig { strict, scan_retries: 2, ..config() };
        let mut run = ScanRun::new(rules, vec![ip(1), ip(1), ip(1)], None);
        let mut handed_out = 0;
        let mut reports = Vec::new();
        loop {
            match run.advance() {
                ScanAction::Wait => unreachable!(),
                ScanAction::Probe { ips, .. } => {
                    for slot in 0..ips.len() {
                        run.record(slot, slot != 1);
                    }
                }
                ScanAction::Identify { ips, .. } => {
                    let first = handed_out == 0;
                    handed_out += ips.len();
                    for slot in 0..ips.len() {
                        let found = first && slot == 0;
                        if run.record(slot, found) == Recorded::Yield {
                            reports.push(found);
                        }
                    }
                }
                ScanAction::Report { misses } => reports.extend(misses.iter().map(|_| false)),
                ScanAction::Done => break,
            }
        }
        // Two at first, the one that is left twice more, and the last one where allowed.
        assert_eq!(handed_out, if strict { 4 } else { 5 });
        assert_eq!(reports, vec![true, false, false]);
    }
}

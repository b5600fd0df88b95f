//! The factory: which addresses to scan, with which firmwares, and how.

use crate::address::IpAddr;
use crate::credentials::{AuthModel, AuthTable, MinerAuth};
use crate::discovery::{upgrade_window, Discovery, DiscoveryModel, UPGRADE_WINDOW_MILLIS};
use crate::error::{ErrorModel, FactoryError};
use crate::identify::{
    clone_registry, discovery_commands, gathered, models, registry_model, Firmware, FirmwareModel,
    MinerCommand,
};
use crate::limits::{
    calculate_desired_nofile_limit, calculate_optimal_concurrency, calculate_retry_concurrency,
    clamped, descriptor_concurrency, descriptors, desired_nofile, larger, max_usize,
    maybe_adjust_nofile_limit, IDENTIFICATION_CONCURRENCY,
    IDENTIFICATION_RETRY_CONCURRENCY, MINER_PORTS, MIN_NOFILE_LIMIT, NOFILE_PER_CONCURRENCY,
};
use crate::octets::{hosts_from_octets, hosts_from_range, octets_select, range_selects};
use crate::probe::{MinerProbe, ProbeStep};
use crate::scan::{reported, reports_of, Outcome, RunModel, ScanConfig, ScanOp, ScanRun};
use crate::subnet::{hosts_from_subnet, parsed_subnet, subnet_selects};
use crate::time::{Duration, NANOS_PER_MILLI, NANOS_PER_SEC};
use rand::seq::SliceRandom;
use vstd::prelude::*;

verus! {

/// How a factory scans.
#[derive(Clone, Copy, Debug, PartialEq, Eq, Structural)]
pub struct Settings {
    /// The longest time to find out the firmware of a host.
    pub identification_timeout: Duration,
    /// The longest time to construct a miner.
    pub miner_construction_timeout: Duration,
    /// The longest time to wait for a port to open.
    pub connectivity_timeout: Duration,
    /// The connectivity probes that may follow the first.
    pub connectivity_retries: u32,
    /// The hosts probed at once at first.
    pub connectivity_concurrent: usize,
    /// The hosts probed at once on a retry.
    pub connectivity_retry_concurrent: usize,
    /// The delay before the first retry of a probe.
    pub connectivity_retry_backoff: Duration,
    /// The attempts to identify a host that may follow the first.
    pub scan_retries: u32,
    /// The delay before the first of those.
    pub scan_retry_backoff: Duration,
    /// The hosts identified at once on a retry, where that is set.
    pub retry_concurrent: Option<usize>,
    /// The hosts identified at once at first, where that is set.
    pub concurrent: Option<usize>,
    /// The file descriptors to ask for, where that is set.
    pub nofile_limit: Option<u64>,
    /// Whether to ask for file descriptors where no limit is set.
    pub nofile_adjustment: bool,
    /// Whether hosts are probed before they are identified.
    pub check_port: bool,
    /// Whether hosts that are not reached are left out.
    pub strict_port_check: bool,
}

impl Settings {
    /// Every limit on hosts at once lets at least one host through.
    pub open spec fn wf(self) -> bool {
        &&& self.connectivity_concurrent >= 1
        &&& self.connectivity_retry_concurrent >= 1
        &&& self.retry_concurrent matches Some(limit) ==> limit >= 1
        &&& self.concurrent matches Some(limit) ==> limit >= 1
    }

    /// The settings that a factory begins with.
    pub open spec fn are_default(self) -> bool {
        &&& self.identification_timeout@ == 3 * NANOS_PER_SEC
        &&& self.miner_construction_timeout@ == 5 * NANOS_PER_SEC
        &&& self.connectivity_timeout@ == 500 * NANOS_PER_MILLI
        &&& self.connectivity_retries == 0
        &&& self.connectivity_concurrent == 256
        &&& self.connectivity_retry_concurrent == 64
        &&& self.connectivity_retry_backoff@ == 100 * NANOS_PER_MILLI
        &&& self.scan_retries == 0
        &&& self.scan_retry_backoff@ == 250 * NANOS_PER_MILLI
        &&& self.retry_concurrent is None
        &&& self.concurrent is None
        &&& self.nofile_limit is None
        &&& self.nofile_adjustment
        &&& self.check_port
        &&& self.strict_port_check
    }

    /// The settings that a factory begins with.
    fn default_settings() -> (settings: Settings)
        ensures
            settings.are_default(),
    {
        Settings {
            identification_timeout: Duration::from_secs(3),
            miner_construction_timeout: Duration::from_secs(5),
            connectivity_timeout: Duration::from_millis(500),
            connectivity_retries: 0,
            connectivity_concurrent: 256,
            connectivity_retry_concurrent: 64,
            connectivity_retry_backoff: Duration::from_millis(100),
            scan_retries: 0,
            scan_retry_backoff: Duration::from_millis(250),
            retry_concurrent: None,
            concurrent: None,
            nofile_limit: None,
            nofile_adjustment: true,
            check_port: true,
            strict_port_check: true,
        }
    }
}

/// Discovers miners: it holds the addresses to scan, the firmwares to look for, the
/// credentials to construct miners with, and the settings.
///
/// [`Self::from_subnet`], [`Self::from_octets`] and [`Self::from_range`] make a
/// factory with addresses; the matching `with_` methods append more and the matching
/// `set_` methods replace them.
pub struct MinerFactory {
    search_firmwares: Option<Vec<Firmware>>,
    ips: Vec<IpAddr>,
    discovery_auth_by_firmware: AuthTable,
    settings: Settings,
}

/// A [`MinerFactory`]: the firmwares to look for in place of the default ones, the
/// queued addresses, the credentials by the name of the firmware, and the settings.
#[verifier::ext_equal]
pub struct FactoryModel {
    pub firmwares: Option<Seq<FirmwareModel>>,
    pub queue: Seq<IpAddr>,
    pub auth: Map<Seq<char>, AuthModel>,
    pub settings: Settings,
}

impl View for MinerFactory {
    type V = FactoryModel;

    closed spec fn view(&self) -> FactoryModel {
        FactoryModel {
            firmwares: match self.search_firmwares {
                Some(firmwares) => Some(registry_model(firmwares@)),
                None => None,
            },
            queue: self.ips@,
            auth: self.discovery_auth_by_firmware@,
            settings: self.settings,
        }
    }
}

impl FactoryModel {
    /// A factory without addresses, firmwares of its own or credentials, and with the
    /// default settings.
    pub open spec fn is_new(self) -> bool {
        &&& self.firmwares is None
        &&& self.queue == Seq::<IpAddr>::empty()
        &&& self.auth == Map::<Seq<char>, AuthModel>::empty()
        &&& self.settings.are_default()
    }

    /// A new factory but for `ips`, which are queued in some order.
    pub open spec fn is_new_with(self, ips: Seq<IpAddr>) -> bool {
        &&& FactoryModel { queue: Seq::empty(), ..self }.is_new()
        &&& self.queue.to_multiset() == ips.to_multiset()
    }

    /// The factory with other settings.
    pub open spec fn with_settings(self, settings: Settings) -> FactoryModel {
        FactoryModel { settings, ..self }
    }

    /// Whether `after` is this factory with `ips` queued in some order, and nothing
    /// else changed.
    pub open spec fn becomes(self, after: FactoryModel, ips: Seq<IpAddr>) -> bool {
        &&& after.firmwares == self.firmwares
        &&& after.auth == self.auth
        &&& after.settings == self.settings
        &&& after.queue.to_multiset() == ips.to_multiset()
    }

    /// The firmwares to look for, where `defaults` are the default ones.
    pub open spec fn registry(self, defaults: Seq<FirmwareModel>) -> Seq<FirmwareModel> {
        match self.firmwares {
            Some(firmwares) => firmwares,
            None => defaults,
        }
    }

    /// The hosts to identify at once at first.
    pub open spec fn identification_concurrency(self) -> int {
        larger(
            match self.settings.concurrent {
                Some(limit) => limit as int,
                None => clamped(self.queue.len() as int, 1, IDENTIFICATION_CONCURRENCY as int),
            },
            1,
        )
    }

    /// The hosts to identify at once on a retry.
    pub open spec fn identification_retry_concurrency(self) -> int {
        match self.settings.retry_concurrent {
            Some(limit) => limit as int,
            None => clamped(
                self.identification_concurrency(),
                1,
                IDENTIFICATION_RETRY_CONCURRENCY as int,
            ),
        }
    }

    /// The file descriptors to ask for before a scan, if any.
    pub open spec fn desired_nofile_limit(self) -> Option<int> {
        match self.settings.nofile_limit {
            Some(limit) => Some(limit as int),
            None => if self.settings.nofile_adjustment {
                Some(
                    desired_nofile(
                        descriptors(
                            self.settings.connectivity_concurrent,
                            self.identification_concurrency() as usize,
                        ) as usize,
                    ),
                )
            } else {
                None
            },
        }
    }

    /// The rules of a scan.
    pub open spec fn scan_config(self, report_misses: bool) -> ScanConfig {
        ScanConfig {
            check_port: self.settings.check_port,
            strict: self.settings.strict_port_check,
            probe_concurrency: self.settings.connectivity_concurrent,
            probe_retry_concurrency: self.settings.connectivity_retry_concurrent,
            probe_retries: self.settings.connectivity_retries,
            probe_delay: self.settings.connectivity_retry_backoff,
            identify_concurrency: self.identification_concurrency() as usize,
            identify_retry_concurrency: self.identification_retry_concurrency() as usize,
            scan_retries: self.settings.scan_retries,
            scan_delay: self.settings.scan_retry_backoff,
            report_misses,
        }
    }

    /// Whether `run` is the start of a scan of this factory, with the file descriptors
    /// asked for that are due.
    pub open spec fn starts(self, run: ScanRun, report_misses: bool) -> bool {
        &&& run@ == RunModel::start(self.scan_config(report_misses), self.queue)
        &&& match self.desired_nofile_limit() {
            Some(desired) => run.nofile_model() matches Some(answer) && answer.requested()
                == desired,
            None => run.nofile_model() is None,
        }
    }
}

/// Calls `shuffle` of `rand::seq::SliceRandom` with the generator `rand::rng()`.
/// Claimed: the same addresses are there afterwards, each as often as before. In which
/// order they are is left to chance.
#[verifier::external_body]
fn shuffle(ips: &mut Vec<IpAddr>)
    ensures
        final(ips)@.to_multiset() == old(ips)@.to_multiset(),
{
    ips.shuffle(&mut rand::rng())
}

/// The search for the firmware of one host.
pub struct HostSearch {
    /// The host.
    pub ip: IpAddr,
    /// The requests to send to it, all at once.
    pub commands: Vec<MinerCommand>,
    /// What to make of the answers.
    pub discovery: Discovery,
    /// The longest time for the search.
    pub identification_timeout: Duration,
    /// The longest time that a stock firmware waits for a replacement.
    pub upgrade_window: Duration,
    /// The longest time to construct the miner once its firmware is found.
    pub construction_timeout: Duration,
}

/// What a factory says of itself. Addresses, firmwares and credentials are counted,
/// not shown.
#[derive(Clone, Copy, Debug, PartialEq, Eq, Structural)]
pub struct FactorySummary {
    pub ips: usize,
    pub search_firmwares: Option<usize>,
    pub discovery_auth_by_firmware: usize,
    pub settings: Settings,
}

/// Whether each firmware in a registry is stock.
pub open spec fn stock_flags(registry: Seq<FirmwareModel>) -> Seq<bool> {
    registry.map_values(|firmware: FirmwareModel| firmware.stock)
}

/// Whether each firmware in a registry is stock.
fn stock_of(registry: &Vec<Firmware>) -> (stock: Vec<bool>)
    ensures
        stock@ == stock_flags(registry_model(registry@)),
{
    let mut stock: Vec<bool> = Vec::new();
    let mut i: usize = 0;
    while i < registry.len()
        invariant
            i <= registry.len(),
            stock@ == stock_flags(registry_model(registry@)).take(i as int),
        decreases registry.len() - i,
    {
        stock.push(registry[i].stock);
        assert(stock@ =~= stock_flags(registry_model(registry@)).take(i + 1));
        i = i + 1;
    }
    assert(stock@ =~= stock_flags(registry_model(registry@)));
    stock
}

impl Clone for MinerFactory {
    fn clone(&self) -> (copy: Self)
        ensures
            copy@ == self@,
    {
        proof {
            use_type_invariant(self);
        }
        let search_firmwares = match &self.search_firmwares {
            Some(firmwares) => Some(clone_registry(firmwares)),
            None => None,
        };
        MinerFactory {
            search_firmwares,
            ips: self.hosts(),
            discovery_auth_by_firmware: self.discovery_auth_by_firmware.clone(),
            settings: self.settings,
        }
    }
}

impl Default for MinerFactory {
    fn default() -> (factory: Self)
        ensures
            factory@.is_new(),
    {
        Self::new()
    }
}

impl MinerFactory {
    #[verifier::type_invariant]
    spec fn limits_are_positive(self) -> bool {
        self.settings.wf()
    }

    /// A factory without addresses. Queue some before [`Self::scan`], or call
    /// [`Self::get_miner`] where the address is known.
    pub fn new() -> (factory: MinerFactory)
        ensures
            factory@.is_new(),
    {
        MinerFactory {
            search_firmwares: None,
            ips: Vec::new(),
            discovery_auth_by_firmware: AuthTable::new(),
            settings: Settings::default_settings(),
        }
    }

    /// The factory with other settings.
    fn with_settings(self, settings: Settings) -> (factory: Self)
        requires
            settings.wf(),
        ensures
            factory@ == self@.with_settings(settings),
    {
        MinerFactory {
            search_firmwares: self.search_firmwares,
            ips: self.ips,
            discovery_auth_by_firmware: self.discovery_auth_by_firmware,
            settings,
        }
    }

    /// The settings.
    pub fn settings(&self) -> (settings: Settings)
        ensures
            settings == self@.settings,
            settings.wf(),
    {
        proof {
            use_type_invariant(self);
        }
        self.settings
    }

    /// Sets whether hosts are probed before they are identified.
    pub fn with_port_check(self, enabled: bool) -> (factory: Self)
        ensures
            factory@ == self@.with_settings(Settings { check_port: enabled, ..self@.settings }),
    {
        let settings = self.settings();
        self.with_settings(Settings { check_port: enabled, ..settings })
    }

    /// Sets whether hosts that miss all probes are left out. Where they are not, each
    /// gets one attempt to be identified after all others.
    pub fn with_strict_port_check(self, enabled: bool) -> (factory: Self)
        ensures
            factory@ == self@.with_settings(
                Settings { strict_port_check: enabled, ..self@.settings },
            ),
    {
        let settings = self.settings();
        self.with_settings(Settings { strict_port_check: enabled, ..settings })
    }

    /// Sets the credentials to construct miners with that run `firmware`.
    pub fn with_firmware_discovery_auth(self, firmware: &Firmware, auth: MinerAuth) -> (factory:
        Self)
        ensures
            factory@ == (FactoryModel {
                auth: self@.auth.insert(firmware@.name, auth@),
                ..self@
            }),
    {
        let settings = self.settings();
        let mut table = self.discovery_auth_by_firmware;
        table.insert(firmware.name.clone(), auth);
        MinerFactory {
            search_firmwares: self.search_firmwares,
            ips: self.ips,
            discovery_auth_by_firmware: table,
            settings,
        }
    }

    /// Sets the number of hosts identified at once, at least one.
    pub fn with_concurrent_limit(self, limit: usize) -> (factory: Self)
        ensures
            factory@ == self@.with_settings(
                Settings {
                    concurrent: Some(larger(limit as int, 1) as usize),
                    ..self@.settings
                },
            ),
    {
        let settings = self.settings();
        self.with_settings(Settings { concurrent: Some(max_usize(limit, 1)), ..settings })
    }

    /// Sets the number of further attempts for hosts that are not identified.
    pub fn with_scan_retries(self, retries: u32) -> (factory: Self)
        ensures
            factory@ == self@.with_settings(Settings { scan_retries: retries, ..self@.settings }),
    {
        let settings = self.settings();
        self.with_settings(Settings { scan_retries: retries, ..settings })
    }

    /// Sets the number of hosts identified at once on a retry, at least one.
    pub fn with_retry_concurrent_limit(self, limit: usize) -> (factory: Self)
        ensures
            factory@ == self@.with_settings(
                Settings {
                    retry_concurrent: Some(larger(limit as int, 1) as usize),
                    ..self@.settings
                },
            ),
    {
        let settings = self.settings();
        self.with_settings(Settings { retry_concurrent: Some(max_usize(limit, 1)), ..settings })
    }

    /// Sets the delay before the first retry of hosts that are not identified; later
    /// ones wait longer.
    pub fn with_scan_retry_backoff(self, backoff: Duration) -> (factory: Self)
        ensures
            factory@ == self@.with_settings(
                Settings { scan_retry_backoff: backoff, ..self@.settings },
            ),
    {
        let settings = self.settings();
        self.with_settings(Settings { scan_retry_backoff: backoff, ..settings })
    }

    /// Sets the delay before the first retry of hosts that are not identified, in
    /// milliseconds.
    pub fn with_scan_retry_backoff_millis(self, backoff_millis: u64) -> (factory: Self)
        ensures
            factory@.settings.scan_retry_backoff@ == backoff_millis * NANOS_PER_MILLI,
            factory@ == self@.with_settings(
                Settings {
                    scan_retry_backoff: factory@.settings.scan_retry_backoff,
                    ..self@.settings
                },
            ),
    {
        self.with_scan_retry_backoff(Duration::from_millis(backoff_millis))
    }

    /// Sets the file descriptors to ask for before a scan. Where the system refuses, the
    /// scan goes on with those there are.
    pub fn with_nofile_limit(self, limit: u64) -> (factory: Self)
        ensures
            factory@ == self@.with_settings(Settings { nofile_limit: Some(limit), ..self@.settings }),
    {
        let settings = self.settings();
        self.with_settings(Settings { nofile_limit: Some(limit), ..settings })
    }

    /// Sets whether file descriptors are asked for where no limit is set.
    pub fn with_nofile_adjustment(self, enabled: bool) -> (factory: Self)
        ensures
            factory@ == self@.with_settings(Settings { nofile_adjustment: enabled, ..self@.settings }),
    {
        let settings = self.settings();
        self.with_settings(Settings { nofile_adjustment: enabled, ..settings })
    }

    /// Fixes the number of hosts identified at once to what suits the number of queued
    /// addresses.
    pub fn with_adaptive_concurrency(self) -> (factory: Self)
        ensures
            factory@ == self@.with_settings(
                Settings {
                    concurrent: Some(
                        clamped(
                            self@.queue.len() as int,
                            1,
                            IDENTIFICATION_CONCURRENCY as int,
                        ) as usize,
                    ),
                    ..self@.settings
                },
            ),
    {
        let settings = self.settings();
        let concurrent = Some(calculate_optimal_concurrency(self.ips.len()));
        self.with_settings(Settings { concurrent, ..settings })
    }

    /// Fixes the number of hosts identified at once to what suits the number of queued
    /// addresses, unless it is set.
    pub fn update_adaptive_concurrency(&mut self)
        ensures
            final(self)@ == if old(self)@.settings.concurrent is Some {
                old(self)@
            } else {
                old(self)@.with_settings(
                    Settings {
                        concurrent: Some(
                            clamped(
                                old(self)@.queue.len() as int,
                                1,
                                IDENTIFICATION_CONCURRENCY as int,
                            ) as usize,
                        ),
                        ..old(self)@.settings
                    },
                )
            },
    {
        let settings = self.settings();
        if settings.concurrent.is_none() {
            let concurrent = Some(calculate_optimal_concurrency(self.ips.len()));
            self.settings = Settings { concurrent, ..settings };
        }
    }

    /// Sets the longest time to find out the firmware of a host.
    pub fn with_identification_timeout(self, timeout: Duration) -> (factory: Self)
        ensures
            factory@ == self@.with_settings(Settings { identification_timeout: timeout, ..self@.settings }),
    {
        let settings = self.settings();
        self.with_settings(Settings { identification_timeout: timeout, ..settings })
    }

    /// Sets the longest time to find out the firmware of a host, in seconds.
    pub fn with_identification_timeout_secs(self, timeout_secs: u64) -> (factory: Self)
        ensures
            factory@.settings.identification_timeout@ == timeout_secs * NANOS_PER_SEC,
            factory@ == self@.with_settings(
                Settings {
                    identification_timeout: factory@.settings.identification_timeout,
                    ..self@.settings
                },
            ),
    {
        self.with_identification_timeout(Duration::from_secs(timeout_secs))
    }

    /// Sets the longest time to construct a miner.
    pub fn with_miner_construction_timeout(self, timeout: Duration) -> (factory: Self)
        ensures
            factory@ == self@.with_settings(Settings { miner_construction_timeout: timeout, ..self@.settings }),
    {
        let settings = self.settings();
        self.with_settings(Settings { miner_construction_timeout: timeout, ..settings })
    }

    /// Sets the longest time to construct a miner, in seconds.
    pub fn with_miner_construction_timeout_secs(self, timeout_secs: u64) -> (factory: Self)
        ensures
            factory@.settings.miner_construction_timeout@ == timeout_secs * NANOS_PER_SEC,
            factory@ == self@.with_settings(
                Settings {
                    miner_construction_timeout: factory@.settings.miner_construction_timeout,
                    ..self@.settings
                },
            ),
    {
        self.with_miner_construction_timeout(Duration::from_secs(timeout_secs))
    }

    /// Sets the longest time to wait for a port to open.
    pub fn with_connectivity_timeout(self, timeout: Duration) -> (factory: Self)
        ensures
            factory@ == self@.with_settings(Settings { connectivity_timeout: timeout, ..self@.settings }),
    {
        let settings = self.settings();
        self.with_settings(Settings { connectivity_timeout: timeout, ..settings })
    }

    /// Sets the longest time to wait for a port to open, in seconds.
    pub fn with_connectivity_timeout_secs(self, timeout_secs: u64) -> (factory: Self)
        ensures
            factory@.settings.connectivity_timeout@ == timeout_secs * NANOS_PER_SEC,
            factory@ == self@.with_settings(
                Settings {
                    connectivity_timeout: factory@.settings.connectivity_timeout,
                    ..self@.settings
                },
            ),
    {
        self.with_connectivity_timeout(Duration::from_secs(timeout_secs))
    }

    /// Sets the longest time to wait for a port to open, in milliseconds.
    pub fn with_connectivity_timeout_millis(self, timeout_millis: u64) -> (factory: Self)
        ensures
            factory@.settings.connectivity_timeout@ == timeout_millis * NANOS_PER_MILLI,
            factory@ == self@.with_settings(
                Settings {
                    connectivity_timeout: factory@.settings.connectivity_timeout,
                    ..self@.settings
                },
            ),
    {
        self.with_connectivity_timeout(Duration::from_millis(timeout_millis))
    }

    /// Sets the number of probes that may follow the first. With zero there is still
    /// the first.
    pub fn with_connectivity_retries(self, retries: u32) -> (factory: Self)
        ensures
            factory@ == self@.with_settings(Settings { connectivity_retries: retries, ..self@.settings }),
    {
        let settings = self.settings();
        self.with_settings(Settings { connectivity_retries: retries, ..settings })
    }

    /// Sets the number of hosts probed at once at first, at least one.
    pub fn with_connectivity_concurrent_limit(self, limit: usize) -> (factory: Self)
        ensures
            factory@ == self@.with_settings(Settings { connectivity_concurrent: larger(limit as int, 1) as usize, ..self@.settings }),
    {
        let settings = self.settings();
        self.with_settings(Settings { connectivity_concurrent: max_usize(limit, 1), ..settings })
    }

    /// Sets the number of hosts probed at once on a retry, at least one.
    pub fn with_connectivity_retry_concurrent_limit(self, limit: usize) -> (factory: Self)
        ensures
            factory@ == self@.with_settings(Settings { connectivity_retry_concurrent: larger(limit as int, 1) as usize, ..self@.settings }),
    {
        let settings = self.settings();
        self.with_settings(Settings { connectivity_retry_concurrent: max_usize(limit, 1), ..settings })
    }

    /// Sets the delay before the first retry of a probe; later ones wait longer.
    pub fn with_connectivity_retry_backoff(self, backoff: Duration) -> (factory: Self)
        ensures
            factory@ == self@.with_settings(Settings { connectivity_retry_backoff: backoff, ..self@.settings }),
    {
        let settings = self.settings();
        self.with_settings(Settings { connectivity_retry_backoff: backoff, ..settings })
    }

    /// Sets the delay before the first retry of a probe, in milliseconds.
    pub fn with_connectivity_retry_backoff_millis(self, backoff_millis: u64) -> (factory: Self)
        ensures
            factory@.settings.connectivity_retry_backoff@ == backoff_millis * NANOS_PER_MILLI,
            factory@ == self@.with_settings(
                Settings {
                    connectivity_retry_backoff: factory@.settings.connectivity_retry_backoff,
                    ..self@.settings
                },
            ),
    {
        self.with_connectivity_retry_backoff(Duration::from_millis(backoff_millis))
    }

    /// Sets the firmwares to look for in place of the default ones.
    pub fn with_firmwares(self, firmwares: Vec<Firmware>) -> (factory: Self)
        ensures
            factory@ == (FactoryModel {
                firmwares: Some(registry_model(firmwares@)),
                ..self@
            }),
    {
        let settings = self.settings();
        MinerFactory {
            search_firmwares: Some(firmwares),
            ips: self.ips,
            discovery_auth_by_firmware: self.discovery_auth_by_firmware,
            settings,
        }
    }

    /// Appends `hosts` and shuffles the queue.
    fn with_more(self, hosts: Vec<IpAddr>) -> (factory: Self)
        ensures
            self@.becomes(factory@, self@.queue + hosts@),
    {
        let settings = self.settings();
        let mut ips = self.ips;
        let mut hosts = hosts;
        ips.append(&mut hosts);
        shuffle(&mut ips);
        MinerFactory {
            search_firmwares: self.search_firmwares,
            ips,
            discovery_auth_by_firmware: self.discovery_auth_by_firmware,
            settings,
        }
    }

    /// Queues `hosts` in place of what was queued, shuffled.
    fn requeue(&mut self, hosts: Vec<IpAddr>)
        ensures
            old(self)@.becomes(final(self)@, hosts@),
    {
        let mut ips = hosts;
        shuffle(&mut ips);
        proof {
            use_type_invariant(&*self);
        }
        self.ips = ips;
    }

    /// A factory with all addresses of a subnet in CIDR notation, of
    /// either family.
    pub fn from_subnet(subnet: &str) -> (factory: Result<Self, FactoryError>)
        ensures
            match subnet_selects(subnet@) {
                Ok(hosts) => factory matches Ok(factory) && factory@.is_new_with(hosts),
                Err(cause) => factory matches Err(error) && error@ == cause,
            },
            parsed_subnet(subnet@) matches Some(network) ==> network.wf(),
    {
        proof {
            if let Ok(hosts) = subnet_selects(subnet@) {
                assert(Seq::<IpAddr>::empty() + hosts =~= hosts);
            }
        }
        Self::new().with_subnet(subnet)
    }

    /// Appends all addresses of a subnet in CIDR notation, of
    /// either family.
    pub fn with_subnet(self, subnet: &str) -> (factory: Result<Self, FactoryError>)
        ensures
            match subnet_selects(subnet@) {
                Ok(hosts) => factory matches Ok(factory) && self@.becomes(
                    factory@,
                    self@.queue + hosts,
                ),
                Err(cause) => factory matches Err(error) && error@ == cause,
            },
            parsed_subnet(subnet@) matches Some(network) ==> network.wf(),
    {
        match hosts_from_subnet(subnet) {
            Ok(hosts) => Ok(self.with_more(hosts)),
            Err(error) => Err(error),
        }
    }

    /// Replaces the queued addresses by those of a subnet in CIDR notation, of
    /// either family; where that is refused, they
    /// stay.
    pub fn set_subnet(&mut self, subnet: &str) -> (queued: Result<&Self, FactoryError>)
        ensures
            match subnet_selects(subnet@) {
                Ok(hosts) => queued is Ok && queued->Ok_0@ == final(self)@
                    && old(self)@.becomes(final(self)@, hosts),
                Err(cause) => queued is Err && queued->Err_0@ == cause && final(self)@ == old(
                    self,
                )@,
            },
            parsed_subnet(subnet@) matches Some(network) ==> network.wf(),
    {
        match hosts_from_subnet(subnet) {
            Ok(hosts) => {
                self.requeue(hosts);
                Ok(self)
            },
            Err(error) => Err(error),
        }
    }

    /// A factory with all addresses of four octet selectors, each a
    /// value such as `192` or a range such as `1-254`.
    pub fn from_octets(octet1: &str, octet2: &str, octet3: &str, octet4: &str) -> (factory: Result<Self, FactoryError>)
        ensures
            match octets_select(octet1@, octet2@, octet3@, octet4@) {
                Ok(hosts) => factory matches Ok(factory) && factory@.is_new_with(hosts),
                Err(cause) => factory matches Err(error) && error@ == cause,
            },
    {
        proof {
            if let Ok(hosts) = octets_select(octet1@, octet2@, octet3@, octet4@) {
                assert(Seq::<IpAddr>::empty() + hosts =~= hosts);
            }
        }
        Self::new().with_octets(octet1, octet2, octet3, octet4)
    }

    /// Appends all addresses of four octet selectors, each a
    /// value such as `192` or a range such as `1-254`.
    pub fn with_octets(self, octet1: &str, octet2: &str, octet3: &str, octet4: &str) -> (factory: Result<Self, FactoryError>)
        ensures
            match octets_select(octet1@, octet2@, octet3@, octet4@) {
                Ok(hosts) => factory matches Ok(factory) && self@.becomes(
                    factory@,
                    self@.queue + hosts,
                ),
                Err(cause) => factory matches Err(error) && error@ == cause,
            },
    {
        match hosts_from_octets(octet1, octet2, octet3, octet4) {
            Ok(hosts) => Ok(self.with_more(hosts)),
            Err(error) => Err(error),
        }
    }

    /// Replaces the queued addresses by those of four octet selectors, each a
    /// value such as `192` or a range such as `1-254`; where that is refused, they
    /// stay.
    pub fn set_octets(&mut self, octet1: &str, octet2: &str, octet3: &str, octet4: &str) -> (queued: Result<&Self, FactoryError>)
        ensures
            match octets_select(octet1@, octet2@, octet3@, octet4@) {
                Ok(hosts) => queued is Ok && queued->Ok_0@ == final(self)@
                    && old(self)@.becomes(final(self)@, hosts),
                Err(cause) => queued is Err && queued->Err_0@ == cause && final(self)@ == old(
                    self,
                )@,
            },
    {
        match hosts_from_octets(octet1, octet2, octet3, octet4) {
            Ok(hosts) => {
                self.requeue(hosts);
                Ok(self)
            },
            Err(error) => Err(error),
        }
    }

    /// A factory with all addresses of a range string such as
    /// `192.168.1.1-254`.
    pub fn from_range(range_str: &str) -> (factory: Result<Self, FactoryError>)
        ensures
            match range_selects(range_str@) {
                Ok(hosts) => factory matches Ok(factory) && factory@.is_new_with(hosts),
                Err(cause) => factory matches Err(error) && error@ == cause,
            },
    {
        proof {
            if let Ok(hosts) = range_selects(range_str@) {
                assert(Seq::<IpAddr>::empty() + hosts =~= hosts);
            }
        }
        Self::new().with_range(range_str)
    }

    /// Appends all addresses of a range string such as
    /// `192.168.1.1-254`.
    pub fn with_range(self, range_str: &str) -> (factory: Result<Self, FactoryError>)
        ensures
            match range_selects(range_str@) {
                Ok(hosts) => factory matches Ok(factory) && self@.becomes(
                    factory@,
                    self@.queue + hosts,
                ),
                Err(cause) => factory matches Err(error) && error@ == cause,
            },
    {
        match hosts_from_range(range_str) {
            Ok(hosts) => Ok(self.with_more(hosts)),
            Err(error) => Err(error),
        }
    }

    /// Replaces the queued addresses by those of a range string such as
    /// `192.168.1.1-254`; where that is refused, they
    /// stay.
    pub fn set_range(&mut self, range_str: &str) -> (queued: Result<&Self, FactoryError>)
        ensures
            match range_selects(range_str@) {
                Ok(hosts) => queued is Ok && queued->Ok_0@ == final(self)@
                    && old(self)@.becomes(final(self)@, hosts),
                Err(cause) => queued is Err && queued->Err_0@ == cause && final(self)@ == old(
                    self,
                )@,
            },
    {
        match hosts_from_range(range_str) {
            Ok(hosts) => {
                self.requeue(hosts);
                Ok(self)
            },
            Err(error) => Err(error),
        }
    }

    /// The queued addresses.
    pub fn hosts(&self) -> (hosts: Vec<IpAddr>)
        ensures
            hosts@ == self@.queue,
    {
        let hosts = self.ips.clone();
        assert(hosts@ =~= self.ips@);
        hosts
    }

    /// The number of queued addresses.
    pub fn len(&self) -> (len: usize)
        ensures
            len == self@.queue.len(),
    {
        self.ips.len()
    }

    /// Whether no address is queued.
    pub fn is_empty(&self) -> (empty: bool)
        ensures
            empty == (self@.queue.len() == 0),
    {
        self.ips.len() == 0
    }

    /// The number of hosts to identify at once at first.
    fn identification_concurrency(&self) -> (concurrency: usize)
        ensures
            concurrency == self@.identification_concurrency(),
    {
        let limit: usize = match self.settings.concurrent {
            Some(limit) => limit,
            None => calculate_optimal_concurrency(self.ips.len()),
        };
        max_usize(limit, 1)
    }

    /// The file descriptors to ask for before a scan: those that were set, or else
    /// enough for all connections that the scan may hold open at once, unless that is
    /// switched off.
    pub fn desired_nofile_limit(&self) -> (desired: Option<u64>)
        ensures
            match desired {
                Some(desired) => self@.desired_nofile_limit() == Some(desired as int),
                None => self@.desired_nofile_limit() is None,
            },
    {
        match self.settings.nofile_limit {
            Some(limit) => Some(limit),
            None => if self.settings.nofile_adjustment {
                let connections = descriptor_concurrency(
                    self.settings.connectivity_concurrent,
                    self.identification_concurrency(),
                );
                Some(calculate_desired_nofile_limit(connections))
            } else {
                None
            },
        }
    }

    /// The rules of a scan that reports hosts without a miner or does not.
    pub fn scan_config(&self, report_misses: bool) -> (config: ScanConfig)
        ensures
            config == self@.scan_config(report_misses),
            config.check_port == self@.settings.check_port,
            config.strict == self@.settings.strict_port_check,
            config.probe_concurrency == self@.settings.connectivity_concurrent,
            config.probe_retry_concurrency == self@.settings.connectivity_retry_concurrent,
            config.probe_retries == self@.settings.connectivity_retries,
            config.probe_delay == self@.settings.connectivity_retry_backoff,
            config.scan_retries == self@.settings.scan_retries,
            config.scan_delay == self@.settings.scan_retry_backoff,
            config.report_misses == report_misses,
    {
        let identify_concurrency: usize = self.identification_concurrency();
        let identify_retry_concurrency: usize = match self.settings.retry_concurrent {
            Some(limit) => limit,
            None => calculate_retry_concurrency(identify_concurrency),
        };
        ScanConfig {
            check_port: self.settings.check_port,
            strict: self.settings.strict_port_check,
            probe_concurrency: self.settings.connectivity_concurrent,
            probe_retry_concurrency: self.settings.connectivity_retry_concurrent,
            probe_retries: self.settings.connectivity_retries,
            probe_delay: self.settings.connectivity_retry_backoff,
            identify_concurrency,
            identify_retry_concurrency,
            scan_retries: self.settings.scan_retries,
            scan_delay: self.settings.scan_retry_backoff,
            report_misses,
        }
    }

    /// Asks for the file descriptors that are due and starts a scan of the queued
    /// addresses.
    fn scan_outcomes_stream(&self, report_misses: bool) -> (run: ScanRun)
        ensures
            self@.starts(run, report_misses),
    {
        let nofile = match self.desired_nofile_limit() {
            Some(desired) => Some(maybe_adjust_nofile_limit(desired)),
            None => None,
        };
        ScanRun::new(self.scan_config(report_misses), self.hosts(), nofile)
    }

    /// Starts a scan of all queued addresses that reports miners. It is refused only
    /// where no address is queued.
    pub fn scan(&self) -> (run: Result<ScanRun, FactoryError>)
        ensures
            match run {
                Ok(run) => self@.queue.len() > 0 && self@.starts(run, false),
                Err(error) => self@.queue.len() == 0 && error@ == ErrorModel::NoAddresses,
            },
    {
        if self.is_empty() {
            return Err(FactoryError::NoAddresses);
        }
        Ok(self.scan_stream())
    }

    /// Starts a scan of all queued addresses that reports miners as they are found.
    pub fn scan_stream(&self) -> (run: ScanRun)
        ensures
            self@.starts(run, false),
    {
        self.scan_outcomes_stream(false)
    }

    /// Starts a scan of all queued addresses that reports every address, with a miner or
    /// without.
    pub fn scan_stream_with_ip(&self) -> (run: ScanRun)
        ensures
            self@.starts(run, true),
    {
        self.scan_outcomes_stream(true)
    }

    /// Appends the addresses of four octet selectors and starts a scan.
    pub fn scan_by_octets(self, octet1: &str, octet2: &str, octet3: &str, octet4: &str) -> (run:
        Result<ScanRun, FactoryError>)
        ensures
            match octets_select(octet1@, octet2@, octet3@, octet4@) {
                Ok(hosts) => match run {
                    Ok(run) => self@.queue.len() + hosts.len() > 0 && exists|more: FactoryModel|
                        self@.becomes(more, self@.queue + hosts) && #[trigger] more.starts(
                            run,
                            false,
                        ),
                    Err(error) => self@.queue.len() + hosts.len() == 0 && error@
                        == ErrorModel::NoAddresses,
                },
                Err(cause) => run matches Err(error) && error@ == cause,
            },
    {
        match self.with_octets(octet1, octet2, octet3, octet4) {
            Ok(factory) => {
                proof {
                    let hosts = octets_select(octet1@, octet2@, octet3@, octet4@)->Ok_0;
                    lemma_same_length(factory@.queue, self@.queue + hosts);
                }
                factory.scan()
            },
            Err(error) => Err(error),
        }
    }

    /// Appends the addresses of a range string and starts a scan.
    pub fn scan_by_range(self, range_str: &str) -> (run: Result<ScanRun, FactoryError>)
        ensures
            match range_selects(range_str@) {
                Ok(hosts) => match run {
                    Ok(run) => self@.queue.len() + hosts.len() > 0 && exists|more: FactoryModel|
                        self@.becomes(more, self@.queue + hosts) && #[trigger] more.starts(
                            run,
                            false,
                        ),
                    Err(error) => self@.queue.len() + hosts.len() == 0 && error@
                        == ErrorModel::NoAddresses,
                },
                Err(cause) => run matches Err(error) && error@ == cause,
            },
    {
        match self.with_range(range_str) {
            Ok(factory) => {
                proof {
                    let hosts = range_selects(range_str@)->Ok_0;
                    lemma_same_length(factory@.queue, self@.queue + hosts);
                }
                factory.scan()
            },
            Err(error) => Err(error),
        }
    }

    /// Starts to look at a single host, queued or not: it is probed first where hosts
    /// are, and then identified or given up.
    pub fn scan_miner(&self, ip: IpAddr) -> (probe: MinerProbe)
        ensures
            probe.ip == ip,
            probe.retries == self@.settings.connectivity_retries,
            probe.initial_delay == self@.settings.connectivity_retry_backoff,
            probe.strict == self@.settings.strict_port_check,
            probe.failed == 0,
            self@.settings.check_port ==> probe.is_probing(),
            self@.settings.check_port ==> probe.step == (ProbeStep::Probe { delay: None }),
            !self@.settings.check_port ==> probe.step == ProbeStep::Identify,
    {
        MinerProbe::new(
            ip,
            self.settings.check_port,
            self.settings.strict_port_check,
            self.settings.connectivity_retries,
            self.settings.connectivity_retry_backoff,
        )
    }

    /// The firmwares to look for, where `defaults` are the default ones.
    pub fn registry<'a>(&'a self, defaults: &'a Vec<Firmware>) -> (registry: &'a Vec<Firmware>)
        ensures
            registry_model(registry@) == self@.registry(registry_model(defaults@)),
    {
        match &self.search_firmwares {
            Some(firmwares) => firmwares,
            None => defaults,
        }
    }

    /// Starts the search for the firmware of a host, where `defaults` are the firmwares
    /// to look for by default. Places in the search are those in [`Self::registry`].
    pub fn get_miner(&self, ip: IpAddr, defaults: &Vec<Firmware>) -> (search: HostSearch)
        ensures
            search.ip == ip,
            models(search.commands@) == gathered(self@.registry(registry_model(defaults@))),
            search.discovery@ == DiscoveryModel::start(
                stock_flags(self@.registry(registry_model(defaults@))),
                search.commands@.len(),
            ),
            search.discovery@.wf(),
            search.discovery@.found is None,
            search.discovery@.pending == search.commands@.len(),
            search.identification_timeout == self@.settings.identification_timeout,
            search.upgrade_window@ == UPGRADE_WINDOW_MILLIS * NANOS_PER_MILLI,
            search.construction_timeout == self@.settings.miner_construction_timeout,
    {
        let registry = self.registry(defaults);
        let commands = discovery_commands(registry);
        let discovery = Discovery::new(stock_of(registry), commands.len());
        HostSearch {
            ip,
            commands,
            discovery,
            identification_timeout: self.settings.identification_timeout,
            upgrade_window: upgrade_window(),
            construction_timeout: self.settings.miner_construction_timeout,
        }
    }

    /// The credentials to construct a miner with that runs `firmware`. Without any, the
    /// firmware uses its own.
    pub fn discovery_auth(&self, firmware: &Firmware) -> (auth: Option<&MinerAuth>)
        ensures
            match auth {
                Some(auth) => self@.auth.dom().contains(firmware@.name)
                    && self@.auth[firmware@.name] == auth@,
                None => !self@.auth.dom().contains(firmware@.name),
            },
    {
        self.discovery_auth_by_firmware.get(&firmware.name)
    }

    /// What the factory says of itself.
    pub fn summary(&self) -> (summary: FactorySummary)
        ensures
            summary.ips == self@.queue.len(),
            match (summary.search_firmwares, self@.firmwares) {
                (Some(count), Some(firmwares)) => count == firmwares.len(),
                (None, None) => true,
                _ => false,
            },
            summary.discovery_auth_by_firmware == self@.auth.dom().len(),
            summary.settings == self@.settings,
    {
        let search_firmwares: Option<usize> = match &self.search_firmwares {
            Some(firmwares) => Some(firmwares.len()),
            None => None,
        };
        FactorySummary {
            ips: self.ips.len(),
            search_firmwares,
            discovery_auth_by_firmware: self.discovery_auth_by_firmware.len(),
            settings: self.settings,
        }
    }
}

/// Queues that hold the same addresses are of the same length.
proof fn lemma_same_length(a: Seq<IpAddr>, b: Seq<IpAddr>)
    requires
        a.to_multiset() == b.to_multiset(),
    ensures
        a.len() == b.len(),
{
    a.to_multiset_ensures();
    b.to_multiset_ensures();
}

/// Replacing and appending go by the addresses alone: the queue is as long as the
/// addresses that it is made of, and holds an address exactly when they do.
pub proof fn law_queue_holds_what_was_queued(
    before: FactoryModel,
    after: FactoryModel,
    ips: Seq<IpAddr>,
    ip: IpAddr,
)
    requires
        before.becomes(after, ips),
    ensures
        after.queue.len() == ips.len(),
        after.queue.contains(ip) <==> ips.contains(ip),
{
    after.queue.to_multiset_ensures();
    ips.to_multiset_ensures();
    assert(after.queue.contains(ip) <==> after.queue.to_multiset().count(ip) > 0);
    assert(ips.contains(ip) <==> ips.to_multiset().count(ip) > 0);
}

/// A factory that addresses are appended to keeps those that it had, each as often.
pub proof fn law_appending_keeps_the_queue(
    before: FactoryModel,
    after: FactoryModel,
    hosts: Seq<IpAddr>,
    ip: IpAddr,
)
    requires
        before.becomes(after, before.queue + hosts),
    ensures
        after.queue.to_multiset().count(ip) == before.queue.to_multiset().count(ip)
            + hosts.to_multiset().count(ip),
{
    vstd::seq_lib::lemma_multiset_commutative(before.queue, hosts);
}

/// A scan contacts at least one host at a time and, unless a limit is set, identifies
/// no more than the default number at once, and fewer or as many on a retry.
pub proof fn law_scan_is_bounded(factory: FactoryModel, report_misses: bool)
    requires
        factory.settings.wf(),
    ensures
        ({
            let config = factory.scan_config(report_misses);
            &&& config.probe_concurrency >= 1
            &&& config.probe_retry_concurrency >= 1
            &&& config.identify_concurrency >= 1
            &&& config.identify_retry_concurrency >= 1
            &&& factory.settings.concurrent is None ==> config.identify_concurrency
                <= IDENTIFICATION_CONCURRENCY
            &&& factory.settings.retry_concurrent is None ==> config.identify_retry_concurrency
                <= config.identify_concurrency && config.identify_retry_concurrency
                <= IDENTIFICATION_RETRY_CONCURRENCY
        }),
{
}

/// Fixing the concurrency to what suits the queue changes nothing about a scan where no
/// limit is set: a scan uses that number anyway.
pub proof fn law_adaptive_concurrency_is_the_default(factory: FactoryModel, report_misses: bool)
    requires
        factory.settings.concurrent is None,
    ensures
        ({
            let suited = clamped(
                factory.queue.len() as int,
                1,
                IDENTIFICATION_CONCURRENCY as int,
            ) as usize;
            let fixed = factory.with_settings(
                Settings { concurrent: Some(suited), ..factory.settings },
            );
            &&& fixed.scan_config(report_misses) == factory.scan_config(report_misses)
            &&& fixed.desired_nofile_limit() == factory.desired_nofile_limit()
        }),
{
}

/// The queue of a factory is reported address by address: when a scan that reports
/// every address is over, the addresses reported are the queued ones, each as often as
/// it was queued.
pub proof fn law_scan_reports_the_queue(factory: FactoryModel, run: ScanRun, ops: Seq<ScanOp>)
    requires
        factory.starts(run, true),
        run@.run(ops).0.stage is Finished,
    ensures
        reported(run@.run(ops).1) == factory.queue.to_multiset(),
{
    crate::scan::law_scan_preserves_every_address(
        factory.scan_config(true),
        factory.queue,
        ops,
    );
}

/// Where no limit is set, the file descriptors asked for are enough for every port of
/// each host that is probed at once, and for each host that is identified at once.
pub proof fn law_descriptors_cover_the_scan(factory: FactoryModel)
    requires
        factory.settings.nofile_limit is None,
        factory.settings.nofile_adjustment,
        factory.settings.connectivity_concurrent * MINER_PORTS@.len() <= usize::MAX,
        factory.settings.connectivity_concurrent * MINER_PORTS@.len() * NOFILE_PER_CONCURRENCY
            <= u64::MAX,
        factory.identification_concurrency() <= usize::MAX,
        factory.identification_concurrency() * NOFILE_PER_CONCURRENCY <= u64::MAX,
    ensures
        factory.desired_nofile_limit() matches Some(desired) && desired
            >= factory.settings.connectivity_concurrent * MINER_PORTS@.len()
            * NOFILE_PER_CONCURRENCY && desired >= factory.identification_concurrency()
            * NOFILE_PER_CONCURRENCY && desired >= MIN_NOFILE_LIMIT,
{
}

/// A scan obeys the settings, each of them for what it is made for, and reports misses
/// as it was asked to.
pub proof fn law_scan_obeys_the_settings(factory: FactoryModel, report_misses: bool)
    requires
        factory.settings.wf(),
    ensures
        ({
            let config = factory.scan_config(report_misses);
            &&& config.check_port == factory.settings.check_port
            &&& config.strict == factory.settings.strict_port_check
            &&& config.probe_concurrency == factory.settings.connectivity_concurrent
            &&& config.probe_retry_concurrency == factory.settings.connectivity_retry_concurrent
            &&& config.probe_retries == factory.settings.connectivity_retries
            &&& config.probe_delay == factory.settings.connectivity_retry_backoff
            &&& config.scan_retries == factory.settings.scan_retries
            &&& config.scan_delay == factory.settings.scan_retry_backoff
            &&& config.report_misses == report_misses
            &&& match factory.settings.concurrent {
                Some(limit) => limit >= 1 ==> config.identify_concurrency == limit,
                None => {
                    &&& 1 <= factory.queue.len() <= 128 ==> config.identify_concurrency
                        == factory.queue.len()
                    &&& factory.queue.len() > 128 ==> config.identify_concurrency == 128
                    &&& factory.queue.len() == 0 ==> config.identify_concurrency == 1
                },
            }
            &&& match factory.settings.retry_concurrent {
                Some(limit) => config.identify_retry_concurrency == limit,
                None => {
                    &&& config.identify_concurrency <= 8 ==> config.identify_retry_concurrency
                        == config.identify_concurrency
                    &&& config.identify_concurrency > 8 ==> config.identify_retry_concurrency == 8
                },
            }
        }),
{
}

/// The scan that a factory starts is of its queue and by its settings, and file
/// descriptors were asked for exactly where that is due.
pub proof fn law_started_scan_obeys_the_factory(
    factory: FactoryModel,
    run: ScanRun,
    report_misses: bool,
)
    requires
        factory.settings.wf(),
        factory.starts(run, report_misses),
    ensures
        ({
            let config = run@.config;
            &&& config.check_port == factory.settings.check_port
            &&& config.strict == factory.settings.strict_port_check
            &&& config.probe_concurrency == factory.settings.connectivity_concurrent
            &&& config.probe_retry_concurrency == factory.settings.connectivity_retry_concurrent
            &&& config.probe_retries == factory.settings.connectivity_retries
            &&& config.probe_delay == factory.settings.connectivity_retry_backoff
            &&& config.scan_retries == factory.settings.scan_retries
            &&& config.scan_delay == factory.settings.scan_retry_backoff
            &&& config.report_misses == report_misses
            &&& match factory.settings.concurrent {
                Some(limit) => limit >= 1 ==> config.identify_concurrency == limit,
                None => {
                    &&& 1 <= factory.queue.len() <= 128 ==> config.identify_concurrency
                        == factory.queue.len()
                    &&& factory.queue.len() > 128 ==> config.identify_concurrency == 128
                    &&& factory.queue.len() == 0 ==> config.identify_concurrency == 1
                },
            }
            &&& match factory.settings.retry_concurrent {
                Some(limit) => config.identify_retry_concurrency == limit,
                None => {
                    &&& config.identify_concurrency <= 8 ==> config.identify_retry_concurrency
                        == config.identify_concurrency
                    &&& config.identify_concurrency > 8 ==> config.identify_retry_concurrency == 8
                },
            }
            &&& run@.stage is Queued
            &&& run@.candidates == factory.queue
            &&& run@.unreachable.len() == 0
            &&& run@.batch.len() == 0
            &&& factory.settings.nofile_limit matches Some(limit) ==> (
            run.nofile_model() matches Some(answer) && answer.requested() == limit)
            &&& factory.settings.nofile_limit is None && factory.settings.nofile_adjustment
                ==> run.nofile_model() is Some
            &&& factory.settings.nofile_limit is None && !factory.settings.nofile_adjustment
                ==> run.nofile_model() is None
        }),
{
    law_scan_obeys_the_settings(factory, report_misses);
}

/// In the scan of a factory, a host that was queued once, and was reached or is not probed,
/// is tried as often as the setting for scan retries says: until the first success, at
/// most once more than there are retries. Its one report says whether it succeeded.
pub proof fn law_scan_retries_are_made(
    factory: FactoryModel,
    run: ScanRun,
    ops: Seq<ScanOp>,
    ip: IpAddr,
    answer: spec_fn(int) -> bool,
)
    requires
        factory.starts(run, true),
        factory.queue.to_multiset().count(ip) == 1,
        run@.run(ops).0.stage is Finished,
        factory.settings.check_port ==> run@.history(ops, ip).reached > 0,
        forall|i: int|
            0 <= i < run@.history(ops, ip).answers.len() ==> #[trigger] run@.history(
                ops,
                ip,
            ).answers[i] == answer(i),
    ensures
        ({
            let history = run@.history(ops, ip);
            let reports = reports_of(run@.run(ops).1, ip);
            &&& forall|k: int|
                0 <= k <= factory.settings.scan_retries && #[trigger] answer(k) && (forall|j: int|
                    0 <= j < k ==> !(#[trigger] answer(j))) ==> history.handed_out == k + 1
                    && reports == seq![Outcome { ip, found: true }]
            &&& (forall|j: int|
                0 <= j <= factory.settings.scan_retries ==> !(#[trigger] answer(j)))
                ==> history.handed_out == factory.settings.scan_retries + 1 && reports == seq![
                Outcome { ip, found: false },
            ]
        }),
{
    crate::scan::law_host_is_tried_until_identified(
        factory.scan_config(true),
        factory.queue,
        ops,
        ip,
        answer,
    );
}

/// In the scan of a factory, a host that was queued once is probed as often as the setting
/// for connectivity retries says: until it is reached, at most once more than there are
/// retries, and not at all where hosts are not probed.
pub proof fn law_connectivity_retries_are_made(
    factory: FactoryModel,
    run: ScanRun,
    report_misses: bool,
    ops: Seq<ScanOp>,
    ip: IpAddr,
    answer: spec_fn(int) -> bool,
)
    requires
        factory.starts(run, report_misses),
        factory.queue.to_multiset().count(ip) == 1,
        run@.run(ops).0.stage is Finished,
        forall|i: int|
            0 <= i < run@.history(ops, ip).probe_answers.len() ==> #[trigger] run@.history(
                ops,
                ip,
            ).probe_answers[i] == answer(i),
    ensures
        ({
            let history = run@.history(ops, ip);
            &&& !factory.settings.check_port ==> history.probed == 0
            &&& factory.settings.check_port ==> forall|k: int|
                0 <= k <= factory.settings.connectivity_retries && #[trigger] answer(k) && (
                forall|j: int| 0 <= j < k ==> !(#[trigger] answer(j))) ==> history.probed == k + 1
                    && history.reached == 1
            &&& factory.settings.check_port && (forall|j: int|
                0 <= j <= factory.settings.connectivity_retries ==> !(#[trigger] answer(j)))
                ==> history.probed == factory.settings.connectivity_retries + 1
                && history.reached == 0
        }),
{
    crate::scan::law_host_is_probed_until_reached(
        factory.scan_config(report_misses),
        factory.queue,
        ops,
        ip,
        answer,
    );
}

/// Other settings change nothing but the settings.
pub proof fn law_settings_are_apart(factory: FactoryModel, settings: Settings)
    ensures
        factory.with_settings(settings).settings == settings,
        factory.with_settings(settings).queue == factory.queue,
        factory.with_settings(settings).auth == factory.auth,
        factory.with_settings(settings).firmwares == factory.firmwares,
{
}

/// Queueing addresses changes nothing but the queue.
pub proof fn law_queue_is_apart(before: FactoryModel, after: FactoryModel, ips: Seq<IpAddr>)
    requires
        before.becomes(after, ips),
    ensures
        after.firmwares == before.firmwares,
        after.auth == before.auth,
        after.settings == before.settings,
{
}

/// A factory that is made with addresses holds each of them as often as it was given, and
/// is otherwise a new factory.
pub proof fn law_factory_made_with_addresses(
    factory: FactoryModel,
    ips: Seq<IpAddr>,
    ip: IpAddr,
)
    requires
        factory.is_new_with(ips),
    ensures
        factory.queue.len() == ips.len(),
        factory.queue.contains(ip) <==> ips.contains(ip),
        factory.queue.to_multiset().count(ip) == ips.to_multiset().count(ip),
        factory.firmwares is None,
        factory.auth == Map::<Seq<char>, AuthModel>::empty(),
        factory.settings.are_default(),
{
    factory.queue.to_multiset_ensures();
    ips.to_multiset_ensures();
    assert(factory.queue.contains(ip) <==> factory.queue.to_multiset().count(ip) > 0);
    assert(ips.contains(ip) <==> ips.to_multiset().count(ip) > 0);
}

/// Firmwares that were set replace the default ones, all of them, and each counts as stock
/// or not by what it says of itself.
pub proof fn law_own_firmwares_replace_the_defaults(
    factory: FactoryModel,
    defaults: Seq<FirmwareModel>,
    i: int,
)
    ensures
        factory.firmwares matches Some(firmwares) ==> factory.registry(defaults) == firmwares,
        factory.firmwares is None ==> factory.registry(defaults) == defaults,
        stock_flags(factory.registry(defaults)).len() == factory.registry(defaults).len(),
        0 <= i < factory.registry(defaults).len() ==> stock_flags(factory.registry(defaults))[i]
            == factory.registry(defaults)[i].stock,
{
}

/// A limit on file descriptors that was set is asked for, whatever else is set. Without
/// one, none are asked for where that is switched off, and otherwise eight for each
/// connection at once, at least 2048: a connection for every port of each host that is
/// probed at once, or one for each host that is identified at once, whichever is more.
pub proof fn law_descriptors_that_are_due(factory: FactoryModel)
    requires
        factory.settings.wf(),
    ensures
        factory.settings.nofile_limit matches Some(limit) ==> factory.desired_nofile_limit()
            == Some(limit as int),
        factory.settings.nofile_limit is None && !factory.settings.nofile_adjustment
            ==> factory.desired_nofile_limit() is None,
        factory.settings.nofile_limit is None && factory.settings.nofile_adjustment ==> ({
            let probes = factory.settings.connectivity_concurrent * 4;
            let hosts = factory.scan_config(true).identify_concurrency as int;
            factory.desired_nofile_limit() matches Some(desired) && desired >= 2048 && (probes
                <= usize::MAX && probes * 8 <= u64::MAX && hosts * 8 <= u64::MAX ==> desired
                >= probes * 8 && desired >= hosts * 8 && (desired == 2048 || desired == probes * 8
                || desired == hosts * 8))
        }),
{
}

} // verus!

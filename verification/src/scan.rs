//! A scan of many hosts in stages: find out which are reachable, identify those,
//! retry what failed, and account for every address in the end.

use crate::address::IpAddr;
use crate::limits::{backoff, larger, max_usize, retry_delay, NofileOutcome};
use crate::nofile::NofileAnswer;
use crate::time::Duration;
use vstd::multiset::Multiset;
use vstd::prelude::*;

verus! {

/// The rules of a scan.
#[derive(Clone, Copy, Debug, PartialEq, Eq, Structural)]
pub struct ScanConfig {
    /// Whether hosts are probed before they are identified.
    pub check_port: bool,
    /// Whether hosts that are not reached are left out rather than identified last.
    pub strict: bool,
    /// The hosts that are probed at once, at first and on a retry.
    pub probe_concurrency: usize,
    pub probe_retry_concurrency: usize,
    /// The probes that may follow the first, and the delay before the first of them.
    pub probe_retries: u32,
    pub probe_delay: Duration,
    /// The hosts that are identified at once, at first and on a retry.
    pub identify_concurrency: usize,
    pub identify_retry_concurrency: usize,
    /// The attempts to identify that may follow the first, and the delay before the
    /// first of them.
    pub scan_retries: u32,
    pub scan_delay: Duration,
    /// Whether hosts without a miner are reported too.
    pub report_misses: bool,
}

/// How far a scan has come.
#[derive(Clone, Copy, Debug, PartialEq, Eq, Structural)]
pub enum ScanStage {
    /// Nothing was done yet.
    Queued,
    /// Hosts are being probed.
    Probing,
    /// Hosts are being identified.
    Identifying,
    /// The hosts that could not be identified are reported; those that were not
    /// reached come next.
    Reported,
    /// Hosts that were not reached are being identified.
    Fallback,
    /// The scan is over.
    Finished,
}

/// A host of the batch that is being worked on.
#[derive(Clone, Copy, Debug, PartialEq, Eq, Structural)]
pub struct Slot {
    pub ip: IpAddr,
    pub done: bool,
}

/// What to do next.
#[derive(Debug)]
pub enum ScanAction {
    /// Hosts of the last batch have not been heard of.
    Wait,
    /// After the delay, where there is one, probe these hosts, so many at once, and
    /// record each by its place in the list.
    Probe { delay: Option<Duration>, ips: Vec<IpAddr>, concurrency: usize },
    /// After the delay, where there is one, identify these hosts, so many at once,
    /// and record each by its place in the list.
    Identify { delay: Option<Duration>, ips: Vec<IpAddr>, concurrency: usize },
    /// Report that these hosts have no miner.
    Report { misses: Vec<IpAddr> },
    /// The scan is over.
    Done,
}

/// A [`ScanAction`] with delays in nanoseconds.
pub enum ActionModel {
    Wait,
    Probe { delay: Option<nat>, ips: Seq<IpAddr>, concurrency: int },
    Identify { delay: Option<nat>, ips: Seq<IpAddr>, concurrency: int },
    Report { misses: Seq<IpAddr> },
    Done,
}

/// A delay in nanoseconds.
pub open spec fn nanos(delay: Option<Duration>) -> Option<nat> {
    match delay {
        Some(delay) => Some(delay@),
        None => None,
    }
}

impl View for ScanAction {
    type V = ActionModel;

    open spec fn view(&self) -> ActionModel {
        match self {
            ScanAction::Wait => ActionModel::Wait,
            ScanAction::Probe { delay, ips, concurrency } => ActionModel::Probe {
                delay: nanos(*delay),
                ips: ips@,
                concurrency: *concurrency as int,
            },
            ScanAction::Identify { delay, ips, concurrency } => ActionModel::Identify {
                delay: nanos(*delay),
                ips: ips@,
                concurrency: *concurrency as int,
            },
            ScanAction::Report { misses } => ActionModel::Report { misses: misses@ },
            ScanAction::Done => ActionModel::Done,
        }
    }
}

/// What to do with what was just recorded.
#[derive(Clone, Copy, Debug, PartialEq, Eq, Structural)]
pub enum Recorded {
    /// There is no such host, or it was recorded before.
    Ignored,
    /// The scan keeps it in mind.
    Kept,
    /// Report the host now.
    Yield,
}

/// A scan in progress. It is told what became of each host and says what to do
/// next.
#[derive(Debug)]
pub struct ScanRun {
    config: ScanConfig,
    stage: ScanStage,
    attempt: u32,
    batch: Vec<Slot>,
    candidates: Vec<IpAddr>,
    unreachable: Vec<IpAddr>,
    nofile: Option<NofileAnswer>,
}

/// A [`ScanRun`]: its rules and stage, the retries so far in that stage, the batch
/// that is being worked on, the hosts that come next, and those that were not
/// reached.
#[verifier::ext_equal]
pub struct RunModel {
    pub config: ScanConfig,
    pub stage: ScanStage,
    pub attempt: u32,
    pub batch: Seq<Slot>,
    pub candidates: Seq<IpAddr>,
    pub unreachable: Seq<IpAddr>,
}

impl View for ScanRun {
    type V = RunModel;

    closed spec fn view(&self) -> RunModel {
        RunModel {
            config: self.config,
            stage: self.stage,
            attempt: self.attempt,
            batch: self.batch@,
            candidates: self.candidates@,
            unreachable: self.unreachable@,
        }
    }
}

/// A batch of hosts of which none has been heard.
pub open spec fn fresh(ips: Seq<IpAddr>) -> Seq<Slot> {
    ips.map_values(|ip: IpAddr| Slot { ip, done: false })
}

/// The delay before pass `attempt`, counted from zero.
pub open spec fn pass_delay(initial: Duration, attempt: u32) -> Option<nat> {
    if attempt == 0 {
        None
    } else {
        Some(backoff(initial, (attempt - 1) as u32))
    }
}

impl RunModel {
    /// The scan of `queued` before anything was done.
    pub open spec fn start(config: ScanConfig, queued: Seq<IpAddr>) -> RunModel {
        RunModel {
            config,
            stage: ScanStage::Queued,
            attempt: 0,
            batch: Seq::empty(),
            candidates: queued,
            unreachable: Seq::empty(),
        }
    }

    /// Whether all hosts of the batch have been heard of.
    pub open spec fn idle(self) -> bool {
        forall|i: int| 0 <= i < self.batch.len() ==> (#[trigger] self.batch[i]).done
    }

    /// Pass `attempt` of probing `ips`.
    pub open spec fn probe(self, attempt: u32, ips: Seq<IpAddr>) -> (RunModel, ActionModel) {
        (
            RunModel { stage: ScanStage::Probing, attempt, batch: fresh(ips), ..self },
            ActionModel::Probe {
                delay: pass_delay(self.config.probe_delay, attempt),
                ips,
                concurrency: larger(
                    if attempt == 0 {
                        self.config.probe_concurrency as int
                    } else {
                        self.config.probe_retry_concurrency as int
                    },
                    1,
                ),
            },
        )
    }

    /// Pass `attempt` of identifying the candidates.
    pub open spec fn identify(self, attempt: u32) -> (RunModel, ActionModel) {
        (
            RunModel {
                stage: ScanStage::Identifying,
                attempt,
                batch: fresh(self.candidates),
                candidates: Seq::empty(),
                ..self
            },
            ActionModel::Identify {
                delay: pass_delay(self.config.scan_delay, attempt),
                ips: self.candidates,
                concurrency: larger(
                    if attempt == 0 {
                        self.config.identify_concurrency as int
                    } else {
                        self.config.identify_retry_concurrency as int
                    },
                    1,
                ),
            },
        )
    }

    /// The hosts that are given up when no more attempts are due: the candidates, and
    /// where the scan is strict those that were not reached.
    pub open spec fn given_up(self) -> Seq<IpAddr> {
        if self.config.strict {
            self.candidates + self.unreachable
        } else {
            self.candidates
        }
    }

    /// The report of the hosts that are given up.
    pub open spec fn report(self) -> (RunModel, ActionModel) {
        (
            RunModel {
                stage: if self.config.strict {
                    ScanStage::Finished
                } else {
                    ScanStage::Reported
                },
                batch: Seq::empty(),
                candidates: Seq::empty(),
                unreachable: if self.config.strict {
                    Seq::empty()
                } else {
                    self.unreachable
                },
                ..self
            },
            ActionModel::Report {
                misses: if self.config.report_misses {
                    self.given_up()
                } else {
                    Seq::empty()
                },
            },
        )
    }

    /// The first pass of identifying, or the report where there is no candidate.
    pub open spec fn first_identify(self) -> (RunModel, ActionModel) {
        if self.candidates.len() > 0 {
            self.identify(0)
        } else {
            self.report()
        }
    }

    /// The scan moved on, and what to do next.
    pub open spec fn advance(self) -> (RunModel, ActionModel) {
        if !self.idle() {
            (self, ActionModel::Wait)
        } else {
            match self.stage {
                ScanStage::Queued => if self.config.check_port {
                    RunModel { candidates: Seq::empty(), ..self }.probe(0, self.candidates)
                } else {
                    self.first_identify()
                },
                ScanStage::Probing => if self.attempt < self.config.probe_retries
                    && self.unreachable.len() > 0 {
                    RunModel { unreachable: Seq::empty(), ..self }.probe(
                        (self.attempt + 1) as u32,
                        self.unreachable,
                    )
                } else {
                    self.first_identify()
                },
                ScanStage::Identifying => if self.attempt < self.config.scan_retries
                    && self.candidates.len() > 0 {
                    self.identify((self.attempt + 1) as u32)
                } else {
                    self.report()
                },
                ScanStage::Reported => (
                    RunModel {
                        stage: ScanStage::Fallback,
                        batch: fresh(self.unreachable),
                        unreachable: Seq::empty(),
                        ..self
                    },
                    ActionModel::Identify {
                        delay: None,
                        ips: self.unreachable,
                        concurrency: larger(self.config.identify_concurrency as int, 1),
                    },
                ),
                ScanStage::Fallback => (
                    RunModel { stage: ScanStage::Finished, batch: Seq::empty(), ..self },
                    ActionModel::Done,
                ),
                ScanStage::Finished => (self, ActionModel::Done),
            }
        }
    }

    /// Whether the batch has a host at `slot` that has not been heard of.
    pub open spec fn expects(self, slot: usize) -> bool {
        slot < self.batch.len() && !self.batch[slot as int].done
    }

    /// The scan with the host at `slot` heard of.
    pub open spec fn heard(self, slot: usize) -> RunModel {
        RunModel {
            batch: self.batch.update(
                slot as int,
                Slot { ip: self.batch[slot as int].ip, done: true },
            ),
            ..self
        }
    }

    /// The scan after the host at `slot` was reached or identified, or not, and what
    /// to do with it. A host that is not reached waits for a retry or the end. A host
    /// that is identified is reported; one that is not waits for a retry or the
    /// report, but the fallback pass gives each host one attempt and reports it.
    pub open spec fn record(self, slot: usize, success: bool) -> (RunModel, Recorded) {
        let ip = self.batch[slot as int].ip;
        let heard = self.heard(slot);
        if !self.expects(slot) {
            (self, Recorded::Ignored)
        } else {
            match self.stage {
                ScanStage::Probing => (
                    if success {
                        RunModel { candidates: self.candidates.push(ip), ..heard }
                    } else {
                        RunModel { unreachable: self.unreachable.push(ip), ..heard }
                    },
                    Recorded::Kept,
                ),
                ScanStage::Identifying => if success {
                    (heard, Recorded::Yield)
                } else {
                    (RunModel { candidates: self.candidates.push(ip), ..heard }, Recorded::Kept)
                },
                ScanStage::Fallback => (
                    heard,
                    if success || self.config.report_misses {
                        Recorded::Yield
                    } else {
                        Recorded::Kept
                    },
                ),
                _ => (self, Recorded::Ignored),
            }
        }
    }
}

/// A batch of hosts of which none has been heard.
fn fresh_batch(ips: &Vec<IpAddr>) -> (batch: Vec<Slot>)
    ensures
        batch@ == fresh(ips@),
{
    let mut batch: Vec<Slot> = Vec::new();
    let mut i: usize = 0;
    while i < ips.len()
        invariant
            i <= ips.len(),
            batch@ == fresh(ips@).take(i as int),
        decreases ips.len() - i,
    {
        batch.push(Slot { ip: ips[i], done: false });
        assert(batch@ =~= fresh(ips@).take(i + 1));
        i = i + 1;
    }
    assert(batch@ =~= fresh(ips@));
    batch
}

/// The delay before pass `attempt`, counted from zero.
fn delay_before(initial: Duration, attempt: u32) -> (delay: Option<Duration>)
    ensures
        nanos(delay) == pass_delay(initial, attempt),
{
    if attempt == 0 {
        None
    } else {
        Some(retry_delay(initial, attempt - 1))
    }
}

/// Takes everything out of `ips`.
fn take_all(ips: &mut Vec<IpAddr>) -> (taken: Vec<IpAddr>)
    ensures
        taken@ == old(ips)@,
        final(ips)@ == Seq::<IpAddr>::empty(),
{
    let mut taken: Vec<IpAddr> = Vec::new();
    std::mem::swap(&mut taken, ips);
    taken
}

impl ScanRun {
    /// A scan of `queued` by the rules of `config`; `nofile` is the answer to the request
    /// for file descriptors, if one was made.
    pub fn new(config: ScanConfig, queued: Vec<IpAddr>, nofile: Option<NofileAnswer>) -> (run:
        ScanRun)
        ensures
            run@ == RunModel::start(config, queued@),
            run@.config == config,
            run@.stage is Queued,
            run@.candidates == queued@,
            run@.unreachable.len() == 0,
            run@.batch.len() == 0,
            run.nofile_model() == nofile,
    {
        ScanRun {
            config,
            stage: ScanStage::Queued,
            attempt: 0,
            batch: Vec::new(),
            candidates: queued,
            unreachable: Vec::new(),
            nofile,
        }
    }

    /// The answer to the request for file descriptors, if one was made.
    pub closed spec fn nofile_model(self) -> Option<NofileAnswer> {
        self.nofile
    }

    /// What became of the request for file descriptors, if one was made.
    pub fn nofile_outcome(&self) -> (outcome: Option<NofileOutcome>)
        ensures
            match (self.nofile_model(), outcome) {
                (Some(answer), Some(outcome)) => outcome.reports(
                    answer.requested(),
                    answer.answer(),
                ),
                (None, None) => true,
                _ => false,
            },
    {
        match &self.nofile {
            Some(answer) => Some(answer.outcome()),
            None => None,
        }
    }

    /// Whether all hosts of the batch have been heard of.
    fn is_idle(&self) -> (idle: bool)
        ensures
            idle == self@.idle(),
    {
        let mut i: usize = 0;
        while i < self.batch.len()
            invariant
                i <= self.batch.len(),
                forall|k: int| 0 <= k < i ==> (#[trigger] self.batch[k]).done,
            decreases self.batch.len() - i,
        {
            if !self.batch[i].done {
                assert(!self@.batch[i as int].done);
                return false;
            }
            i = i + 1;
        }
        true
    }

    /// Begins pass `attempt` of probing `ips`.
    fn probe(&mut self, attempt: u32, ips: Vec<IpAddr>) -> (action: ScanAction)
        ensures
            (final(self)@, action@) == old(self)@.probe(attempt, ips@),
            final(self).nofile_model() == old(self).nofile_model(),
    {
        let concurrency: usize = if attempt == 0 {
            self.config.probe_concurrency
        } else {
            self.config.probe_retry_concurrency
        };
        let delay = delay_before(self.config.probe_delay, attempt);
        self.stage = ScanStage::Probing;
        self.attempt = attempt;
        self.batch = fresh_batch(&ips);
        ScanAction::Probe { delay, ips, concurrency: max_usize(concurrency, 1) }
    }

    /// Begins pass `attempt` of identifying the candidates.
    fn identify(&mut self, attempt: u32) -> (action: ScanAction)
        ensures
            (final(self)@, action@) == old(self)@.identify(attempt),
            final(self).nofile_model() == old(self).nofile_model(),
    {
        let concurrency: usize = if attempt == 0 {
            self.config.identify_concurrency
        } else {
            self.config.identify_retry_concurrency
        };
        let delay = delay_before(self.config.scan_delay, attempt);
        let ips = take_all(&mut self.candidates);
        self.stage = ScanStage::Identifying;
        self.attempt = attempt;
        self.batch = fresh_batch(&ips);
        ScanAction::Identify { delay, ips, concurrency: max_usize(concurrency, 1) }
    }

    /// Gives up the hosts that no more attempts are due for.
    fn report(&mut self) -> (action: ScanAction)
        ensures
            (final(self)@, action@) == old(self)@.report(),
            final(self).nofile_model() == old(self).nofile_model(),
    {
        let mut misses = take_all(&mut self.candidates);
        self.batch = Vec::new();
        if self.config.strict {
            let mut unreachable = take_all(&mut self.unreachable);
            misses.append(&mut unreachable);
            self.stage = ScanStage::Finished;
        } else {
            self.stage = ScanStage::Reported;
        }
        if !self.config.report_misses {
            misses = Vec::new();
        }
        ScanAction::Report { misses }
    }

    /// Begins to identify the candidates, or gives up where there are none.
    fn first_identify(&mut self) -> (action: ScanAction)
        ensures
            (final(self)@, action@) == old(self)@.first_identify(),
            final(self).nofile_model() == old(self).nofile_model(),
    {
        if self.candidates.len() > 0 {
            self.identify(0)
        } else {
            self.report()
        }
    }

    /// What to do next. While hosts of the last batch have not been recorded, that is
    /// to wait for them.
    pub fn advance(&mut self) -> (action: ScanAction)
        ensures
            (final(self)@, action@) == old(self)@.advance(),
            final(self).nofile_model() == old(self).nofile_model(),
            final(self)@.config == old(self)@.config,
            action matches ScanAction::Probe { delay: _, ips, concurrency: _ } ==> ips@.len()
                == final(self)@.batch.len() && forall|i: int|
                0 <= i < ips@.len() ==> (#[trigger] final(self)@.batch[i]).ip == ips@[i]
                    && !final(self)@.batch[i].done,
            action matches ScanAction::Identify { delay: _, ips, concurrency: _ } ==> ips@.len()
                == final(self)@.batch.len() && forall|i: int|
                0 <= i < ips@.len() ==> (#[trigger] final(self)@.batch[i]).ip == ips@[i]
                    && !final(self)@.batch[i].done,
    {
        if !self.is_idle() {
            return ScanAction::Wait;
        }
        match self.stage {
            ScanStage::Queued => if self.config.check_port {
                let ips = take_all(&mut self.candidates);
                self.probe(0, ips)
            } else {
                self.first_identify()
            },
            ScanStage::Probing => if self.attempt < self.config.probe_retries
                && self.unreachable.len() > 0 {
                let ips = take_all(&mut self.unreachable);
                self.probe(self.attempt + 1, ips)
            } else {
                self.first_identify()
            },
            ScanStage::Identifying => if self.attempt < self.config.scan_retries
                && self.candidates.len() > 0 {
                self.identify(self.attempt + 1)
            } else {
                self.report()
            },
            ScanStage::Reported => {
                let ips = take_all(&mut self.unreachable);
                self.batch = fresh_batch(&ips);
                self.stage = ScanStage::Fallback;
                ScanAction::Identify {
                    delay: None,
                    ips,
                    concurrency: max_usize(self.config.identify_concurrency, 1),
                }
            },
            ScanStage::Fallback => {
                self.batch = Vec::new();
                self.stage = ScanStage::Finished;
                ScanAction::Done
            },
            ScanStage::Finished => ScanAction::Done,
        }
    }

    /// Records that the host at `slot` of the batch was reached or identified, or
    /// not, and says what to do with it.
    pub fn record(&mut self, slot: usize, success: bool) -> (recorded: Recorded)
        ensures
            (final(self)@, recorded) == old(self)@.record(slot, success),
            final(self).nofile_model() == old(self).nofile_model(),
    {
        if slot >= self.batch.len() || self.batch[slot].done {
            return Recorded::Ignored;
        }
        let ip = self.batch[slot].ip;
        match self.stage {
            ScanStage::Probing => {
                self.batch[slot] = Slot { ip, done: true };
                if success {
                    self.candidates.push(ip);
                } else {
                    self.unreachable.push(ip);
                }
                Recorded::Kept
            },
            ScanStage::Identifying => {
                self.batch[slot] = Slot { ip, done: true };
                if success {
                    Recorded::Yield
                } else {
                    self.candidates.push(ip);
                    Recorded::Kept
                }
            },
            ScanStage::Fallback => {
                self.batch[slot] = Slot { ip, done: true };
                if success || self.config.report_misses {
                    Recorded::Yield
                } else {
                    Recorded::Kept
                }
            },
            _ => Recorded::Ignored,
        }
    }
}

/// One thing that can happen to a scan.
pub enum ScanOp {
    /// The scan is asked what to do next.
    Advance,
    /// A host is recorded as reached or identified, or not.
    Record { slot: usize, success: bool },
}

/// A host that is reported: whether it was identified.
pub struct Outcome {
    pub ip: IpAddr,
    pub found: bool,
}

/// The hosts of a batch that have not been heard of.
pub open spec fn pending(batch: Seq<Slot>) -> Multiset<IpAddr>
    decreases batch.len(),
{
    if batch.len() == 0 {
        Multiset::empty()
    } else if batch.last().done {
        pending(batch.drop_last())
    } else {
        pending(batch.drop_last()).insert(batch.last().ip)
    }
}

/// The reports that `ips` have no miner.
pub open spec fn missed(ips: Seq<IpAddr>) -> Seq<Outcome> {
    ips.map_values(|ip: IpAddr| Outcome { ip, found: false })
}

/// The addresses that are reported.
pub open spec fn reported(outcomes: Seq<Outcome>) -> Multiset<IpAddr> {
    outcomes.map_values(|outcome: Outcome| outcome.ip).to_multiset()
}

/// The reports of hosts that were identified.
pub open spec fn hits(outcomes: Seq<Outcome>) -> Seq<Outcome> {
    outcomes.filter(|outcome: Outcome| outcome.found)
}

impl RunModel {
    /// The scan after `op`, and the hosts that are reported on account of it.
    pub open spec fn apply(self, op: ScanOp) -> (RunModel, Seq<Outcome>) {
        match op {
            ScanOp::Advance => (
                self.advance().0,
                match self.advance().1 {
                    ActionModel::Report { misses } => missed(misses),
                    _ => Seq::empty(),
                },
            ),
            ScanOp::Record { slot, success } => (
                self.record(slot, success).0,
                match self.record(slot, success).1 {
                    Recorded::Yield => seq![
                        Outcome { ip: self.batch[slot as int].ip, found: success },
                    ],
                    _ => Seq::empty(),
                },
            ),
        }
    }

    /// The scan after `ops`, and the hosts that were reported meanwhile.
    pub open spec fn run(self, ops: Seq<ScanOp>) -> (RunModel, Seq<Outcome>)
        decreases ops.len(),
    {
        if ops.len() == 0 {
            (self, Seq::empty())
        } else {
            let before = self.run(ops.drop_last());
            let after = before.0.apply(ops.last());
            (after.0, before.1 + after.1)
        }
    }

    /// Whether this can be the state of a scan.
    pub open spec fn wf(self) -> bool {
        match self.stage {
            ScanStage::Queued => self.idle() && self.unreachable.len() == 0 && self.attempt == 0,
            ScanStage::Probing => self.config.check_port && self.attempt
                <= self.config.probe_retries,
            ScanStage::Identifying => self.attempt <= self.config.scan_retries,
            ScanStage::Reported => self.idle() && self.candidates.len() == 0
                && !self.config.strict,
            ScanStage::Fallback => self.candidates.len() == 0 && self.unreachable.len() == 0
                && !self.config.strict,
            ScanStage::Finished => self.idle() && self.candidates.len() == 0
                && self.unreachable.len() == 0,
        }
    }

    /// The addresses that are yet to be reported.
    pub open spec fn outstanding(self) -> Multiset<IpAddr> {
        pending(self.batch).add(self.candidates.to_multiset()).add(self.unreachable.to_multiset())
    }

    /// A bound on the passes that are left.
    pub open spec fn passes_left(self) -> int {
        match self.stage {
            ScanStage::Queued => self.config.probe_retries + self.config.scan_retries + 5,
            ScanStage::Probing => self.config.probe_retries - self.attempt
                + self.config.scan_retries + 4,
            ScanStage::Identifying => self.config.scan_retries - self.attempt + 3,
            ScanStage::Reported => 2,
            ScanStage::Fallback => 1,
            ScanStage::Finished => 0,
        }
    }

    /// The same scan, with hosts that have no miner left unreported.
    pub open spec fn hits_only(self) -> RunModel {
        RunModel { config: ScanConfig { report_misses: false, ..self.config }, ..self }
    }
}

/// How far a stage is from the first.
pub open spec fn stage_rank(stage: ScanStage) -> int {
    match stage {
        ScanStage::Queued => 0,
        ScanStage::Probing => 1,
        ScanStage::Identifying => 2,
        ScanStage::Reported => 3,
        ScanStage::Fallback => 4,
        ScanStage::Finished => 5,
    }
}

/// All hosts of a fresh batch are pending.
proof fn lemma_fresh_pending(ips: Seq<IpAddr>)
    ensures
        pending(fresh(ips)) == ips.to_multiset(),
    decreases ips.len(),
{
    broadcast use vstd::seq_lib::group_to_multiset_ensures;

    if ips.len() == 0 {
        assert(fresh(ips) =~= Seq::empty());
        assert(ips.to_multiset() =~= Multiset::empty());
    } else {
        lemma_fresh_pending(ips.drop_last());
        assert(fresh(ips).drop_last() =~= fresh(ips.drop_last()));
        assert(ips =~= ips.drop_last().push(ips.last()));
    }
}

/// A host that is heard of is no longer pending.
proof fn lemma_heard_pending(batch: Seq<Slot>, i: int)
    requires
        0 <= i < batch.len(),
        !batch[i].done,
    ensures
        pending(batch) == pending(
            batch.update(i, Slot { ip: batch[i].ip, done: true }),
        ).insert(batch[i].ip),
    decreases batch.len(),
{
    let heard = batch.update(i, Slot { ip: batch[i].ip, done: true });
    if i == batch.len() - 1 {
        assert(heard.drop_last() =~= batch.drop_last());
    } else {
        lemma_heard_pending(batch.drop_last(), i);
        assert(heard.drop_last() =~= batch.drop_last().update(
            i,
            Slot { ip: batch[i].ip, done: true },
        ));
        assert(heard.last() == batch.last());
        if !batch.last().done {
            assert(pending(heard.drop_last()).insert(batch[i].ip).insert(batch.last().ip)
                =~= pending(heard.drop_last()).insert(batch.last().ip).insert(batch[i].ip));
        }
    }
}

/// Where all hosts have been heard of none is pending.
proof fn lemma_idle_pending(batch: Seq<Slot>)
    requires
        forall|i: int| 0 <= i < batch.len() ==> (#[trigger] batch[i]).done,
    ensures
        pending(batch) == Multiset::<IpAddr>::empty(),
    decreases batch.len(),
{
    if batch.len() > 0 {
        assert(batch.last().done);
        assert forall|i: int| 0 <= i < batch.drop_last().len() implies (
        #[trigger] batch.drop_last()[i]).done by {
            assert(batch[i].done);
        }
        lemma_idle_pending(batch.drop_last());
    }
}

/// Nothing is reported of no host.
proof fn lemma_reported(ips: Seq<IpAddr>, a: Seq<Outcome>, b: Seq<Outcome>)
    ensures
        reported(Seq::empty()) == Multiset::<IpAddr>::empty(),
        reported(missed(ips)) == ips.to_multiset(),
        reported(a + b) == reported(a).add(reported(b)),
{
    broadcast use vstd::seq_lib::group_to_multiset_ensures;

    let ip_of = |outcome: Outcome| outcome.ip;
    assert(Seq::<Outcome>::empty().map_values(ip_of) =~= Seq::<IpAddr>::empty());
    assert(Seq::<IpAddr>::empty().to_multiset() =~= Multiset::empty());
    assert(missed(ips).map_values(ip_of) =~= ips);
    assert((a + b).map_values(ip_of) =~= a.map_values(ip_of) + b.map_values(ip_of));
    vstd::seq_lib::lemma_multiset_commutative(a.map_values(ip_of), b.map_values(ip_of));
}

/// A scan that begins well formed stays so, whatever happens.
pub proof fn law_scan_stays_well_formed(run: RunModel, op: ScanOp)
    requires
        run.wf(),
    ensures
        run.apply(op).0.wf(),
        run.apply(op).0.config == run.config,
{
}

/// An address is lost by nothing that happens to a scan that reports hosts without a
/// miner: what was outstanding is still so, or is reported.
pub proof fn law_no_address_is_lost(run: RunModel, op: ScanOp)
    requires
        run.wf(),
        run.config.report_misses,
    ensures
        run.outstanding() == run.apply(op).0.outstanding().add(reported(run.apply(op).1)),
{
    broadcast use vstd::seq_lib::group_to_multiset_ensures;

    let after = run.apply(op).0;
    let none = Seq::<Outcome>::empty();
    lemma_reported(run.given_up(), none, none);
    assert(Seq::<IpAddr>::empty().to_multiset() =~= Multiset::empty());
    match op {
        ScanOp::Advance => {
            if run.idle() {
                lemma_idle_pending(run.batch);
                lemma_fresh_pending(run.candidates);
                lemma_fresh_pending(run.unreachable);
                vstd::seq_lib::lemma_multiset_commutative(run.candidates, run.unreachable);
                assert(run.candidates.len() == 0 ==> run.candidates =~= Seq::empty());
                assert(run.unreachable.len() == 0 ==> run.unreachable =~= Seq::empty());
                assert(pending(Seq::<Slot>::empty()) == Multiset::<IpAddr>::empty());
            }
            assert(run.outstanding() =~= after.outstanding().add(reported(run.apply(op).1)));
        },
        ScanOp::Record { slot, success } => {
            if run.expects(slot) {
                let ip = run.batch[slot as int].ip;
                lemma_heard_pending(run.batch, slot as int);
                let outcome = Outcome { ip, found: success };
                assert(seq![outcome].map_values(|outcome: Outcome| outcome.ip)
                    =~= Seq::<IpAddr>::empty().push(ip));
            }
            assert(run.outstanding() =~= after.outstanding().add(reported(run.apply(op).1)));
        },
    }
}

/// A scan that reports hosts without a miner accounts for every queued address: at any
/// time the queued addresses are those that were reported and those that are yet to
/// be, each as often as it was queued, and when the scan is over all were reported.
pub proof fn law_scan_preserves_every_address(
    config: ScanConfig,
    queued: Seq<IpAddr>,
    ops: Seq<ScanOp>,
)
    requires
        config.report_misses,
    ensures
        ({
            let (run, outcomes) = RunModel::start(config, queued).run(ops);
            &&& run.wf()
            &&& run.config == config
            &&& queued.to_multiset() == run.outstanding().add(reported(outcomes))
            &&& run.stage is Finished ==> reported(outcomes) == queued.to_multiset()
        }),
    decreases ops.len(),
{
    broadcast use vstd::seq_lib::group_to_multiset_ensures;

    let start = RunModel::start(config, queued);
    let none = Seq::<Outcome>::empty();
    let (run, outcomes) = start.run(ops);
    if ops.len() == 0 {
        lemma_reported(queued, none, none);
        assert(Seq::<IpAddr>::empty().to_multiset() =~= Multiset::empty());
        assert(queued.to_multiset() =~= run.outstanding().add(reported(outcomes)));
    } else {
        law_scan_preserves_every_address(config, queued, ops.drop_last());
        let before = start.run(ops.drop_last());
        let after = before.0.apply(ops.last());
        law_scan_stays_well_formed(before.0, ops.last());
        law_no_address_is_lost(before.0, ops.last());
        lemma_reported(queued, before.1, after.1);
        assert(queued.to_multiset() =~= run.outstanding().add(reported(outcomes)));
    }
    if run.stage is Finished {
        lemma_idle_pending(run.batch);
        assert(run.candidates =~= Seq::empty());
        assert(run.unreachable =~= Seq::empty());
        assert(Seq::<IpAddr>::empty().to_multiset() =~= Multiset::empty());
        assert(queued.to_multiset() =~= reported(outcomes));
    }
}

/// Leaving out hosts without a miner changes nothing else.
proof fn lemma_hits_only_step(run: RunModel, op: ScanOp)
    ensures
        run.hits_only().apply(op) == (run.apply(op).0.hits_only(), hits(run.apply(op).1)),
{
    reveal(Seq::filter);
    let quiet = run.hits_only();
    assert(quiet.idle() == run.idle());
    assert(hits(Seq::empty()) =~= Seq::empty());
    match op {
        ScanOp::Advance => {
            if let ActionModel::Report { misses } = run.advance().1 {
                lemma_missed_are_no_hits(misses);
                assert(missed(Seq::empty()) =~= Seq::empty());
            }
            assert(quiet.advance().0 == run.advance().0.hits_only());
            assert(quiet.apply(op).1 =~= hits(run.apply(op).1));
        },
        ScanOp::Record { slot, success } => {
            let outcome = Outcome { ip: run.batch[slot as int].ip, found: success };
            assert(seq![outcome].drop_last() =~= Seq::empty());
            assert(hits(seq![outcome]) =~= if success {
                seq![outcome]
            } else {
                Seq::empty()
            });
            assert(quiet.record(slot, success).0 == run.record(slot, success).0.hits_only());
            assert(quiet.apply(op).1 =~= hits(run.apply(op).1));
        },
    }
}

/// A report of hosts without a miner has no host with one.
proof fn lemma_missed_are_no_hits(ips: Seq<IpAddr>)
    ensures
        hits(missed(ips)) == Seq::<Outcome>::empty(),
    decreases ips.len(),
{
    reveal(Seq::filter);
    if ips.len() > 0 {
        lemma_missed_are_no_hits(ips.drop_last());
        assert(missed(ips).drop_last() =~= missed(ips.drop_last()));
    }
}

/// A scan that reports miners alone goes the way of one that reports every host, and
/// reports those of its outcomes that are miners, in the same order.
pub proof fn law_hits_are_the_outcomes_with_a_miner(
    config: ScanConfig,
    queued: Seq<IpAddr>,
    ops: Seq<ScanOp>,
)
    ensures
        RunModel::start(ScanConfig { report_misses: false, ..config }, queued).run(ops) == (
            RunModel::start(config, queued).run(ops).0.hits_only(),
            hits(RunModel::start(config, queued).run(ops).1),
        ),
    decreases ops.len(),
{
    let all = RunModel::start(config, queued);
    if ops.len() == 0 {
        reveal(Seq::filter);
        assert(hits(Seq::empty()) =~= Seq::empty());
    } else {
        law_hits_are_the_outcomes_with_a_miner(config, queued, ops.drop_last());
        let before = all.run(ops.drop_last());
        lemma_hits_only_step(before.0, ops.last());
        Seq::filter_distributes_over_add(
            before.1,
            before.0.apply(ops.last()).1,
            |outcome: Outcome| outcome.found,
        );
    }
}

/// A scan comes to an end: whenever all hosts of a batch are recorded, the next pass
/// leaves fewer to go, until none is left; and recording a host leaves one fewer to
/// wait for in the same pass.
pub proof fn law_scan_ends(run: RunModel, slot: usize, success: bool)
    requires
        run.wf(),
    ensures
        run.passes_left() >= 0,
        run.passes_left() == 0 <==> run.stage is Finished,
        run.idle() && !(run.stage is Finished) ==> run.advance().0.passes_left()
            < run.passes_left(),
        run.stage is Finished ==> run.advance() == (run, ActionModel::Done),
        run.expects(slot) ==> run.record(slot, success).0.passes_left() == run.passes_left()
            && pending(run.record(slot, success).0.batch).len() + 1 == pending(run.batch).len(),
{
    if run.expects(slot) {
        lemma_heard_pending(run.batch, slot as int);
        assert(pending(run.heard(slot).batch).insert(run.batch[slot as int].ip).len() == pending(
            run.heard(slot).batch,
        ).len() + 1);
    }
}

/// A scan goes through its stages in one direction. So probing is over, and every
/// host probed is recorded, before any host is identified.
pub proof fn law_probing_comes_first(run: RunModel, op: ScanOp)
    requires
        run.wf(),
    ensures
        stage_rank(run.stage) <= stage_rank(run.apply(op).0.stage),
        run.advance().1 is Probe ==> run.idle() && (run.stage is Queued || run.stage is Probing)
            && run.advance().0.stage is Probing,
        run.advance().1 is Identify ==> run.idle() && (run.config.check_port ==> !(
        run.stage is Queued)) && stage_rank(run.advance().0.stage) > stage_rank(
            ScanStage::Probing,
        ),
{
}

/// A strict scan identifies candidates alone, which are the hosts that were reached
/// wherever hosts are probed, and reports the others as hosts without a miner.
pub proof fn law_strict_scan_leaves_out_unreached_hosts(run: RunModel)
    requires
        run.wf(),
        run.config.strict,
    ensures
        run.advance().1 matches ActionModel::Identify { ips, .. } ==> ips == run.candidates
            && run.advance().0.unreachable == run.unreachable,
        run.advance().1 matches ActionModel::Report { misses } ==> run.config.report_misses
            ==> misses == run.candidates + run.unreachable,
        !(run.stage is Fallback),
{
}

/// A scan that is not strict gives every host that was not reached one attempt to be
/// identified, after the others are reported and without a delay, and reports it
/// whatever comes of it. There is no retry.
pub proof fn law_unreached_hosts_get_one_attempt(run: RunModel, slot: usize, success: bool)
    requires
        run.wf(),
        !run.config.strict,
    ensures
        run.advance().1 is Report ==> run.advance().0.unreachable == run.unreachable
            && run.advance().0.stage is Reported,
        run.stage is Reported ==> run.advance().1 == (ActionModel::Identify {
            delay: None,
            ips: run.unreachable,
            concurrency: larger(run.config.identify_concurrency as int, 1),
        }) && run.advance().0.stage is Fallback,
        run.stage is Fallback && run.expects(slot) && run.config.report_misses ==> run.record(
            slot,
            success,
        ).1 is Yield,
        run.stage is Fallback && run.idle() ==> run.advance().1 is Done,
{
}

/// What happened to one address in a scan: how often it was handed out to be probed and
/// what came of each probe, how often one reached it, and how often it was handed out to
/// be identified and what came of that each time. An address that was queued once is
/// reached at most once, since it is not probed again.
#[verifier::ext_equal]
pub struct HostHistory {
    pub probed: nat,
    pub probe_answers: Seq<bool>,
    pub reached: nat,
    pub handed_out: nat,
    pub answers: Seq<bool>,
}

/// The reports of one address.
pub open spec fn reports_of(outcomes: Seq<Outcome>, ip: IpAddr) -> Seq<Outcome> {
    outcomes.filter(|outcome: Outcome| outcome.ip == ip)
}

impl RunModel {
    /// The history of `ip` after `op`.
    pub open spec fn note(self, history: HostHistory, op: ScanOp, ip: IpAddr) -> HostHistory {
        match op {
            ScanOp::Advance => match self.advance().1 {
                ActionModel::Probe { delay: _, ips, concurrency: _ } => HostHistory {
                    probed: history.probed + ips.to_multiset().count(ip),
                    ..history
                },
                ActionModel::Identify { delay: _, ips, concurrency: _ } => HostHistory {
                    handed_out: history.handed_out + ips.to_multiset().count(ip),
                    ..history
                },
                _ => history,
            },
            ScanOp::Record { slot, success } => if self.expects(slot)
                && self.batch[slot as int].ip == ip {
                match self.stage {
                    ScanStage::Probing => HostHistory {
                        probe_answers: history.probe_answers.push(success),
                        reached: history.reached + if success { 1nat } else { 0nat },
                        ..history
                    },
                    ScanStage::Identifying | ScanStage::Fallback => HostHistory {
                        answers: history.answers.push(success),
                        ..history
                    },
                    _ => history,
                }
            } else {
                history
            },
        }
    }

    /// The history of `ip` after `ops`.
    pub open spec fn history(self, ops: Seq<ScanOp>, ip: IpAddr) -> HostHistory
        decreases ops.len(),
    {
        if ops.len() == 0 {
            HostHistory {
                probed: 0,
                probe_answers: Seq::empty(),
                reached: 0,
                handed_out: 0,
                answers: Seq::empty(),
            }
        } else {
            let before = ops.drop_last();
            self.run(before).0.note(self.history(before, ip), ops.last(), ip)
        }
    }

    /// What holds of an address that was queued once, its history and its reports: it is
    /// in exactly one place, or it was reported once.
    spec fn on_track(self, ip: IpAddr, history: HostHistory, reports: Seq<Outcome>) -> bool {
        let busy = pending(self.batch).count(ip);
        let waiting = self.candidates.to_multiset().count(ip);
        let missing = self.unreachable.to_multiset().count(ip);
        let eligible = !self.config.check_port || history.reached > 0;
        let tries = history.answers.len();
        let untried = history.handed_out == 0 && tries == 0 && reports.len() == 0;
        let failing = reports.len() == 0 && forall|i: int|
            0 <= i < tries ==> !(#[trigger] history.answers[i]);
        let found = tries > 0 && history.handed_out == tries && history.answers[tries - 1] && (
        forall|i: int| 0 <= i < tries - 1 ==> !(#[trigger] history.answers[i])) && reports
            == seq![Outcome { ip, found: true }];
        let missed = history.handed_out == tries && (forall|i: int|
            0 <= i < tries ==> !(#[trigger] history.answers[i])) && reports == seq![
            Outcome { ip, found: false },
        ];
        let gone = busy == 0 && waiting == 0 && missing == 0;
        let fell_back = tries == 1 && history.handed_out == 1 && reports == seq![
            Outcome { ip, found: history.answers[0] },
        ];
        match self.stage {
            ScanStage::Queued => busy == 0 && waiting == 1 && missing == 0 && history.reached
                == 0 && untried,
            ScanStage::Probing => busy + waiting + missing == 1 && history.reached == waiting
                && untried,
            ScanStage::Identifying => if eligible {
                ||| busy == 1 && waiting == 0 && missing == 0 && failing && tries == self.attempt
                    && history.handed_out == self.attempt + 1
                ||| busy == 0 && waiting == 1 && missing == 0 && failing && tries == self.attempt
                    + 1 && history.handed_out == self.attempt + 1
                ||| gone && found && tries <= self.attempt + 1
            } else {
                busy == 0 && waiting == 0 && missing == 1 && untried
            },
            _ => if eligible {
                gone && (found && tries <= self.config.scan_retries + 1 || missed && tries
                    == self.config.scan_retries + 1)
            } else {
                match self.stage {
                    ScanStage::Reported => busy == 0 && waiting == 0 && missing == 1 && untried,
                    ScanStage::Fallback => {
                        ||| busy == 1 && waiting == 0 && missing == 0 && history.handed_out == 1
                            && tries == 0 && reports.len() == 0
                        ||| gone && fell_back
                    },
                    _ => gone && if self.config.strict {
                        missed && tries == 0
                    } else {
                        fell_back
                    },
                }
            },
        }
    }
}

/// A report of misses reports an address as often as it is listed.
proof fn lemma_reports_of_missed(ips: Seq<IpAddr>, ip: IpAddr)
    ensures
        reports_of(missed(ips), ip) == Seq::new(
            ips.to_multiset().count(ip),
            |i: int| Outcome { ip, found: false },
        ),
    decreases ips.len(),
{
    broadcast use vstd::seq_lib::group_to_multiset_ensures;

    reveal(Seq::filter);
    let expected = Seq::new(
        ips.to_multiset().count(ip),
        |i: int| Outcome { ip, found: false },
    );
    if ips.len() == 0 {
        assert(ips.to_multiset() =~= Multiset::empty());
        assert(reports_of(missed(ips), ip) =~= expected);
    } else {
        let front = ips.drop_last();
        lemma_reports_of_missed(front, ip);
        assert(missed(ips).drop_last() =~= missed(front));
        assert(ips =~= front.push(ips.last()));
        assert(reports_of(missed(ips), ip) =~= expected);
    }
}

/// Advancing keeps an address on its track.
#[verifier::spinoff_prover]
proof fn lemma_advance_on_track(
    run: RunModel,
    ip: IpAddr,
    history: HostHistory,
    reports: Seq<Outcome>,
)
    requires
        run.wf(),
        run.config.report_misses,
        run.on_track(ip, history, reports),
    ensures
        run.advance().0.on_track(
            ip,
            run.note(history, ScanOp::Advance, ip),
            reports + reports_of(run.apply(ScanOp::Advance).1, ip),
        ),
{
    broadcast use vstd::seq_lib::group_to_multiset_ensures;

    let new_reports = reports_of(run.apply(ScanOp::Advance).1, ip);
    let all = reports + new_reports;
    assert(reports_of(Seq::empty(), ip) =~= Seq::empty()) by {
        reveal(Seq::filter);
    }
    assert(Seq::<IpAddr>::empty().to_multiset() =~= Multiset::empty());
    assert(run.candidates.len() == 0 ==> run.candidates =~= Seq::empty());
    assert(run.unreachable.len() == 0 ==> run.unreachable =~= Seq::empty());
    assert(pending(Seq::<Slot>::empty()) == Multiset::<IpAddr>::empty());
    lemma_fresh_pending(run.candidates);
    lemma_fresh_pending(run.unreachable);
    lemma_reports_of_missed(run.given_up(), ip);
    vstd::seq_lib::lemma_multiset_commutative(run.candidates, run.unreachable);
    if run.idle() {
        lemma_idle_pending(run.batch);
    }
    if run.advance().1 is Report {
        assert(run.apply(ScanOp::Advance).1 == missed(run.given_up()));
        if run.given_up().to_multiset().count(ip) == 1 {
            assert(reports =~= Seq::empty());
            assert(all =~= seq![Outcome { ip, found: false }]);
        } else {
            assert(run.given_up().to_multiset().count(ip) == 0);
            assert(all =~= reports);
        }
    } else {
        assert(all =~= reports);
    }
}

/// What recording a host means for the places of an address and for its reports.
proof fn lemma_recorded(run: RunModel, ip: IpAddr, slot: usize, success: bool)
    requires
        run.wf(),
        run.config.report_misses,
        run.expects(slot),
    ensures
        ({
            let op = ScanOp::Record { slot, success };
            let after = run.record(slot, success).0;
            let host = run.batch[slot as int].ip;
            let own = if host == ip {
                1nat
            } else {
                0nat
            };
            let new = reports_of(run.apply(op).1, ip);
            &&& pending(run.batch).count(ip) == pending(after.batch).count(ip) + own
            &&& match run.stage {
                ScanStage::Probing => {
                    &&& after.candidates.to_multiset().count(ip)
                        == run.candidates.to_multiset().count(ip) + if success {
                        own
                    } else {
                        0
                    }
                    &&& after.unreachable.to_multiset().count(ip)
                        == run.unreachable.to_multiset().count(ip) + if success {
                        0
                    } else {
                        own
                    }
                    &&& new == Seq::<Outcome>::empty()
                },
                ScanStage::Identifying => {
                    &&& after.candidates.to_multiset().count(ip)
                        == run.candidates.to_multiset().count(ip) + if success {
                        0
                    } else {
                        own
                    }
                    &&& after.unreachable == run.unreachable
                    &&& new == if host == ip && success {
                        seq![Outcome { ip, found: true }]
                    } else {
                        Seq::empty()
                    }
                },
                ScanStage::Fallback => {
                    &&& after.candidates == run.candidates
                    &&& after.unreachable == run.unreachable
                    &&& new == if host == ip {
                        seq![Outcome { ip, found: success }]
                    } else {
                        Seq::empty()
                    }
                },
                _ => false,
            }
        }),
{
    let host = run.batch[slot as int].ip;
    let outcome = Outcome { ip: host, found: success };
    lemma_heard_pending(run.batch, slot as int);
    vstd::seq_lib::to_multiset_build(run.candidates, host);
    vstd::seq_lib::to_multiset_build(run.unreachable, host);
    assert(reports_of(Seq::empty(), ip) =~= Seq::empty()
        && reports_of(seq![outcome], ip) =~= if host == ip {
        seq![outcome]
    } else {
        Seq::empty()
    }) by {
        reveal(Seq::filter);
        assert(seq![outcome].drop_last() =~= Seq::empty());
        assert(Seq::<Outcome>::empty().filter(|o: Outcome| o.ip == ip) =~= Seq::empty());
    }
}

/// A probe that is recorded keeps an address on its track.
proof fn lemma_probe_on_track(
    run: RunModel,
    ip: IpAddr,
    history: HostHistory,
    reports: Seq<Outcome>,
    slot: usize,
    success: bool,
)
    requires
        run.wf(),
        run.config.report_misses,
        run.stage is Probing,
        run.expects(slot),
        run.on_track(ip, history, reports),
    ensures
        run.record(slot, success).0.on_track(
            ip,
            run.note(history, ScanOp::Record { slot, success }, ip),
            reports,
        ),
{
    lemma_recorded(run, ip, slot, success);
}

/// An attempt that is recorded keeps an address on its track.
#[verifier::spinoff_prover]
proof fn lemma_attempt_on_track(
    run: RunModel,
    ip: IpAddr,
    history: HostHistory,
    reports: Seq<Outcome>,
    slot: usize,
    success: bool,
)
    requires
        run.wf(),
        run.config.report_misses,
        run.stage is Identifying,
        run.expects(slot),
        run.on_track(ip, history, reports),
    ensures
        ({
            let op = ScanOp::Record { slot, success };
            run.record(slot, success).0.on_track(
                ip,
                run.note(history, op, ip),
                reports + reports_of(run.apply(op).1, ip),
            )
        }),
{
    lemma_recorded(run, ip, slot, success);
    let new = reports_of(run.apply(ScanOp::Record { slot, success }).1, ip);
    if run.batch[slot as int].ip == ip && success {
        assert(reports =~= Seq::empty());
        assert(reports + new =~= seq![Outcome { ip, found: true }]);
    } else {
        assert(reports + new =~= reports);
    }
}

/// A last attempt that is recorded keeps an address on its track.
proof fn lemma_fallback_on_track(
    run: RunModel,
    ip: IpAddr,
    history: HostHistory,
    reports: Seq<Outcome>,
    slot: usize,
    success: bool,
)
    requires
        run.wf(),
        run.config.report_misses,
        run.stage is Fallback,
        run.expects(slot),
        run.on_track(ip, history, reports),
    ensures
        ({
            let op = ScanOp::Record { slot, success };
            run.record(slot, success).0.on_track(
                ip,
                run.note(history, op, ip),
                reports + reports_of(run.apply(op).1, ip),
            )
        }),
{
    lemma_recorded(run, ip, slot, success);
    let new = reports_of(run.apply(ScanOp::Record { slot, success }).1, ip);
    if run.batch[slot as int].ip == ip {
        assert(reports =~= Seq::empty());
        assert(reports + new =~= seq![Outcome { ip, found: success }]);
    } else {
        assert(reports + new =~= reports);
    }
}

/// Recording a host keeps every address on its track.
proof fn lemma_record_on_track(
    run: RunModel,
    ip: IpAddr,
    history: HostHistory,
    reports: Seq<Outcome>,
    slot: usize,
    success: bool,
)
    requires
        run.wf(),
        run.config.report_misses,
        run.on_track(ip, history, reports),
    ensures
        ({
            let op = ScanOp::Record { slot, success };
            run.record(slot, success).0.on_track(
                ip,
                run.note(history, op, ip),
                reports + reports_of(run.apply(op).1, ip),
            )
        }),
{
    let new = reports_of(run.apply(ScanOp::Record { slot, success }).1, ip);
    if !run.expects(slot) {
        assert(new =~= Seq::empty()) by {
            reveal(Seq::filter);
        }
        assert(reports + new =~= reports);
    } else {
        match run.stage {
            ScanStage::Probing => {
                lemma_recorded(run, ip, slot, success);
                assert(reports + new =~= reports);
                lemma_probe_on_track(run, ip, history, reports, slot, success);
            },
            ScanStage::Identifying => lemma_attempt_on_track(
                run,
                ip,
                history,
                reports,
                slot,
                success,
            ),
            ScanStage::Fallback => lemma_fallback_on_track(
                run,
                ip,
                history,
                reports,
                slot,
                success,
            ),
            _ => {
                assert(run.batch[slot as int].done);
            },
        }
    }
}

/// An address that was queued once stays on its track.
proof fn lemma_on_track(config: ScanConfig, queued: Seq<IpAddr>, ops: Seq<ScanOp>, ip: IpAddr)
    requires
        config.report_misses,
        queued.to_multiset().count(ip) == 1,
    ensures
        ({
            let start = RunModel::start(config, queued);
            let (run, outcomes) = start.run(ops);
            &&& run.wf()
            &&& run.config == config
            &&& run.on_track(ip, start.history(ops, ip), reports_of(outcomes, ip))
        }),
    decreases ops.len(),
{
    let start = RunModel::start(config, queued);
    if ops.len() == 0 {
        reveal(Seq::filter);
        assert(Seq::<IpAddr>::empty().to_multiset() =~= Multiset::empty()) by {
            broadcast use vstd::seq_lib::group_to_multiset_ensures;

        }
        assert(reports_of(Seq::empty(), ip) =~= Seq::empty());
    } else {
        let before = ops.drop_last();
        lemma_on_track(config, queued, before, ip);
        let (run, outcomes) = start.run(before);
        let history = start.history(before, ip);
        let reports = reports_of(outcomes, ip);
        law_scan_stays_well_formed(run, ops.last());
        match ops.last() {
            ScanOp::Advance => lemma_advance_on_track(run, ip, history, reports),
            ScanOp::Record { slot, success } => lemma_record_on_track(
                run,
                ip,
                history,
                reports,
                slot,
                success,
            ),
        }
        Seq::filter_distributes_over_add(
            outcomes,
            run.apply(ops.last()).1,
            |outcome: Outcome| outcome.ip == ip,
        );
    }
}

/// An address that was queued once, and was reached or is not probed, is tried until it
/// is identified, once and then as often as there are retries. Where `answer` says what
/// comes of each attempt, counted from zero: if attempt `k` is the first to succeed and
/// no later than the last retry, the address is handed out `k + 1` times and its one
/// report is a miner; if none succeeds, it is handed out once more than there are
/// retries and its one report is a miss.
pub proof fn law_host_is_tried_until_identified(
    config: ScanConfig,
    queued: Seq<IpAddr>,
    ops: Seq<ScanOp>,
    ip: IpAddr,
    answer: spec_fn(int) -> bool,
)
    requires
        config.report_misses,
        queued.to_multiset().count(ip) == 1,
        RunModel::start(config, queued).run(ops).0.stage is Finished,
        config.check_port ==> RunModel::start(config, queued).history(ops, ip).reached > 0,
        forall|i: int|
            0 <= i < RunModel::start(config, queued).history(ops, ip).answers.len()
                ==> #[trigger] RunModel::start(config, queued).history(ops, ip).answers[i]
                == answer(i),
    ensures
        ({
            let history = RunModel::start(config, queued).history(ops, ip);
            let reports = reports_of(RunModel::start(config, queued).run(ops).1, ip);
            &&& history.answers.len() == history.handed_out
            &&& forall|k: int|
                0 <= k <= config.scan_retries && #[trigger] answer(k) && (forall|j: int|
                    0 <= j < k ==> !(#[trigger] answer(j))) ==> history.handed_out == k + 1
                    && reports == seq![Outcome { ip, found: true }]
            &&& (forall|j: int| 0 <= j <= config.scan_retries ==> !(#[trigger] answer(j)))
                ==> history.handed_out == config.scan_retries + 1 && reports == seq![
                Outcome { ip, found: false },
            ]
        }),
{
    lemma_on_track(config, queued, ops, ip);
    let history = RunModel::start(config, queued).history(ops, ip);
    let reports = reports_of(RunModel::start(config, queued).run(ops).1, ip);
    let tries = history.answers.len() as int;
    assert(history.answers[tries - 1] == answer(tries - 1));
    assert forall|k: int|
        0 <= k <= config.scan_retries && #[trigger] answer(k) && (forall|j: int|
            0 <= j < k ==> !(#[trigger] answer(j))) implies history.handed_out == k + 1
        && reports == seq![Outcome { ip, found: true }] by {
        if k < tries {
            assert(history.answers[k] == answer(k));
        }
    }
}

/// An address that was queued once and that no probe reached is not identified where the
/// check is strict, and its one report is a miss. Where the check is not strict it is
/// handed out once, and its one report says what came of that.
pub proof fn law_unreached_host_is_tried_at_most_once(
    config: ScanConfig,
    queued: Seq<IpAddr>,
    ops: Seq<ScanOp>,
    ip: IpAddr,
)
    requires
        config.report_misses,
        queued.to_multiset().count(ip) == 1,
        RunModel::start(config, queued).run(ops).0.stage is Finished,
        config.check_port,
        RunModel::start(config, queued).history(ops, ip).reached == 0,
    ensures
        ({
            let history = RunModel::start(config, queued).history(ops, ip);
            let reports = reports_of(RunModel::start(config, queued).run(ops).1, ip);
            if config.strict {
                history.handed_out == 0 && reports == seq![Outcome { ip, found: false }]
            } else {
                history.handed_out == 1 && history.answers.len() == 1 && reports == seq![
                    Outcome { ip, found: history.answers[0] },
                ]
            }
        }),
{
    lemma_on_track(config, queued, ops, ip);
}

/// The number of attempts that succeeded.
pub open spec fn successes(answers: Seq<bool>) -> nat {
    answers.filter(|success: bool| success).len()
}

impl RunModel {
    /// How many of `copies` places of an address in the queue are tried with retries:
    /// those that a probe reached, or all where hosts are not probed.
    pub open spec fn retried(self, history: HostHistory, copies: nat) -> nat {
        if self.config.check_port {
            history.reached
        } else {
            copies
        }
    }

    /// What holds of an address that was queued `copies` times, its history and its
    /// reports: where its copies are, and between which bounds the attempts lie.
    spec fn adds_up(
        self,
        ip: IpAddr,
        copies: nat,
        history: HostHistory,
        reports: Seq<Outcome>,
    ) -> bool {
        let busy = pending(self.batch).count(ip);
        let waiting = self.candidates.to_multiset().count(ip);
        let missing = self.unreachable.to_multiset().count(ip);
        let retried = self.retried(history, copies);
        let tries = history.answers.len();
        let handed_out = history.handed_out;
        let found = hits(reports).len();
        let untried = handed_out == 0 && tries == 0 && reports.len() == 0;
        let most = retried * (self.config.scan_retries + 1);
        let rest = copies - retried;
        &&& found == successes(history.answers)
        &&& match self.stage {
            ScanStage::Queued => busy == 0 && waiting == copies && missing == 0
                && history.reached == 0 && untried,
            ScanStage::Probing => busy + waiting + missing == copies && history.reached == waiting
                && untried,
            ScanStage::Identifying => {
                &&& busy + waiting + reports.len() == retried
                &&& missing == rest
                &&& reports.len() == found
                &&& tries + busy == handed_out
                &&& retried <= handed_out <= retried * (self.attempt + 1)
                &&& found == 0 ==> handed_out == retried * (self.attempt + 1)
            },
            ScanStage::Reported => {
                &&& busy == 0 && waiting == 0 && missing == rest
                &&& reports.len() == retried
                &&& tries == handed_out
                &&& retried <= handed_out <= most
                &&& found == 0 ==> handed_out == most
            },
            ScanStage::Fallback => {
                &&& waiting == 0 && missing == 0 && rest >= 0
                &&& busy + reports.len() == copies
                &&& tries + busy == handed_out
                &&& copies <= handed_out <= most + rest
                &&& found == 0 ==> handed_out == most + rest
            },
            ScanStage::Finished => {
                let last = if self.config.strict {
                    0
                } else {
                    rest
                };
                &&& busy == 0 && waiting == 0 && missing == 0 && rest >= 0
                &&& reports.len() == copies
                &&& tries == handed_out
                &&& retried + last <= handed_out <= most + last
                &&& found == 0 ==> handed_out == most + last
            },
        }
    }
}

/// One more attempt for each of so many copies.
proof fn lemma_attempts(copies: nat, attempt: nat, retries: nat)
    requires
        attempt <= retries,
    ensures
        copies * (attempt + 2) == copies * (attempt + 1) + copies,
        copies * (attempt + 1) <= copies * (retries + 1),
        copies * (0 + 1) == copies,
        copies == 0 ==> copies * (attempt + 1) == 0 && copies * (retries + 1) == 0,
{
    assert(copies * (attempt + 2) == copies * (attempt + 1) + copies) by (nonlinear_arith);
    assert(copies * (0 + 1) == copies) by (nonlinear_arith);
    assert(copies * (attempt + 1) <= copies * (retries + 1)) by (nonlinear_arith)
        requires
            attempt <= retries,
    ;
}

/// Reports of misses hold no miner, and do not change how many there are.
proof fn lemma_misses_add_no_hits(reports: Seq<Outcome>, ips: Seq<IpAddr>, ip: IpAddr)
    ensures
        hits(reports + reports_of(missed(ips), ip)) == hits(reports),
        reports_of(missed(ips), ip).len() == ips.to_multiset().count(ip),
{
    let count = ips.to_multiset().count(ip);
    let copies = Seq::new(count, |i: int| ip);
    lemma_reports_of_missed(ips, ip);
    assert(reports_of(missed(ips), ip) =~= missed(copies));
    lemma_missed_are_no_hits(copies);
    Seq::filter_distributes_over_add(
        reports,
        missed(copies),
        |outcome: Outcome| outcome.found,
    );
    assert(hits(reports) + Seq::<Outcome>::empty() =~= hits(reports));
}

/// One more report, and one more answer, count by whether they are a success.
proof fn lemma_one_more(reports: Seq<Outcome>, answers: Seq<bool>, outcome: Outcome, success: bool)
    ensures
        hits(reports + seq![outcome]).len() == hits(reports).len() + if outcome.found {
            1nat
        } else {
            0nat
        },
        hits(reports + Seq::<Outcome>::empty()) == hits(reports),
        successes(answers.push(success)) == successes(answers) + if success {
            1nat
        } else {
            0nat
        },
        successes(Seq::empty()) == 0,
        hits(Seq::empty()).len() == 0,
{
    reveal(Seq::filter);
    assert((reports + seq![outcome]).drop_last() =~= reports);
    assert(reports + Seq::<Outcome>::empty() =~= reports);
    assert(answers.push(success).drop_last() =~= answers);
}

/// Advancing keeps the attempts within their bounds.
#[verifier::spinoff_prover]
proof fn lemma_advance_adds_up(
    run: RunModel,
    ip: IpAddr,
    copies: nat,
    history: HostHistory,
    reports: Seq<Outcome>,
)
    requires
        run.wf(),
        run.config.report_misses,
        run.adds_up(ip, copies, history, reports),
    ensures
        run.advance().0.adds_up(
            ip,
            copies,
            run.note(history, ScanOp::Advance, ip),
            reports + reports_of(run.apply(ScanOp::Advance).1, ip),
        ),
{
    let after = run.advance().0;
    let new = reports_of(run.apply(ScanOp::Advance).1, ip);
    let retried = run.retried(history, copies);
    assert(Seq::<IpAddr>::empty().to_multiset() =~= Multiset::empty()) by {
        broadcast use vstd::seq_lib::group_to_multiset_ensures;

    }
    assert(run.candidates.len() == 0 ==> run.candidates =~= Seq::empty());
    assert(run.unreachable.len() == 0 ==> run.unreachable =~= Seq::empty());
    assert(pending(Seq::<Slot>::empty()) == Multiset::<IpAddr>::empty());
    lemma_fresh_pending(run.candidates);
    lemma_fresh_pending(run.unreachable);
    vstd::seq_lib::lemma_multiset_commutative(run.candidates, run.unreachable);
    lemma_misses_add_no_hits(reports, run.given_up(), ip);
    lemma_attempts(retried, 0, run.config.scan_retries as nat);
    if run.stage is Identifying {
        lemma_attempts(retried, run.attempt as nat, run.config.scan_retries as nat);
    }
    if run.idle() {
        lemma_idle_pending(run.batch);
    }
    if !(run.advance().1 is Report) {
        assert(new =~= Seq::empty()) by {
            reveal(Seq::filter);
        }
        assert(reports + new =~= reports);
    }
}

/// A probe that is recorded keeps the attempts within their bounds.
proof fn lemma_probe_adds_up(
    run: RunModel,
    ip: IpAddr,
    copies: nat,
    history: HostHistory,
    reports: Seq<Outcome>,
    slot: usize,
    success: bool,
)
    requires
        run.wf(),
        run.config.report_misses,
        run.stage is Probing,
        run.expects(slot),
        run.adds_up(ip, copies, history, reports),
    ensures
        ({
            let op = ScanOp::Record { slot, success };
            run.record(slot, success).0.adds_up(
                ip,
                copies,
                run.note(history, op, ip),
                reports + reports_of(run.apply(op).1, ip),
            )
        }),
{
    let new = reports_of(run.apply(ScanOp::Record { slot, success }).1, ip);
    lemma_recorded(run, ip, slot, success);
    lemma_one_more(reports, history.answers, Outcome { ip, found: success }, success);
    if new.len() == 0 {
        assert(reports + new =~= reports);
    }
}

/// An attempt that is recorded stays within the bounds.
#[verifier::spinoff_prover]
proof fn lemma_attempt_adds_up(
    run: RunModel,
    ip: IpAddr,
    copies: nat,
    history: HostHistory,
    reports: Seq<Outcome>,
    slot: usize,
    success: bool,
)
    requires
        run.wf(),
        run.config.report_misses,
        run.stage is Identifying,
        run.expects(slot),
        run.adds_up(ip, copies, history, reports),
    ensures
        ({
            let op = ScanOp::Record { slot, success };
            run.record(slot, success).0.adds_up(
                ip,
                copies,
                run.note(history, op, ip),
                reports + reports_of(run.apply(op).1, ip),
            )
        }),
{
    let new = reports_of(run.apply(ScanOp::Record { slot, success }).1, ip);
    lemma_recorded(run, ip, slot, success);
    lemma_one_more(reports, history.answers, Outcome { ip, found: success }, success);
    if new.len() == 0 {
        assert(reports + new =~= reports);
    }
}

/// A last attempt that is recorded stays within the bounds.
proof fn lemma_fallback_adds_up(
    run: RunModel,
    ip: IpAddr,
    copies: nat,
    history: HostHistory,
    reports: Seq<Outcome>,
    slot: usize,
    success: bool,
)
    requires
        run.wf(),
        run.config.report_misses,
        run.stage is Fallback,
        run.expects(slot),
        run.adds_up(ip, copies, history, reports),
    ensures
        ({
            let op = ScanOp::Record { slot, success };
            run.record(slot, success).0.adds_up(
                ip,
                copies,
                run.note(history, op, ip),
                reports + reports_of(run.apply(op).1, ip),
            )
        }),
{
    let new = reports_of(run.apply(ScanOp::Record { slot, success }).1, ip);
    lemma_recorded(run, ip, slot, success);
    lemma_one_more(reports, history.answers, Outcome { ip, found: success }, success);
    if new.len() == 0 {
        assert(reports + new =~= reports);
    }
}

/// Recording a host keeps the attempts within their bounds.
proof fn lemma_record_adds_up(
    run: RunModel,
    ip: IpAddr,
    copies: nat,
    history: HostHistory,
    reports: Seq<Outcome>,
    slot: usize,
    success: bool,
)
    requires
        run.wf(),
        run.config.report_misses,
        run.adds_up(ip, copies, history, reports),
    ensures
        ({
            let op = ScanOp::Record { slot, success };
            run.record(slot, success).0.adds_up(
                ip,
                copies,
                run.note(history, op, ip),
                reports + reports_of(run.apply(op).1, ip),
            )
        }),
{
    if !run.expects(slot) {
        let new = reports_of(run.apply(ScanOp::Record { slot, success }).1, ip);
        assert(new =~= Seq::empty()) by {
            reveal(Seq::filter);
        }
        assert(reports + new =~= reports);
    } else {
        match run.stage {
            ScanStage::Probing => lemma_probe_adds_up(
                run,
                ip,
                copies,
                history,
                reports,
                slot,
                success,
            ),
            ScanStage::Identifying => lemma_attempt_adds_up(
                run,
                ip,
                copies,
                history,
                reports,
                slot,
                success,
            ),
            ScanStage::Fallback => lemma_fallback_adds_up(
                run,
                ip,
                copies,
                history,
                reports,
                slot,
                success,
            ),
            _ => {
                assert(run.batch[slot as int].done);
            },
        }
    }
}

/// The attempts for an address stay within their bounds.
proof fn lemma_adds_up(config: ScanConfig, queued: Seq<IpAddr>, ops: Seq<ScanOp>, ip: IpAddr)
    requires
        config.report_misses,
    ensures
        ({
            let start = RunModel::start(config, queued);
            let (run, outcomes) = start.run(ops);
            &&& run.wf()
            &&& run.config == config
            &&& run.adds_up(
                ip,
                queued.to_multiset().count(ip),
                start.history(ops, ip),
                reports_of(outcomes, ip),
            )
        }),
    decreases ops.len(),
{
    let start = RunModel::start(config, queued);
    let copies = queued.to_multiset().count(ip);
    if ops.len() == 0 {
        let none = Seq::<Outcome>::empty();
        lemma_one_more(none, Seq::empty(), Outcome { ip, found: false }, false);
        assert(Seq::<IpAddr>::empty().to_multiset() =~= Multiset::empty()) by {
            broadcast use vstd::seq_lib::group_to_multiset_ensures;

        }
        assert(reports_of(none, ip) =~= none) by {
            reveal(Seq::filter);
        }
    } else {
        let before = ops.drop_last();
        lemma_adds_up(config, queued, before, ip);
        let (run, outcomes) = start.run(before);
        let history = start.history(before, ip);
        let reports = reports_of(outcomes, ip);
        law_scan_stays_well_formed(run, ops.last());
        match ops.last() {
            ScanOp::Advance => lemma_advance_adds_up(run, ip, copies, history, reports),
            ScanOp::Record { slot, success } => lemma_record_adds_up(
                run,
                ip,
                copies,
                history,
                reports,
                slot,
                success,
            ),
        }
        Seq::filter_distributes_over_add(
            outcomes,
            run.apply(ops.last()).1,
            |outcome: Outcome| outcome.ip == ip,
        );
    }
}

/// An address may be queued any number of times, and its copies are told apart by their
/// places alone. Each copy that a probe reached, or each one where hosts are not probed,
/// is handed out at least once and at most once more than there are retries; each other
/// copy is handed out once, or never where the check is strict. Where no attempt succeeds,
/// all retries are used. There is one answer for each time that the address was handed
/// out, one report for each copy, and as many of the reports are miners as answers are
/// successes.
pub proof fn law_repeated_address_is_tried_copy_by_copy(
    config: ScanConfig,
    queued: Seq<IpAddr>,
    ops: Seq<ScanOp>,
    ip: IpAddr,
)
    requires
        config.report_misses,
        RunModel::start(config, queued).run(ops).0.stage is Finished,
    ensures
        ({
            let copies = queued.to_multiset().count(ip);
            let history = RunModel::start(config, queued).history(ops, ip);
            let reports = reports_of(RunModel::start(config, queued).run(ops).1, ip);
            let retried = RunModel::start(config, queued).retried(history, copies);
            let once = if config.strict {
                0
            } else {
                copies - retried
            };
            let most = retried * (config.scan_retries + 1) + once;
            &&& retried <= copies
            &&& retried + once <= history.handed_out <= most
            &&& successes(history.answers) == 0 ==> history.handed_out == most
            &&& history.answers.len() == history.handed_out
            &&& reports.len() == copies
            &&& hits(reports).len() == successes(history.answers)
        }),
{
    lemma_adds_up(config, queued, ops, ip);
}

impl RunModel {
    /// What holds of the probes of an address that was queued once.
    spec fn probe_on_track(self, ip: IpAddr, history: HostHistory) -> bool {
        let busy = pending(self.batch).count(ip);
        let waiting = self.candidates.to_multiset().count(ip);
        let missing = self.unreachable.to_multiset().count(ip);
        let tries = history.probe_answers.len();
        let failing = history.reached == 0 && forall|i: int|
            0 <= i < tries ==> !(#[trigger] history.probe_answers[i]);
        let hit = history.reached == 1 && tries > 0 && history.probed == tries
            && history.probe_answers[tries - 1] && forall|i: int|
            0 <= i < tries - 1 ==> !(#[trigger] history.probe_answers[i]);
        match self.stage {
            ScanStage::Queued => busy == 0 && waiting == 1 && missing == 0 && failing && tries == 0
                && history.probed == 0,
            ScanStage::Probing => {
                ||| busy == 1 && waiting == 0 && missing == 0 && failing && tries == self.attempt
                    && history.probed == self.attempt + 1
                ||| busy == 0 && waiting == 0 && missing == 1 && failing && tries == self.attempt
                    + 1 && history.probed == self.attempt + 1
                ||| busy == 0 && waiting == 1 && missing == 0 && hit && tries <= self.attempt + 1
            },
            _ => if self.config.check_port {
                ||| hit && tries <= self.config.probe_retries + 1
                ||| failing && tries == self.config.probe_retries + 1 && history.probed == tries
            } else {
                failing && tries == 0 && history.probed == 0
            },
        }
    }
}

/// Whatever happens keeps the probes of an address on their track.
proof fn lemma_probe_step_on_track(run: RunModel, ip: IpAddr, history: HostHistory, op: ScanOp)
    requires
        run.wf(),
        run.probe_on_track(ip, history),
    ensures
        run.apply(op).0.probe_on_track(ip, run.note(history, op, ip)),
{
    assert(Seq::<IpAddr>::empty().to_multiset() =~= Multiset::empty()) by {
        broadcast use vstd::seq_lib::group_to_multiset_ensures;

    }
    match op {
        ScanOp::Advance => {
            assert(run.candidates.len() == 0 ==> run.candidates =~= Seq::empty());
            assert(run.unreachable.len() == 0 ==> run.unreachable =~= Seq::empty());
            lemma_fresh_pending(run.candidates);
            lemma_fresh_pending(run.unreachable);
            if run.idle() {
                lemma_idle_pending(run.batch);
            }
        },
        ScanOp::Record { slot, success } => {
            if run.expects(slot) {
                let host = run.batch[slot as int].ip;
                assert(!run.batch[slot as int].done);
                lemma_heard_pending(run.batch, slot as int);
                vstd::seq_lib::to_multiset_build(run.candidates, host);
                vstd::seq_lib::to_multiset_build(run.unreachable, host);
            }
        },
    }
}

/// The probes of an address that was queued once stay on their track.
proof fn lemma_probes_on_track(
    config: ScanConfig,
    queued: Seq<IpAddr>,
    ops: Seq<ScanOp>,
    ip: IpAddr,
)
    requires
        queued.to_multiset().count(ip) == 1,
    ensures
        ({
            let start = RunModel::start(config, queued);
            let run = start.run(ops).0;
            &&& run.wf()
            &&& run.config == config
            &&& run.probe_on_track(ip, start.history(ops, ip))
        }),
    decreases ops.len(),
{
    let start = RunModel::start(config, queued);
    if ops.len() == 0 {
        assert(Seq::<IpAddr>::empty().to_multiset() =~= Multiset::empty()) by {
            broadcast use vstd::seq_lib::group_to_multiset_ensures;

        }
    } else {
        let before = ops.drop_last();
        lemma_probes_on_track(config, queued, before, ip);
        let run = start.run(before).0;
        law_scan_stays_well_formed(run, ops.last());
        lemma_probe_step_on_track(run, ip, start.history(before, ip), ops.last());
    }
}

/// An address that was queued once is probed until it is reached, once and then as often
/// as there are retries. Where `answer` says what comes of each probe, counted from zero:
/// if probe `k` is the first to succeed and no later than the last retry, the address is
/// handed out `k + 1` times and is reached; if none succeeds, it is handed out once more
/// than there are retries and is not reached. Where hosts are not probed it never is.
pub proof fn law_host_is_probed_until_reached(
    config: ScanConfig,
    queued: Seq<IpAddr>,
    ops: Seq<ScanOp>,
    ip: IpAddr,
    answer: spec_fn(int) -> bool,
)
    requires
        queued.to_multiset().count(ip) == 1,
        !(RunModel::start(config, queued).run(ops).0.stage is Queued),
        !(RunModel::start(config, queued).run(ops).0.stage is Probing),
        forall|i: int|
            0 <= i < RunModel::start(config, queued).history(ops, ip).probe_answers.len()
                ==> #[trigger] RunModel::start(config, queued).history(ops, ip).probe_answers[i]
                == answer(i),
    ensures
        ({
            let history = RunModel::start(config, queued).history(ops, ip);
            &&& !config.check_port ==> history.probed == 0
            &&& config.check_port ==> forall|k: int|
                0 <= k <= config.probe_retries && #[trigger] answer(k) && (forall|j: int|
                    0 <= j < k ==> !(#[trigger] answer(j))) ==> history.probed == k + 1
                    && history.reached == 1
            &&& config.check_port && (forall|j: int|
                0 <= j <= config.probe_retries ==> !(#[trigger] answer(j))) ==> history.probed
                == config.probe_retries + 1 && history.reached == 0
        }),
{
    lemma_probes_on_track(config, queued, ops, ip);
    let history = RunModel::start(config, queued).history(ops, ip);
    let tries = history.probe_answers.len() as int;
    assert(tries > 0 ==> history.probe_answers[tries - 1] == answer(tries - 1));
    if config.check_port {
        assert forall|k: int|
            0 <= k <= config.probe_retries && #[trigger] answer(k) && (forall|j: int|
                0 <= j < k ==> !(#[trigger] answer(j))) implies history.probed == k + 1
            && history.reached == 1 by {
            if k < tries {
                assert(history.probe_answers[k] == answer(k));
            }
        }
    }
}

/// What is handed out says what its model says: the hosts themselves, how many at once,
/// and how long to wait first.
pub proof fn law_action_is_its_model(action: ScanAction)
    ensures
        match action {
            ScanAction::Wait => action@ is Wait,
            ScanAction::Probe { delay, ips, concurrency } => action@ matches ActionModel::Probe {
                delay: wait,
                ips: hosts,
                concurrency: limit,
            } && hosts == ips@ && limit == concurrency && (delay is None <==> wait is None) && (
            delay matches Some(span) ==> wait == Some(span@)),
            ScanAction::Identify { delay, ips, concurrency } => action@ matches
                ActionModel::Identify { delay: wait, ips: hosts, concurrency: limit } && hosts
                == ips@ && limit == concurrency && (delay is None <==> wait is None) && (
            delay matches Some(span) ==> wait == Some(span@)),
            ScanAction::Report { misses } => action@ matches ActionModel::Report {
                misses: hosts,
            } && hosts == misses@,
            ScanAction::Done => action@ is Done,
        },
{
}

/// A place in the list that is handed out stands for the host that is listed there: what
/// is recorded for the place is recorded for that host.
pub proof fn law_places_stand_for_hosts(run: RunModel, i: int)
    ensures
        run.advance().1 matches ActionModel::Probe { delay: _, ips, concurrency: _ } ==> (
        run.advance().0.batch.len() == ips.len() && (0 <= i < ips.len()
            ==> run.advance().0.batch[i].ip == ips[i] && !run.advance().0.batch[i].done)),
        run.advance().1 matches ActionModel::Identify { delay: _, ips, concurrency: _ } ==> (
        run.advance().0.batch.len() == ips.len() && (0 <= i < ips.len()
            ==> run.advance().0.batch[i].ip == ips[i] && !run.advance().0.batch[i].done)),
{
}

/// A record is of the host in that place and of no other: it is heard of, all others stay
/// as they are, and a place that nothing is expected of changes nothing.
pub proof fn law_record_is_of_one_host(run: RunModel, slot: usize, success: bool, i: int)
    requires
        run.wf(),
        0 <= i < run.batch.len(),
    ensures
        ({
            let after = run.record(slot, success).0;
            let waits = slot < run.batch.len() && !run.batch[slot as int].done;
            &&& after.batch.len() == run.batch.len()
            &&& after.batch[i].ip == run.batch[i].ip
            &&& i != slot ==> after.batch[i].done == run.batch[i].done
            &&& i == slot ==> after.batch[i].done
            &&& !waits ==> after == run && run.record(slot, success).1 is Ignored
            &&& waits ==> !(run.record(slot, success).1 is Ignored)
            &&& after.stage == run.stage
            &&& after.attempt == run.attempt
            &&& after.config == run.config
        }),
{
}

/// A scan moves on exactly when every host that was handed out has been recorded.
pub proof fn law_scan_waits_for_all_hosts(run: RunModel)
    ensures
        run.advance().1 is Wait <==> exists|i: int|
            0 <= i < run.batch.len() && !(#[trigger] run.batch[i]).done,
        run.advance().1 is Wait ==> run.advance().0 == run,
{
    if !run.idle() {
        let i = choose|i: int| 0 <= i < run.batch.len() && !(#[trigger] run.batch[i]).done;
        assert(!run.batch[i].done);
    }
}

/// A first pass begins at once and with the limit for first passes. A retry waits as long
/// as the rules say for the retries before it, and has the limit for retries. No limit
/// is below one.
pub proof fn law_passes_follow_the_rules(run: RunModel)
    requires
        run.wf(),
    ensures
        run.advance().1 matches ActionModel::Probe { delay, ips: _, concurrency } ==> {
            &&& concurrency >= 1
            &&& run.advance().0.stage is Probing
            &&& run.stage is Queued ==> delay is None && run.advance().0.attempt == 0 && (
            run.config.probe_concurrency >= 1 ==> concurrency == run.config.probe_concurrency)
            &&& run.stage is Probing ==> delay == Some(
                backoff(run.config.probe_delay, run.attempt),
            ) && run.advance().0.attempt == run.attempt + 1 && (
            run.config.probe_retry_concurrency >= 1 ==> concurrency
                == run.config.probe_retry_concurrency)
            &&& run.stage is Queued || run.stage is Probing
        },
        run.advance().1 matches ActionModel::Identify { delay, ips: _, concurrency } ==> {
            &&& concurrency >= 1
            &&& run.stage is Identifying ==> delay == Some(
                backoff(run.config.scan_delay, run.attempt),
            ) && run.advance().0.attempt == run.attempt + 1 && (
            run.config.identify_retry_concurrency >= 1 ==> concurrency
                == run.config.identify_retry_concurrency)
            &&& !(run.stage is Identifying) ==> delay is None && (run.config.identify_concurrency
                >= 1 ==> concurrency == run.config.identify_concurrency)
            &&& run.stage is Queued || run.stage is Probing ==> run.advance().0.attempt == 0
        },
{
}

/// Each pass is for the hosts that it is due to: the first for all that are queued, a
/// retried probe for those that were not reached, identification for those that were
/// reached and are not identified yet, and the last attempt for those never reached.
pub proof fn law_passes_are_for_hosts_that_need_them(run: RunModel)
    requires
        run.wf(),
    ensures
        run.advance().1 matches ActionModel::Probe { delay: _, ips, concurrency: _ } ==> if
            run.stage is Queued {
            ips.to_multiset() == run.candidates.to_multiset()
        } else {
            ips.to_multiset() == run.unreachable.to_multiset() && run.advance().0.candidates
                == run.candidates
        },
        run.advance().1 matches ActionModel::Identify { delay: _, ips, concurrency: _ } ==> if
            run.stage is Reported {
            ips.to_multiset() == run.unreachable.to_multiset()
        } else {
            ips.to_multiset() == run.candidates.to_multiset() && run.advance().0.unreachable
                == run.unreachable
        },
        run.stage is Queued && run.idle() ==> if run.config.check_port {
            run.advance().1 is Probe
        } else {
            run.candidates.len() > 0 ==> run.advance().1 is Identify
        },
        run.stage is Probing && run.idle() && run.attempt < run.config.probe_retries
            && run.unreachable.len() > 0 ==> run.advance().1 is Probe,
        run.stage is Identifying && run.idle() && run.attempt < run.config.scan_retries
            && run.candidates.len() > 0 ==> run.advance().1 is Identify,
{
}

/// A report of misses names, where misses are reported, the candidates and, where the
/// check is strict, the hosts that were not reached; otherwise it names none.
pub proof fn law_report_names_the_misses(run: RunModel)
    ensures
        run.advance().1 matches ActionModel::Report { misses } ==> {
            &&& !run.config.report_misses ==> misses.len() == 0
            &&& run.config.report_misses && run.config.strict ==> misses.to_multiset()
                == run.candidates.to_multiset().add(run.unreachable.to_multiset())
            &&& run.config.report_misses && !run.config.strict ==> misses.to_multiset()
                == run.candidates.to_multiset()
        },
{
    vstd::seq_lib::lemma_multiset_commutative(run.candidates, run.unreachable);
}

/// A host is reported at once when it is identified, and in the last attempt also when it
/// is not, if misses are reported. Nothing else is reported on a record.
pub proof fn law_record_reports_what_was_found(run: RunModel, slot: usize, success: bool)
    requires
        run.wf(),
        run.expects(slot),
    ensures
        run.record(slot, success).1 is Yield <==> (run.stage is Identifying && success) || (
        run.stage is Fallback && (success || run.config.report_misses)),
        run.stage is Probing && success ==> run.record(slot, success).0.candidates.contains(
            run.batch[slot as int].ip,
        ),
        run.stage is Probing && !success ==> run.record(slot, success).0.unreachable.contains(
            run.batch[slot as int].ip,
        ),
        run.stage is Identifying && !success ==> run.record(slot, success).0.candidates.contains(
            run.batch[slot as int].ip,
        ),
{
    let ip = run.batch[slot as int].ip;
    assert(!run.batch[slot as int].done);
    assert(run.candidates.push(ip)[run.candidates.len() as int] == ip);
    assert(run.unreachable.push(ip)[run.unreachable.len() as int] == ip);
}

/// A scan begins with the rules and the queue that it was given.
pub proof fn law_scan_begins(config: ScanConfig, queued: Seq<IpAddr>)
    ensures
        ({
            let run = RunModel::start(config, queued);
            &&& run.config == config
            &&& run.candidates == queued
            &&& run.stage is Queued
            &&& run.unreachable.len() == 0
            &&& run.batch.len() == 0
            &&& run.wf()
        }),
{
}

} // verus!

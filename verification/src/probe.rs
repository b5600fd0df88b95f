//! Whether a host answers at all: the sweep over its ports, and the attempts that
//! go before the identification of a single host.

use crate::address::IpAddr;
use crate::limits::{backoff, retry_delay, MINER_PORTS};
use crate::time::Duration;
use vstd::prelude::*;

verus! {

/// A sweep over the ports of one host, all of which are tried at once.
#[derive(Clone, Copy, Debug, PartialEq, Eq, Structural)]
pub struct PortSweep {
    /// The ports that have not been heard of.
    pub pending: usize,
    /// Whether a port was open.
    pub open: bool,
}

impl PortSweep {
    /// A sweep that has heard of no port yet.
    pub fn new() -> (sweep: PortSweep)
        ensures
            sweep.pending == MINER_PORTS@.len(),
            !sweep.open,
    {
        PortSweep { pending: MINER_PORTS.len(), open: false }
    }

    /// What the sweep is once a port was found open or not; a sweep that is decided
    /// stays as it is.
    pub open spec fn heard(self, open: bool) -> PortSweep {
        if self.verdict_model() is Some {
            self
        } else {
            PortSweep { pending: (self.pending - 1) as usize, open }
        }
    }

    /// Whether the host is reachable, once that is known.
    pub open spec fn verdict_model(self) -> Option<bool> {
        if self.open {
            Some(true)
        } else if self.pending == 0 {
            Some(false)
        } else {
            None
        }
    }

    /// Notes that a port was found open or not.
    pub fn record(&mut self, open: bool)
        ensures
            *final(self) == old(self).heard(open),
            !old(self).open && old(self).pending > 0 ==> final(self).open == open
                && final(self).pending == old(self).pending - 1,
            old(self).open || old(self).pending == 0 ==> *final(self) == *old(self),
    {
        if !self.open && self.pending > 0 {
            self.pending = self.pending - 1;
            self.open = open;
        }
    }

    /// Whether the host is reachable: it is as soon as one port is open, and it is
    /// not once all are heard of and none is.
    pub fn verdict(&self) -> (reachable: Option<bool>)
        ensures
            reachable == self.verdict_model(),
            reachable == Some(true) <==> self.open,
            reachable == Some(false) <==> !self.open && self.pending == 0,
    {
        if self.open {
            Some(true)
        } else if self.pending == 0 {
            Some(false)
        } else {
            None
        }
    }

    /// The sweep after all of `answers`.
    pub open spec fn after(self, answers: Seq<bool>) -> PortSweep
        decreases answers.len(),
    {
        if answers.len() == 0 {
            self
        } else {
            self.after(answers.drop_last()).heard(answers.last())
        }
    }
}

/// A host is reachable exactly when one of its ports is open, in whatever order
/// they are heard of.
pub proof fn law_reachable_when_a_port_is_open(sweep: PortSweep, answers: Seq<bool>)
    requires
        !sweep.open,
        sweep.pending == answers.len(),
    ensures
        sweep.after(answers).verdict_model() == Some(answers.contains(true)),
{
    lemma_sweep(sweep, answers);
}

proof fn lemma_sweep(sweep: PortSweep, answers: Seq<bool>)
    requires
        !sweep.open,
        sweep.pending >= answers.len(),
    ensures
        sweep.after(answers).open == answers.contains(true),
        !answers.contains(true) ==> sweep.after(answers).pending == sweep.pending - answers.len(),
    decreases answers.len(),
{
    if answers.len() > 0 {
        let front = answers.drop_last();
        lemma_sweep(sweep, front);
        assert(answers.contains(true) <==> front.contains(true) || answers.last()) by {
            if front.contains(true) {
                let i = choose|i: int| 0 <= i < front.len() && front[i] == true;
                assert(answers[i] == true);
            }
            if answers.last() {
                assert(answers[answers.len() - 1] == true);
            }
            if answers.contains(true) {
                let i = choose|i: int| 0 <= i < answers.len() && answers[i] == true;
                if i < front.len() {
                    assert(front[i] == true);
                }
            }
        }
    }
}

/// What to do next with a single host.
#[derive(Clone, Copy, Debug, PartialEq, Eq, Structural)]
pub enum ProbeStep {
    /// Sweep its ports, after the delay where there is one.
    Probe { delay: Option<Duration> },
    /// Find out its firmware.
    Identify,
    /// Report that there is no miner.
    GiveUp,
}

/// The attempts to reach a single host before it is identified.
#[derive(Clone, Copy, Debug, PartialEq, Eq, Structural)]
pub struct MinerProbe {
    /// The host.
    pub ip: IpAddr,
    /// The attempts that may follow the first.
    pub retries: u32,
    /// The delay before the first of those.
    pub initial_delay: Duration,
    /// Whether a host that is not reached is given up.
    pub strict: bool,
    /// The attempts that have failed.
    pub failed: u32,
    /// What to do next.
    pub step: ProbeStep,
}

/// Whether `delay` is the one that goes before an attempt after `failed` others.
pub open spec fn is_delay_after(initial_delay: Duration, failed: u32, delay: Option<Duration>) -> bool {
    if failed == 0 {
        delay is None
    } else {
        delay matches Some(delay) && delay@ == backoff(initial_delay, (failed - 1) as u32)
    }
}

impl MinerProbe {
    /// Whether the next step is a sweep, after the delay that is due.
    pub open spec fn is_probing(self) -> bool {
        self.step matches ProbeStep::Probe { delay } && is_delay_after(
            self.initial_delay,
            self.failed,
            delay,
        )
    }

    /// Whether both are about the same host with the same rules.
    pub open spec fn same_rules(self, other: MinerProbe) -> bool {
        self.ip == other.ip && self.retries == other.retries && self.initial_delay
            == other.initial_delay && self.strict == other.strict
    }

    /// The first step: a host is identified at once where ports are not checked.
    pub fn new(
        ip: IpAddr,
        check_port: bool,
        strict: bool,
        retries: u32,
        initial_delay: Duration,
    ) -> (probe: MinerProbe)
        ensures
            probe.ip == ip,
            probe.retries == retries,
            probe.initial_delay == initial_delay,
            probe.strict == strict,
            probe.failed == 0,
            check_port ==> probe.is_probing(),
            check_port ==> probe.step == (ProbeStep::Probe { delay: None }),
            !check_port ==> probe.step == ProbeStep::Identify,
    {
        let step = if check_port {
            ProbeStep::Probe { delay: None }
        } else {
            ProbeStep::Identify
        };
        MinerProbe { ip, retries, initial_delay, strict, failed: 0, step }
    }

    /// Whether `next` is what follows when a sweep reached the host or not.
    pub open spec fn leads_to(self, reachable: bool, next: MinerProbe) -> bool {
        if !(self.step is Probe) {
            next == self
        } else {
            &&& next.same_rules(self)
            &&& if reachable {
                next.step == ProbeStep::Identify && next.failed == self.failed
            } else if self.failed < self.retries {
                next.failed == self.failed + 1 && next.is_probing()
            } else {
                next.failed == self.failed && next.step == if self.strict {
                    ProbeStep::GiveUp
                } else {
                    ProbeStep::Identify
                }
            }
        }
    }

    /// Notes whether a sweep reached the host: if it did, the host is identified; if
    /// not, it is tried again while attempts are left, and then given up or, where
    /// that is not strict, identified all the same.
    pub fn record(&mut self, reachable: bool)
        ensures
            old(self).leads_to(reachable, *final(self)),
            final(self).ip == old(self).ip,
            final(self).retries == old(self).retries,
            final(self).initial_delay == old(self).initial_delay,
            final(self).strict == old(self).strict,
            old(self).step is Probe && reachable ==> final(self).step == ProbeStep::Identify,
            old(self).step is Probe && !reachable && old(self).failed < old(self).retries ==> (
            final(self).step matches ProbeStep::Probe { delay: Some(delay) } && delay@ == backoff(
                old(self).initial_delay,
                old(self).failed,
            ) && final(self).failed == old(self).failed + 1),
            old(self).step is Probe && !reachable && old(self).failed >= old(self).retries ==> (
            final(self).step == if old(self).strict {
                ProbeStep::GiveUp
            } else {
                ProbeStep::Identify
            }),
            !(old(self).step is Probe) ==> *final(self) == *old(self),
    {
        match self.step {
            ProbeStep::Probe { delay: _ } => {
                if reachable {
                    self.step = ProbeStep::Identify;
                } else if self.failed < self.retries {
                    let delay = retry_delay(self.initial_delay, self.failed);
                    self.failed = self.failed + 1;
                    self.step = ProbeStep::Probe { delay: Some(delay) };
                } else if self.strict {
                    self.step = ProbeStep::GiveUp;
                } else {
                    self.step = ProbeStep::Identify;
                }
            },
            _ => {},
        }
    }
}

/// Whether `states` are the states of one host before each answer and after the
/// last.
pub open spec fn is_probe_run(states: Seq<MinerProbe>, answers: Seq<bool>) -> bool {
    &&& states.len() == answers.len() + 1
    &&& states[0].failed == 0
    &&& states[0].is_probing()
    &&& forall|i: int|
        0 <= i < answers.len() ==> (#[trigger] states[i]).leads_to(answers[i], states[i + 1])
}

/// A host that no sweep reaches is swept once more than there are retries, each time
/// after the delay that is due, and is then given up where that is strict and
/// identified where it is not.
pub proof fn law_unreached_host(states: Seq<MinerProbe>, answers: Seq<bool>)
    requires
        is_probe_run(states, answers),
        answers.len() == states[0].retries + 1,
        !answers.contains(true),
    ensures
        forall|i: int|
            0 <= i < answers.len() ==> (#[trigger] states[i]).is_probing() && states[i].failed
                == i,
        states.last().step == if states[0].strict {
            ProbeStep::GiveUp
        } else {
            ProbeStep::Identify
        },
{
    assert forall|i: int| 0 <= i < answers.len() implies (#[trigger] states[i]).is_probing()
        && states[i].failed == i && states[i].same_rules(states[0]) by {
        lemma_unreached_so_far(states, answers, i);
    }
    let last = answers.len() - 1;
    assert(answers[last] == false) by {
        if answers[last] {
            assert(answers.contains(true));
        }
    }
    assert(states[last].leads_to(answers[last], states[last + 1]));
}

proof fn lemma_unreached_so_far(states: Seq<MinerProbe>, answers: Seq<bool>, i: int)
    requires
        is_probe_run(states, answers),
        answers.len() <= states[0].retries + 1,
        forall|k: int| 0 <= k < i ==> !(#[trigger] answers[k]),
        0 <= i < answers.len(),
    ensures
        states[i].is_probing(),
        states[i].failed == i,
        states[i].same_rules(states[0]),
    decreases i,
{
    if i > 0 {
        lemma_unreached_so_far(states, answers, i - 1);
        assert(states[i - 1].leads_to(answers[i - 1], states[i - 1 + 1]));
        assert(!answers[i - 1]);
    }
}

/// A host is identified as soon as a sweep reaches it, and until then it is swept, each
/// time after the delay that is due.
pub proof fn law_reached_host(states: Seq<MinerProbe>, answers: Seq<bool>)
    requires
        is_probe_run(states, answers),
        1 <= answers.len() <= states[0].retries + 1,
        answers.last(),
        !answers.drop_last().contains(true),
    ensures
        forall|i: int|
            0 <= i < answers.len() ==> (#[trigger] states[i]).is_probing() && states[i].failed
                == i,
        states.last().step == ProbeStep::Identify,
{
    let last = answers.len() - 1;
    assert forall|k: int| 0 <= k < last implies !(#[trigger] answers[k]) by {
        assert(answers.drop_last()[k] == answers[k]);
        if answers[k] {
            assert(answers.drop_last().contains(true));
        }
    }
    assert forall|i: int| 0 <= i < answers.len() implies (#[trigger] states[i]).is_probing()
        && states[i].failed == i by {
        lemma_unreached_so_far(states, answers, i);
    }
    assert(states[last].leads_to(answers[last], states[last + 1]));
}

/// A sweep that has heard of fewer ports than there are is decided exactly when one of
/// those was open.
pub proof fn law_sweep_is_decided_by_an_open_port(sweep: PortSweep, answers: Seq<bool>)
    requires
        !sweep.open,
        answers.len() < sweep.pending,
    ensures
        answers.contains(true) ==> sweep.after(answers).verdict_model() == Some(true),
        !answers.contains(true) ==> sweep.after(answers).verdict_model() is None,
{
    lemma_sweep(sweep, answers);
}

/// Whatever comes of a sweep, the host and the rules stay the same, and a host that is
/// swept again waits first: as long as the rules say for the number of sweeps that failed.
pub proof fn law_sweep_leads_on(before: MinerProbe, reachable: bool, after: MinerProbe)
    requires
        before.leads_to(reachable, after),
    ensures
        after.ip == before.ip,
        after.retries == before.retries,
        after.initial_delay == before.initial_delay,
        after.strict == before.strict,
        before.step is Probe && reachable ==> after.step == ProbeStep::Identify,
        before.step is Probe && !reachable && before.failed < before.retries ==> (
        after.step matches ProbeStep::Probe { delay: Some(delay) } && delay@ == backoff(
            before.initial_delay,
            before.failed,
        ) && after.failed == before.failed + 1),
        before.step is Probe && !reachable && before.failed >= before.retries && before.strict
            ==> after.step == ProbeStep::GiveUp,
        before.step is Probe && !reachable && before.failed >= before.retries && !before.strict
            ==> after.step == ProbeStep::Identify,
        !(before.step is Probe) ==> after == before,
{
}

} // verus!

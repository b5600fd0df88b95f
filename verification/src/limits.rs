//! How many hosts are contacted at once, how long retries wait, and how many file
//! descriptors that takes.

use crate::nofile::{raise_nofile_limit, NofileAnswer};
use crate::time::{saturated, Duration, MAX_NANOS};
use vstd::arithmetic::power2::{lemma2_to64, lemma_pow2_strictly_increases, pow2};
use vstd::prelude::*;

verus! {

/// The most hosts identified at once where no limit is set.
pub const IDENTIFICATION_CONCURRENCY: usize = 128;

/// The most hosts identified at once on a retry where no limit is set.
pub const IDENTIFICATION_RETRY_CONCURRENCY: usize = 8;

/// The file descriptors set aside for each host that is contacted at once.
pub const NOFILE_PER_CONCURRENCY: u64 = 8;

/// The fewest file descriptors a scan asks for.
pub const MIN_NOFILE_LIMIT: u64 = 2048;

/// The TCP ports that mining firmwares listen on.
pub const MINER_PORTS: [u16; 4] = [80, 4028, 4029, 8889];

/// The last doubling of the delay before a retry.
pub const MAX_BACKOFF_DOUBLINGS: u32 = 10;

/// `value` moved into the range from `low` to `high`.
pub open spec fn clamped(value: int, low: int, high: int) -> int {
    if value < low {
        low
    } else if value > high {
        high
    } else {
        value
    }
}

/// The larger of two numbers.
pub open spec fn larger(a: int, b: int) -> int {
    if a < b {
        b
    } else {
        a
    }
}

/// The larger of two numbers.
pub fn max_usize(a: usize, b: usize) -> (max: usize)
    ensures
        max == larger(a as int, b as int),
        max >= a,
        max >= b,
        max == a || max == b,
{
    if a < b {
        b
    } else {
        a
    }
}

/// The number of hosts to identify at once for `ip_count` queued addresses.
pub fn calculate_optimal_concurrency(ip_count: usize) -> (concurrency: usize)
    ensures
        concurrency == clamped(ip_count as int, 1, IDENTIFICATION_CONCURRENCY as int),
        1 <= concurrency <= 128,
        1 <= ip_count <= 128 ==> concurrency == ip_count,
        ip_count > 128 ==> concurrency == 128,
{
    if ip_count < 1 {
        1
    } else if ip_count > IDENTIFICATION_CONCURRENCY {
        IDENTIFICATION_CONCURRENCY
    } else {
        ip_count
    }
}

/// The number of hosts to identify at once on a retry, where `concurrency` are
/// identified at once at first.
pub fn calculate_retry_concurrency(concurrency: usize) -> (retry_concurrency: usize)
    ensures
        retry_concurrency == clamped(
            concurrency as int,
            1,
            IDENTIFICATION_RETRY_CONCURRENCY as int,
        ),
        1 <= retry_concurrency <= 8,
        1 <= concurrency <= 8 ==> retry_concurrency == concurrency,
        concurrency > 8 ==> retry_concurrency == 8,
{
    if concurrency < 1 {
        1
    } else if concurrency > IDENTIFICATION_RETRY_CONCURRENCY {
        IDENTIFICATION_RETRY_CONCURRENCY
    } else {
        concurrency
    }
}

/// The file descriptors that `concurrency` connections at once call for.
pub open spec fn desired_nofile(concurrency: usize) -> int {
    larger(
        clamped(concurrency * NOFILE_PER_CONCURRENCY, 0, u64::MAX as int),
        MIN_NOFILE_LIMIT as int,
    )
}

/// The file descriptors that `concurrency` connections at once call for.
pub fn calculate_desired_nofile_limit(concurrency: usize) -> (limit: u64)
    ensures
        limit == desired_nofile(concurrency),
        limit >= 2048,
        limit >= concurrency * 8 || limit == u64::MAX,
        limit == 2048 || limit == concurrency * 8 || (limit == u64::MAX && concurrency * 8
            > u64::MAX),
{
    let scaled: u64 = match (concurrency as u64).checked_mul(NOFILE_PER_CONCURRENCY) {
        Some(product) => product,
        None => u64::MAX,
    };
    if scaled < MIN_NOFILE_LIMIT {
        MIN_NOFILE_LIMIT
    } else {
        scaled
    }
}

/// The number of connections that a scan may hold open at once: every port of each
/// host that is probed at once, or each host that is identified at once.
pub open spec fn descriptors(connectivity_concurrent: usize, identification: usize) -> int {
    larger(
        clamped(connectivity_concurrent * MINER_PORTS@.len(), 0, usize::MAX as int),
        identification as int,
    )
}

/// The number of connections that a scan may hold open at once.
pub fn descriptor_concurrency(connectivity_concurrent: usize, identification: usize) -> (count:
    usize)
    ensures
        count == descriptors(connectivity_concurrent, identification),
        count >= identification,
        count >= connectivity_concurrent * 4 || count == usize::MAX,
        count == identification || count == connectivity_concurrent * 4 || (count == usize::MAX
            && connectivity_concurrent * 4 > usize::MAX),
{
    let ports: usize = MINER_PORTS.len();
    let probes: usize = match connectivity_concurrent.checked_mul(ports) {
        Some(product) => product,
        None => usize::MAX,
    };
    max_usize(probes, identification)
}

/// The number of times the delay before retry `retry_index` is doubled.
pub open spec fn doublings(retry_index: u32) -> nat {
    if retry_index <= MAX_BACKOFF_DOUBLINGS {
        retry_index as nat
    } else {
        MAX_BACKOFF_DOUBLINGS as nat
    }
}

/// The delay in nanoseconds before retry `retry_index`, counted from zero, where
/// the first one waits `initial`.
pub open spec fn backoff(initial: Duration, retry_index: u32) -> nat {
    saturated(initial@ * pow2(doublings(retry_index)))
}

/// The delay before retry `retry_index`, counted from zero: it doubles with each
/// retry up to ten times.
pub fn retry_delay(initial: Duration, retry_index: u32) -> (delay: Duration)
    ensures
        delay@ == backoff(initial, retry_index),
{
    let mut factor: u32 = 1;
    let mut i: u32 = 0;
    proof {
        lemma2_to64();
    }
    while i < retry_index && i < MAX_BACKOFF_DOUBLINGS
        invariant
            i <= retry_index,
            i <= MAX_BACKOFF_DOUBLINGS,
            factor == pow2(i as nat),
        decreases MAX_BACKOFF_DOUBLINGS - i,
    {
        proof {
            lemma2_to64();
            vstd::arithmetic::power2::lemma_pow2_unfold((i + 1) as nat);
            if i + 1 < MAX_BACKOFF_DOUBLINGS {
                lemma_pow2_strictly_increases((i + 1) as nat, MAX_BACKOFF_DOUBLINGS as nat);
            }
        }
        factor = factor * 2;
        i = i + 1;
    }
    initial.saturating_mul(factor)
}

/// Later retries never wait less, and the first waits the initial delay.
pub proof fn law_backoff_grows(initial: Duration, earlier: u32, later: u32)
    requires
        earlier <= later,
    ensures
        backoff(initial, earlier) <= backoff(initial, later),
        initial@ <= crate::time::MAX_NANOS ==> backoff(initial, 0) == initial@,
{
    lemma2_to64();
    assert(initial@ * pow2(doublings(0)) == initial@) by {
        vstd::arithmetic::mul::lemma_mul_basics(initial@ as int);
    }
    if doublings(earlier) < doublings(later) {
        lemma_pow2_strictly_increases(doublings(earlier), doublings(later));
    }
    vstd::arithmetic::mul::lemma_mul_inequality(
        pow2(doublings(earlier)) as int,
        pow2(doublings(later)) as int,
        initial@ as int,
    );
    vstd::arithmetic::mul::lemma_mul_is_commutative(
        initial@ as int,
        pow2(doublings(earlier)) as int,
    );
    vstd::arithmetic::mul::lemma_mul_is_commutative(
        initial@ as int,
        pow2(doublings(later)) as int,
    );
}

/// From the eleventh retry on the delay stays the same: the initial one 1024 times,
/// or the longest span.
pub proof fn law_backoff_is_capped(initial: Duration, retry_index: u32)
    requires
        retry_index >= MAX_BACKOFF_DOUBLINGS,
    ensures
        backoff(initial, retry_index) == saturated(initial@ * 1024),
{
    lemma2_to64();
}

/// Retries never run more hosts at once than the first pass, and always at least
/// one.
pub proof fn law_retries_are_gentler(concurrency: int)
    requires
        concurrency >= 1,
    ensures
        1 <= clamped(concurrency, 1, IDENTIFICATION_RETRY_CONCURRENCY as int) <= concurrency,
{
}

/// What became of a request to raise the file descriptor limit.
#[derive(Debug)]
pub enum NofileOutcome {
    /// The soft limit of the process after the request; on a system that has no such
    /// limit, the number that was asked for, and nothing has changed.
    Raised { desired: u64, limit: u64 },
    /// The system refused; the limit stays what it was.
    Refused { desired: u64, cause: String },
}

impl NofileOutcome {
    /// Whether this says what `answer` to a request for `desired` descriptors means.
    pub open spec fn reports(self, desired: u64, answer: Result<u64, std::io::Error>) -> bool {
        match answer {
            Ok(limit) => self == (NofileOutcome::Raised { desired, limit }),
            Err(error) => self matches NofileOutcome::Refused { desired: refused, cause }
                && refused == desired && vstd::string::to_string_from_display_ensures(
                &error,
                cause,
            ),
        }
    }
}

/// What the answer of the system to a request for `desired` descriptors means.
pub fn nofile_outcome(desired: u64, answer: &Result<u64, std::io::Error>) -> (outcome:
    NofileOutcome)
    ensures
        outcome.reports(desired, *answer),
        match answer {
            Ok(limit) => outcome == (NofileOutcome::Raised { desired, limit: *limit }),
            Err(_) => outcome matches NofileOutcome::Refused { desired: refused, cause: _ }
                && refused == desired,
        },
{
    match answer {
        Ok(limit) => NofileOutcome::Raised { desired, limit: *limit },
        Err(error) => NofileOutcome::Refused { desired, cause: error.to_string() },
    }
}

/// Asks the system for `desired` file descriptors. A refusal is no failure: the caller
/// may log it and go on with the limit there is.
pub fn maybe_adjust_nofile_limit(desired: u64) -> (answer: NofileAnswer)
    ensures
        answer.requested() == desired,
{
    raise_nofile_limit(desired)
}

/// The limit on open streams to set on a system that counts those, where `current`
/// are allowed now: none where that is enough, and else `desired` as far as the
/// system's counter goes.
pub fn maxstdio_target(current: u64, desired: u64) -> (target: Option<u32>)
    ensures
        match target {
            None => current >= desired,
            Some(target) => current < desired && target == clamped(
                desired as int,
                0,
                u32::MAX as int,
            ),
        },
{
    if current >= desired {
        None
    } else if desired > u32::MAX as u64 {
        Some(u32::MAX)
    } else {
        Some(desired as u32)
    }
}

/// The ports that are tried, and no others.
pub proof fn law_miner_ports()
    ensures
        MINER_PORTS@ == seq![80u16, 4028u16, 4029u16, 8889u16],
{
    assert(MINER_PORTS@ =~= seq![80u16, 4028u16, 4029u16, 8889u16]);
}

/// A number that is moved into a range is in it, is as near as it can be to what it was,
/// and stays what it was where that is in the range.
pub proof fn law_clamping(value: int, low: int, high: int)
    requires
        low <= high,
    ensures
        low <= clamped(value, low, high) <= high,
        low <= value <= high ==> clamped(value, low, high) == value,
        value < low ==> clamped(value, low, high) == low,
        value > high ==> clamped(value, low, high) == high,
{
}

/// The larger of two numbers is one of them, and neither is above it.
pub proof fn law_larger(a: int, b: int)
    ensures
        larger(a, b) >= a,
        larger(a, b) >= b,
        larger(a, b) == a || larger(a, b) == b,
{
}

/// The first retry waits the initial delay, and each of the next ten waits twice as long as
/// the one before it, or the longest span where that is shorter. All later ones wait as
/// long as the last of these.
pub proof fn law_backoff_doubles(initial: Duration, retry_index: u32)
    requires
        initial@ <= MAX_NANOS,
    ensures
        backoff(initial, 0) == initial@,
        1 <= retry_index <= 10 && 2 * backoff(initial, (retry_index - 1) as u32) <= MAX_NANOS
            ==> backoff(initial, retry_index) == 2 * backoff(initial, (retry_index - 1) as u32),
        1 <= retry_index <= 10 && 2 * backoff(initial, (retry_index - 1) as u32) > MAX_NANOS
            ==> backoff(initial, retry_index) == MAX_NANOS,
        retry_index >= 10 ==> backoff(initial, retry_index) == backoff(initial, 10),
{
    lemma2_to64();
    law_backoff_grows(initial, 0, retry_index);
    if 1 <= retry_index <= 10 {
        let x = initial@ as int;
        let before = pow2((retry_index - 1) as nat) as int;
        let after = pow2(retry_index as nat) as int;
        vstd::arithmetic::power2::lemma_pow2_unfold(retry_index as nat);
        assert(x * after == 2 * (x * before)) by (nonlinear_arith)
            requires
                after == 2 * before,
        ;
    }
}

} // verus!

use miner_factory::limits::{
    calculate_desired_nofile_limit, calculate_optimal_concurrency, calculate_retry_concurrency,
    descriptor_concurrency, max_usize, maxstdio_target, maybe_adjust_nofile_limit, nofile_outcome,
    retry_delay, NofileOutcome,
};
use miner_factory::time::{Duration, MAX_NANOS};

#[test]
fn retry_concurrency_scales_below_primary_concurrency() {
    assert_eq!(calculate_retry_concurrency(0), 1);
    assert_eq!(calculate_retry_concurrency(1), 1);
    assert_eq!(calculate_retry_concurrency(8), 8);
    assert_eq!(calculate_retry_concurrency(9), 8);
    assert_eq!(calculate_retry_concurrency(64), 8);
    assert_eq!(calculate_retry_concurrency(512), 8);
    assert_eq!(calculate_retry_concurrency(10_000), 8);
}

#[test]
fn optimal_concurrency_is_between_one_and_the_cap() {
    assert_eq!(calculate_optimal_concurrency(0), 1);
    assert_eq!(calculate_optimal_concurrency(1), 1);
    assert_eq!(calculate_optimal_concurrency(127), 127);
    assert_eq!(calculate_optimal_concurrency(128), 128);
    assert_eq!(calculate_optimal_concurrency(129), 128);
}

#[test]
fn descriptor_limit_has_a_floor_and_saturates() {
    assert_eq!(calculate_desired_nofile_limit(0), 2048);
    assert_eq!(calculate_desired_nofile_limit(256), 2048);
    assert_eq!(calculate_desired_nofile_limit(257), 2056);
    assert_eq!(calculate_desired_nofile_limit(1024), 8192);
    assert_eq!(calculate_desired_nofile_limit(usize::MAX), u64::MAX);
}

#[test]
fn descriptors_cover_probes_and_identification() {
    assert_eq!(descriptor_concurrency(256, 128), 1024);
    assert_eq!(descriptor_concurrency(1, 128), 128);
    assert_eq!(descriptor_concurrency(usize::MAX, 1), usize::MAX);
    assert_eq!(max_usize(3, 5), 5);
    assert_eq!(max_usize(5, 3), 5);
}

#[test]
fn backoff_doubles_ten_times() {
    let initial = Duration::from_millis(100);
    assert_eq!(retry_delay(initial, 0), Duration::from_millis(100));
    assert_eq!(retry_delay(initial, 1), Duration::from_millis(200));
    assert_eq!(retry_delay(initial, 2), Duration::from_millis(400));
    assert_eq!(retry_delay(initial, 10), Duration::from_millis(102_400));
    assert_eq!(retry_delay(initial, 11), Duration::from_millis(102_400));
    assert_eq!(retry_delay(initial, u32::MAX), Duration::from_millis(102_400));
}

#[test]
fn backoff_stops_at_the_longest_span() {
    let long = Duration::from_secs(u64::MAX);
    assert_eq!(retry_delay(long, 0), long);
    assert_eq!(retry_delay(long, 1).as_nanos(), MAX_NANOS);
    assert_eq!(
        std::time::Duration::from_secs(u64::MAX).saturating_mul(2).as_nanos(),
        MAX_NANOS
    );
}

#[test]
fn spans_count_nanoseconds() {
    assert_eq!(Duration::from_secs(3).as_nanos(), 3_000_000_000);
    assert_eq!(Duration::from_millis(500).as_nanos(), 500_000_000);
    assert_eq!(Duration::new(2, 7).as_nanos(), 2_000_000_007);
    assert_eq!(Duration::new(u64::MAX, 999_999_999).as_nanos(), MAX_NANOS);
    assert_eq!(Duration::from_millis(3).saturating_mul(7), Duration::from_millis(21));
    assert_eq!(Duration::from_secs(1), Duration::from_millis(1000));
}

#[test]
fn the_answer_to_a_request_for_descriptors_is_kept() {
    assert!(matches!(
        nofile_outcome(4096, &Ok(1024)),
        NofileOutcome::Raised { desired: 4096, limit: 1024 }
    ));
    let refusal = std::io::Error::other("not allowed");
    assert!(matches!(
        nofile_outcome(4096, &Err(refusal)),
        NofileOutcome::Refused { desired: 4096, cause } if cause == "not allowed"
    ));
}

#[test]
fn asking_for_descriptors_never_fails() {
    match maybe_adjust_nofile_limit(64).outcome() {
        NofileOutcome::Raised { desired, limit } => {
            assert_eq!(desired, 64);
            assert!(limit >= 1);
        }
        NofileOutcome::Refused { desired, cause } => {
            assert_eq!(desired, 64);
            assert!(!cause.is_empty());
        }
    }
}

#[test]
fn stream_limit_is_raised_only_where_it_is_too_low() {
    assert_eq!(maxstdio_target(512, 512), None);
    assert_eq!(maxstdio_target(512, 100), None);
    assert_eq!(maxstdio_target(512, 2048), Some(2048));
    assert_eq!(maxstdio_target(512, u64::MAX), Some(u32::MAX));
}

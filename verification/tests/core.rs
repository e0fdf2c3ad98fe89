use cg_stats::codec::{parse_snapshot, serialize_snapshot};
use cg_stats::cpustat::{parse_cpu_stat, ReadError};
use cg_stats::delta::DeltaError;
use cg_stats::report::{compute, plan_invocation, PrepareOutcome};
use cg_stats::snapshot::{lookup_entry, sorted_insert, Snapshot};

fn snap(at: u64, user: &[(&[u8], u64)], system: &[(&[u8], u64)]) -> Snapshot {
    let mut s = Snapshot::new(at);
    for (n, v) in user {
        s.user = sorted_insert(std::mem::take(&mut s.user), n.to_vec(), *v);
    }
    for (n, v) in system {
        s.system = sorted_insert(std::mem::take(&mut s.system), n.to_vec(), *v);
    }
    s
}

#[test]
fn scenario_full_core_load() {
    // one entity, 4 counter-seconds over 4 wall seconds on one CPU: 100%
    let before = snap(0, &[(b"a", 1_000_000)], &[]);
    let now = snap(4_000_000, &[(b"a", 5_000_000)], &[]);
    let rep = compute(&now, &before, Some(1), 0).unwrap();
    assert_eq!(rep.time_span_usec, 4_000_000);
    assert_eq!(rep.users.len(), 1);
    assert_eq!(rep.users[0].name, b"a".to_vec());
    assert_eq!(rep.users[0].load.num, 4_000_000);
    assert_eq!(rep.users[0].load.den, 4_000_000);
    assert_eq!(cg_stats::render::percent_of(&rep.users[0].load), 100);
    assert!(rep.services.is_empty());
}

#[test]
fn scenario_quarter_load_on_four_cpus() {
    let before = snap(0, &[(b"a", 1_000_000)], &[]);
    let now = snap(4_000_000, &[(b"a", 5_000_000)], &[]);
    let rep = compute(&now, &before, Some(4), 0).unwrap();
    assert_eq!(rep.users.len(), 1);
    assert_eq!(rep.users[0].load.num, 4_000_000);
    assert_eq!(rep.users[0].load.den, 16_000_000);
    assert_eq!(cg_stats::render::percent_of(&rep.users[0].load), 25);
}

#[test]
fn scenario_no_baseline_excludes_entity() {
    let before = snap(0, &[], &[]);
    let now = snap(4_000_000, &[(b"a", 5_000_000)], &[]);
    let rep = compute(&now, &before, Some(1), 0).unwrap();
    assert!(rep.users.is_empty());
    assert!(rep.services.is_empty());
    assert_eq!(rep.max_name_width, 0);
}

#[test]
fn entity_only_in_before_is_excluded() {
    let before = snap(0, &[(b"gone", 7)], &[]);
    let now = snap(1_000_000, &[(b"new", 9)], &[]);
    let rep = compute(&now, &before, Some(1), 0).unwrap();
    assert!(rep.users.is_empty());
}

#[test]
fn scenario_non_monotonic_clock_still_persists() {
    let before = snap(5_000_000, &[(b"a", 1)], &[]);
    let now = snap(4_000_000, &[(b"a", 2)], &[]);
    assert_eq!(
        compute(&now, &before, Some(1), 0),
        Err(DeltaError::NonMonotonicClock)
    );
    let expected = serialize_snapshot(&now);
    let plan = plan_invocation(Ok(now), Some(before), Some(1), 0);
    assert!(matches!(
        plan.outcome,
        PrepareOutcome::ComputeFailed(DeltaError::NonMonotonicClock)
    ));
    assert_eq!(plan.persist, Some(expected));
}

#[test]
fn equal_timestamps_are_non_monotonic() {
    let before = snap(4_000_000, &[], &[]);
    let now = snap(4_000_000, &[], &[]);
    assert_eq!(
        compute(&now, &before, Some(1), 0),
        Err(DeltaError::NonMonotonicClock)
    );
}

#[test]
fn cpu_count_unavailable() {
    let before = snap(0, &[], &[]);
    let now = snap(1_000_000, &[], &[]);
    assert_eq!(
        compute(&now, &before, None, 0),
        Err(DeltaError::CpuCountUnavailable)
    );
    assert_eq!(
        compute(&now, &before, Some(0), 0),
        Err(DeltaError::CpuCountUnavailable)
    );
}

#[test]
fn threshold_boundary_is_inclusive() {
    // load is exactly 0.25 of one core
    let before = snap(0, &[(b"a", 0)], &[]);
    let now = snap(4_000_000, &[(b"a", 1_000_000)], &[]);
    let rep = compute(&now, &before, Some(1), 250_000).unwrap();
    assert_eq!(rep.users.len(), 1);
    let rep = compute(&now, &before, Some(1), 250_001).unwrap();
    assert!(rep.users.is_empty());
}

#[test]
fn negative_threshold_keeps_negative_load() {
    // counter went backwards: recycled group, negative load
    let before = snap(0, &[(b"a", 9_000_000)], &[]);
    let now = snap(4_000_000, &[(b"a", 1_000_000)], &[]);
    let rep = compute(&now, &before, Some(1), 0).unwrap();
    assert!(rep.users.is_empty());
    let rep = compute(&now, &before, Some(1), -3_000_000).unwrap();
    assert_eq!(rep.users.len(), 1);
    assert_eq!(rep.users[0].load.num, -8_000_000);
}

#[test]
fn results_sorted_by_name_with_exact_loads() {
    let before = snap(0, &[(b"zeta", 0), (b"alpha", 0), (b"mid", 0)], &[]);
    let now = snap(
        1_000_000,
        &[(b"zeta", 100), (b"alpha", 300), (b"mid", 200)],
        &[],
    );
    let rep = compute(&now, &before, Some(1), 0).unwrap();
    let names: Vec<&[u8]> = rep.users.iter().map(|s| s.name.as_slice()).collect();
    assert_eq!(names, vec![&b"alpha"[..], &b"mid"[..], &b"zeta"[..]]);
    let nums: Vec<i128> = rep.users.iter().map(|s| s.load.num).collect();
    assert_eq!(nums, vec![300, 200, 100]);
    // deterministic: the same inputs give the same report
    let again = compute(&now, &before, Some(1), 0).unwrap();
    assert_eq!(rep, again);
}

#[test]
fn max_name_width_spans_both_categories() {
    let before = snap(0, &[(b"ab", 0)], &[(b"longer-name", 0)]);
    let now = snap(1_000_000, &[(b"ab", 1)], &[(b"longer-name", 1)]);
    let rep = compute(&now, &before, Some(1), 0).unwrap();
    assert_eq!(rep.max_name_width, b"longer-name".len());
}

#[test]
fn round_trip_preserves_snapshot() {
    let s = snap(
        1_700_000_123_456_789,
        &[(b"user-1000.slice", 42), (b"user-1001.slice", 7)],
        &[(b"cron.service", 123_456), (b"ssh.service", 1)],
    );
    let bytes = serialize_snapshot(&s);
    let back = parse_snapshot(&bytes).expect("round trip");
    assert_eq!(back, s);
}

#[test]
fn round_trip_empty_snapshot() {
    let s = snap(1, &[], &[]);
    let back = parse_snapshot(&serialize_snapshot(&s)).expect("round trip");
    assert_eq!(back, s);
}

#[test]
fn parse_rejects_malformed_state() {
    assert!(parse_snapshot(&b"".to_vec()).is_none());
    assert!(parse_snapshot(&b"XXXXYYYYZZZZWWWWVVVV".to_vec()).is_none());
    let s = snap(9, &[(b"a", 1)], &[]);
    let mut bytes = serialize_snapshot(&s);
    // truncated
    let short = bytes[..bytes.len() - 1].to_vec();
    assert!(parse_snapshot(&short).is_none());
    // trailing garbage
    bytes.push(0);
    assert!(parse_snapshot(&bytes).is_none());
}

#[test]
fn unconditional_persistence_without_baseline() {
    let now = snap(10_000_000, &[(b"a", 5)], &[]);
    let expected = serialize_snapshot(&now);
    let plan = plan_invocation(Ok(now), None, None, 0);
    assert!(matches!(plan.outcome, PrepareOutcome::NoBaseline(_)));
    assert_eq!(plan.persist, Some(expected));
}

#[test]
fn capture_failure_persists_nothing() {
    let plan = plan_invocation(Err(ReadError::Io), None, Some(1), 0);
    assert!(matches!(plan.outcome, PrepareOutcome::CaptureFailed(ReadError::Io)));
    assert!(plan.persist.is_none());
}

#[test]
fn cpu_stat_found() {
    let content = b"usage_usec 123456\nuser_usec 100\nsystem_usec 200\n".to_vec();
    assert_eq!(parse_cpu_stat(&content), Ok(123456));
}

#[test]
fn cpu_stat_later_line_and_tabs() {
    let content = b"nr_periods 0\nusage_usec\t42\r\n".to_vec();
    assert_eq!(parse_cpu_stat(&content), Ok(42));
}

#[test]
fn cpu_stat_missing_field() {
    let content = b"user_usec 100\nsystem_usec 200\n".to_vec();
    assert_eq!(parse_cpu_stat(&content), Err(ReadError::MissingField));
    assert_eq!(parse_cpu_stat(&b"".to_vec()), Err(ReadError::MissingField));
}

#[test]
fn cpu_stat_unsplittable_line() {
    assert_eq!(parse_cpu_stat(&b"justakey\n".to_vec()), Err(ReadError::Io));
    assert_eq!(
        parse_cpu_stat(&b"\nusage_usec 5\n".to_vec()),
        Err(ReadError::Io)
    );
}

#[test]
fn cpu_stat_bad_number() {
    assert_eq!(
        parse_cpu_stat(&b"usage_usec abc\n".to_vec()),
        Err(ReadError::ParseError)
    );
    // a bad value on an earlier line fails before the counter is reached
    assert_eq!(
        parse_cpu_stat(&b"other x\nusage_usec 5\n".to_vec()),
        Err(ReadError::ParseError)
    );
    // overflowing the counter type is a parse failure
    assert_eq!(
        parse_cpu_stat(&b"usage_usec 99999999999999999999999\n".to_vec()),
        Err(ReadError::ParseError)
    );
}

#[test]
fn sorted_insert_last_wins() {
    let es = sorted_insert(Vec::new(), b"b".to_vec(), 1);
    let es = sorted_insert(es, b"a".to_vec(), 2);
    let es = sorted_insert(es, b"b".to_vec(), 3);
    assert_eq!(es.len(), 2);
    assert_eq!(es[0].name, b"a".to_vec());
    assert_eq!(es[1].name, b"b".to_vec());
    assert_eq!(lookup_entry(&es, &b"b".to_vec()), Some(3));
    assert_eq!(lookup_entry(&es, &b"a".to_vec()), Some(2));
    assert_eq!(lookup_entry(&es, &b"c".to_vec()), None);
}

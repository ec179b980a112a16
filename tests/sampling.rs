use rustop::sampler;
use rustop::sampler::{counters_from_probe, DeriveError, RawCounters, MIN_ELAPSED_MICROS};

const SECOND: u64 = 1_000_000;

fn counters(pid: u32, cpu_time: u64, memory_bytes: u64) -> RawCounters {
    RawCounters {
        pid,
        name: format!("proc{}", pid),
        cpu_time,
        memory_bytes,
        start_time: 1_700_000_000,
    }
}

#[test]
fn one_core_fifty_units_in_one_unit_is_five_thousand_percent() {
    let a = vec![counters(7, 10 * SECOND, 1)];
    let b = vec![counters(7, 60 * SECOND, 2)];
    let out = sampler::derive(&a, 5 * SECOND, &b, 6 * SECOND, 1).unwrap();
    assert_eq!(out.len(), 1);
    assert_eq!(out[0].pid, 7);
    assert_eq!(out[0].cpu_centi, 500_000);
    assert_eq!(out[0].memory_bytes, 2);
}

#[test]
fn four_cores_divide_the_share() {
    let a = vec![counters(7, 10 * SECOND, 1)];
    let b = vec![counters(7, 60 * SECOND, 2)];
    let out = sampler::derive(&a, 5 * SECOND, &b, 6 * SECOND, 4).unwrap();
    assert_eq!(out[0].cpu_centi, 125_000);
}

#[test]
fn exited_process_gets_no_sample() {
    let a = vec![counters(1, 0, 0), counters(2, 0, 0)];
    let b = vec![counters(1, SECOND, 0)];
    let out = sampler::derive(&a, 0, &b, SECOND, 1).unwrap();
    assert_eq!(out.len(), 1);
    assert_eq!(out[0].pid, 1);
    assert!(out.iter().all(|s| s.pid != 2));
}

#[test]
fn new_process_gets_no_sample() {
    let a = vec![counters(1, 0, 0)];
    let b = vec![counters(3, SECOND, 0), counters(1, 0, 0)];
    let out = sampler::derive(&a, 0, &b, SECOND, 2).unwrap();
    assert_eq!(out.len(), 1);
    assert_eq!(out[0].pid, 1);
}

#[test]
fn at_most_the_shared_pids() {
    let a = vec![counters(1, 0, 0), counters(2, 0, 0), counters(3, 0, 0)];
    let b = vec![counters(2, 0, 0), counters(3, 0, 0), counters(4, 0, 0)];
    let out = sampler::derive(&a, 0, &b, SECOND, 8).unwrap();
    let pids: Vec<u32> = out.iter().map(|s| s.pid).collect();
    assert_eq!(pids, vec![2, 3]);
}

#[test]
fn idle_process_is_zero_whatever_the_interval() {
    let a = vec![counters(5, 42 * SECOND, 0)];
    let b = vec![counters(5, 42 * SECOND, 0)];
    for (t0, t1) in [(0, 1), (0, SECOND), (10, 10), (SECOND, 0), (0, 1000 * SECOND)] {
        let out = sampler::derive(&a, t0, &b, t1, 3).unwrap();
        assert_eq!(out[0].cpu_centi, 0);
    }
}

#[test]
fn short_intervals_use_the_floor() {
    let a = vec![counters(5, 0, 0)];
    let b = vec![counters(5, 1_000, 0)];
    let floor = sampler::derive(&a, 0, &b, MIN_ELAPSED_MICROS, 1).unwrap();
    let half = sampler::derive(&a, 0, &b, MIN_ELAPSED_MICROS / 2, 1).unwrap();
    let quarter = sampler::derive(&a, 0, &b, MIN_ELAPSED_MICROS / 4, 1).unwrap();
    let none = sampler::derive(&a, 100, &b, 100, 1).unwrap();
    // 1 ms of CPU over the 10 ms floor: 10 %.
    assert_eq!(floor[0].cpu_centi, 1_000);
    assert_eq!(half[0].cpu_centi, floor[0].cpu_centi);
    assert_eq!(quarter[0].cpu_centi, floor[0].cpu_centi);
    assert_eq!(none[0].cpu_centi, floor[0].cpu_centi);
}

#[test]
fn clock_going_backwards_uses_the_floor() {
    let a = vec![counters(5, 0, 0)];
    let b = vec![counters(5, 1_000, 0)];
    let out = sampler::derive(&a, 5 * SECOND, &b, SECOND, 1).unwrap();
    assert_eq!(out[0].cpu_centi, 1_000);
}

#[test]
fn counter_going_backwards_is_negative_and_rounded_down() {
    let a = vec![counters(5, 3 * SECOND, 0)];
    let b = vec![counters(5, 2 * SECOND, 0)];
    let out = sampler::derive(&a, 0, &b, SECOND, 1).unwrap();
    assert_eq!(out[0].cpu_centi, -10_000);
    let c = vec![counters(5, 3 * SECOND - 1, 0)];
    let out = sampler::derive(&a, 0, &c, 3 * SECOND, 1).unwrap();
    // -1/3 of a hundredth of a percent rounds down to -1.
    assert_eq!(out[0].cpu_centi, -1);
}

#[test]
fn fractional_share_rounds_down() {
    let a = vec![counters(5, 0, 0)];
    let b = vec![counters(5, SECOND, 0)];
    let out = sampler::derive(&a, 0, &b, 3 * SECOND, 1).unwrap();
    assert_eq!(out[0].cpu_centi, 3_333);
}

#[test]
fn memory_and_start_time_come_from_the_second_snapshot() {
    let a = vec![RawCounters { pid: 9, name: "old".to_string(), cpu_time: 0, memory_bytes: 10, start_time: 1 }];
    let b = vec![RawCounters { pid: 9, name: "new".to_string(), cpu_time: 0, memory_bytes: 20, start_time: 2 }];
    let out = sampler::derive(&a, 0, &b, SECOND, 1).unwrap();
    assert_eq!(out[0].memory_bytes, 20);
    assert_eq!(out[0].start_time, 2);
    assert_eq!(out[0].name, "old");
}

#[test]
fn zero_cores_is_an_error() {
    let a = vec![counters(1, 0, 0)];
    assert_eq!(sampler::derive(&a, 0, &a, SECOND, 0).err(), Some(DeriveError::NoCpus));
}

#[test]
fn empty_snapshots_give_no_samples() {
    let out = sampler::derive(&Vec::new(), 0, &Vec::new(), SECOND, 1).unwrap();
    assert!(out.is_empty());
}

#[test]
fn probe_fills_defaults_and_sums_times() {
    let c = counters_from_probe(4, None, None, 1_500_000, 2_500_999, 77);
    assert_eq!(c.pid, 4);
    assert_eq!(c.name, "Unknown");
    assert_eq!(c.start_time, 0);
    assert_eq!(c.cpu_time, 4_000_999);
    assert_eq!(c.memory_bytes, 77);
    let d = counters_from_probe(4, Some("sh".to_string()), Some(12), u64::MAX, u64::MAX, 0);
    assert_eq!(d.name, "sh");
    assert_eq!(d.start_time, 12);
    assert_eq!(d.cpu_time, u64::MAX);
    let e = counters_from_probe(4, None, None, u64::MAX - 5, 5, 0);
    assert_eq!(e.cpu_time, u64::MAX);
}

#[test]
fn one_second_of_probed_time_is_one_second_of_cpu() {
    let a = vec![counters_from_probe(8, None, None, 0, 0, 0)];
    let b = vec![counters_from_probe(8, None, None, 600_000, 400_000, 0)];
    let out = sampler::derive(&a, 0, &b, SECOND, 1).unwrap();
    assert_eq!(out[0].cpu_centi, 10_000);
}

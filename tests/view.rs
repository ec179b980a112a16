use rustop::cycle::{check_settings, step, ConfigError, Phase};
use rustop::filter::{apply, build, filter_samples, Filter, FilterCriteria, Observed, ProcessFacts};
use rustop::rank::{rank, row_budget, take_rows, visible_rows, SortKey};
use rustop::sampler::UsageSample;
use rustop::clock::format_time;
use rustop::settings::choose_setting;
use rustop::units::{decimal_text, format_memory, format_percent};

fn sample(pid: u32, name: &str, cpu_centi: i128, memory_bytes: u64, start_time: u64) -> UsageSample {
    UsageSample { pid, name: name.to_string(), cpu_centi, memory_bytes, start_time }
}

fn facts(owner: Option<&str>, reported_name: Option<&str>) -> ProcessFacts {
    ProcessFacts {
        owner: owner.map(|s| s.to_string()),
        reported_name: reported_name.map(|s| s.to_string()),
    }
}

fn observed(s: UsageSample, f: ProcessFacts) -> Observed {
    Observed { sample: s, facts: f }
}

fn no_criteria() -> FilterCriteria {
    FilterCriteria {
        name: None,
        user: None,
        no_kernel: false,
        kernel_pid_floor: 100,
        cpu_above: None,
        cpu_below: None,
        mem_above: None,
        mem_below: None,
        human_readable: false,
    }
}

fn pids(v: &[UsageSample]) -> Vec<u32> {
    v.iter().map(|s| s.pid).collect()
}

#[test]
fn memory_threshold_in_megabytes() {
    let obs = vec![observed(sample(500, "db", 0, 150_000_000, 0), facts(Some("501"), Some("db")))];
    let mut c = no_criteria();
    c.mem_above = Some(100);
    assert_eq!(pids(&filter_samples(&c, &obs)), vec![500]);
    c.mem_above = Some(200);
    assert!(filter_samples(&c, &obs).is_empty());
}

#[test]
fn memory_threshold_in_bytes_when_human_readable() {
    let obs = vec![observed(sample(500, "db", 0, 150, 0), facts(None, None))];
    let mut c = no_criteria();
    c.human_readable = true;
    c.mem_above = Some(100);
    c.mem_below = Some(151);
    assert_eq!(pids(&filter_samples(&c, &obs)), vec![500]);
    c.mem_below = Some(150);
    assert!(filter_samples(&c, &obs).is_empty());
}

#[test]
fn cpu_bounds_are_strict() {
    let obs = vec![
        observed(sample(200, "a", 1_000, 0, 0), facts(None, None)),
        observed(sample(201, "b", 1_001, 0, 0), facts(None, None)),
        observed(sample(202, "c", 4_999, 0, 0), facts(None, None)),
        observed(sample(203, "d", 5_000, 0, 0), facts(None, None)),
    ];
    let mut c = no_criteria();
    c.cpu_above = Some(1_000);
    c.cpu_below = Some(5_000);
    assert_eq!(pids(&filter_samples(&c, &obs)), vec![201, 202]);
}

#[test]
fn name_filter_ignores_case() {
    let obs = vec![
        observed(sample(300, "FireFox", 0, 0, 0), facts(None, None)),
        observed(sample(301, "bash", 0, 0, 0), facts(None, None)),
        observed(sample(302, "firefly", 0, 0, 0), facts(None, None)),
    ];
    let mut c = no_criteria();
    c.name = Some("FIREF".to_string());
    assert_eq!(pids(&filter_samples(&c, &obs)), vec![300, 302]);
    c.name = Some("fox".to_string());
    assert_eq!(pids(&filter_samples(&c, &obs)), vec![300]);
}

#[test]
fn user_filter_matches_owner_text_and_fails_closed() {
    let obs = vec![
        observed(sample(400, "a", 0, 0, 0), facts(Some("1000"), Some("a"))),
        observed(sample(401, "b", 0, 0, 0), facts(Some("0"), Some("b"))),
        observed(sample(402, "c", 0, 0, 0), facts(None, Some("c"))),
    ];
    let mut c = no_criteria();
    c.user = Some("100".to_string());
    assert_eq!(pids(&filter_samples(&c, &obs)), vec![400]);
    c.user = Some(String::new());
    assert_eq!(pids(&filter_samples(&c, &obs)), vec![400, 401]);
}

#[test]
fn kernel_exclusion_fails_open() {
    let obs = vec![
        observed(sample(1, "launchd", 0, 0, 0), facts(Some("0"), Some("launchd"))),
        observed(sample(500, "kernel_task", 0, 0, 0), facts(Some("0"), Some("kernel_task"))),
        observed(sample(501, "zsh", 0, 0, 0), facts(Some("0"), Some("zsh"))),
        observed(sample(5, "gone", 0, 0, 0), facts(Some("0"), None)),
        observed(sample(502, "Kernelish", 0, 0, 0), facts(Some("0"), Some("Kernelish"))),
    ];
    let mut c = no_criteria();
    c.no_kernel = true;
    assert_eq!(pids(&filter_samples(&c, &obs)), vec![501, 5, 502]);
    c.kernel_pid_floor = 0;
    assert_eq!(pids(&filter_samples(&c, &obs)), vec![1, 501, 5, 502]);
}

#[test]
fn no_criteria_keeps_everything_in_order() {
    let obs = vec![
        observed(sample(3, "c", -5, 0, 0), facts(None, None)),
        observed(sample(1, "a", 0, 0, 0), facts(None, None)),
    ];
    assert!(build(&no_criteria()).is_empty());
    assert_eq!(pids(&filter_samples(&no_criteria(), &obs)), vec![3, 1]);
}

#[test]
fn filter_order_does_not_matter() {
    let obs = vec![
        observed(sample(150, "Alpha", 2_000, 5_000_000, 0), facts(Some("501"), Some("Alpha"))),
        observed(sample(151, "alphabet", 100, 5_000_000, 0), facts(Some("501"), Some("alphabet"))),
        observed(sample(20, "alpha", 2_000, 5_000_000, 0), facts(Some("501"), Some("alpha"))),
        observed(sample(152, "alpha2", 2_000, 50_000_000, 0), facts(None, Some("alpha2"))),
        observed(sample(153, "beta", 2_000, 5_000_000, 0), facts(Some("501"), Some("beta"))),
    ];
    let c = FilterCriteria {
        name: Some("ALPHA".to_string()),
        user: Some("50".to_string()),
        no_kernel: true,
        kernel_pid_floor: 100,
        cpu_above: Some(1_000),
        cpu_below: None,
        mem_above: None,
        mem_below: Some(10),
        human_readable: false,
    };
    let forward = build(&c);
    assert_eq!(forward.len(), 5);
    let expected = pids(&apply(&forward, &obs));
    assert_eq!(expected, vec![150]);
    let mut reversed = build(&c);
    reversed.reverse();
    assert_eq!(pids(&apply(&reversed, &obs)), expected);
    let mut rotated = build(&c);
    rotated.rotate_left(2);
    assert_eq!(pids(&apply(&rotated, &obs)), expected);
    let mut swapped = build(&c);
    swapped.swap(0, 4);
    swapped.swap(1, 3);
    assert_eq!(pids(&apply(&swapped, &obs)), expected);
}

#[test]
fn build_lowercases_and_converts() {
    let mut c = no_criteria();
    c.name = Some("AbC".to_string());
    c.mem_above = Some(3);
    let f = build(&c);
    assert_eq!(f.len(), 2);
    match &f[0] {
        Filter::Name(t) => assert_eq!(t.iter().collect::<String>(), "abc"),
        _ => panic!("expected a name filter"),
    }
    match &f[1] {
        Filter::Memory(a, b) => {
            assert_eq!(*a, Some(3_000_000));
            assert_eq!(*b, None);
        }
        _ => panic!("expected a memory filter"),
    }
}

fn mixed() -> Vec<UsageSample> {
    vec![
        sample(30, "c", 500, 10, 300),
        sample(10, "a", -20, 30, 100),
        sample(20, "b", 9_000, 20, 200),
        sample(40, "d", 500, 40, 50),
    ]
}

#[test]
fn rank_by_each_key() {
    assert_eq!(pids(&rank(mixed(), SortKey::Pid)), vec![10, 20, 30, 40]);
    assert_eq!(pids(&rank(mixed(), SortKey::Memory)), vec![40, 10, 20, 30]);
    assert_eq!(pids(&rank(mixed(), SortKey::StartTime)), vec![40, 10, 20, 30]);
    let by_cpu = rank(mixed(), SortKey::Cpu);
    assert_eq!(by_cpu[0].pid, 20);
    assert_eq!(by_cpu[3].pid, 10);
    let cpus: Vec<i128> = by_cpu.iter().map(|s| s.cpu_centi).collect();
    assert_eq!(cpus, vec![9_000, 500, 500, -20]);
}

#[test]
fn rank_is_a_permutation() {
    for key in [SortKey::Cpu, SortKey::Memory, SortKey::Pid, SortKey::StartTime] {
        let mut got = pids(&rank(mixed(), key));
        got.sort();
        assert_eq!(got, vec![10, 20, 30, 40]);
    }
    assert!(rank(Vec::new(), SortKey::Cpu).is_empty());
}

#[test]
fn row_cap_and_terminal_bound() {
    let samples: Vec<UsageSample> = (1..=8).map(|p| sample(p, "x", 0, 0, 0)).collect();
    // Five terminal lines less the two-line header leave three rows.
    let shown = visible_rows(samples, SortKey::Pid, Some(5), Some(5));
    assert_eq!(pids(&shown), vec![1, 2, 3]);
    assert_eq!(row_budget(Some(5), Some(5)), 3);
    assert_eq!(row_budget(Some(2), Some(40)), 2);
    assert_eq!(row_budget(None, Some(40)), 38);
    assert_eq!(row_budget(Some(5), None), 0);
    assert_eq!(row_budget(None, Some(1)), 0);
}

#[test]
fn take_rows_keeps_order() {
    let ranked = rank(mixed(), SortKey::Pid);
    assert_eq!(pids(&take_rows(ranked, 2)), vec![10, 20]);
    let ranked = rank(mixed(), SortKey::Pid);
    assert_eq!(pids(&take_rows(ranked, 10)), vec![10, 20, 30, 40]);
}

#[test]
fn memory_text() {
    assert_eq!(format_memory(150_000_000, false), "150");
    assert_eq!(format_memory(999_999, false), "0");
    assert_eq!(format_memory(1_500_000_000, true), "1.50 GB");
    assert_eq!(format_memory(2_345_678, true), "2.35 MB");
    assert_eq!(format_memory(1_000, true), "1.00 KB");
    assert_eq!(format_memory(1_005, true), "1.01 KB");
    assert_eq!(format_memory(999, true), "999 B");
    assert_eq!(format_memory(0, true), "0 B");
    assert_eq!(format_memory(12_050_000_000, true), "12.05 GB");
}

#[test]
fn decimal_digits() {
    assert_eq!(decimal_text(0), "0");
    assert_eq!(decimal_text(907), "907");
    assert_eq!(decimal_text(u64::MAX as u128), u64::MAX.to_string());
    assert_eq!(decimal_text(u128::MAX), u128::MAX.to_string());
}

#[test]
fn settings_are_checked() {
    assert_eq!(check_settings(999, 4), Err(ConfigError::RefreshTooShort));
    assert_eq!(check_settings(1_000, 0), Err(ConfigError::NoCpus));
    assert_eq!(check_settings(1_000, 4), Ok(()));
}

#[test]
fn loop_phases() {
    assert_eq!(step(Phase::Starting, true), Phase::Sampling);
    assert_eq!(step(Phase::Sampling, true), Phase::Waiting);
    assert_eq!(step(Phase::Waiting, true), Phase::Rendering);
    assert_eq!(step(Phase::Rendering, false), Phase::Sampling);
    assert_eq!(step(Phase::Rendering, true), Phase::Stopping);
    assert_eq!(step(Phase::Stopping, false), Phase::Stopped);
    assert_eq!(step(Phase::Stopped, false), Phase::Stopped);
}

#[test]
fn clock_text_of_timestamps() {
    assert_eq!(format_time(0), "00:00:00");
    assert_eq!(format_time(3_661), "01:01:01");
    assert_eq!(format_time(1_700_000_000), "22:13:20");
    assert_eq!(format_time(86_399), "23:59:59");
    // Read as a signed count of seconds, this is one second before the epoch.
    assert_eq!(format_time(u64::MAX), "23:59:59");
    // Read as a signed count of seconds, this is one hour before the epoch.
    assert_eq!(format_time((-3_600_i64) as u64), "23:00:00");
    // Far beyond the calendar either way: midnight.
    assert_eq!(format_time(i64::MAX as u64), "00:00:00");
    assert_eq!(format_time(i64::MIN as u64), "00:00:00");
}

#[test]
fn command_line_wins_over_config_file() {
    assert_eq!(choose_setting(true, 1, Some(2)), 1);
    assert_eq!(choose_setting(false, 1, Some(2)), 2);
    assert_eq!(choose_setting(false, 1, None), 1);
    assert_eq!(choose_setting(true, None, Some(Some("x"))), None);
    assert_eq!(choose_setting(false, None, Some(Some("x"))), Some("x"));
}

#[test]
fn percent_text() {
    assert_eq!(format_percent(500_000), "5000.00%");
    assert_eq!(format_percent(125_000), "1250.00%");
    assert_eq!(format_percent(3_333), "33.33%");
    assert_eq!(format_percent(5), "0.05%");
    assert_eq!(format_percent(0), "0.00%");
    assert_eq!(format_percent(-1), "-0.01%");
    assert_eq!(format_percent(-10_050), "-100.50%");
    assert_eq!(format_percent(i128::MIN), format!("-{}.{:02}%", (i128::MIN as u128) / 100, (i128::MIN as u128) % 100));
}

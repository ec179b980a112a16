use vstd::arithmetic::div_mod::{
    lemma_fundamental_div_mod, lemma_fundamental_div_mod_converse, lemma_mod_bound,
};
use vstd::prelude::*;

verus! {

/// Floor on the measured interval between two snapshots, in microseconds
/// (a hundredth of a second): back-to-back readings never divide by zero.
pub const MIN_ELAPSED_MICROS: u64 = 10_000;

/// One process's raw counters, read at one instant.
#[derive(Debug, Clone, PartialEq, Eq)]
pub struct RawCounters {
    pub pid: u32,
    /// Best-effort process name.
    pub name: String,
    /// CPU time (user plus system) consumed since the process started, in microseconds.
    pub cpu_time: u64,
    /// Resident memory, in bytes.
    pub memory_bytes: u64,
    /// Start time in seconds since the epoch, 0 when unknown.
    pub start_time: u64,
}

/// The derived, comparable record of one process for one refresh.
#[derive(Debug, Clone, PartialEq, Eq)]
pub struct UsageSample {
    pub pid: u32,
    pub name: String,
    /// Share of the host's total capacity in hundredths of a percent, rounded
    /// down. Deliberately not clamped: a counter anomaly shows up as a negative
    /// or oversized value instead of being hidden.
    pub cpu_centi: i128,
    pub memory_bytes: u64,
    pub start_time: u64,
}

impl UsageSample {
    /// A field-by-field copy.
    pub fn duplicate(&self) -> (r: UsageSample)
        ensures
            r == *self,
    {
        UsageSample {
            pid: self.pid,
            name: self.name.clone(),
            cpu_centi: self.cpu_centi,
            memory_bytes: self.memory_bytes,
            start_time: self.start_time,
        }
    }
}

/// Why no samples could be derived.
#[derive(Debug, Clone, Copy, PartialEq, Eq, Structural)]
pub enum DeriveError {
    /// The host reported no logical CPUs.
    NoCpus,
}

/// The interval used for normalisation: the measured one, but never below the floor.
pub open spec fn elapsed_of(previous_time: int, current_time: int) -> int {
    if current_time - previous_time >= MIN_ELAPSED_MICROS {
        current_time - previous_time
    } else {
        MIN_ELAPSED_MICROS as int
    }
}

/// `cpu_delta / elapsed * 100 / cores` percent, in hundredths of a percent, rounded down.
pub open spec fn cpu_centi_of(cpu_delta: int, elapsed: int, cores: int) -> int {
    (10_000 * cpu_delta) / (elapsed * cores)
}

/// The first entry of `snapshot` with the given pid.
pub open spec fn lookup(snapshot: Seq<RawCounters>, pid: u32) -> Option<RawCounters>
    decreases snapshot.len(),
{
    if snapshot.len() == 0 {
        None
    } else if snapshot[0].pid == pid {
        Some(snapshot[0])
    } else {
        lookup(snapshot.drop_first(), pid)
    }
}

/// The sample of a process seen as `before` and later as `after`.
pub open spec fn sample_of(before: RawCounters, after: RawCounters, elapsed: int, cores: int) -> UsageSample {
    UsageSample {
        pid: before.pid,
        name: before.name,
        cpu_centi: cpu_centi_of(after.cpu_time - before.cpu_time, elapsed, cores) as i128,
        memory_bytes: after.memory_bytes,
        start_time: after.start_time,
    }
}

/// One sample for each process of `previous` that `current` still holds, in
/// the order of `previous`.
pub open spec fn derived(
    previous: Seq<RawCounters>,
    current: Seq<RawCounters>,
    elapsed: int,
    cores: int,
) -> Seq<UsageSample>
    decreases previous.len(),
{
    if previous.len() == 0 {
        Seq::empty()
    } else {
        let rest = derived(previous.drop_last(), current, elapsed, cores);
        match lookup(current, previous.last().pid) {
            Some(after) => rest.push(sample_of(previous.last(), after, elapsed, cores)),
            None => rest,
        }
    }
}

/// The pids of a snapshot are pairwise distinct.
pub open spec fn pids_unique(snapshot: Seq<RawCounters>) -> bool {
    forall|i: int, j: int|
        0 <= i < j < snapshot.len() ==> #[trigger] snapshot[i].pid != #[trigger] snapshot[j].pid
}

/// Builds one snapshot entry from what was read of a process: a missing name
/// becomes "Unknown", a missing start time 0, and the user and system times,
/// both in microseconds, are summed (saturating at `u64::MAX`).
pub fn counters_from_probe(
    pid: u32,
    name: Option<String>,
    start_time: Option<u64>,
    user_micros: u64,
    system_micros: u64,
    memory_bytes: u64,
) -> (r: RawCounters)
    ensures
        r.pid == pid,
        name is Some ==> r.name == name->0,
        name is None ==> r.name@ == "Unknown"@,
        r.start_time == (match start_time {
            Some(t) => t,
            None => 0,
        }),
        r.cpu_time == (if user_micros + system_micros <= u64::MAX {
            user_micros + system_micros
        } else {
            u64::MAX as int
        }),
        r.memory_bytes == memory_bytes,
{
    let name = match name {
        Some(n) => n,
        None => String::from_str("Unknown"),
    };
    let start_time = match start_time {
        Some(t) => t,
        None => 0,
    };
    let cpu_time: u64 = if user_micros <= u64::MAX - system_micros {
        user_micros + system_micros
    } else {
        u64::MAX
    };
    RawCounters { pid, name, cpu_time, memory_bytes, start_time }
}

/// Index of the first entry of `snapshot` with the given pid, if any.
fn find_pid(snapshot: &Vec<RawCounters>, pid: u32) -> (r: Option<usize>)
    ensures
        match r {
            Some(j) => j < snapshot@.len() && lookup(snapshot@, pid) == Some(snapshot@[j as int]),
            None => lookup(snapshot@, pid) is None,
        },
{
    let mut i: usize = 0;
    assert(snapshot@.subrange(0, snapshot@.len() as int) =~= snapshot@);
    while i < snapshot.len()
        invariant
            i <= snapshot@.len(),
            lookup(snapshot@, pid) == lookup(snapshot@.subrange(i as int, snapshot@.len() as int), pid),
        decreases snapshot@.len() - i,
    {
        let ghost rest = snapshot@.subrange(i as int, snapshot@.len() as int);
        assert(rest[0] == snapshot@[i as int]);
        if snapshot[i].pid == pid {
            return Some(i);
        }
        assert(rest.drop_first() =~= snapshot@.subrange(i + 1, snapshot@.len() as int));
        i = i + 1;
    }
    None
}

/// `num / den`, rounded down, for a positive denominator.
fn floor_div(num: i128, den: i128) -> (q: i128)
    requires
        0 < den < 0x1_0000_0000_0000_0000_0000_0000,
        -0x1_0000_0000_0000_0000_0000_0000 < num < 0x1_0000_0000_0000_0000_0000_0000,
    ensures
        q == num / den,
{
    if num >= 0 {
        num / den
    } else {
        let a: i128 = -num;
        let c: i128 = (a + den - 1) / den;
        proof {
            let x: int = a + den - 1;
            let r1: int = x % (den as int);
            lemma_fundamental_div_mod(x, den as int);
            lemma_mod_bound(x, den as int);
            assert(c == x / (den as int));
            assert(num == (-c) * den + (den - 1 - r1)) by (nonlinear_arith)
                requires
                    x == den * (x / (den as int)) + r1,
                    c == x / (den as int),
                    x == a + den - 1,
                    a == -num,
            ;
            lemma_fundamental_div_mod_converse(num as int, den as int, -c, den - 1 - r1);
        }
        -c
    }
}

/// Derives one sample per process present in both snapshots. The CPU share is
/// the CPU time consumed between the snapshots over the elapsed time (never
/// below `MIN_ELAPSED_MICROS`), as a percentage of all `cores` logical CPUs;
/// memory and start time come from `current`, the name from `previous`.
/// Processes that exited or newly appeared get no sample.
pub fn derive(
    previous: &Vec<RawCounters>,
    previous_time: u64,
    current: &Vec<RawCounters>,
    current_time: u64,
    cores: u32,
) -> (r: Result<Vec<UsageSample>, DeriveError>)
    ensures
        cores == 0 <==> r is Err,
        r is Ok ==> r->Ok_0@ == derived(
            previous@,
            current@,
            elapsed_of(previous_time as int, current_time as int),
            cores as int,
        ),
{
    if cores == 0 {
        return Err(DeriveError::NoCpus);
    }
    let elapsed: u64 = if current_time >= previous_time && current_time - previous_time
        >= MIN_ELAPSED_MICROS {
        current_time - previous_time
    } else {
        MIN_ELAPSED_MICROS
    };
    let ghost e = elapsed_of(previous_time as int, current_time as int);
    assert(elapsed == e);
    proof {
        vstd::arithmetic::mul::lemma_mul_strict_upper_bound(
            elapsed as int,
            0x1_0000_0000_0000_0000,
            cores as int,
            0x1_0000_0000,
        );
        assert(0x1_0000_0000_0000_0000 * 0x1_0000_0000 == 0x1_0000_0000_0000_0000_0000_0000);
    }
    let den: i128 = elapsed as i128 * cores as i128;
    assert(den == e * cores) by (nonlinear_arith)
        requires
            den == elapsed as i128 * cores as i128,
            elapsed == e,
    ;
    assert(den > 0) by (nonlinear_arith)
        requires
            den == e * cores,
            e > 0,
            cores > 0,
    ;
    let mut out: Vec<UsageSample> = Vec::new();
    let mut i: usize = 0;
    while i < previous.len()
        invariant
            i <= previous@.len(),
            den == e * cores,
            0 < den < 0x1_0000_0000_0000_0000_0000_0000,
            out@ == derived(previous@.subrange(0, i as int), current@, e, cores as int),
        decreases previous@.len() - i,
    {
        let before = &previous[i];
        let ghost pre = previous@.subrange(0, i + 1);
        assert(pre.drop_last() =~= previous@.subrange(0, i as int));
        assert(pre.last() == previous@[i as int]);
        match find_pid(current, before.pid) {
            Some(j) => {
                let after = &current[j];
                let delta: i128 = after.cpu_time as i128 - before.cpu_time as i128;
                let cpu_centi = floor_div(delta * 10_000, den);
                out.push(
                    UsageSample {
                        pid: before.pid,
                        name: before.name.clone(),
                        cpu_centi,
                        memory_bytes: after.memory_bytes,
                        start_time: after.start_time,
                    },
                );
            },
            None => {},
        }
        i = i + 1;
    }
    assert(previous@.subrange(0, previous@.len() as int) =~= previous@);
    Ok(out)
}

/// The pids of a snapshot, in order.
pub open spec fn pid_seq(snapshot: Seq<RawCounters>) -> Seq<u32> {
    snapshot.map_values(|r: RawCounters| r.pid)
}

/// The pids of a sequence of samples, in order.
pub open spec fn sample_pids(samples: Seq<UsageSample>) -> Seq<u32> {
    samples.map_values(|s: UsageSample| s.pid)
}

proof fn lemma_lookup_found(snapshot: Seq<RawCounters>, pid: u32)
    ensures
        lookup(snapshot, pid) is Some ==> pid_seq(snapshot).contains(pid)
            && (lookup(snapshot, pid)->0).pid == pid,
    decreases snapshot.len(),
{
    if snapshot.len() > 0 {
        if snapshot[0].pid == pid {
            assert(pid_seq(snapshot)[0] == pid);
        } else {
            lemma_lookup_found(snapshot.drop_first(), pid);
            if lookup(snapshot, pid) is Some {
                let k = choose|k: int|
                    0 <= k < pid_seq(snapshot.drop_first()).len() && pid_seq(
                        snapshot.drop_first(),
                    )[k] == pid;
                assert(pid_seq(snapshot)[k + 1] == pid);
            }
        }
    }
}

/// `s` is the sample of some entry of `previous` still present in `current`.
pub open spec fn comes_from(
    previous: Seq<RawCounters>,
    current: Seq<RawCounters>,
    elapsed: int,
    cores: int,
    s: UsageSample,
) -> bool {
    exists|k: int|
        0 <= k < previous.len() && lookup(current, #[trigger] previous[k].pid) is Some && s
            == sample_of(previous[k], lookup(current, previous[k].pid)->0, elapsed, cores)
}

/// Each derived sample comes from one entry of `previous` still present in `current`.
proof fn lemma_derived_origin(
    previous: Seq<RawCounters>,
    current: Seq<RawCounters>,
    elapsed: int,
    cores: int,
)
    ensures
        forall|i: int|
            0 <= i < derived(previous, current, elapsed, cores).len() ==> #[trigger] comes_from(
                previous,
                current,
                elapsed,
                cores,
                derived(previous, current, elapsed, cores)[i],
            ),
    decreases previous.len(),
{
    if previous.len() > 0 {
        let init = previous.drop_last();
        let n = previous.len() - 1;
        lemma_derived_origin(init, current, elapsed, cores);
        let rest = derived(init, current, elapsed, cores);
        let out = derived(previous, current, elapsed, cores);
        assert forall|i: int| 0 <= i < out.len() implies #[trigger] comes_from(
            previous,
            current,
            elapsed,
            cores,
            out[i],
        ) by {
            if i < rest.len() {
                assert(out[i] == rest[i]);
                assert(comes_from(init, current, elapsed, cores, rest[i]));
                let k = choose|k: int|
                    0 <= k < init.len() && lookup(current, #[trigger] init[k].pid) is Some
                        && rest[i] == sample_of(
                        init[k],
                        lookup(current, init[k].pid)->0,
                        elapsed,
                        cores,
                    );
                assert(previous[k] == init[k]);
            } else {
                assert(previous[n] == previous.last());
            }
        }
    }
}

/// Each entry of `previous` still present in `current` yields a sample.
proof fn lemma_derived_complete(
    previous: Seq<RawCounters>,
    current: Seq<RawCounters>,
    elapsed: int,
    cores: int,
    k: int,
)
    requires
        0 <= k < previous.len(),
        lookup(current, previous[k].pid) is Some,
    ensures
        exists|i: int|
            0 <= i < derived(previous, current, elapsed, cores).len() && #[trigger] derived(
                previous,
                current,
                elapsed,
                cores,
            )[i] == sample_of(previous[k], lookup(current, previous[k].pid)->0, elapsed, cores),
    decreases previous.len(),
{
    let init = previous.drop_last();
    let n = previous.len() - 1;
    let rest = derived(init, current, elapsed, cores);
    let out = derived(previous, current, elapsed, cores);
    if k < n {
        assert(previous[k] == init[k]);
        lemma_derived_complete(init, current, elapsed, cores, k);
        let i = choose|i: int|
            0 <= i < rest.len() && #[trigger] rest[i] == sample_of(
                init[k],
                lookup(current, init[k].pid)->0,
                elapsed,
                cores,
            );
        assert(out[i] == rest[i]);
    } else {
        assert(out[rest.len() as int] == sample_of(
            previous.last(),
            lookup(current, previous.last().pid)->0,
            elapsed,
            cores,
        ));
    }
}

/// With distinct pids in `previous`, the derived samples have distinct pids,
/// each one of `previous`.
proof fn lemma_derived_distinct(
    previous: Seq<RawCounters>,
    current: Seq<RawCounters>,
    elapsed: int,
    cores: int,
)
    requires
        pids_unique(previous),
    ensures
        sample_pids(derived(previous, current, elapsed, cores)).no_duplicates(),
        forall|i: int|
            0 <= i < derived(previous, current, elapsed, cores).len() ==> pid_seq(previous).contains(
                #[trigger] derived(previous, current, elapsed, cores)[i].pid,
            ),
    decreases previous.len(),
{
    if previous.len() > 0 {
        let init = previous.drop_last();
        let last = previous.last();
        let n = previous.len() - 1;
        let rest = derived(init, current, elapsed, cores);
        let out = derived(previous, current, elapsed, cores);
        assert(pids_unique(init)) by {
            assert forall|i: int, j: int| 0 <= i < j < init.len() implies #[trigger] init[i].pid
                != #[trigger] init[j].pid by {
                assert(init[i] == previous[i] && init[j] == previous[j]);
            }
        }
        lemma_derived_distinct(init, current, elapsed, cores);
        assert forall|i: int| 0 <= i < out.len() implies pid_seq(previous).contains(
            #[trigger] out[i].pid,
        ) by {
            if i < rest.len() {
                assert(out[i] == rest[i]);
                assert(pid_seq(init).contains(rest[i].pid));
                let k = choose|k: int| 0 <= k < pid_seq(init).len() && pid_seq(init)[k] == rest[i].pid;
                assert(pid_seq(previous)[k] == init[k].pid);
            } else {
                assert(pid_seq(previous)[n] == last.pid);
            }
        }
        if lookup(current, last.pid) is Some {
            assert(sample_pids(out) =~= sample_pids(rest).push(last.pid));
            assert forall|i: int| 0 <= i < rest.len() implies #[trigger] rest[i].pid != last.pid by {
                assert(pid_seq(init).contains(rest[i].pid));
                let k = choose|k: int| 0 <= k < pid_seq(init).len() && pid_seq(init)[k] == rest[i].pid;
                assert(previous[k].pid == init[k].pid);
                assert(previous[k].pid != previous[n].pid);
            }
            assert forall|i: int, j: int|
                0 <= i < sample_pids(out).len() && 0 <= j < sample_pids(out).len() && i != j
                    implies sample_pids(out)[i] != sample_pids(out)[j] by {
                if i < rest.len() && j < rest.len() {
                    assert(sample_pids(rest)[i] == sample_pids(out)[i]);
                    assert(sample_pids(rest)[j] == sample_pids(out)[j]);
                } else if i < rest.len() {
                    assert(sample_pids(out)[i] == rest[i].pid);
                } else {
                    assert(sample_pids(out)[j] == rest[j].pid);
                }
            }
        } else {
            assert(out == rest);
        }
    }
}

/// Derivation emits samples only for pids present in both snapshots, at most
/// one per pid, so never more than the number of pids the two snapshots share.
pub proof fn law_derive_only_shared(
    previous: Seq<RawCounters>,
    current: Seq<RawCounters>,
    previous_time: u64,
    current_time: u64,
    cores: u32,
)
    requires
        cores >= 1,
        pids_unique(previous),
    ensures
        ({
            let out = derived(
                previous,
                current,
                elapsed_of(previous_time as int, current_time as int),
                cores as int,
            );
            &&& forall|i: int|
                0 <= i < out.len() ==> pid_seq(previous).contains(#[trigger] out[i].pid)
                    && pid_seq(current).contains(out[i].pid)
            &&& out.len() <= pid_seq(previous).to_set().intersect(pid_seq(current).to_set()).len()
        }),
{
    let e = elapsed_of(previous_time as int, current_time as int);
    let out = derived(previous, current, e, cores as int);
    lemma_derived_origin(previous, current, e, cores as int);
    lemma_derived_distinct(previous, current, e, cores as int);
    let shared = pid_seq(previous).to_set().intersect(pid_seq(current).to_set());
    assert forall|i: int| 0 <= i < out.len() implies pid_seq(previous).contains(#[trigger] out[i].pid)
        && pid_seq(current).contains(out[i].pid) by {
        assert(comes_from(previous, current, e, cores as int, out[i]));
        let k = choose|k: int|
            0 <= k < previous.len() && lookup(current, #[trigger] previous[k].pid) is Some && out[i]
                == sample_of(previous[k], lookup(current, previous[k].pid)->0, e, cores as int);
        lemma_lookup_found(current, previous[k].pid);
    }
    let pids = sample_pids(out);
    assert(pids.to_set().subset_of(shared)) by {
        assert forall|p: u32| pids.to_set().contains(p) implies shared.contains(p) by {
            let i = choose|i: int| 0 <= i < pids.len() && pids[i] == p;
            assert(pids[i] == out[i].pid);
        }
    }
    pids.unique_seq_to_set();
    vstd::seq_lib::seq_to_set_is_finite(pid_seq(previous));
    vstd::set_lib::lemma_len_subset(pids.to_set(), shared);
}

/// A process whose CPU counter did not move between the snapshots is
/// reported with a CPU share of exactly zero, whatever the elapsed time.
pub proof fn law_idle_process_is_zero(
    previous: Seq<RawCounters>,
    current: Seq<RawCounters>,
    previous_time: u64,
    current_time: u64,
    cores: u32,
    k: int,
)
    requires
        cores >= 1,
        pids_unique(previous),
        0 <= k < previous.len(),
        lookup(current, previous[k].pid) is Some,
        (lookup(current, previous[k].pid)->0).cpu_time == previous[k].cpu_time,
    ensures
        ({
            let out = derived(
                previous,
                current,
                elapsed_of(previous_time as int, current_time as int),
                cores as int,
            );
            &&& exists|i: int| 0 <= i < out.len() && #[trigger] out[i].pid == previous[k].pid
            &&& forall|i: int|
                0 <= i < out.len() && #[trigger] out[i].pid == previous[k].pid ==> out[i].cpu_centi
                    == 0
        }),
{
    let e = elapsed_of(previous_time as int, current_time as int);
    let out = derived(previous, current, e, cores as int);
    lemma_derived_origin(previous, current, e, cores as int);
    lemma_derived_complete(previous, current, e, cores as int, k);
    assert(e * cores > 0) by (nonlinear_arith)
        requires
            e > 0,
            cores >= 1,
    ;
    let i0 = choose|i: int|
        0 <= i < out.len() && out[i] == sample_of(
            previous[k],
            lookup(current, previous[k].pid)->0,
            e,
            cores as int,
        );
    assert(out[i0].pid == previous[k].pid);
    assert forall|i: int| 0 <= i < out.len() && #[trigger] out[i].pid == previous[k].pid implies out[i].cpu_centi
        == 0 by {
        assert(comes_from(previous, current, e, cores as int, out[i]));
        let j = choose|j: int|
            0 <= j < previous.len() && lookup(current, #[trigger] previous[j].pid) is Some && out[i]
                == sample_of(previous[j], lookup(current, previous[j].pid)->0, e, cores as int);
        if j != k {
            if j < k {
                assert(previous[j].pid != previous[k].pid);
            } else {
                assert(previous[k].pid != previous[j].pid);
            }
        }
        assert((10_000 * 0int) / (e * cores) == 0);
    }
}

/// Below the floor, the measured interval does not matter: every interval
/// shorter than `MIN_ELAPSED_MICROS` (say, half of another such interval)
/// gives the same samples as the floor itself.
pub proof fn law_elapsed_floor(
    previous: Seq<RawCounters>,
    current: Seq<RawCounters>,
    previous_time: u64,
    current_time: u64,
    cores: u32,
)
    requires
        current_time - previous_time < MIN_ELAPSED_MICROS,
    ensures
        derived(previous, current, elapsed_of(previous_time as int, current_time as int), cores as int)
            == derived(previous, current, MIN_ELAPSED_MICROS as int, cores as int),
        derived(previous, current, elapsed_of(previous_time as int, current_time as int), cores as int)
            == derived(
            previous,
            current,
            elapsed_of(previous_time as int, previous_time + MIN_ELAPSED_MICROS),
            cores as int,
        ),
{
}

} // verus!

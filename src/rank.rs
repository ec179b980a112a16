use crate::sampler::UsageSample;
use vstd::multiset::Multiset;
use vstd::prelude::*;

verus! {

/// Lines of the screen taken by the table's header.
pub const HEADER_ROWS: usize = 2;

/// The order of the table.
#[derive(Debug, Clone, Copy, PartialEq, Eq, Structural)]
pub enum SortKey {
    /// Highest CPU share first.
    Cpu,
    /// Most memory first.
    Memory,
    /// Lowest pid first.
    Pid,
    /// Earliest start first.
    StartTime,
}

/// `a` may stand before `b` in a table ordered by `key`.
pub open spec fn may_precede(key: SortKey, a: UsageSample, b: UsageSample) -> bool {
    match key {
        SortKey::Cpu => a.cpu_centi >= b.cpu_centi,
        SortKey::Memory => a.memory_bytes >= b.memory_bytes,
        SortKey::Pid => a.pid <= b.pid,
        SortKey::StartTime => a.start_time <= b.start_time,
    }
}

/// Every sample may stand before every later one.
pub open spec fn ordered_by(key: SortKey, s: Seq<UsageSample>) -> bool {
    forall|i: int, j: int| 0 <= i < j < s.len() ==> may_precede(key, #[trigger] s[i], #[trigger] s[j])
}

fn precedes(key: SortKey, a: &UsageSample, b: &UsageSample) -> (r: bool)
    ensures
        r == may_precede(key, *a, *b),
{
    match key {
        SortKey::Cpu => a.cpu_centi >= b.cpu_centi,
        SortKey::Memory => a.memory_bytes >= b.memory_bytes,
        SortKey::Pid => a.pid <= b.pid,
        SortKey::StartTime => a.start_time <= b.start_time,
    }
}

/// Reorders the samples by `key`, dropping none. Equal keys may come in any order.
pub fn rank(samples: Vec<UsageSample>, key: SortKey) -> (r: Vec<UsageSample>)
    ensures
        r@.to_multiset() == samples@.to_multiset(),
        ordered_by(key, r@),
{
    broadcast use vstd::seq_lib::group_to_multiset_ensures;

    let ghost input = samples@;
    let mut rest = samples;
    let mut out: Vec<UsageSample> = Vec::new();
    while rest.len() > 0
        invariant
            ordered_by(key, out@),
            out@.to_multiset().add(rest@.to_multiset()) == input.to_multiset(),
        decreases rest@.len(),
    {
        let ghost before = rest@;
        let s = rest.pop().unwrap();
        assert(before =~= rest@.push(s));
        let mut k: usize = 0;
        while k < out.len() && precedes(key, &out[k], &s)
            invariant
                k <= out@.len(),
                forall|m: int| 0 <= m < k ==> may_precede(key, #[trigger] out@[m], s),
            decreases out@.len() - k,
        {
            k = k + 1;
        }
        let ghost old_out = out@;
        out.insert(k, s);
        assert(ordered_by(key, out@)) by {
            assert forall|i: int, j: int| 0 <= i < j < out@.len() implies may_precede(
                key,
                #[trigger] out@[i],
                #[trigger] out@[j],
            ) by {
                if j < k {
                    assert(out@[i] == old_out[i] && out@[j] == old_out[j]);
                } else if j == k {
                    assert(out@[i] == old_out[i]);
                } else if i < k {
                    assert(out@[i] == old_out[i] && out@[j] == old_out[j - 1]);
                    assert(may_precede(key, old_out[i], s));
                    assert(!may_precede(key, old_out[k as int], s));
                } else if i == k {
                    assert(out@[j] == old_out[j - 1]);
                    assert(!may_precede(key, old_out[k as int], s));
                    if j - 1 > k {
                        assert(may_precede(key, old_out[k as int], old_out[j - 1]));
                    }
                } else {
                    assert(out@[i] == old_out[i - 1] && out@[j] == old_out[j - 1]);
                }
            }
        }
        proof {
            vstd::seq_lib::to_multiset_insert(old_out, k as int, s);
            vstd::seq_lib::to_multiset_build(rest@, s);
        }
        assert(out@.to_multiset() == old_out.to_multiset().insert(s));
        assert(before.to_multiset() == rest@.to_multiset().insert(s));
        assert(out@.to_multiset().add(rest@.to_multiset()) =~= old_out.to_multiset().add(
            before.to_multiset(),
        ));
    }
    assert(rest@.to_multiset() =~= Multiset::empty());
    assert(out@.to_multiset().add(Multiset::empty()) =~= out@.to_multiset());
    out
}

/// How many rows fit: the terminal's height less the header, or nothing when
/// the height is unknown, and no more than `top` when that is given.
pub open spec fn row_budget_of(top: Option<usize>, terminal_rows: Option<u16>) -> int {
    let rows: int = match terminal_rows {
        Some(h) => h as int,
        None => 0,
    };
    let avail: int = if rows > HEADER_ROWS {
        rows - HEADER_ROWS
    } else {
        0
    };
    match top {
        Some(n) => if (n as int) < avail {
            n as int
        } else {
            avail
        },
        None => avail,
    }
}

/// The number of rows to show, from the requested cap and the terminal's height.
pub fn row_budget(top: Option<usize>, terminal_rows: Option<u16>) -> (r: usize)
    ensures
        r == row_budget_of(top, terminal_rows),
{
    let rows: usize = match terminal_rows {
        Some(h) => h as usize,
        None => 0,
    };
    let avail = rows.saturating_sub(HEADER_ROWS);
    match top {
        Some(n) => if n < avail {
            n
        } else {
            avail
        },
        None => avail,
    }
}

/// The first `n` samples, or all of them when there are fewer.
pub fn take_rows(ranked: Vec<UsageSample>, n: usize) -> (r: Vec<UsageSample>)
    ensures
        n <= ranked@.len() ==> r@ == ranked@.subrange(0, n as int),
        n > ranked@.len() ==> r@ == ranked@,
{
    let mut r = ranked;
    r.truncate(n);
    r
}

/// The rows to show: the samples ranked by `key`, cut to the row budget.
pub fn visible_rows(
    samples: Vec<UsageSample>,
    key: SortKey,
    top: Option<usize>,
    terminal_rows: Option<u16>,
) -> (r: Vec<UsageSample>)
    ensures
        r@.len() == if row_budget_of(top, terminal_rows) < samples@.len() {
            row_budget_of(top, terminal_rows)
        } else {
            samples@.len() as int
        },
        exists|full: Seq<UsageSample>|
            #![trigger full.to_multiset()]
            full.to_multiset() == samples@.to_multiset() && ordered_by(key, full) && r@
                == full.subrange(0, r@.len() as int),
{
    broadcast use vstd::seq_lib::group_to_multiset_ensures;

    let ranked = rank(samples, key);
    let ghost full = ranked@;
    let n = row_budget(top, terminal_rows);
    let r = take_rows(ranked, n);
    assert(full.len() == samples@.len()) by {
        assert(full.to_multiset().len() == samples@.to_multiset().len());
    }
    proof {
        if n > full.len() {
            assert(full =~= full.subrange(0, full.len() as int));
        }
    }
    r
}

} // verus!

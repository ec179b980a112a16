use crate::sampler::UsageSample;
use crate::text::{
    chars_of, contains_text, has_substring, lower_of, lowercase, matches_at, starts_with_text,
};
use vstd::prelude::*;

verus! {

/// Pids below this are taken for kernel processes unless a host says otherwise.
pub const DEFAULT_KERNEL_PID_FLOOR: u32 = 100;

/// Bytes in the megabyte that memory thresholds are typed in when human-readable
/// units are off.
pub const BYTES_PER_MEGABYTE: u64 = 1_000_000;

/// What the user asked to see. Every criterion is independent and optional.
pub struct FilterCriteria {
    /// Keep processes whose name holds this text, ignoring case.
    pub name: Option<String>,
    /// Keep processes whose owner's user id holds this text (lower-cased).
    pub user: Option<String>,
    /// Hide kernel processes.
    pub no_kernel: bool,
    /// Pids below this count as kernel processes on this host.
    pub kernel_pid_floor: u32,
    /// Keep processes above this CPU share, in hundredths of a percent.
    pub cpu_above: Option<i128>,
    /// Keep processes below this CPU share, in hundredths of a percent.
    pub cpu_below: Option<i128>,
    /// Keep processes above this memory: bytes with human-readable units, else megabytes.
    pub mem_above: Option<u64>,
    /// Keep processes below this memory: bytes with human-readable units, else megabytes.
    pub mem_below: Option<u64>,
    /// Whether memory is shown in scaled units.
    pub human_readable: bool,
}

/// What the process table said of one process, looked up once per refresh.
pub struct ProcessFacts {
    /// The owner's user id as text; `None` when the lookup failed.
    pub owner: Option<String>,
    /// The name the process table reports; `None` when the lookup failed.
    pub reported_name: Option<String>,
}

/// A sample with the facts looked up for its process.
pub struct Observed {
    pub sample: UsageSample,
    pub facts: ProcessFacts,
}

/// One compiled criterion.
pub enum Filter {
    /// The lower-cased text a name must hold.
    Name(Vec<char>),
    /// The text an owner's user id must hold.
    User(Vec<char>),
    /// Hide kernel processes: those reported with a name starting "kernel", or
    /// with a pid below the floor.
    NoKernel(u32),
    /// Strict lower and upper bounds on the CPU share.
    Cpu(Option<i128>, Option<i128>),
    /// Strict lower and upper bounds on memory, in bytes.
    Memory(Option<u128>, Option<u128>),
}

/// The mathematical form of a `Filter`.
pub enum FilterRule {
    Name(Seq<char>),
    User(Seq<char>),
    NoKernel(u32),
    Cpu(Option<i128>, Option<i128>),
    Memory(Option<u128>, Option<u128>),
}

impl View for Filter {
    type V = FilterRule;

    open spec fn view(&self) -> FilterRule {
        match self {
            Filter::Name(t) => FilterRule::Name(t@),
            Filter::User(t) => FilterRule::User(t@),
            Filter::NoKernel(floor) => FilterRule::NoKernel(*floor),
            Filter::Cpu(above, below) => FilterRule::Cpu(*above, *below),
            Filter::Memory(above, below) => FilterRule::Memory(*above, *below),
        }
    }
}

pub open spec fn views(filters: Seq<Filter>) -> Seq<FilterRule> {
    filters.map_values(|f: Filter| f@)
}

/// `value` lies strictly between the bounds that are present.
pub open spec fn within(value: int, above: Option<int>, below: Option<int>) -> bool {
    &&& (above is Some ==> above->0 < value)
    &&& (below is Some ==> value < below->0)
}

pub open spec fn opt_int128(v: Option<i128>) -> Option<int> {
    match v {
        Some(x) => Some(x as int),
        None => None,
    }
}

pub open spec fn opt_int_u128(v: Option<u128>) -> Option<int> {
    match v {
        Some(x) => Some(x as int),
        None => None,
    }
}

/// Whether one rule keeps a sample, given the facts looked up for its process.
/// A failed owner lookup rejects; a failed classification lookup keeps.
pub open spec fn rule_accepts(rule: FilterRule, s: UsageSample, facts: ProcessFacts) -> bool {
    match rule {
        FilterRule::Name(needle) => contains_text(lower_of(s.name@), needle),
        FilterRule::User(needle) => match facts.owner {
            Some(owner) => contains_text(owner@, needle),
            None => false,
        },
        FilterRule::NoKernel(floor) => match facts.reported_name {
            Some(name) => !starts_with_text(name@, "kernel"@) && s.pid >= floor,
            None => true,
        },
        FilterRule::Cpu(above, below) => within(
            s.cpu_centi as int,
            opt_int128(above),
            opt_int128(below),
        ),
        FilterRule::Memory(above, below) => within(
            s.memory_bytes as int,
            opt_int_u128(above),
            opt_int_u128(below),
        ),
    }
}

/// Every rule keeps the sample.
pub open spec fn accepts_all(rules: Seq<FilterRule>, s: UsageSample, facts: ProcessFacts) -> bool {
    forall|i: int| 0 <= i < rules.len() ==> rule_accepts(#[trigger] rules[i], s, facts)
}

/// A memory threshold in bytes: as typed with human-readable units, else megabytes.
pub open spec fn threshold_bytes(t: Option<u64>, human_readable: bool) -> Option<u128> {
    match t {
        Some(x) => Some(
            if human_readable {
                x as u128
            } else {
                (x * BYTES_PER_MEGABYTE) as u128
            },
        ),
        None => None,
    }
}

pub open spec fn rule_if(active: bool, rule: FilterRule) -> Seq<FilterRule> {
    if active {
        seq![rule]
    } else {
        Seq::empty()
    }
}

/// The rules of the active criteria, in a fixed order.
pub open spec fn rules_for(c: FilterCriteria) -> Seq<FilterRule> {
    rule_if(c.name is Some, FilterRule::Name(lower_of(c.name->0@))) + rule_if(
        c.user is Some,
        FilterRule::User(lower_of(c.user->0@)),
    ) + rule_if(c.no_kernel, FilterRule::NoKernel(c.kernel_pid_floor)) + rule_if(
        c.cpu_above is Some || c.cpu_below is Some,
        FilterRule::Cpu(c.cpu_above, c.cpu_below),
    ) + rule_if(
        c.mem_above is Some || c.mem_below is Some,
        FilterRule::Memory(
            threshold_bytes(c.mem_above, c.human_readable),
            threshold_bytes(c.mem_below, c.human_readable),
        ),
    )
}

/// The samples that every rule keeps, in their order.
pub open spec fn retained(rules: Seq<FilterRule>, observed: Seq<Observed>) -> Seq<UsageSample>
    decreases observed.len(),
{
    if observed.len() == 0 {
        Seq::empty()
    } else {
        let rest = retained(rules, observed.drop_last());
        let last = observed.last();
        if accepts_all(rules, last.sample, last.facts) {
            rest.push(last.sample)
        } else {
            rest
        }
    }
}

fn bytes_threshold(t: Option<u64>, human_readable: bool) -> (r: Option<u128>)
    ensures
        r == threshold_bytes(t, human_readable),
{
    match t {
        Some(x) => Some(
            if human_readable {
                x as u128
            } else {
                x as u128 * BYTES_PER_MEGABYTE as u128
            },
        ),
        None => None,
    }
}

/// Compiles the active criteria into filters, one per criterion.
pub fn build(c: &FilterCriteria) -> (r: Vec<Filter>)
    ensures
        views(r@) == rules_for(*c),
{
    let mut r: Vec<Filter> = Vec::new();
    let ghost mut expected: Seq<FilterRule> = Seq::empty();
    assert(views(r@) =~= expected);
    match &c.name {
        Some(n) => {
            r.push(Filter::Name(chars_of(lowercase(n.as_str()).as_str())));
        },
        None => {},
    }
    proof {
        expected = expected + rule_if(c.name is Some, FilterRule::Name(lower_of(c.name->0@)));
    }
    assert(views(r@) =~= expected);
    match &c.user {
        Some(u) => {
            r.push(Filter::User(chars_of(lowercase(u.as_str()).as_str())));
        },
        None => {},
    }
    proof {
        expected = expected + rule_if(c.user is Some, FilterRule::User(lower_of(c.user->0@)));
    }
    assert(views(r@) =~= expected);
    if c.no_kernel {
        r.push(Filter::NoKernel(c.kernel_pid_floor));
    }
    proof {
        expected = expected + rule_if(c.no_kernel, FilterRule::NoKernel(c.kernel_pid_floor));
    }
    assert(views(r@) =~= expected);
    if c.cpu_above.is_some() || c.cpu_below.is_some() {
        r.push(Filter::Cpu(c.cpu_above, c.cpu_below));
    }
    proof {
        expected = expected + rule_if(
            c.cpu_above is Some || c.cpu_below is Some,
            FilterRule::Cpu(c.cpu_above, c.cpu_below),
        );
    }
    assert(views(r@) =~= expected);
    if c.mem_above.is_some() || c.mem_below.is_some() {
        r.push(
            Filter::Memory(
                bytes_threshold(c.mem_above, c.human_readable),
                bytes_threshold(c.mem_below, c.human_readable),
            ),
        );
    }
    proof {
        expected = expected + rule_if(
            c.mem_above is Some || c.mem_below is Some,
            FilterRule::Memory(
                threshold_bytes(c.mem_above, c.human_readable),
                threshold_bytes(c.mem_below, c.human_readable),
            ),
        );
    }
    assert(views(r@) =~= expected);
    r
}

/// `value` lies strictly between the bounds that are present.
fn in_range_i128(value: i128, above: Option<i128>, below: Option<i128>) -> (r: bool)
    ensures
        r == within(value as int, opt_int128(above), opt_int128(below)),
{
    let above_ok = match above {
        Some(t) => t < value,
        None => true,
    };
    let below_ok = match below {
        Some(t) => value < t,
        None => true,
    };
    above_ok && below_ok
}

/// `value` lies strictly between the bounds that are present.
fn in_range_u128(value: u128, above: Option<u128>, below: Option<u128>) -> (r: bool)
    ensures
        r == within(value as int, opt_int_u128(above), opt_int_u128(below)),
{
    let above_ok = match above {
        Some(t) => t < value,
        None => true,
    };
    let below_ok = match below {
        Some(t) => value < t,
        None => true,
    };
    above_ok && below_ok
}

impl Filter {
    /// Whether this filter keeps the sample, given the facts looked up for its process.
    pub fn accepts(&self, s: &UsageSample, facts: &ProcessFacts) -> (r: bool)
        ensures
            r == rule_accepts(self@, *s, *facts),
    {
        match self {
            Filter::Name(needle) => {
                let name = chars_of(lowercase(s.name.as_str()).as_str());
                has_substring(&name, needle)
            },
            Filter::User(needle) => match &facts.owner {
                Some(owner) => has_substring(&chars_of(owner.as_str()), needle),
                None => false,
            },
            Filter::NoKernel(floor) => match &facts.reported_name {
                Some(name) => {
                    let prefix = chars_of("kernel");
                    !matches_at(&chars_of(name.as_str()), &prefix, 0) && s.pid >= *floor
                },
                None => true,
            },
            Filter::Cpu(above, below) => in_range_i128(s.cpu_centi, *above, *below),
            Filter::Memory(above, below) => in_range_u128(s.memory_bytes as u128, *above, *below),
        }
    }
}

/// Whether every filter keeps the sample.
pub fn passes(filters: &Vec<Filter>, s: &UsageSample, facts: &ProcessFacts) -> (r: bool)
    ensures
        r == accepts_all(views(filters@), *s, *facts),
{
    let mut i: usize = 0;
    while i < filters.len()
        invariant
            i <= filters@.len(),
            forall|k: int| 0 <= k < i ==> rule_accepts(#[trigger] views(filters@)[k], *s, *facts),
        decreases filters@.len() - i,
    {
        if !filters[i].accepts(s, facts) {
            assert(!rule_accepts(views(filters@)[i as int], *s, *facts));
            return false;
        }
        i = i + 1;
    }
    true
}

/// The samples that every filter keeps, in the order they came.
pub fn apply(filters: &Vec<Filter>, observed: &Vec<Observed>) -> (r: Vec<UsageSample>)
    ensures
        r@ == retained(views(filters@), observed@),
{
    let mut out: Vec<UsageSample> = Vec::new();
    let mut i: usize = 0;
    while i < observed.len()
        invariant
            i <= observed@.len(),
            out@ == retained(views(filters@), observed@.subrange(0, i as int)),
        decreases observed@.len() - i,
    {
        let o = &observed[i];
        let ghost pre = observed@.subrange(0, i + 1);
        assert(pre.drop_last() =~= observed@.subrange(0, i as int));
        if passes(filters, &o.sample, &o.facts) {
            out.push(o.sample.duplicate());
        }
        i = i + 1;
    }
    assert(observed@.subrange(0, observed@.len() as int) =~= observed@);
    out
}

/// Filters the observed samples by the criteria: `build`, then `apply`.
pub fn filter_samples(c: &FilterCriteria, observed: &Vec<Observed>) -> (r: Vec<UsageSample>)
    ensures
        r@ == retained(rules_for(*c), observed@),
{
    let filters = build(c);
    apply(&filters, observed)
}

proof fn lemma_same_rules_same_verdict(
    rules1: Seq<FilterRule>,
    rules2: Seq<FilterRule>,
    s: UsageSample,
    facts: ProcessFacts,
)
    requires
        forall|r: FilterRule| rules1.contains(r) <==> rules2.contains(r),
    ensures
        accepts_all(rules1, s, facts) == accepts_all(rules2, s, facts),
{
    if accepts_all(rules1, s, facts) {
        assert forall|i: int| 0 <= i < rules2.len() implies rule_accepts(
            #[trigger] rules2[i],
            s,
            facts,
        ) by {
            assert(rules2.contains(rules2[i]));
            let j = choose|j: int| 0 <= j < rules1.len() && rules1[j] == rules2[i];
        }
    }
    if accepts_all(rules2, s, facts) {
        assert forall|i: int| 0 <= i < rules1.len() implies rule_accepts(
            #[trigger] rules1[i],
            s,
            facts,
        ) by {
            assert(rules1.contains(rules1[i]));
            let j = choose|j: int| 0 <= j < rules2.len() && rules2[j] == rules1[i];
        }
    }
}

proof fn lemma_retained_same_rules(
    rules1: Seq<FilterRule>,
    rules2: Seq<FilterRule>,
    observed: Seq<Observed>,
)
    requires
        forall|r: FilterRule| rules1.contains(r) <==> rules2.contains(r),
    ensures
        retained(rules1, observed) == retained(rules2, observed),
    decreases observed.len(),
{
    if observed.len() > 0 {
        lemma_retained_same_rules(rules1, rules2, observed.drop_last());
        lemma_same_rules_same_verdict(
            rules1,
            rules2,
            observed.last().sample,
            observed.last().facts,
        );
    }
}

/// Filters combine by conjunction: the same filters in any order retain
/// exactly the same samples, in the same order.
pub proof fn law_filter_order_irrelevant(
    filters1: Seq<Filter>,
    filters2: Seq<Filter>,
    observed: Seq<Observed>,
)
    requires
        filters1.to_multiset() == filters2.to_multiset(),
    ensures
        retained(views(filters1), observed) == retained(views(filters2), observed),
{
    broadcast use vstd::seq_lib::group_to_multiset_ensures;

    assert forall|r: FilterRule| views(filters1).contains(r) implies views(filters2).contains(r) by {
        let i = choose|i: int| 0 <= i < views(filters1).len() && views(filters1)[i] == r;
        assert(filters1.contains(filters1[i]));
        assert(filters1.to_multiset().count(filters1[i]) > 0);
        assert(filters2.to_multiset().count(filters1[i]) > 0);
        assert(filters2.contains(filters1[i]));
        let j = choose|j: int| 0 <= j < filters2.len() && filters2[j] == filters1[i];
        assert(views(filters2)[j] == r);
    }
    assert forall|r: FilterRule| views(filters2).contains(r) implies views(filters1).contains(r) by {
        let i = choose|i: int| 0 <= i < views(filters2).len() && views(filters2)[i] == r;
        assert(filters2.contains(filters2[i]));
        assert(filters2.to_multiset().count(filters2[i]) > 0);
        assert(filters1.to_multiset().count(filters2[i]) > 0);
        assert(filters1.contains(filters2[i]));
        let j = choose|j: int| 0 <= j < filters1.len() && filters1[j] == filters2[i];
        assert(views(filters1)[j] == r);
    }
    lemma_retained_same_rules(views(filters1), views(filters2), observed);
}

/// Lookup failures are asymmetric. When the classification lookup failed, a
/// sample fares exactly as if kernel processes were not hidden, so on its own
/// the kernel criterion keeps it; when the owner lookup failed, a user
/// criterion rejects it, whatever its text.
pub proof fn law_lookup_failures(c: FilterCriteria, s: UsageSample, facts: ProcessFacts)
    ensures
        facts.reported_name is None ==> accepts_all(rules_for(c), s, facts) == accepts_all(
            rules_for(FilterCriteria { no_kernel: false, ..c }),
            s,
            facts,
        ),
        facts.reported_name is None ==> accepts_all(
            rules_for(
                FilterCriteria {
                    name: None,
                    user: None,
                    no_kernel: true,
                    cpu_above: None,
                    cpu_below: None,
                    mem_above: None,
                    mem_below: None,
                    ..c
                },
            ),
            s,
            facts,
        ),
        facts.owner is None && c.user is Some ==> !accepts_all(rules_for(c), s, facts),
{
    let on = rules_for(c);
    let off = rules_for(FilterCriteria { no_kernel: false, ..c });
    let a = rule_if(c.name is Some, FilterRule::Name(lower_of(c.name->0@))) + rule_if(
        c.user is Some,
        FilterRule::User(lower_of(c.user->0@)),
    );
    let b = rule_if(
        c.cpu_above is Some || c.cpu_below is Some,
        FilterRule::Cpu(c.cpu_above, c.cpu_below),
    ) + rule_if(
        c.mem_above is Some || c.mem_below is Some,
        FilterRule::Memory(
            threshold_bytes(c.mem_above, c.human_readable),
            threshold_bytes(c.mem_below, c.human_readable),
        ),
    );
    let k = rule_if(c.no_kernel, FilterRule::NoKernel(c.kernel_pid_floor));
    assert(on =~= a + k + b);
    assert(off =~= a + b);
    if facts.reported_name is None {
        if accepts_all(off, s, facts) {
            assert forall|i: int| 0 <= i < on.len() implies rule_accepts(#[trigger] on[i], s, facts) by {
                if i < a.len() {
                    assert(on[i] == off[i]);
                } else if i >= a.len() + k.len() {
                    assert(on[i] == off[i - k.len()]);
                }
            }
        }
        if accepts_all(on, s, facts) {
            assert forall|i: int| 0 <= i < off.len() implies rule_accepts(#[trigger] off[i], s, facts) by {
                if i < a.len() {
                    assert(on[i] == off[i]);
                } else {
                    assert(on[i + k.len()] == off[i]);
                }
            }
        }
        let only = FilterCriteria {
            name: None,
            user: None,
            no_kernel: true,
            cpu_above: None,
            cpu_below: None,
            mem_above: None,
            mem_below: None,
            ..c
        };
        assert(rules_for(only) =~= seq![FilterRule::NoKernel(c.kernel_pid_floor)]);
        assert(rule_accepts(FilterRule::NoKernel(c.kernel_pid_floor), s, facts));
    }
    if facts.owner is None && c.user is Some {
        let i = rule_if(c.name is Some, FilterRule::Name(lower_of(c.name->0@))).len() as int;
        assert(on[i] == FilterRule::User(lower_of(c.user->0@)));
        assert(!rule_accepts(on[i], s, facts));
    }
}

} // verus!

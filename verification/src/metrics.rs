//! Counters and latency histograms of the daemons, and their Prometheus
//! text rendering.

use vstd::prelude::*;

use crate::text::{decimal, push_char, push_decimal, push_str};

verus! {

broadcast use vstd::string::group_string_axioms;

/// `a + b`, or `u64::MAX` when the sum does not fit.
pub open spec fn sat_add(a: u64, b: u64) -> u64 {
    if a + b > u64::MAX {
        u64::MAX
    } else {
        (a + b) as u64
    }
}

/// Saturating sum of the first `n` bucket counts (cumulative histogram count).
pub open spec fn cumulative(counts: Seq<u64>, n: int) -> u64
    decreases n,
{
    if n <= 0 {
        0
    } else {
        sat_add(cumulative(counts, n - 1), counts[n - 1])
    }
}

/// Index of the first bucket whose bound is at least `v` (`bounds.len()` when none is).
pub open spec fn bucket_index(bounds: Seq<u64>, v: u64, from: int) -> int
    decreases bounds.len() - from,
{
    if from < 0 || from >= bounds.len() {
        bounds.len() as int
    } else if v <= bounds[from] {
        from
    } else {
        bucket_index(bounds, v, from + 1)
    }
}

/// Cumulative bucket counts never decrease from one bound to the next.
pub proof fn law_cumulative_nondecreasing(counts: Seq<u64>, n: int, m: int)
    requires
        0 <= n <= m,
    ensures
        cumulative(counts, n) <= cumulative(counts, m),
    decreases m - n,
{
    if n < m {
        law_cumulative_nondecreasing(counts, n, m - 1);
    }
}

/// `n` bucket counts at zero.
pub open spec fn empty_counts(n: nat) -> Seq<u64> {
    Seq::new(n, |i: int| 0u64)
}

/// The bucket counts after one observation of `v`: the first bucket whose
/// bound is at least `v`, if any, counts one more.
pub open spec fn after_observation(bounds: Seq<u64>, counts: Seq<u64>, v: u64) -> Seq<u64> {
    let k = bucket_index(bounds, v, 0);
    if k < bounds.len() {
        counts.update(k, counts[k].wrapping_add(1))
    } else {
        counts
    }
}

/// The bucket counts after observing `obs` in order.
pub open spec fn after_observations(bounds: Seq<u64>, counts: Seq<u64>, obs: Seq<u64>) -> Seq<u64>
    decreases obs.len(),
{
    if obs.len() == 0 {
        counts
    } else {
        after_observation(bounds, after_observations(bounds, counts, obs.drop_last()), obs.last())
    }
}

/// The sum kept after observing `obs` from `start` (wrapping).
pub open spec fn sum_after(start: u64, obs: Seq<u64>) -> u64
    decreases obs.len(),
{
    if obs.len() == 0 {
        start
    } else {
        sum_after(start, obs.drop_last()).wrapping_add(obs.last())
    }
}

/// The count kept after `n` observations from `start` (wrapping).
pub open spec fn count_after(start: u64, n: nat) -> u64
    decreases n,
{
    if n == 0 {
        start
    } else {
        count_after(start, (n - 1) as nat).wrapping_add(1)
    }
}

/// The exact total of the observations.
pub open spec fn total(obs: Seq<u64>) -> nat
    decreases obs.len(),
{
    if obs.len() == 0 {
        0
    } else {
        total(obs.drop_last()) + (obs.last() as nat)
    }
}

/// How many observations are at most `b`.
pub open spec fn count_at_most(obs: Seq<u64>, b: u64) -> nat
    decreases obs.len(),
{
    if obs.len() == 0 {
        0
    } else {
        count_at_most(obs.drop_last(), b) + if obs.last() <= b { 1nat } else { 0nat }
    }
}

/// Bounds strictly increasing.
pub open spec fn strictly_increasing(bounds: Seq<u64>) -> bool {
    forall|i: int, j: int| 0 <= i < j < bounds.len() ==> #[trigger] bounds[i] < #[trigger] bounds[j]
}

/// The plain sum of the first `m` counts.
pub open spec fn count_prefix(counts: Seq<u64>, m: int) -> nat
    decreases m,
{
    if m <= 0 {
        0
    } else {
        count_prefix(counts, m - 1) + (counts[m - 1] as nat)
    }
}

/// How many observations fall in one of the first `m` buckets.
pub open spec fn in_first_buckets(bounds: Seq<u64>, obs: Seq<u64>, m: int) -> nat
    decreases obs.len(),
{
    if obs.len() == 0 {
        0
    } else {
        in_first_buckets(bounds, obs.drop_last(), m) + if bucket_index(bounds, obs.last(), 0) < m { 1nat } else { 0nat }
    }
}

proof fn lemma_bucket_index(bounds: Seq<u64>, v: u64, from: int)
    requires
        0 <= from <= bounds.len(),
    ensures
        from <= bucket_index(bounds, v, from) <= bounds.len(),
        bucket_index(bounds, v, from) < bounds.len() ==> v <= bounds[bucket_index(bounds, v, from)],
        forall|j: int| from <= j < bucket_index(bounds, v, from) ==> v > #[trigger] bounds[j],
    decreases bounds.len() - from,
{
    if from < bounds.len() && v > bounds[from] {
        lemma_bucket_index(bounds, v, from + 1);
    }
}

proof fn lemma_bucket_at_most(bounds: Seq<u64>, v: u64, k: int)
    requires
        strictly_increasing(bounds),
        0 <= k < bounds.len(),
    ensures
        bucket_index(bounds, v, 0) < k + 1 <==> v <= bounds[k],
{
    lemma_bucket_index(bounds, v, 0);
    let r = bucket_index(bounds, v, 0);
    if r <= k && r < k {
        assert(bounds[r] < bounds[k]);
    }
}

proof fn lemma_in_first_buckets_at_most(bounds: Seq<u64>, obs: Seq<u64>, k: int)
    requires
        strictly_increasing(bounds),
        0 <= k < bounds.len(),
    ensures
        in_first_buckets(bounds, obs, k + 1) == count_at_most(obs, bounds[k]),
    decreases obs.len(),
{
    if obs.len() > 0 {
        lemma_in_first_buckets_at_most(bounds, obs.drop_last(), k);
        lemma_bucket_at_most(bounds, obs.last(), k);
    }
}

proof fn lemma_in_first_buckets_bound(bounds: Seq<u64>, obs: Seq<u64>, m: int)
    ensures
        in_first_buckets(bounds, obs, m) <= obs.len(),
    decreases obs.len(),
{
    if obs.len() > 0 {
        lemma_in_first_buckets_bound(bounds, obs.drop_last(), m);
    }
}

proof fn lemma_count_prefix_update(counts: Seq<u64>, k: int, x: u64, m: int)
    requires
        0 <= k < counts.len(),
        m <= counts.len(),
    ensures
        count_prefix(counts.update(k, x), m) == count_prefix(counts, m) + (if k < m { x - counts[k] } else { 0int }),
    decreases m,
{
    if m > 0 {
        lemma_count_prefix_update(counts, k, x, m - 1);
    }
}

proof fn lemma_count_prefix_mono(counts: Seq<u64>, a: int, b: int)
    requires
        0 <= a <= b,
    ensures
        count_prefix(counts, a) <= count_prefix(counts, b),
    decreases b - a,
{
    if a < b {
        lemma_count_prefix_mono(counts, a, b - 1);
    }
}

proof fn lemma_cumulative_exact(counts: Seq<u64>, m: int)
    requires
        0 <= m,
        count_prefix(counts, m) <= u64::MAX,
    ensures
        cumulative(counts, m) == count_prefix(counts, m),
    decreases m,
{
    if m > 0 {
        lemma_count_prefix_mono(counts, m - 1, m);
        lemma_cumulative_exact(counts, m - 1);
    }
}

proof fn lemma_series_counts(bounds: Seq<u64>, obs: Seq<u64>)
    requires
        obs.len() < u64::MAX,
    ensures
        after_observations(bounds, empty_counts(bounds.len()), obs).len() == bounds.len(),
        forall|m: int| 0 <= m <= bounds.len() ==> #[trigger] count_prefix(
            after_observations(bounds, empty_counts(bounds.len()), obs),
            m,
        ) == in_first_buckets(bounds, obs, m),
        forall|k: int| 0 <= k < bounds.len() ==> #[trigger] after_observations(
            bounds,
            empty_counts(bounds.len()),
            obs,
        )[k] <= obs.len(),
    decreases obs.len(),
{
    let z = empty_counts(bounds.len());
    if obs.len() == 0 {
        assert forall|m: int| 0 <= m <= bounds.len() implies #[trigger] count_prefix(z, m) == in_first_buckets(bounds, obs, m) by {
            lemma_count_prefix_zero(bounds.len(), m);
        }
    } else {
        let p = obs.drop_last();
        let v = obs.last();
        lemma_series_counts(bounds, p);
        let cp = after_observations(bounds, z, p);
        let c = after_observations(bounds, z, obs);
        lemma_bucket_index(bounds, v, 0);
        let k = bucket_index(bounds, v, 0);
        if k < bounds.len() {
            assert(cp[k] <= p.len());
            assert(cp[k].wrapping_add(1) == cp[k] + 1);
            assert(c == cp.update(k, (cp[k] + 1) as u64));
            assert forall|m: int| 0 <= m <= bounds.len() implies #[trigger] count_prefix(c, m) == in_first_buckets(bounds, obs, m) by {
                lemma_count_prefix_update(cp, k, (cp[k] + 1) as u64, m);
                assert(count_prefix(cp, m) == in_first_buckets(bounds, p, m));
            }
            assert forall|j: int| 0 <= j < bounds.len() implies #[trigger] c[j] <= obs.len() by {
                assert(cp[j] <= p.len());
            }
        } else {
            assert(c == cp);
            assert forall|m: int| 0 <= m <= bounds.len() implies #[trigger] count_prefix(c, m) == in_first_buckets(bounds, obs, m) by {
                assert(count_prefix(cp, m) == in_first_buckets(bounds, p, m));
            }
            assert forall|j: int| 0 <= j < bounds.len() implies #[trigger] c[j] <= obs.len() by {
                assert(cp[j] <= p.len());
            }
        }
    }
}

proof fn lemma_count_prefix_zero(n: nat, m: int)
    requires
        m <= n,
    ensures
        count_prefix(empty_counts(n), m) == 0,
    decreases m,
{
    if m > 0 {
        lemma_count_prefix_zero(n, m - 1);
    }
}

proof fn lemma_sum_after(obs: Seq<u64>)
    requires
        total(obs) <= u64::MAX,
    ensures
        sum_after(0, obs) == total(obs),
    decreases obs.len(),
{
    if obs.len() > 0 {
        lemma_sum_after(obs.drop_last());
    }
}

proof fn lemma_count_after(n: nat)
    requires
        n <= u64::MAX,
    ensures
        count_after(0, n) == n,
    decreases n,
{
    if n > 0 {
        lemma_count_after((n - 1) as nat);
    }
}

/// A histogram over increasing bounds, started empty and fed a series of
/// observations, shows in each cumulative bucket how many observations are
/// at most its bound; its count shows how many there were, and its sum
/// their total, as long as these fit in 64 bits.
pub proof fn law_histogram_series(bounds: Seq<u64>, obs: Seq<u64>)
    requires
        strictly_increasing(bounds),
        obs.len() < u64::MAX,
    ensures
        forall|k: int| 0 <= k < bounds.len() ==> #[trigger] cumulative(
            after_observations(bounds, empty_counts(bounds.len()), obs),
            k + 1,
        ) == count_at_most(obs, bounds[k]),
        count_after(0, obs.len()) == obs.len(),
        total(obs) <= u64::MAX ==> sum_after(0, obs) == total(obs),
{
    lemma_series_counts(bounds, obs);
    let c = after_observations(bounds, empty_counts(bounds.len()), obs);
    assert forall|k: int| 0 <= k < bounds.len() implies #[trigger] cumulative(c, k + 1) == count_at_most(obs, bounds[k]) by {
        assert(count_prefix(c, k + 1) == in_first_buckets(bounds, obs, k + 1));
        lemma_in_first_buckets_bound(bounds, obs, k + 1);
        lemma_cumulative_exact(c, k + 1);
        lemma_in_first_buckets_at_most(bounds, obs, k);
    }
    lemma_count_after(obs.len());
    if total(obs) <= u64::MAX {
        lemma_sum_after(obs);
    }
}

/// The latency bounds of both daemons increase strictly, so the series law
/// applies to their histograms.
pub proof fn lemma_latency_bounds_increasing()
    ensures
        strictly_increasing(runtime_bounds()),
        strictly_increasing(policy_engine_bounds()),
{
}

/// One line of the text format: `name value\n`.
pub open spec fn metric_line(name: Seq<char>, v: u64) -> Seq<char> {
    name + decimal(v as nat) + seq!['\n']
}

/// The cumulative bucket lines `prefix<bound>"} <cumulative>\n` of the first `n` buckets.
pub open spec fn bucket_lines(prefix: Seq<char>, bounds: Seq<u64>, counts: Seq<u64>, n: nat) -> Seq<char>
    decreases n,
{
    if n == 0 {
        Seq::empty()
    } else {
        bucket_lines(prefix, bounds, counts, (n - 1) as nat) + prefix + decimal(bounds[n - 1] as nat)
            + "\"} "@ + decimal(cumulative(counts, n as int) as nat) + seq!['\n']
    }
}

/// Appends `name value\n`.
fn push_metric_line(out: &mut String, name: &str, v: u64)
    ensures
        final(out)@ == old(out)@ + metric_line(name@, v),
{
    push_str(out, name);
    push_decimal(out, v as u128);
    push_char(out, '\n');
    assert(final(out)@ =~= old(out)@ + metric_line(name@, v));
}

/// Appends the cumulative bucket lines.
fn push_bucket_lines(out: &mut String, prefix: &str, bounds: &Vec<u64>, counts: &Vec<u64>)
    requires
        bounds.len() == counts.len(),
    ensures
        final(out)@ == old(out)@ + bucket_lines(prefix@, bounds@, counts@, bounds@.len()),
{
    let mut cum: u64 = 0;
    let mut idx: usize = 0;
    let ghost start = out@;
    while idx < bounds.len()
        invariant
            bounds.len() == counts.len(),
            idx <= bounds.len(),
            cum == cumulative(counts@, idx as int),
            out@ == start + bucket_lines(prefix@, bounds@, counts@, idx as nat),
        decreases bounds.len() - idx,
    {
        cum = cum.saturating_add(counts[idx]);
        push_str(out, prefix);
        push_decimal(out, bounds[idx] as u128);
        push_str(out, "\"} ");
        push_decimal(out, cum as u128);
        push_char(out, '\n');
        idx += 1;
        assert(out@ =~= start + bucket_lines(prefix@, bounds@, counts@, idx as nat));
    }
}

/// A latency histogram: per-bucket counts, total sum and total count.
pub struct Histogram {
    bounds: Vec<u64>,
    counts: Vec<u64>,
    sum: u64,
    count: u64,
}

impl Histogram {
    /// One count per bucket bound.
    #[verifier::type_invariant]
    closed spec fn wf(&self) -> bool {
        self.bounds@.len() == self.counts@.len()
    }

    /// The bucket bounds.
    pub closed spec fn spec_bounds(&self) -> Seq<u64> {
        self.bounds@
    }

    /// The (non-cumulative) count of each bucket.
    pub closed spec fn spec_counts(&self) -> Seq<u64> {
        self.counts@
    }

    /// The sum of the observed values (wrapping).
    pub closed spec fn spec_sum(&self) -> u64 {
        self.sum
    }

    /// The number of observations (wrapping).
    pub closed spec fn spec_count(&self) -> u64 {
        self.count
    }

    /// An empty histogram over the given bounds.
    pub fn new(bounds: Vec<u64>) -> (h: Histogram)
        ensures
            h.spec_bounds() == bounds@,
            h.spec_counts() == Seq::new(bounds@.len(), |i: int| 0u64),
            h.spec_sum() == 0,
            h.spec_count() == 0,
    {
        let mut counts: Vec<u64> = Vec::new();
        let mut i: usize = 0;
        while i < bounds.len()
            invariant
                i <= bounds.len(),
                counts@ == Seq::new(i as nat, |k: int| 0u64),
            decreases bounds.len() - i,
        {
            counts.push(0);
            i += 1;
            assert(counts@ =~= Seq::new(i as nat, |k: int| 0u64));
        }
        Histogram { bounds, counts, sum: 0, count: 0 }
    }

    /// Record one observation: the sum and count grow (wrapping), and the
    /// first bucket whose bound is at least `v`, if any, counts one more.
    pub fn observe(&mut self, v: u64)
        ensures
            final(self).spec_bounds() == old(self).spec_bounds(),
            final(self).spec_sum() == old(self).spec_sum().wrapping_add(v),
            final(self).spec_count() == old(self).spec_count().wrapping_add(1),
            bucket_index(old(self).spec_bounds(), v, 0) < old(self).spec_bounds().len() ==> final(self).spec_counts() == old(self).spec_counts().update(
                bucket_index(old(self).spec_bounds(), v, 0),
                old(self).spec_counts()[bucket_index(old(self).spec_bounds(), v, 0)].wrapping_add(1),
            ),
            bucket_index(old(self).spec_bounds(), v, 0) >= old(self).spec_bounds().len() ==> final(self).spec_counts() == old(self).spec_counts(),
            final(self).spec_counts() == after_observation(old(self).spec_bounds(), old(self).spec_counts(), v),
    {
        proof {
            use_type_invariant(&*self);
        }
        self.sum = self.sum.wrapping_add(v);
        self.count = self.count.wrapping_add(1);
        let mut idx: usize = 0;
        while idx < self.bounds.len()
            invariant
                idx <= self.bounds@.len(),
                self.bounds@.len() == self.counts@.len(),
                self.bounds@ == old(self).bounds@,
                self.counts@ == old(self).counts@,
                self.sum == old(self).sum.wrapping_add(v),
                self.count == old(self).count.wrapping_add(1),
                bucket_index(self.bounds@, v, 0) == bucket_index(self.bounds@, v, idx as int),
            decreases self.bounds@.len() - idx,
        {
            if v <= self.bounds[idx] {
                let c = self.counts[idx].wrapping_add(1);
                let mut counts = self.counts.clone();
                counts.set(idx, c);
                self.counts = counts;
                return;
            }
            idx += 1;
        }
    }

    /// Appends the cumulative bucket lines, then the `+Inf` bucket (the total
    /// count), the sum and the count lines, named after `name`.
    fn render(&self, out: &mut String, bucket_prefix: &str, inf_name: &str, sum_name: &str, count_name: &str)
        ensures
            final(out)@ == old(out)@ + histogram_text(
                *self,
                bucket_prefix@,
                inf_name@,
                sum_name@,
                count_name@,
            ),
    {
        proof {
            use_type_invariant(self);
        }
        push_bucket_lines(out, bucket_prefix, &self.bounds, &self.counts);
        push_metric_line(out, inf_name, self.count);
        push_metric_line(out, sum_name, self.sum);
        push_metric_line(out, count_name, self.count);
        assert(final(out)@ =~= old(out)@ + histogram_text(
            *self,
            bucket_prefix@,
            inf_name@,
            sum_name@,
            count_name@,
        ));
    }
}

/// The text of a histogram: cumulative buckets, `+Inf`, sum and count.
pub open spec fn histogram_text(
    h: Histogram,
    bucket_prefix: Seq<char>,
    inf_name: Seq<char>,
    sum_name: Seq<char>,
    count_name: Seq<char>,
) -> Seq<char> {
    bucket_lines(bucket_prefix, h.spec_bounds(), h.spec_counts(), h.spec_bounds().len())
        + metric_line(inf_name, h.spec_count()) + metric_line(sum_name, h.spec_sum())
        + metric_line(count_name, h.spec_count())
}

/// Latency bucket bounds of the policy engine, in microseconds.
pub open spec fn policy_engine_bounds() -> Seq<u64> {
    seq![100u64, 250, 500, 1_000, 2_500, 5_000, 10_000, 25_000, 50_000, 100_000]
}

/// Latency bucket bounds of the runtime daemon, in milliseconds.
pub open spec fn runtime_bounds() -> Seq<u64> {
    seq![5u64, 10, 25, 50, 100, 250, 500, 1_000, 2_500, 5_000]
}

/// Counters of the policy engine.
pub struct PolicyEngineMetrics {
    evaluate_requests_total: u64,
    evaluate_allow_total: u64,
    evaluate_deny_total: u64,
    health_checks_total: u64,
    rules_loaded: u64,
    evaluate_latency: Histogram,
}

impl Default for PolicyEngineMetrics {
    /// All counters at zero, an empty latency histogram over the engine bounds.
    fn default() -> (m: Self)
        ensures
            m.spec_requests() == 0,
            m.spec_allows() == 0,
            m.spec_denies() == 0,
            m.spec_health_checks() == 0,
            m.spec_rules_loaded() == 0,
            m.spec_latency().spec_bounds() == policy_engine_bounds(),
            m.spec_latency().spec_counts() == Seq::new(10, |i: int| 0u64),
            m.spec_latency().spec_sum() == 0,
            m.spec_latency().spec_count() == 0,
    {
        let bounds: Vec<u64> = vec![100, 250, 500, 1_000, 2_500, 5_000, 10_000, 25_000, 50_000, 100_000];
        assert(bounds@ =~= policy_engine_bounds());
        PolicyEngineMetrics {
            evaluate_requests_total: 0,
            evaluate_allow_total: 0,
            evaluate_deny_total: 0,
            health_checks_total: 0,
            rules_loaded: 0,
            evaluate_latency: Histogram::new(bounds),
        }
    }
}

/// The Prometheus text of the policy engine metrics.
pub open spec fn policy_engine_text(m: PolicyEngineMetrics) -> Seq<char> {
    "# TYPE llmos_policy_engine_evaluate_requests_total counter\n"@ + metric_line(
        "llmos_policy_engine_evaluate_requests_total "@,
        m.spec_requests(),
    ) + "# TYPE llmos_policy_engine_allow_total counter\n"@ + metric_line(
        "llmos_policy_engine_allow_total "@,
        m.spec_allows(),
    ) + "# TYPE llmos_policy_engine_deny_total counter\n"@ + metric_line(
        "llmos_policy_engine_deny_total "@,
        m.spec_denies(),
    ) + "# TYPE llmos_policy_engine_health_checks_total counter\n"@ + metric_line(
        "llmos_policy_engine_health_checks_total "@,
        m.spec_health_checks(),
    ) + "# TYPE llmos_policy_engine_rules_loaded gauge\n"@ + metric_line(
        "llmos_policy_engine_rules_loaded "@,
        m.spec_rules_loaded(),
    ) + "# TYPE llmos_policy_engine_evaluate_latency_us histogram\n"@ + histogram_text(
        m.spec_latency(),
        "llmos_policy_engine_evaluate_latency_us_bucket{le=\""@,
        "llmos_policy_engine_evaluate_latency_us_bucket{le=\"+Inf\"} "@,
        "llmos_policy_engine_evaluate_latency_us_sum "@,
        "llmos_policy_engine_evaluate_latency_us_count "@,
    )
}

impl PolicyEngineMetrics {
    /// Evaluate requests counted.
    pub closed spec fn spec_requests(&self) -> u64 {
        self.evaluate_requests_total
    }

    /// Allow decisions counted.
    pub closed spec fn spec_allows(&self) -> u64 {
        self.evaluate_allow_total
    }

    /// Deny decisions counted.
    pub closed spec fn spec_denies(&self) -> u64 {
        self.evaluate_deny_total
    }

    /// Health checks counted.
    pub closed spec fn spec_health_checks(&self) -> u64 {
        self.health_checks_total
    }

    /// The number of rules loaded.
    pub closed spec fn spec_rules_loaded(&self) -> u64 {
        self.rules_loaded
    }

    /// The evaluation latency histogram.
    pub closed spec fn spec_latency(&self) -> Histogram {
        self.evaluate_latency
    }

    /// Only the named value changed.
    pub open spec fn same_except_rules(&self, other: &Self) -> bool {
        &&& self.spec_requests() == other.spec_requests()
        &&& self.spec_allows() == other.spec_allows()
        &&& self.spec_denies() == other.spec_denies()
        &&& self.spec_health_checks() == other.spec_health_checks()
        &&& self.spec_latency() == other.spec_latency()
    }

    /// Record the number of rules loaded.
    pub fn set_rules_loaded(&mut self, count: usize)
        ensures
            final(self).spec_rules_loaded() == count as u64,
            final(self).same_except_rules(&*old(self)),
    {
        self.rules_loaded = count as u64;
    }

    /// Count one evaluate request (wrapping).
    pub fn inc_evaluate_requests(&mut self)
        ensures
            final(self).spec_requests() == old(self).spec_requests().wrapping_add(1),
            final(self).spec_allows() == old(self).spec_allows(),
            final(self).spec_denies() == old(self).spec_denies(),
            final(self).spec_health_checks() == old(self).spec_health_checks(),
            final(self).spec_rules_loaded() == old(self).spec_rules_loaded(),
            final(self).spec_latency() == old(self).spec_latency(),
    {
        self.evaluate_requests_total = self.evaluate_requests_total.wrapping_add(1);
    }

    /// Count one allow decision (wrapping).
    pub fn inc_allow(&mut self)
        ensures
            final(self).spec_allows() == old(self).spec_allows().wrapping_add(1),
            final(self).spec_requests() == old(self).spec_requests(),
            final(self).spec_denies() == old(self).spec_denies(),
            final(self).spec_health_checks() == old(self).spec_health_checks(),
            final(self).spec_rules_loaded() == old(self).spec_rules_loaded(),
            final(self).spec_latency() == old(self).spec_latency(),
    {
        self.evaluate_allow_total = self.evaluate_allow_total.wrapping_add(1);
    }

    /// Count one deny decision (wrapping).
    pub fn inc_deny(&mut self)
        ensures
            final(self).spec_denies() == old(self).spec_denies().wrapping_add(1),
            final(self).spec_requests() == old(self).spec_requests(),
            final(self).spec_allows() == old(self).spec_allows(),
            final(self).spec_health_checks() == old(self).spec_health_checks(),
            final(self).spec_rules_loaded() == old(self).spec_rules_loaded(),
            final(self).spec_latency() == old(self).spec_latency(),
    {
        self.evaluate_deny_total = self.evaluate_deny_total.wrapping_add(1);
    }

    /// Count one health check (wrapping).
    pub fn inc_health_checks(&mut self)
        ensures
            final(self).spec_health_checks() == old(self).spec_health_checks().wrapping_add(1),
            final(self).spec_requests() == old(self).spec_requests(),
            final(self).spec_allows() == old(self).spec_allows(),
            final(self).spec_denies() == old(self).spec_denies(),
            final(self).spec_rules_loaded() == old(self).spec_rules_loaded(),
            final(self).spec_latency() == old(self).spec_latency(),
    {
        self.health_checks_total = self.health_checks_total.wrapping_add(1);
    }

    /// Record one evaluation latency, in microseconds.
    pub fn observe_evaluate_latency(&mut self, elapsed_us: u64)
        ensures
            final(self).spec_latency().spec_bounds() == old(self).spec_latency().spec_bounds(),
            final(self).spec_latency().spec_sum() == old(self).spec_latency().spec_sum().wrapping_add(elapsed_us),
            final(self).spec_latency().spec_count() == old(self).spec_latency().spec_count().wrapping_add(1),
            bucket_index(old(self).spec_latency().spec_bounds(), elapsed_us, 0) < old(self).spec_latency().spec_bounds().len()
                ==> final(self).spec_latency().spec_counts() == old(self).spec_latency().spec_counts().update(
                bucket_index(old(self).spec_latency().spec_bounds(), elapsed_us, 0),
                old(self).spec_latency().spec_counts()[bucket_index(old(self).spec_latency().spec_bounds(), elapsed_us, 0)].wrapping_add(1),
            ),
            bucket_index(old(self).spec_latency().spec_bounds(), elapsed_us, 0) >= old(self).spec_latency().spec_bounds().len()
                ==> final(self).spec_latency().spec_counts() == old(self).spec_latency().spec_counts(),
            final(self).spec_latency().spec_counts() == after_observation(
                old(self).spec_latency().spec_bounds(),
                old(self).spec_latency().spec_counts(),
                elapsed_us,
            ),
            final(self).spec_requests() == old(self).spec_requests(),
            final(self).spec_allows() == old(self).spec_allows(),
            final(self).spec_denies() == old(self).spec_denies(),
            final(self).spec_health_checks() == old(self).spec_health_checks(),
            final(self).spec_rules_loaded() == old(self).spec_rules_loaded(),
    {
        self.evaluate_latency.observe(elapsed_us);
    }

    /// The metrics in the Prometheus text format.
    pub fn render_prometheus(&self) -> (r: String)
        ensures
            r@ == policy_engine_text(*self),
    {
        let mut out = String::new();
        push_str(&mut out, "# TYPE llmos_policy_engine_evaluate_requests_total counter\n");
        push_metric_line(&mut out, "llmos_policy_engine_evaluate_requests_total ", self.evaluate_requests_total);
        push_str(&mut out, "# TYPE llmos_policy_engine_allow_total counter\n");
        push_metric_line(&mut out, "llmos_policy_engine_allow_total ", self.evaluate_allow_total);
        push_str(&mut out, "# TYPE llmos_policy_engine_deny_total counter\n");
        push_metric_line(&mut out, "llmos_policy_engine_deny_total ", self.evaluate_deny_total);
        push_str(&mut out, "# TYPE llmos_policy_engine_health_checks_total counter\n");
        push_metric_line(&mut out, "llmos_policy_engine_health_checks_total ", self.health_checks_total);
        push_str(&mut out, "# TYPE llmos_policy_engine_rules_loaded gauge\n");
        push_metric_line(&mut out, "llmos_policy_engine_rules_loaded ", self.rules_loaded);
        push_str(&mut out, "# TYPE llmos_policy_engine_evaluate_latency_us histogram\n");
        self.evaluate_latency.render(
            &mut out,
            "llmos_policy_engine_evaluate_latency_us_bucket{le=\"",
            "llmos_policy_engine_evaluate_latency_us_bucket{le=\"+Inf\"} ",
            "llmos_policy_engine_evaluate_latency_us_sum ",
            "llmos_policy_engine_evaluate_latency_us_count ",
        );
        assert(out@ =~= policy_engine_text(*self));
        out
    }
}


/// The counters and gauges of the runtime daemon.
#[derive(Debug, Clone, Copy, PartialEq, Eq)]
pub struct RuntimeCounters {
    pub policy_requests_total: u64,
    pub policy_retries_total: u64,
    pub policy_denies_total: u64,
    pub policy_allows_total: u64,
    pub policy_breaker_open_total: u64,
    pub policy_breaker_open_state: u64,
    pub audit_write_failures_total: u64,
    pub audit_last_write_failed: u64,
}

/// Metrics of the runtime daemon: policy traffic, circuit breaker, audit
/// writes and policy latency.
pub struct RuntimeMetrics {
    counters: RuntimeCounters,
    policy_latency: Histogram,
}

impl Default for RuntimeMetrics {
    /// All counters at zero, an empty latency histogram over the daemon bounds.
    fn default() -> (m: Self)
        ensures
            m.spec_counters() == (RuntimeCounters {
                policy_requests_total: 0,
                policy_retries_total: 0,
                policy_denies_total: 0,
                policy_allows_total: 0,
                policy_breaker_open_total: 0,
                policy_breaker_open_state: 0,
                audit_write_failures_total: 0,
                audit_last_write_failed: 0,
            }),
            m.spec_latency().spec_bounds() == runtime_bounds(),
            m.spec_latency().spec_counts() == Seq::new(10, |i: int| 0u64),
            m.spec_latency().spec_sum() == 0,
            m.spec_latency().spec_count() == 0,
    {
        let bounds: Vec<u64> = vec![5, 10, 25, 50, 100, 250, 500, 1_000, 2_500, 5_000];
        assert(bounds@ =~= runtime_bounds());
        RuntimeMetrics {
            counters: RuntimeCounters {
                policy_requests_total: 0,
                policy_retries_total: 0,
                policy_denies_total: 0,
                policy_allows_total: 0,
                policy_breaker_open_total: 0,
                policy_breaker_open_state: 0,
                audit_write_failures_total: 0,
                audit_last_write_failed: 0,
            },
            policy_latency: Histogram::new(bounds),
        }
    }
}

/// The Prometheus text of the runtime metrics.
pub open spec fn runtime_text(m: RuntimeMetrics) -> Seq<char> {
    let c = m.spec_counters();
    "# TYPE llmos_policy_requests_total counter\n"@ + metric_line(
        "llmos_policy_requests_total "@,
        c.policy_requests_total,
    ) + "# TYPE llmos_policy_retries_total counter\n"@ + metric_line(
        "llmos_policy_retries_total "@,
        c.policy_retries_total,
    ) + "# TYPE llmos_policy_denies_total counter\n"@ + metric_line(
        "llmos_policy_denies_total "@,
        c.policy_denies_total,
    ) + "# TYPE llmos_policy_allows_total counter\n"@ + metric_line(
        "llmos_policy_allows_total "@,
        c.policy_allows_total,
    ) + "# TYPE llmos_policy_breaker_open_total counter\n"@ + metric_line(
        "llmos_policy_breaker_open_total "@,
        c.policy_breaker_open_total,
    ) + "# TYPE llmos_policy_breaker_open gauge\n"@ + metric_line(
        "llmos_policy_breaker_open "@,
        c.policy_breaker_open_state,
    ) + "# TYPE llmos_audit_queue_depth gauge\n"@ + "llmos_audit_queue_depth 0\n"@
        + "# TYPE llmos_audit_write_failures_total counter\n"@ + metric_line(
        "llmos_audit_write_failures_total "@,
        c.audit_write_failures_total,
    ) + "# TYPE llmos_audit_last_write_failed gauge\n"@ + metric_line(
        "llmos_audit_last_write_failed "@,
        c.audit_last_write_failed,
    ) + "# TYPE llmos_policy_latency_ms histogram\n"@ + histogram_text(
        m.spec_latency(),
        "llmos_policy_latency_ms_bucket{le=\""@,
        "llmos_policy_latency_ms_bucket{le=\"+Inf\"} "@,
        "llmos_policy_latency_ms_sum "@,
        "llmos_policy_latency_ms_count "@,
    )
}

impl RuntimeMetrics {
    /// The counters and gauges.
    pub closed spec fn spec_counters(&self) -> RuntimeCounters {
        self.counters
    }

    /// The policy latency histogram (milliseconds).
    pub closed spec fn spec_latency(&self) -> Histogram {
        self.policy_latency
    }

    /// The current counters and gauges.
    pub fn counters(&self) -> (c: RuntimeCounters)
        ensures
            c == self.spec_counters(),
    {
        self.counters
    }

    /// Count one policy request (wrapping).
    pub fn inc_policy_requests(&mut self)
        ensures
            final(self).spec_counters() == (RuntimeCounters {
                policy_requests_total: old(self).spec_counters().policy_requests_total.wrapping_add(1),
                ..old(self).spec_counters()
            }),
            final(self).spec_latency() == old(self).spec_latency(),
    {
        self.counters.policy_requests_total = self.counters.policy_requests_total.wrapping_add(1);
    }

    /// Count one policy retry (wrapping).
    pub fn inc_policy_retries(&mut self)
        ensures
            final(self).spec_counters() == (RuntimeCounters {
                policy_retries_total: old(self).spec_counters().policy_retries_total.wrapping_add(1),
                ..old(self).spec_counters()
            }),
            final(self).spec_latency() == old(self).spec_latency(),
    {
        self.counters.policy_retries_total = self.counters.policy_retries_total.wrapping_add(1);
    }

    /// Count one denied action (wrapping).
    pub fn inc_policy_denies(&mut self)
        ensures
            final(self).spec_counters() == (RuntimeCounters {
                policy_denies_total: old(self).spec_counters().policy_denies_total.wrapping_add(1),
                ..old(self).spec_counters()
            }),
            final(self).spec_latency() == old(self).spec_latency(),
    {
        self.counters.policy_denies_total = self.counters.policy_denies_total.wrapping_add(1);
    }

    /// Count one allowed action (wrapping).
    pub fn inc_policy_allows(&mut self)
        ensures
            final(self).spec_counters() == (RuntimeCounters {
                policy_allows_total: old(self).spec_counters().policy_allows_total.wrapping_add(1),
                ..old(self).spec_counters()
            }),
            final(self).spec_latency() == old(self).spec_latency(),
    {
        self.counters.policy_allows_total = self.counters.policy_allows_total.wrapping_add(1);
    }

    /// Record one policy latency, in milliseconds.
    pub fn observe_policy_latency(&mut self, elapsed_ms: u64)
        ensures
            final(self).spec_counters() == old(self).spec_counters(),
            final(self).spec_latency().spec_bounds() == old(self).spec_latency().spec_bounds(),
            final(self).spec_latency().spec_sum() == old(self).spec_latency().spec_sum().wrapping_add(elapsed_ms),
            final(self).spec_latency().spec_count() == old(self).spec_latency().spec_count().wrapping_add(1),
            bucket_index(old(self).spec_latency().spec_bounds(), elapsed_ms, 0) < old(self).spec_latency().spec_bounds().len()
                ==> final(self).spec_latency().spec_counts() == old(self).spec_latency().spec_counts().update(
                bucket_index(old(self).spec_latency().spec_bounds(), elapsed_ms, 0),
                old(self).spec_latency().spec_counts()[bucket_index(old(self).spec_latency().spec_bounds(), elapsed_ms, 0)].wrapping_add(1),
            ),
            bucket_index(old(self).spec_latency().spec_bounds(), elapsed_ms, 0) >= old(self).spec_latency().spec_bounds().len()
                ==> final(self).spec_latency().spec_counts() == old(self).spec_latency().spec_counts(),
            final(self).spec_latency().spec_counts() == after_observation(
                old(self).spec_latency().spec_bounds(),
                old(self).spec_latency().spec_counts(),
                elapsed_ms,
            ),
    {
        self.policy_latency.observe(elapsed_ms);
    }

    /// Set the breaker gauge: 1 when open, 0 when closed.
    pub fn set_breaker_open(&mut self, open: bool)
        ensures
            final(self).spec_counters() == (RuntimeCounters {
                policy_breaker_open_state: if open { 1u64 } else { 0u64 },
                ..old(self).spec_counters()
            }),
            final(self).spec_latency() == old(self).spec_latency(),
    {
        self.counters.policy_breaker_open_state = if open { 1 } else { 0 };
    }

    /// Count one opening of the breaker (wrapping).
    pub fn inc_breaker_open_total(&mut self)
        ensures
            final(self).spec_counters() == (RuntimeCounters {
                policy_breaker_open_total: old(self).spec_counters().policy_breaker_open_total.wrapping_add(1),
                ..old(self).spec_counters()
            }),
            final(self).spec_latency() == old(self).spec_latency(),
    {
        self.counters.policy_breaker_open_total = self.counters.policy_breaker_open_total.wrapping_add(1);
    }

    /// Count one failed audit write and mark the last write failed.
    pub fn mark_audit_write_failure(&mut self)
        ensures
            final(self).spec_counters() == (RuntimeCounters {
                audit_write_failures_total: old(self).spec_counters().audit_write_failures_total.wrapping_add(1),
                audit_last_write_failed: 1,
                ..old(self).spec_counters()
            }),
            final(self).spec_latency() == old(self).spec_latency(),
    {
        self.counters.audit_write_failures_total = self.counters.audit_write_failures_total.wrapping_add(1);
        self.counters.audit_last_write_failed = 1;
    }

    /// Mark the last audit write successful.
    pub fn mark_audit_write_success(&mut self)
        ensures
            final(self).spec_counters() == (RuntimeCounters {
                audit_last_write_failed: 0,
                ..old(self).spec_counters()
            }),
            final(self).spec_latency() == old(self).spec_latency(),
    {
        self.counters.audit_last_write_failed = 0;
    }

    /// The metrics in the Prometheus text format.
    pub fn render_prometheus(&self) -> (r: String)
        ensures
            r@ == runtime_text(*self),
    {
        let c = self.counters;
        let mut out = String::new();
        push_str(&mut out, "# TYPE llmos_policy_requests_total counter\n");
        push_metric_line(&mut out, "llmos_policy_requests_total ", c.policy_requests_total);
        push_str(&mut out, "# TYPE llmos_policy_retries_total counter\n");
        push_metric_line(&mut out, "llmos_policy_retries_total ", c.policy_retries_total);
        push_str(&mut out, "# TYPE llmos_policy_denies_total counter\n");
        push_metric_line(&mut out, "llmos_policy_denies_total ", c.policy_denies_total);
        push_str(&mut out, "# TYPE llmos_policy_allows_total counter\n");
        push_metric_line(&mut out, "llmos_policy_allows_total ", c.policy_allows_total);
        push_str(&mut out, "# TYPE llmos_policy_breaker_open_total counter\n");
        push_metric_line(&mut out, "llmos_policy_breaker_open_total ", c.policy_breaker_open_total);
        push_str(&mut out, "# TYPE llmos_policy_breaker_open gauge\n");
        push_metric_line(&mut out, "llmos_policy_breaker_open ", c.policy_breaker_open_state);
        push_str(&mut out, "# TYPE llmos_audit_queue_depth gauge\n");
        push_str(&mut out, "llmos_audit_queue_depth 0\n");
        push_str(&mut out, "# TYPE llmos_audit_write_failures_total counter\n");
        push_metric_line(&mut out, "llmos_audit_write_failures_total ", c.audit_write_failures_total);
        push_str(&mut out, "# TYPE llmos_audit_last_write_failed gauge\n");
        push_metric_line(&mut out, "llmos_audit_last_write_failed ", c.audit_last_write_failed);
        push_str(&mut out, "# TYPE llmos_policy_latency_ms histogram\n");
        self.policy_latency.render(
            &mut out,
            "llmos_policy_latency_ms_bucket{le=\"",
            "llmos_policy_latency_ms_bucket{le=\"+Inf\"} ",
            "llmos_policy_latency_ms_sum ",
            "llmos_policy_latency_ms_count ",
        );
        assert(out@ =~= runtime_text(*self));
        out
    }
}

} // verus!

//! Rule composition: the evaluator that runs the rule list over one pair,
//! and the ranker that selects the top qualifying candidates.
//!
//! The aggregate rating of a pair is the saturating sum of the non-negative
//! rule ratings, or exactly the disqualification sentinel (minus one whole
//! unit) once any rule rates negative; the sentinel is sticky. Under the
//! short-circuit policy, evaluation stops right after the first
//! disqualifying rule; diagnostics are recorded for every rule actually run,
//! in execution order.

use vstd::prelude::*;
use vstd::multiset::Multiset;
use crate::capped_heap::{is_top_selection, lemma_retained_is_top_selection, retained_after,
    CappedHeap};
use crate::dto::{JobDto, RuleConfigDto, RuleResultDto, WorkerDto};
use crate::engine::config::{EvaluationConfig, EvaluationContext};
use crate::engine::match_rating::{metrics_match, MatchRating};
use crate::engine::rule::Rule;
use crate::fixed::{sat_add, sat_i64, RATING_SCALE};

verus! {

/// The outcome of evaluating one pair: the aggregate rating and the per-rule
/// diagnostic trail, in execution order.
#[derive(Debug)]
pub struct MatchScore {
    pub rating: i64,
    pub details: Vec<RuleResultDto>,
}

/// The aggregate rating after the first `n` rules have run: a saturating sum
/// of non-negative ratings, locked to the sentinel once any rating is
/// negative.
pub open spec fn aggregate_after(
    rules: Seq<Rule>,
    worker: &WorkerDto,
    job: &JobDto,
    config: &EvaluationConfig,
    n: int,
) -> int
    decreases n,
{
    if n <= 0 {
        0
    } else {
        let prev = aggregate_after(rules, worker, job, config, n - 1);
        let rr = rules[n - 1].spec_rating(worker, job, config);
        if rr < 0 || prev < 0 {
            -(RATING_SCALE as int)
        } else {
            sat_i64(prev + rr)
        }
    }
}

/// The index of the first disqualifying rule at or after `i`; the rule count
/// when none disqualifies.
pub open spec fn first_failure_from(
    rules: Seq<Rule>,
    worker: &WorkerDto,
    job: &JobDto,
    config: &EvaluationConfig,
    i: int,
) -> int
    decreases rules.len() - i,
{
    if i < 0 || i >= rules.len() {
        rules.len() as int
    } else if rules[i].spec_rating(worker, job, config) < 0 {
        i
    } else {
        first_failure_from(rules, worker, job, config, i + 1)
    }
}

/// The index of the first disqualifying rule; the rule count when none
/// disqualifies.
pub open spec fn first_failure(
    rules: Seq<Rule>,
    worker: &WorkerDto,
    job: &JobDto,
    config: &EvaluationConfig,
) -> int {
    first_failure_from(rules, worker, job, config, 0)
}

/// How many rules actually run: everything up to and including the first
/// disqualifying rule under short-circuiting, every rule otherwise.
pub open spec fn executed_count(
    rules: Seq<Rule>,
    worker: &WorkerDto,
    job: &JobDto,
    config: &EvaluationConfig,
) -> int {
    if config.short_circuit_failures && first_failure(rules, worker, job, config) < rules.len() {
        first_failure(rules, worker, job, config) + 1
    } else {
        rules.len() as int
    }
}

/// The diagnostic entry `d` is exactly what `rule` reports for the pair.
pub open spec fn detail_matches(
    rule: Rule,
    worker: &WorkerDto,
    job: &JobDto,
    config: &EvaluationConfig,
    d: RuleResultDto,
) -> bool {
    &&& d.rule_name@ == rule.spec_name()
    &&& d.weight as int == rule.spec_weight()
    &&& d.rating as int == rule.spec_rating(worker, job, config)
    &&& metrics_match(d.metrics@, rule.spec_metrics(worker, job, config))
}

/// `score` is exactly the evaluation of the pair under the rule list.
pub open spec fn is_score_of(
    rules: Seq<Rule>,
    worker: &WorkerDto,
    job: &JobDto,
    config: &EvaluationConfig,
    score: MatchScore,
) -> bool {
    &&& score.rating as int == aggregate_after(rules, worker, job, config, rules.len() as int)
    &&& score.details@.len() == executed_count(rules, worker, job, config)
    &&& forall|k: int|
        0 <= k < score.details@.len() ==> detail_matches(
            rules[k],
            worker,
            job,
            config,
            #[trigger] score.details@[k],
        )
}

/// Every rule's own demands hold of the pair.
pub open spec fn pair_wf(rules: Seq<Rule>, worker: &WorkerDto, job: &JobDto) -> bool {
    forall|k: int| 0 <= k < rules.len() ==> (#[trigger] rules[k]).rating_requires(worker, job)
}

/// The pair qualifies: no rule disqualifies it.
pub open spec fn qualifies(
    rules: Seq<Rule>,
    worker: &WorkerDto,
    job: &JobDto,
    config: &EvaluationConfig,
) -> bool {
    aggregate_after(rules, worker, job, config, rules.len() as int) >= 0
}

/// The ratings of the qualifying contexts among the first `n`, in order.
pub open spec fn qual_ratings(rules: Seq<Rule>, ctxs: Seq<EvaluationContext>, n: int) -> Seq<int>
    decreases n,
{
    if n <= 0 {
        Seq::empty()
    } else {
        let prev = qual_ratings(rules, ctxs, n - 1);
        let c = ctxs[n - 1];
        if qualifies(rules, c.worker, c.job, c.config) {
            prev.push(aggregate_after(rules, c.worker, c.job, c.config, rules.len() as int))
        } else {
            prev
        }
    }
}

/// The ratings of a ranked result list, in order.
pub open spec fn result_ratings(r: Seq<(usize, MatchScore)>) -> Seq<int> {
    Seq::new(r.len(), |i: int| r[i].1.rating as int)
}

/// An aggregate is never negative other than as the exact sentinel.
pub proof fn lemma_aggregate_range(
    rules: Seq<Rule>,
    worker: &WorkerDto,
    job: &JobDto,
    config: &EvaluationConfig,
    n: int,
)
    ensures
        aggregate_after(rules, worker, job, config, n) == -(RATING_SCALE as int)
            || aggregate_after(rules, worker, job, config, n) >= 0,
    decreases n,
{
    if n > 0 {
        lemma_aggregate_range(rules, worker, job, config, n - 1);
    }
}

/// Once disqualified, the aggregate stays at the sentinel.
pub proof fn lemma_aggregate_sticky(
    rules: Seq<Rule>,
    worker: &WorkerDto,
    job: &JobDto,
    config: &EvaluationConfig,
    i: int,
    n: int,
)
    requires
        0 <= i <= n,
        aggregate_after(rules, worker, job, config, i) < 0,
    ensures
        aggregate_after(rules, worker, job, config, n) == -(RATING_SCALE as int),
    decreases n - i,
{
    lemma_aggregate_range(rules, worker, job, config, i);
    if n == i {
    } else {
        lemma_aggregate_sticky(rules, worker, job, config, i, n - 1);
    }
}

/// The plain (unsaturated) sum of the first `n` rule ratings.
pub open spec fn sum_ratings(
    rules: Seq<Rule>,
    worker: &WorkerDto,
    job: &JobDto,
    config: &EvaluationConfig,
    n: int,
) -> int
    decreases n,
{
    if n <= 0 {
        0
    } else {
        sum_ratings(rules, worker, job, config, n - 1) + rules[n - 1].spec_rating(
            worker,
            job,
            config,
        )
    }
}

/// When no rule disqualifies, the aggregate rating is the sum of all rule
/// ratings (exactly, whenever that sum fits the rating range).
pub proof fn lemma_aggregate_is_sum(
    rules: Seq<Rule>,
    worker: &WorkerDto,
    job: &JobDto,
    config: &EvaluationConfig,
    n: int,
)
    requires
        0 <= n <= rules.len(),
        forall|k: int| 0 <= k < n ==> (#[trigger] rules[k]).spec_rating(worker, job, config) >= 0,
        sum_ratings(rules, worker, job, config, n) <= i64::MAX,
    ensures
        aggregate_after(rules, worker, job, config, n) == sum_ratings(rules, worker, job, config, n),
        sum_ratings(rules, worker, job, config, n) >= 0,
    decreases n,
{
    if n > 0 {
        assert(rules[n - 1].spec_rating(worker, job, config) >= 0);
        lemma_aggregate_is_sum(rules, worker, job, config, n - 1);
    }
}

/// When any rule disqualifies, the aggregate rating is exactly the sentinel,
/// whatever the other rules rate.
pub proof fn lemma_aggregate_disqualified(
    rules: Seq<Rule>,
    worker: &WorkerDto,
    job: &JobDto,
    config: &EvaluationConfig,
    n: int,
)
    requires
        0 <= n <= rules.len(),
        exists|k: int|
            0 <= k < n && (#[trigger] rules[k]).spec_rating(worker, job, config) < 0,
    ensures
        aggregate_after(rules, worker, job, config, n) == -(RATING_SCALE as int),
    decreases n,
{
    let k = choose|k: int|
        0 <= k < n && (#[trigger] rules[k]).spec_rating(worker, job, config) < 0;
    if k == n - 1 {
    } else {
        lemma_aggregate_disqualified(rules, worker, job, config, n - 1);
    }
}

/// Everything before the first failure is non-negative, and the first failure
/// is a failure.
pub proof fn lemma_first_failure(
    rules: Seq<Rule>,
    worker: &WorkerDto,
    job: &JobDto,
    config: &EvaluationConfig,
)
    ensures
        0 <= first_failure(rules, worker, job, config) <= rules.len(),
        forall|k: int|
            0 <= k < first_failure(rules, worker, job, config) ==> (#[trigger] rules[k]).spec_rating(
                worker,
                job,
                config,
            ) >= 0,
        first_failure(rules, worker, job, config) < rules.len() ==> rules[first_failure(
            rules,
            worker,
            job,
            config,
        )].spec_rating(worker, job, config) < 0,
{
    lemma_first_failure_from(rules, worker, job, config, 0);
}

proof fn lemma_first_failure_from(
    rules: Seq<Rule>,
    worker: &WorkerDto,
    job: &JobDto,
    config: &EvaluationConfig,
    i: int,
)
    requires
        0 <= i <= rules.len(),
    ensures
        i <= first_failure_from(rules, worker, job, config, i) <= rules.len(),
        forall|k: int|
            i <= k < first_failure_from(rules, worker, job, config, i) ==> (
            #[trigger] rules[k]).spec_rating(worker, job, config) >= 0,
        first_failure_from(rules, worker, job, config, i) < rules.len() ==> rules[first_failure_from(
            rules,
            worker,
            job,
            config,
        i)].spec_rating(worker, job, config) < 0,
    decreases rules.len() - i,
{
    if i < rules.len() && rules[i].spec_rating(worker, job, config) >= 0 {
        lemma_first_failure_from(rules, worker, job, config, i + 1);
    }
}

/// The configured rule list, applied in registration order.
#[derive(Debug)]
pub struct RulesServiceImpl {
    pub match_ratings: Vec<Rule>,
}

impl RulesServiceImpl {
    pub fn new(match_ratings: Vec<Rule>) -> (r: RulesServiceImpl)
        ensures
            r.match_ratings == match_ratings,
    {
        RulesServiceImpl { match_ratings }
    }

    /// Lists each configured rule's name and weight, in order.
    pub fn get_rule_configs(&self) -> (r: Vec<RuleConfigDto>)
        ensures
            r@.len() == self.match_ratings@.len(),
            forall|i: int|
                0 <= i < r@.len() ==> (#[trigger] r@[i]).name@ == self.match_ratings@[i].spec_name()
                    && r@[i].weight as int == self.match_ratings@[i].spec_weight(),
    {
        let n = self.match_ratings.len();
        let mut r: Vec<RuleConfigDto> = Vec::new();
        let mut i: usize = 0;
        while i < n
            invariant
                0 <= i <= n,
                n == self.match_ratings@.len(),
                r@.len() == i,
                forall|j: int|
                    0 <= j < i ==> (#[trigger] r@[j]).name@ == self.match_ratings@[j].spec_name()
                        && r@[j].weight as int == self.match_ratings@[j].spec_weight(),
            decreases n - i,
        {
            let rule = &self.match_ratings[i];
            let name = rule.get_name();
            let weight = rule.get_weight();
            r.push(RuleConfigDto { name: String::from_str(name), weight });
            i = i + 1;
        }
        r
    }

    /// Runs every configured rule over the pair, in registration order,
    /// aggregating under the disqualification and short-circuit policy and
    /// recording one diagnostic entry per rule actually run.
    pub fn score_job_for_worker(&self, ctx: &EvaluationContext) -> (r: MatchScore)
        requires
            pair_wf(self.match_ratings@, ctx.worker, ctx.job),
        ensures
            is_score_of(self.match_ratings@, ctx.worker, ctx.job, ctx.config, r),
    {
        let ghost rules = self.match_ratings@;
        let n = self.match_ratings.len();
        let mut details: Vec<RuleResultDto> = Vec::new();
        let mut rating: i64 = 0;
        let mut i: usize = 0;
        let mut stopped = false;
        while i < n && !stopped
            invariant
                0 <= i <= n,
                n == rules.len(),
                rules == self.match_ratings@,
                pair_wf(rules, ctx.worker, ctx.job),
                rating as int == aggregate_after(rules, ctx.worker, ctx.job, ctx.config, i as int),
                details@.len() == i,
                forall|k: int|
                    0 <= k < i ==> detail_matches(
                        rules[k],
                        ctx.worker,
                        ctx.job,
                        ctx.config,
                        #[trigger] details@[k],
                    ),
                !stopped && ctx.config.short_circuit_failures ==> rating >= 0,
                !stopped && ctx.config.short_circuit_failures ==> forall|k: int|
                    0 <= k < i ==> (#[trigger] rules[k]).spec_rating(ctx.worker, ctx.job, ctx.config)
                        >= 0,
                stopped ==> ctx.config.short_circuit_failures && i >= 1 && rules[i - 1].spec_rating(
                    ctx.worker,
                    ctx.job,
                    ctx.config,
                ) < 0 && (forall|k: int|
                    0 <= k < i - 1 ==> (#[trigger] rules[k]).spec_rating(
                        ctx.worker,
                        ctx.job,
                        ctx.config,
                    ) >= 0),
            decreases n - i,
        {
            let rule = &self.match_ratings[i];
            let result = rule.determine_rating(ctx);
            let name = rule.get_name();
            let weight = rule.get_weight();
            details.push(
                RuleResultDto {
                    rule_name: String::from_str(name),
                    weight,
                    rating: result.rating,
                    metrics: result.metrics,
                },
            );
            if result.rating < 0 || rating < 0 {
                rating = -RATING_SCALE;
                if ctx.config.short_circuit_failures {
                    stopped = true;
                }
            } else {
                rating = sat_add(rating, result.rating);
            }
            i = i + 1;
        }
        proof {
            lemma_first_failure(rules, ctx.worker, ctx.job, ctx.config);
            let ff = first_failure(rules, ctx.worker, ctx.job, ctx.config);
            if stopped {
                assert(ff == i - 1);
                lemma_aggregate_sticky(
                    rules,
                    ctx.worker,
                    ctx.job,
                    ctx.config,
                    i as int,
                    rules.len() as int,
                );
            } else {
                assert(i == n);
                if ctx.config.short_circuit_failures {
                    assert(ff == rules.len());
                }
            }
        }
        MatchScore { rating, details }
    }

    /// Counts the contexts whose aggregate rating qualifies, each evaluated
    /// under its own policy.
    pub fn count_satisfied(&self, ctxs: &Vec<EvaluationContext>) -> (r: usize)
        requires
            forall|j: int|
                0 <= j < ctxs@.len() ==> pair_wf(
                    self.match_ratings@,
                    (#[trigger] ctxs@[j]).worker,
                    ctxs@[j].job,
                ),
        ensures
            r as int == qual_ratings(self.match_ratings@, ctxs@, ctxs@.len() as int).len(),
    {
        let ghost rules = self.match_ratings@;
        let n = ctxs.len();
        let mut count: usize = 0;
        let mut i: usize = 0;
        while i < n
            invariant
                0 <= i <= n,
                n == ctxs@.len(),
                rules == self.match_ratings@,
                forall|j: int|
                    0 <= j < ctxs@.len() ==> pair_wf(rules, (#[trigger] ctxs@[j]).worker, ctxs@[j].job),
                count <= i,
                count as int == qual_ratings(rules, ctxs@, i as int).len(),
            decreases n - i,
        {
            let score = self.score_job_for_worker(&ctxs[i]);
            if score.rating >= 0 {
                count = count + 1;
            }
            i = i + 1;
        }
        count
    }

    /// Ranks the contexts: every qualifying context competes, the `limit`
    /// highest-rated are kept, and they are returned as indices into `ctxs`
    /// paired with their scores, highest rating first.
    pub fn score_entries<'a, 'b, 'c, 'd>(
        &self,
        ctxs: &'a Vec<EvaluationContext<'b, 'c, 'd>>,
        limit: u32,
    ) -> (r: Vec<(usize, MatchScore)>)
        requires
            limit < usize::MAX,
            forall|j: int|
                0 <= j < ctxs@.len() ==> pair_wf(
                    self.match_ratings@,
                    (#[trigger] ctxs@[j]).worker,
                    ctxs@[j].job,
                ),
        ensures
            ({
                let rules = self.match_ratings@;
                let qual = qual_ratings(rules, ctxs@, ctxs@.len() as int);
                &&& r@.len() == if qual.len() <= limit as int {
                    qual.len() as int
                } else {
                    limit as int
                }
                &&& forall|i: int|
                    0 <= i < r@.len() ==> {
                        let c = ctxs@[(#[trigger] r@[i]).0 as int];
                        &&& r@[i].0 < ctxs@.len()
                        &&& qualifies(rules, c.worker, c.job, c.config)
                        &&& is_score_of(rules, c.worker, c.job, c.config, r@[i].1)
                    }
                &&& forall|i: int, j: int|
                    0 <= i <= j < r@.len() ==> (#[trigger] r@[i]).1.rating >= (#[trigger] r@[j]).1.rating
                &&& is_top_selection(
                    qual.to_multiset(),
                    result_ratings(r@).to_multiset(),
                    limit as int,
                )
            }),
    {
        broadcast use vstd::seq_lib::group_to_multiset_ensures;

        let ghost rules = self.match_ratings@;
        let k = limit as usize;
        let mut heap: CappedHeap<(usize, MatchScore)> = CappedHeap::new(k);
        let n = ctxs.len();
        let mut i: usize = 0;
        while i < n
            invariant
                0 <= i <= n,
                n == ctxs@.len(),
                rules == self.match_ratings@,
                forall|j: int|
                    0 <= j < ctxs@.len() ==> pair_wf(rules, (#[trigger] ctxs@[j]).worker, ctxs@[j].job),
                heap.wf(),
                heap.capacity() == k as int,
                heap.keys().to_multiset() == retained_after(
                    qual_ratings(rules, ctxs@, i as int),
                    k as int,
                ),
                forall|e: (i64, (usize, MatchScore))|
                    #[trigger] heap.entries().to_multiset().count(e) > 0 ==> {
                        let c = ctxs@[e.1.0 as int];
                        &&& e.1.0 < i
                        &&& e.0 == e.1.1.rating
                        &&& qualifies(rules, c.worker, c.job, c.config)
                        &&& is_score_of(rules, c.worker, c.job, c.config, e.1.1)
                    },
            decreases n - i,
        {
            let score = self.score_job_for_worker(&ctxs[i]);
            let ghost qr_pre = qual_ratings(rules, ctxs@, i as int);
            if score.rating >= 0 {
                let rating = score.rating;
                let ghost sc = score;
                let ghost pre = heap;
                heap.push(rating, (i, score));
                proof {
                    broadcast use vstd::multiset::group_multiset_properties;
                    broadcast use vstd::multiset::group_multiset_axioms;

                    let qr_post = qual_ratings(rules, ctxs@, i + 1);
                    assert(qr_post == qr_pre.push(rating as int));
                    assert(qr_post.len() > 0);
                    assert(qr_post.drop_last() =~= qr_pre);
                    assert(qr_post.last() == rating as int);
                    assert(retained_after(qr_post, k as int) == crate::capped_heap::top_k_step(
                        retained_after(qr_pre, k as int),
                        rating as int,
                        k as int,
                    ));
                    let newe = (rating, (i, sc));
                    assert forall|e: (i64, (usize, MatchScore))|
                        #[trigger] heap.entries().to_multiset().count(e) > 0 implies {
                        let c = ctxs@[e.1.0 as int];
                        &&& e.1.0 < i + 1
                        &&& e.0 == e.1.1.rating
                        &&& qualifies(rules, c.worker, c.job, c.config)
                        &&& is_score_of(rules, c.worker, c.job, c.config, e.1.1)
                    } by {
                        pre.lemma_wf_bounds();
                        if e != newe {
                            if pre.occupancy() < pre.capacity() {
                                assert(heap.entries().to_multiset() == pre.entries().to_multiset().insert(
                                    newe,
                                ));
                                assert(heap.entries().to_multiset().count(e)
                                    == pre.entries().to_multiset().count(e));
                            } else if pre.capacity() > 0 && (rating as int) > pre.key(0) {
                                let ins = pre.entries().to_multiset().insert(newe);
                                assert(heap.entries().to_multiset() == ins.remove(pre.entry(0)));
                                assert(ins.count(e) >= heap.entries().to_multiset().count(e));
                                assert(ins.count(e) == pre.entries().to_multiset().count(e));
                            } else {
                                assert(heap == pre);
                            }
                            assert(pre.entries().to_multiset().count(e) > 0);
                        }
                    }
                }
            } else {
                proof {
                    assert(qual_ratings(rules, ctxs@, i + 1) == qr_pre);
                }
            }
            i = i + 1;
        }

        let ghost qual = qual_ratings(rules, ctxs@, ctxs@.len() as int);
        let ghost final_keys = heap.keys().to_multiset();
        proof {
            lemma_retained_is_top_selection(qual, k as int);
            assert(qual.to_multiset().len() == qual.len());
            heap.lemma_views_agree();
            assert(final_keys.len() == heap.keys().len());
        }

        // drain: ascending by rating
        let mut drained: Vec<(usize, MatchScore)> = Vec::new();
        let ghost total = heap.occupancy();
        let mut m = heap.len();
        while m > 0
            invariant
                heap.wf(),
                m == heap.occupancy(),
                rules == self.match_ratings@,
                drained@.len() + heap.occupancy() == total,
                result_ratings(drained@).to_multiset().add(heap.keys().to_multiset())
                    == final_keys,
                forall|e: (i64, (usize, MatchScore))|
                    #[trigger] heap.entries().to_multiset().count(e) > 0 ==> {
                        let c = ctxs@[e.1.0 as int];
                        &&& e.1.0 < ctxs@.len()
                        &&& e.0 == e.1.1.rating
                        &&& qualifies(rules, c.worker, c.job, c.config)
                        &&& is_score_of(rules, c.worker, c.job, c.config, e.1.1)
                    },
                forall|a: int|
                    0 <= a < drained@.len() ==> {
                        let c = ctxs@[(#[trigger] drained@[a]).0 as int];
                        &&& drained@[a].0 < ctxs@.len()
                        &&& qualifies(rules, c.worker, c.job, c.config)
                        &&& is_score_of(rules, c.worker, c.job, c.config, drained@[a].1)
                    },
                forall|a: int, b: int|
                    0 <= a <= b < drained@.len() ==> (#[trigger] drained@[a]).1.rating <= (
                    #[trigger] drained@[b]).1.rating,
                forall|a: int, e: (i64, (usize, MatchScore))|
                    0 <= a < drained@.len() && #[trigger] heap.entries().to_multiset().count(e) > 0
                        ==> (#[trigger] drained@[a]).1.rating as int <= e.0,
            decreases m,
        {
            let ghost pre = heap;
            proof {
                heap.lemma_views_agree();
            }
            match heap.pop() {
                Some(x) => {
                    proof {
                        broadcast use vstd::multiset::group_multiset_properties;
                        broadcast use vstd::multiset::group_multiset_axioms;
                        broadcast use vstd::seq_lib::group_to_multiset_ensures;

                        pre.lemma_views_agree();
                        let e0 = pre.entry(0);
                        assert(pre.entries().to_multiset().count(e0) > 0);
                        assert(e0.1 == x);
                        // the popped entry carries its own rating as its key
                        assert(e0.0 == x.1.rating);
                        assert(pre.entries()[0] == e0 && pre.keys()[0] == pre.key(0));
                        assert(pre.key(0) == e0.0 as int);
                        // every remaining entry keeps a key at least the popped one
                        assert forall|e: (i64, (usize, MatchScore))|
                            #[trigger] heap.entries().to_multiset().count(e) > 0 implies e0.0 as int
                            <= e.0 by {
                            assert(heap.entries().to_multiset() == pre.entries().to_multiset().remove(
                                e0,
                            ));
                            assert(pre.entries().to_multiset().count(e)
                                >= heap.entries().to_multiset().count(e));
                            assert(pre.entries().contains(e));
                            let j = choose|j: int|
                                0 <= j < pre.entries().len() && pre.entries()[j] == e;
                            assert(pre.keys()[j] == e.0 as int);
                            assert(pre.key(0) <= pre.key(j));
                        }
                        assert(result_ratings(drained@.push(x)) =~= result_ratings(drained@).push(
                            x.1.rating as int,
                        ));
                        assert(pre.keys().contains(pre.key(0)));
                        assert(pre.keys().to_multiset().count(pre.key(0)) > 0);
                        assert(result_ratings(drained@.push(x)).to_multiset()
                            == result_ratings(drained@).to_multiset().insert(x.1.rating as int));
                        assert(heap.keys().to_multiset() == pre.keys().to_multiset().remove(
                            pre.key(0),
                        ));
                        assert(result_ratings(drained@).to_multiset().insert(
                            x.1.rating as int,
                        ).add(heap.keys().to_multiset()) =~= result_ratings(
                            drained@,
                        ).to_multiset().add(pre.keys().to_multiset()));
                    }
                    drained.push(x);
                },
                None => {
                    proof {
                        assert(false);
                    }
                },
            }
            m = m - 1;
        }
        proof {
            assert(heap.keys().to_multiset().len() == 0) by {
                heap.lemma_views_agree();
            }
            assert(heap.keys().to_multiset() =~= Multiset::<int>::empty()) by {
                broadcast use vstd::multiset::group_multiset_axioms;

                vstd::multiset::lemma_multiset_empty_len(heap.keys().to_multiset());
            }
            assert(result_ratings(drained@).to_multiset().add(Multiset::<int>::empty())
                =~= result_ratings(drained@).to_multiset()) by {
                broadcast use vstd::multiset::group_multiset_axioms;

            }
            assert(result_ratings(drained@).to_multiset() == final_keys);
            assert(drained@.len() == total);
        }

        // reverse: descending by rating
        let ghost drained0 = drained@;
        let mut results: Vec<(usize, MatchScore)> = Vec::new();
        let mut left = drained.len();
        while left > 0
            invariant
                0 <= left <= drained0.len(),
                drained@ =~= drained0.take(left as int),
                results@.len() == drained0.len() - left,
                forall|a: int|
                    0 <= a < results@.len() ==> #[trigger] results@[a] == drained0[drained0.len() - 1
                        - a],
            decreases left,
        {
            match drained.pop() {
                Some(x) => {
                    results.push(x);
                },
                None => {
                    proof {
                        assert(false);
                    }
                },
            }
            left = left - 1;
        }

        proof {
            let rs = results@;
            assert(rs.len() == drained0.len());
            assert forall|a: int, b: int|
                0 <= a <= b < rs.len() implies (#[trigger] rs[a]).1.rating >= (
            #[trigger] rs[b]).1.rating by {
                assert(rs[a] == drained0[drained0.len() - 1 - a]);
                assert(rs[b] == drained0[drained0.len() - 1 - b]);
            }
            assert(result_ratings(rs).to_multiset() == final_keys) by {
                assert(result_ratings(rs) =~= result_ratings(drained0).reverse());
                result_ratings(drained0).lemma_reverse_to_multiset();
            }
            assert(rs.len() == if qual.len() <= limit as int {
                qual.len() as int
            } else {
                limit as int
            }) by {
                assert(final_keys.len() == total);
                assert(is_top_selection(qual.to_multiset(), final_keys, k as int));
            }
        }
        results
    }
}

} // verus!

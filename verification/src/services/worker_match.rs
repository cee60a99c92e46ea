//! Ranking and counting workers for one job: the synchronous scoring core of
//! the worker-match service. Fetching the job and the worker list is the
//! caller's concern.

use vstd::prelude::*;
use crate::dto::{JobDto, WorkerDto};
use crate::engine::config::{EvaluationConfig, EvaluationContext};
use crate::engine::rule::Rule;
use crate::capped_heap::is_top_selection;
use crate::services::rules::{is_score_of, pair_wf, qual_ratings, qualifies, result_ratings,
    MatchScore, RulesServiceImpl};

verus! {

/// The pair demands of every rule hold for every worker against the job.
pub open spec fn workers_wf(rules: Seq<Rule>, workers: Seq<WorkerDto>, job: &JobDto) -> bool {
    forall|j: int| 0 <= j < workers.len() ==> pair_wf(rules, &(#[trigger] workers[j]), job)
}

/// The ratings of the qualifying workers among the first `n`, in order.
pub open spec fn qual_worker_ratings(
    rules: Seq<Rule>,
    workers: Seq<WorkerDto>,
    job: &JobDto,
    config: &EvaluationConfig,
    n: int,
) -> Seq<int>
    decreases n,
{
    if n <= 0 {
        Seq::empty()
    } else {
        let prev = qual_worker_ratings(rules, workers, job, config, n - 1);
        if qualifies(rules, &workers[n - 1], job, config) {
            prev.push(
                crate::services::rules::aggregate_after(
                    rules,
                    &workers[n - 1],
                    job,
                    config,
                    rules.len() as int,
                ),
            )
        } else {
            prev
        }
    }
}

/// How many of the first `n` workers qualify for the job.
pub open spec fn qual_worker_count(
    rules: Seq<Rule>,
    workers: Seq<WorkerDto>,
    job: &JobDto,
    config: &EvaluationConfig,
    n: int,
) -> int {
    qual_worker_ratings(rules, workers, job, config, n).len() as int
}

proof fn lemma_ctx_qual_len(
    rules: Seq<Rule>,
    workers: Seq<WorkerDto>,
    job: &JobDto,
    config: &EvaluationConfig,
    ctxs: Seq<EvaluationContext>,
    n: int,
)
    requires
        0 <= n <= workers.len(),
        ctxs.len() == workers.len(),
        forall|j: int|
            0 <= j < workers.len() ==> (#[trigger] ctxs[j]).worker == &workers[j] && ctxs[j].job
                == job && ctxs[j].config == config,
    ensures
        qual_ratings(rules, ctxs, n) == qual_worker_ratings(rules, workers, job, config, n),
    decreases n,
{
    if n > 0 {
        lemma_ctx_qual_len(rules, workers, job, config, ctxs, n - 1);
    }
}

/// Scores every worker for the job and returns the top `worker_limit`
/// qualifying ones, as indices into `workers` paired with their scores,
/// best first.
pub fn score_workers(
    rules_service: &RulesServiceImpl,
    job: &JobDto,
    workers: &Vec<WorkerDto>,
    worker_limit: u32,
    config: &EvaluationConfig,
) -> (r: Vec<(usize, MatchScore)>)
    requires
        worker_limit < usize::MAX,
        workers_wf(rules_service.match_ratings@, workers@, job),
    ensures
        ({
            let rules = rules_service.match_ratings@;
            let qual = qual_worker_count(rules, workers@, job, config, workers@.len() as int);
            &&& r@.len() == if qual <= worker_limit as int {
                qual
            } else {
                worker_limit as int
            }
            &&& forall|i: int|
                0 <= i < r@.len() ==> {
                    let idx = (#[trigger] r@[i]).0 as int;
                    &&& r@[i].0 < workers@.len()
                    &&& qualifies(rules, &workers@[idx], job, config)
                    &&& is_score_of(rules, &workers@[idx], job, config, r@[i].1)
                }
            &&& forall|i: int, j: int|
                0 <= i <= j < r@.len() ==> (#[trigger] r@[i]).1.rating >= (#[trigger] r@[j]).1.rating
            &&& is_top_selection(
                qual_worker_ratings(rules, workers@, job, config, workers@.len() as int).to_multiset(),
                result_ratings(r@).to_multiset(),
                worker_limit as int,
            )
        }),
{
    let ghost rules = rules_service.match_ratings@;
    let n = workers.len();
    let mut ctxs: Vec<EvaluationContext> = Vec::new();
    let mut i: usize = 0;
    while i < n
        invariant
            0 <= i <= n,
            n == workers@.len(),
            rules == rules_service.match_ratings@,
            workers_wf(rules, workers@, job),
            ctxs@.len() == i,
            forall|j: int|
                0 <= j < i ==> (#[trigger] ctxs@[j]).worker == &workers@[j] && ctxs@[j].job == job
                    && ctxs@[j].config == config,
        decreases n - i,
    {
        ctxs.push(EvaluationContext::new(&workers[i], job, config));
        i = i + 1;
    }
    proof {
        assert forall|j: int|
            0 <= j < ctxs@.len() implies pair_wf(
            rules,
            (#[trigger] ctxs@[j]).worker,
            ctxs@[j].job,
        ) by {
            assert(pair_wf(rules, &workers@[j], job));
        }
    }
    let results = rules_service.score_entries(&ctxs, worker_limit);
    proof {
        lemma_ctx_qual_len(rules, workers@, job, config, ctxs@, workers@.len() as int);
    }
    results
}

/// Counts the workers that qualify for the job, each context evaluated under
/// the given policy.
pub fn count_matching_workers(
    rules_service: &RulesServiceImpl,
    job: &JobDto,
    workers: &Vec<WorkerDto>,
    config: &EvaluationConfig,
) -> (r: usize)
    requires
        workers_wf(rules_service.match_ratings@, workers@, job),
    ensures
        r as int == qual_worker_count(
            rules_service.match_ratings@,
            workers@,
            job,
            config,
            workers@.len() as int,
        ),
{
    let ghost rules = rules_service.match_ratings@;
    let n = workers.len();
    let mut ctxs: Vec<EvaluationContext> = Vec::new();
    let mut i: usize = 0;
    while i < n
        invariant
            0 <= i <= n,
            n == workers@.len(),
            rules == rules_service.match_ratings@,
            workers_wf(rules, workers@, job),
            ctxs@.len() == i,
            forall|j: int|
                0 <= j < i ==> (#[trigger] ctxs@[j]).worker == &workers@[j] && ctxs@[j].job == job
                    && ctxs@[j].config == config,
        decreases n - i,
    {
        ctxs.push(EvaluationContext::new(&workers[i], job, config));
        i = i + 1;
    }
    proof {
        assert forall|j: int|
            0 <= j < ctxs@.len() implies pair_wf(
            rules,
            (#[trigger] ctxs@[j]).worker,
            ctxs@[j].job,
        ) by {
            assert(pair_wf(rules, &workers@[j], job));
        }
    }
    let count = rules_service.count_satisfied(&ctxs);
    proof {
        lemma_ctx_qual_len(rules, workers@, job, config, ctxs@, workers@.len() as int);
    }
    count
}

} // verus!

//! Ranking jobs for one worker: the synchronous scoring core of the job-match
//! service. Fetching the worker and the job list is the caller's concern; the
//! functions here work on already-resolved entities.

use vstd::prelude::*;
use crate::dto::{JobDto, WorkerDto};
use crate::engine::config::{EvaluationConfig, EvaluationContext};
use crate::engine::rule::Rule;
use crate::capped_heap::is_top_selection;
use crate::services::rules::{is_score_of, pair_wf, qual_ratings, qualifies, result_ratings,
    MatchScore, RulesServiceImpl};

verus! {

/// The pair demands of every rule hold for the worker against every job.
pub open spec fn jobs_wf(rules: Seq<Rule>, worker: &WorkerDto, jobs: Seq<JobDto>) -> bool {
    forall|j: int| 0 <= j < jobs.len() ==> pair_wf(rules, worker, &(#[trigger] jobs[j]))
}

/// The ratings of the qualifying jobs among the first `n`, in order.
pub open spec fn qual_job_ratings(
    rules: Seq<Rule>,
    worker: &WorkerDto,
    jobs: Seq<JobDto>,
    config: &EvaluationConfig,
    n: int,
) -> Seq<int>
    decreases n,
{
    if n <= 0 {
        Seq::empty()
    } else {
        let prev = qual_job_ratings(rules, worker, jobs, config, n - 1);
        if qualifies(rules, worker, &jobs[n - 1], config) {
            prev.push(
                crate::services::rules::aggregate_after(
                    rules,
                    worker,
                    &jobs[n - 1],
                    config,
                    rules.len() as int,
                ),
            )
        } else {
            prev
        }
    }
}

/// How many of the first `n` jobs qualify for the worker.
pub open spec fn qual_job_count(
    rules: Seq<Rule>,
    worker: &WorkerDto,
    jobs: Seq<JobDto>,
    config: &EvaluationConfig,
    n: int,
) -> int {
    qual_job_ratings(rules, worker, jobs, config, n).len() as int
}

proof fn lemma_ctx_qual_len(
    rules: Seq<Rule>,
    worker: &WorkerDto,
    jobs: Seq<JobDto>,
    config: &EvaluationConfig,
    ctxs: Seq<EvaluationContext>,
    n: int,
)
    requires
        0 <= n <= jobs.len(),
        ctxs.len() == jobs.len(),
        forall|j: int|
            0 <= j < jobs.len() ==> (#[trigger] ctxs[j]).worker == worker && ctxs[j].job
                == &jobs[j] && ctxs[j].config == config,
    ensures
        qual_ratings(rules, ctxs, n) == qual_job_ratings(rules, worker, jobs, config, n),
    decreases n,
{
    if n > 0 {
        lemma_ctx_qual_len(rules, worker, jobs, config, ctxs, n - 1);
    }
}

/// Scores every job for the worker and returns the top `job_limit` qualifying
/// ones, as indices into `jobs` paired with their scores, best first.
pub fn score_jobs(
    rules_service: &RulesServiceImpl,
    worker: &WorkerDto,
    jobs: &Vec<JobDto>,
    job_limit: u32,
    config: &EvaluationConfig,
) -> (r: Vec<(usize, MatchScore)>)
    requires
        job_limit < usize::MAX,
        jobs_wf(rules_service.match_ratings@, worker, jobs@),
    ensures
        ({
            let rules = rules_service.match_ratings@;
            let qual = qual_job_count(rules, worker, jobs@, config, jobs@.len() as int);
            &&& r@.len() == if qual <= job_limit as int {
                qual
            } else {
                job_limit as int
            }
            &&& forall|i: int|
                0 <= i < r@.len() ==> {
                    let idx = (#[trigger] r@[i]).0 as int;
                    &&& r@[i].0 < jobs@.len()
                    &&& qualifies(rules, worker, &jobs@[idx], config)
                    &&& is_score_of(rules, worker, &jobs@[idx], config, r@[i].1)
                }
            &&& forall|i: int, j: int|
                0 <= i <= j < r@.len() ==> (#[trigger] r@[i]).1.rating >= (#[trigger] r@[j]).1.rating
            &&& is_top_selection(
                qual_job_ratings(rules, worker, jobs@, config, jobs@.len() as int).to_multiset(),
                result_ratings(r@).to_multiset(),
                job_limit as int,
            )
        }),
{
    let ghost rules = rules_service.match_ratings@;
    let n = jobs.len();
    let mut ctxs: Vec<EvaluationContext> = Vec::new();
    let mut i: usize = 0;
    while i < n
        invariant
            0 <= i <= n,
            n == jobs@.len(),
            rules == rules_service.match_ratings@,
            jobs_wf(rules, worker, jobs@),
            ctxs@.len() == i,
            forall|j: int|
                0 <= j < i ==> (#[trigger] ctxs@[j]).worker == worker && ctxs@[j].job == &jobs@[j]
                    && ctxs@[j].config == config,
        decreases n - i,
    {
        ctxs.push(EvaluationContext::new(worker, &jobs[i], config));
        i = i + 1;
    }
    proof {
        assert forall|j: int|
            0 <= j < ctxs@.len() implies pair_wf(
            rules,
            (#[trigger] ctxs@[j]).worker,
            ctxs@[j].job,
        ) by {
            assert(pair_wf(rules, worker, &jobs@[j]));
        }
    }
    let results = rules_service.score_entries(&ctxs, job_limit);
    proof {
        lemma_ctx_qual_len(rules, worker, jobs@, config, ctxs@, jobs@.len() as int);
    }
    results
}

} // verus!

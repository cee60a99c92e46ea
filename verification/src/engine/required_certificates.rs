//! Scores a worker by the job's required certificates, with geometric decay:
//! the first held certificate is worth one whole unit, each further one 80%
//! of the previous increment. A missing certificate disqualifies; a policy
//! flag decides whether scanning stops at the first miss.

use vstd::prelude::*;
use vstd::arithmetic::div_mod::lemma_fundamental_div_mod;
use crate::dto::{JobDto, WorkerDto};
use crate::engine::config::{EvaluationConfig, EvaluationContext};
use crate::engine::match_rating::{count_metric, metric_of_count, metrics_match, MatchRating,
    RatingResult};
use crate::fixed::RATING_SCALE;

verus! {

#[derive(Debug)]
pub struct HasRequiredCertificates {
    pub weight: i64,
}

impl HasRequiredCertificates {
    pub fn new(weight: i64) -> (r: HasRequiredCertificates)
        ensures
            r.spec_weight() == weight as int,
    {
        HasRequiredCertificates { weight }
    }
}

/// The worker's certificate list contains `c`.
pub open spec fn worker_holds(certs: Seq<Option<String>>, c: Seq<char>) -> bool {
    exists|i: int|
        0 <= i < certs.len() && (#[trigger] certs[i]).is_some() && certs[i].unwrap()@ == c
}

/// Folding the first `n` required certificates: the accumulated score, the
/// next increment (both micro-units, the increment decaying by a factor of
/// four fifths with truncation), and how many were missing.
pub open spec fn cert_fold(req: Seq<String>, certs: Seq<Option<String>>, n: int) -> (int, int, int)
    decreases n,
{
    if n <= 0 {
        (0, RATING_SCALE as int, 0)
    } else {
        let prev = cert_fold(req, certs, n - 1);
        if worker_holds(certs, req[n - 1]@) {
            (prev.0 + prev.1, prev.1 * 4 / 5, prev.2)
        } else {
            (prev.0, prev.1, prev.2 + 1)
        }
    }
}

/// Some required certificate is not held.
pub open spec fn some_cert_missing(req: Seq<String>, certs: Seq<Option<String>>) -> bool {
    exists|k: int| 0 <= k < req.len() && !worker_holds(certs, (#[trigger] req[k])@)
}

/// The decayed sum of held certificates when all are held, the
/// disqualification sentinel otherwise. The weight plays no part.
pub open spec fn certificates_rating(worker: &WorkerDto, job: &JobDto) -> int {
    let f = cert_fold(
        job.required_certificates@,
        worker.certificates@,
        job.required_certificates@.len() as int,
    );
    if f.2 == 0 {
        f.0
    } else {
        -(RATING_SCALE as int)
    }
}

pub open spec fn certificates_metrics(
    worker: &WorkerDto,
    job: &JobDto,
    config: &EvaluationConfig,
) -> Seq<(Seq<char>, int)> {
    let req = job.required_certificates@;
    let certs = worker.certificates@;
    if config.short_circuit_failures && some_cert_missing(req, certs) {
        Seq::empty()
    } else if config.with_diagnosis {
        let f = cert_fold(req, certs, req.len() as int);
        seq![
            ("ratingIncrement"@, 800000int),
            ("hasCertificates"@, metric_of_count(req.len() - f.2)),
            ("missingCertificates"@, metric_of_count(f.2)),
            ("weightedScore"@, f.0),
        ]
    } else {
        Seq::empty()
    }
}

/// The fold keeps its score and increment non-negative, with the score plus
/// five increments never above five whole units.
proof fn lemma_cert_fold_bounds(req: Seq<String>, certs: Seq<Option<String>>, n: int)
    requires
        0 <= n,
    ensures
        ({
            let f = cert_fold(req, certs, n);
            &&& f.0 >= 0
            &&& f.1 >= 0
            &&& 0 <= f.2 <= n
            &&& f.0 + 5 * f.1 <= 5 * (RATING_SCALE as int)
        }),
    decreases n,
{
    if n > 0 {
        lemma_cert_fold_bounds(req, certs, n - 1);
        let prev = cert_fold(req, certs, n - 1);
        if worker_holds(certs, req[n - 1]@) {
            lemma_fundamental_div_mod(prev.1 * 4, 5);
        }
    }
}

fn worker_holds_exec(certs: &Vec<Option<String>>, c: &String) -> (r: bool)
    ensures
        r == worker_holds(certs@, c@),
{
    let n = certs.len();
    let mut i: usize = 0;
    while i < n
        invariant
            0 <= i <= n,
            n == certs@.len(),
            forall|k: int|
                0 <= k < i ==> !((#[trigger] certs@[k]).is_some() && certs@[k].unwrap()@ == c@),
        decreases n - i,
    {
        let found = match &certs[i] {
            Some(s) => *s == *c,
            None => false,
        };
        if found {
            return true;
        }
        i = i + 1;
    }
    false
}

impl MatchRating for HasRequiredCertificates {
    open spec fn spec_name(&self) -> Seq<char> {
        "HasRequiredCertificates"@
    }

    open spec fn spec_weight(&self) -> int {
        self.weight as int
    }

    open spec fn rating_requires(&self, worker: &WorkerDto, job: &JobDto) -> bool {
        true
    }

    open spec fn spec_rating(
        &self,
        worker: &WorkerDto,
        job: &JobDto,
        config: &EvaluationConfig,
    ) -> int {
        if config.short_circuit_failures && some_cert_missing(
            job.required_certificates@,
            worker.certificates@,
        ) {
            -(RATING_SCALE as int)
        } else {
            certificates_rating(worker, job)
        }
    }

    open spec fn spec_metrics(
        &self,
        worker: &WorkerDto,
        job: &JobDto,
        config: &EvaluationConfig,
    ) -> Seq<(Seq<char>, int)> {
        certificates_metrics(worker, job, config)
    }

    fn get_name(&self) -> (r: &'static str)
        ensures
            r@ == self.spec_name(),
    {
        "HasRequiredCertificates"
    }

    fn get_weight(&self) -> (r: i64)
        ensures
            r as int == self.spec_weight(),
    {
        self.weight
    }

    fn determine_rating(&self, ctx: &EvaluationContext) -> (r: RatingResult)
        ensures
            r.rating as int == self.spec_rating(ctx.worker, ctx.job, ctx.config),
            metrics_match(r.metrics@, self.spec_metrics(ctx.worker, ctx.job, ctx.config)),
    {
        let req = &ctx.job.required_certificates;
        let certs = &ctx.worker.certificates;
        let n = req.len();
        let ghost reqs = req@;
        let ghost certss = certs@;

        let mut weighted_score: i64 = 0;
        let mut increment: i64 = RATING_SCALE;
        let mut has_certs: usize = 0;
        let mut missing_certs: usize = 0;
        let mut i: usize = 0;
        while i < n
            invariant
                0 <= i <= n,
                n == reqs.len(),
                reqs == req@,
                certss == certs@,
                reqs == ctx.job.required_certificates@,
                certss == ctx.worker.certificates@,
                has_certs + missing_certs == i,
                weighted_score as int == cert_fold(reqs, certss, i as int).0,
                increment as int == cert_fold(reqs, certss, i as int).1,
                missing_certs as int == cert_fold(reqs, certss, i as int).2,
                ctx.config.short_circuit_failures ==> missing_certs == 0,
                missing_certs == 0 ==> forall|k: int|
                    0 <= k < i ==> worker_holds(certss, (#[trigger] reqs[k])@),
            decreases n - i,
        {
            proof {
                lemma_cert_fold_bounds(reqs, certss, i as int);
            }
            let held = worker_holds_exec(certs, &req[i]);
            if held {
                proof {
                    lemma_fundamental_div_mod(increment as int * 4, 5);
                }
                weighted_score = weighted_score + increment;
                increment = increment * 4 / 5;
                has_certs = has_certs + 1;
            } else {
                if ctx.config.short_circuit_failures {
                    proof {
                        assert(!worker_holds(certss, (#[trigger] reqs[i as int])@));
                        assert(some_cert_missing(reqs, certss));
                    }
                    return RatingResult { rating: -RATING_SCALE, metrics: Vec::new() };
                }
                missing_certs = missing_certs + 1;
            }
            i = i + 1;
        }

        proof {
            if missing_certs == 0 {
                assert(!some_cert_missing(reqs, certss));
            } else {
                assert(cert_fold(reqs, certss, n as int).2 > 0);
            }
            lemma_cert_fold_bounds(reqs, certss, n as int);
        }
        let mut metrics: Vec<(String, i64)> = Vec::new();
        if ctx.config.with_diagnosis {
            metrics.push((String::from_str("ratingIncrement"), 800000));
            metrics.push((String::from_str("hasCertificates"), count_metric(has_certs)));
            metrics.push((String::from_str("missingCertificates"), count_metric(missing_certs)));
            metrics.push((String::from_str("weightedScore"), weighted_score));
        }
        let rating = if missing_certs == 0 {
            weighted_score
        } else {
            -RATING_SCALE
        };
        RatingResult { rating, metrics }
    }
}

} // verus!

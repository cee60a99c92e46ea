use job_matching::config::RatingWeights;
use job_matching::dates::StartDate;
use job_matching::dto::{DayDto, GeographicAreaDto, GeographicLocationDto, JobDto, NameDto,
    WorkerDto};
use job_matching::engine::can_drive::CanDrive;
use job_matching::engine::config::{EvaluationConfig, EvaluationContext};
use job_matching::engine::pay_rate::PayRate;
use job_matching::engine::rule::{build_match_ratings, Rule};
use job_matching::services::job_match::score_jobs;
use job_matching::services::rules::RulesServiceImpl;
use job_matching::services::worker_match::{count_matching_workers, score_workers};

fn worker(has_licence: bool) -> WorkerDto {
    WorkerDto {
        guid: String::from("w"),
        user_id: 1,
        active: true,
        phone: String::from("555-0100"),
        email: String::from("worker@example.com"),
        name: NameDto {
            first: String::from("Alex"),
            last: String::from("Doe"),
        },
        age: 30,
        rating: 4,
        certificates: vec![Some(String::from("A"))],
        skills: vec![],
        job_search_address: GeographicAreaDto {
            latitude: String::from("0"),
            longitude: String::from("0"),
            max_job_distance: 10_000_000,
            unit: String::from("km"),
        },
        transportation: String::from("car"),
        has_drivers_license: has_licence,
        availability: vec![Some(DayDto {
            title: String::from("Monday"),
            day_index: 1,
        })],
    }
}

fn job(id: u32, rate: &str, needs_licence: bool) -> JobDto {
    JobDto {
        job_id: id,
        guid: format!("j-{}", id),
        location: GeographicLocationDto {
            latitude: String::from("0"),
            longitude: String::from("0"),
        },
        bill_rate: String::from(rate),
        workers_required: 1,
        driver_license_required: needs_licence,
        required_certificates: vec![],
        start_date: StartDate {
            year: 2023,
            month: 1,
            day: 2,
        },
        about: String::from(""),
        company: String::from(""),
    }
}

fn pay_and_licence_rules() -> Vec<Rule> {
    vec![
        Rule::PayRate(PayRate::new(1_000_000)),
        Rule::CanDrive(CanDrive::new()),
    ]
}

#[test]
fn ranker_returns_top_qualifying_descending() {
    // eight contexts, three disqualified, five qualifying with distinct
    // ratings; limit three: exactly the three highest, best first
    let service = RulesServiceImpl::new(pay_and_licence_rules());
    let w = worker(false);
    let jobs = vec![
        job(0, "1", true),
        job(1, "10", false),
        job(2, "2", true),
        job(3, "40", false),
        job(4, "3", true),
        job(5, "20", false),
        job(6, "50", false),
        job(7, "30", false),
    ];
    let config = EvaluationConfig {
        with_diagnosis: false,
        short_circuit_failures: true,
    };
    let ctxs: Vec<EvaluationContext> =
        jobs.iter().map(|j| EvaluationContext::new(&w, j, &config)).collect();

    let top = service.score_entries(&ctxs, 3);
    let picked: Vec<(usize, i64)> = top.iter().map(|(i, s)| (*i, s.rating)).collect();
    assert_eq!(picked, vec![(6, 50_000_000), (3, 40_000_000), (7, 30_000_000)]);
}

#[test]
fn ranker_length_is_min_of_limit_and_qualifying() {
    let service = RulesServiceImpl::new(pay_and_licence_rules());
    let w = worker(false);
    let jobs = vec![
        job(0, "1", true),
        job(1, "10", false),
        job(2, "20", false),
    ];
    let config = EvaluationConfig {
        with_diagnosis: false,
        short_circuit_failures: true,
    };
    let ctxs: Vec<EvaluationContext> =
        jobs.iter().map(|j| EvaluationContext::new(&w, j, &config)).collect();

    assert_eq!(service.score_entries(&ctxs, 0).len(), 0);
    assert_eq!(service.score_entries(&ctxs, 2).len(), 2);
    // a limit beyond the qualifying count yields all of them, fully ordered
    let all = service.score_entries(&ctxs, 10);
    assert_eq!(all.len(), 2);
    assert_eq!(all[0].0, 2);
    assert_eq!(all[1].0, 1);
}

#[test]
fn count_satisfied_ignores_disqualified() {
    let service = RulesServiceImpl::new(pay_and_licence_rules());
    let w = worker(false);
    let jobs = vec![
        job(0, "1", true),
        job(1, "10", false),
        job(2, "2", true),
        job(3, "40", false),
    ];
    let config = EvaluationConfig {
        with_diagnosis: false,
        short_circuit_failures: true,
    };
    let ctxs: Vec<EvaluationContext> =
        jobs.iter().map(|j| EvaluationContext::new(&w, j, &config)).collect();
    assert_eq!(service.count_satisfied(&ctxs), 2);
}

#[test]
fn score_jobs_ranks_for_one_worker() {
    let weights = RatingWeights {
        available_on_start_days: 1_000_000,
        required_certificates: 1_000_000,
        job_location: 2_000_000,
        pay_rate: 1_000_000,
        job_positions: 500_000,
    };
    let service = RulesServiceImpl::new(build_match_ratings(&weights));
    let w = worker(true);
    let mut good = job(1, "30", false);
    good.required_certificates = vec![String::from("A")];
    let poor = job(2, "5", false);
    let jobs = vec![poor, good];
    let config = EvaluationConfig {
        with_diagnosis: false,
        short_circuit_failures: true,
    };
    let best = score_jobs(&service, &w, &jobs, 1, &config);
    assert_eq!(best.len(), 1);
    assert_eq!(best[0].0, 1);
    assert!(best[0].1.rating > 0);
}

#[test]
fn score_workers_and_count_for_one_job() {
    let service = RulesServiceImpl::new(pay_and_licence_rules());
    let j = job(1, "25", true);
    let licensed = worker(true);
    let unlicensed = worker(false);
    let workers = vec![unlicensed, licensed];
    let config = EvaluationConfig {
        with_diagnosis: false,
        short_circuit_failures: true,
    };
    let ranked = score_workers(&service, &j, &workers, 5, &config);
    assert_eq!(ranked.len(), 1);
    assert_eq!(ranked[0].0, 1);
    assert_eq!(ranked[0].1.rating, 25_000_000);

    assert_eq!(count_matching_workers(&service, &j, &workers, &config), 1);
}

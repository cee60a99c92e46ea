use job_matching::dates::StartDate;
use job_matching::dto::{DayDto, GeographicAreaDto, GeographicLocationDto, JobDto, NameDto,
    WorkerDto};
use job_matching::engine::available_on_start_day::AvailableOnStartDay;
use job_matching::engine::can_drive::CanDrive;
use job_matching::engine::config::{EvaluationConfig, EvaluationContext};
use job_matching::engine::job_location::JobLocation;
use job_matching::engine::job_positions::JobPositions;
use job_matching::engine::match_rating::MatchRating;
use job_matching::engine::pay_rate::PayRate;
use job_matching::engine::required_certificates::HasRequiredCertificates;
use job_matching::engine::rule::Rule;
use job_matching::distance::PythagorasDistanceEvaluator;
use job_matching::fixed::{sat_scale_div, RATING_SCALE};
use job_matching::services::rules::RulesServiceImpl;

fn base_worker() -> WorkerDto {
    WorkerDto {
        guid: String::from("w-1"),
        user_id: 1,
        active: true,
        phone: String::from("555-0100"),
        email: String::from("worker@example.com"),
        name: NameDto {
            first: String::from("Alex"),
            last: String::from("Doe"),
        },
        age: 30,
        rating: 4,
        certificates: vec![Some(String::from("A")), None, Some(String::from("B"))],
        skills: vec![String::from("welding")],
        job_search_address: GeographicAreaDto {
            latitude: String::from("0"),
            longitude: String::from("0"),
            max_job_distance: 10_000_000, // 10 km
            unit: String::from("km"),
        },
        transportation: String::from("car"),
        has_drivers_license: true,
        availability: vec![
            Some(DayDto {
                title: String::from("Monday"),
                day_index: 1,
            }),
            None,
        ],
    }
}

fn base_job() -> JobDto {
    JobDto {
        job_id: 7,
        guid: String::from("j-7"),
        location: GeographicLocationDto {
            latitude: String::from("0"),
            longitude: String::from("0.5"),
        },
        bill_rate: String::from("$10"),
        workers_required: 2,
        driver_license_required: false,
        required_certificates: vec![String::from("A")],
        // 2023-01-02 was a Monday
        start_date: StartDate {
            year: 2023,
            month: 1,
            day: 2,
        },
        about: String::from("about"),
        company: String::from("ACME"),
    }
}

fn fast_path() -> EvaluationConfig {
    EvaluationConfig {
        with_diagnosis: false,
        short_circuit_failures: true,
    }
}

fn diagnostic_path() -> EvaluationConfig {
    EvaluationConfig {
        with_diagnosis: true,
        short_circuit_failures: false,
    }
}

#[test]
fn available_on_start_day_matches_weekday() {
    let worker = base_worker();
    let job = base_job();
    let config = fast_path();
    let ctx = EvaluationContext::new(&worker, &job, &config);
    let rule = AvailableOnStartDay::new(1_500_000);
    assert_eq!(rule.determine_rating(&ctx).rating, 1_500_000);
}

#[test]
fn available_on_start_day_misses_weekday() {
    let worker = base_worker();
    let mut job = base_job();
    // 2023-01-03 was a Tuesday; the worker is only available on Mondays
    job.start_date = StartDate {
        year: 2023,
        month: 1,
        day: 3,
    };
    let config = fast_path();
    let ctx = EvaluationContext::new(&worker, &job, &config);
    let rule = AvailableOnStartDay::new(1_500_000);
    assert_eq!(rule.determine_rating(&ctx).rating, 0);
}

#[test]
fn certificates_decay_geometrically() {
    // two held certificates are worth 1.0 + 0.8 units
    let worker = base_worker();
    let mut job = base_job();
    job.required_certificates = vec![String::from("A"), String::from("B")];
    let config = fast_path();
    let ctx = EvaluationContext::new(&worker, &job, &config);
    let rule = HasRequiredCertificates::new(3_000_000);
    assert_eq!(rule.determine_rating(&ctx).rating, 1_800_000);
}

#[test]
fn certificates_missing_disqualifies() {
    let worker = base_worker();
    let mut job = base_job();
    job.required_certificates = vec![String::from("A"), String::from("Z")];
    let sc = fast_path();
    let ctx = EvaluationContext::new(&worker, &job, &sc);
    let rule = HasRequiredCertificates::new(3_000_000);
    let short_circuited = rule.determine_rating(&ctx);
    assert_eq!(short_circuited.rating, -RATING_SCALE);
    assert!(short_circuited.metrics.is_empty());

    let diag = diagnostic_path();
    let ctx2 = EvaluationContext::new(&worker, &job, &diag);
    let full = rule.determine_rating(&ctx2);
    assert_eq!(full.rating, -RATING_SCALE);
    // the full scan still reports every metric
    assert_eq!(full.metrics.len(), 4);
    assert_eq!(
        full.metrics[2],
        (String::from("missingCertificates"), 1_000_000)
    );
}

#[test]
fn pay_rate_scales_by_weight() {
    let worker = base_worker();
    let mut job = base_job();
    job.bill_rate = String::from("$16.50");
    let config = fast_path();
    let ctx = EvaluationContext::new(&worker, &job, &config);
    let rule = PayRate::new(2_000_000);
    assert_eq!(rule.determine_rating(&ctx).rating, 33_000_000);
}

#[test]
fn pay_rate_parse_failure_rates_zero() {
    let worker = base_worker();
    let mut job = base_job();
    job.bill_rate = String::from("market rate");
    let config = diagnostic_path();
    let ctx = EvaluationContext::new(&worker, &job, &config);
    let rule = PayRate::new(2_000_000);
    let r = rule.determine_rating(&ctx);
    assert_eq!(r.rating, 0);
    assert!(r.metrics.is_empty());
}

#[test]
fn can_drive_gates_on_licence() {
    let mut worker = base_worker();
    worker.has_drivers_license = false;
    let mut job = base_job();
    job.driver_license_required = true;
    let config = fast_path();
    let ctx = EvaluationContext::new(&worker, &job, &config);
    let rule = CanDrive::new();
    assert_eq!(rule.determine_rating(&ctx).rating, -RATING_SCALE);

    job.driver_license_required = false;
    let ctx2 = EvaluationContext::new(&worker, &job, &config);
    assert_eq!(rule.determine_rating(&ctx2).rating, 0);
}

#[test]
fn job_positions_scales_by_open_positions() {
    let worker = base_worker();
    let mut job = base_job();
    job.workers_required = 4;
    let config = fast_path();
    let ctx = EvaluationContext::new(&worker, &job, &config);
    let rule = JobPositions::new(1_500_000);
    assert_eq!(rule.determine_rating(&ctx).rating, 6_000_000);
}

#[test]
fn job_location_linear_falloff_formula() {
    // weight 2.0, max radius 10 km, distance 5 km: rating 2.0 * (10-5)/10 = 1.0
    assert_eq!(
        sat_scale_div(2_000_000, 10_000_000 - 5_000_000, 10_000_000),
        1_000_000
    );
}

#[test]
fn job_location_rates_by_distance() {
    // same latitude, 0.5 degrees of longitude apart at the equator:
    // exactly 11.320 * 0.5 = 5.66 km; rating 2.0 * (10 - 5.66) / 10 = 0.868
    let worker = base_worker();
    let job = base_job();
    let config = fast_path();
    let ctx = EvaluationContext::new(&worker, &job, &config);
    let rule = JobLocation::new(2_000_000, PythagorasDistanceEvaluator::new());
    assert_eq!(rule.determine_rating(&ctx).rating, 868_000);
}

#[test]
fn job_location_rejects_other_units() {
    let mut worker = base_worker();
    worker.job_search_address.unit = String::from("mi");
    let job = base_job();
    let config = fast_path();
    let ctx = EvaluationContext::new(&worker, &job, &config);
    let rule = JobLocation::new(2_000_000, PythagorasDistanceEvaluator::new());
    assert_eq!(rule.determine_rating(&ctx).rating, -RATING_SCALE);
}

#[test]
fn job_location_rejects_bad_coordinates() {
    let worker = base_worker();
    let mut job = base_job();
    job.location.latitude = String::from("north");
    let config = fast_path();
    let ctx = EvaluationContext::new(&worker, &job, &config);
    let rule = JobLocation::new(2_000_000, PythagorasDistanceEvaluator::new());
    assert_eq!(rule.determine_rating(&ctx).rating, -RATING_SCALE);
}

#[test]
fn job_location_rejects_too_far() {
    let worker = base_worker();
    let mut job = base_job();
    // 2 degrees of latitude is about 221 km, far beyond the 10 km radius
    job.location.latitude = String::from("2");
    job.location.longitude = String::from("0");
    let config = fast_path();
    let ctx = EvaluationContext::new(&worker, &job, &config);
    let rule = JobLocation::new(2_000_000, PythagorasDistanceEvaluator::new());
    assert_eq!(rule.determine_rating(&ctx).rating, -RATING_SCALE);
}

fn full_rule_set() -> Vec<Rule> {
    vec![
        Rule::AvailableOnStartDay(AvailableOnStartDay::new(1_000_000)),
        Rule::HasRequiredCertificates(HasRequiredCertificates::new(1_000_000)),
        Rule::JobLocation(JobLocation::new(
            2_000_000,
            PythagorasDistanceEvaluator::new(),
        )),
        Rule::PayRate(PayRate::new(1_000_000)),
        Rule::CanDrive(CanDrive::new()),
        Rule::JobPositions(JobPositions::new(500_000)),
    ]
}

#[test]
fn aggregate_is_sum_when_nothing_disqualifies() {
    let service = RulesServiceImpl::new(full_rule_set());
    let worker = base_worker();
    let job = base_job();
    let config = fast_path();
    let ctx = EvaluationContext::new(&worker, &job, &config);
    let score = service.score_job_for_worker(&ctx);
    // 1.0 (weekday) + 1.0 (certificate) + 0.868 (location) + 10.0 (pay)
    //   + 0 (licence) + 1.0 (positions) = 13.868
    assert_eq!(score.rating, 13_868_000);
    assert_eq!(score.details.len(), 6);
}

#[test]
fn aggregate_is_sentinel_when_any_rule_disqualifies() {
    let service = RulesServiceImpl::new(full_rule_set());
    let mut worker = base_worker();
    worker.has_drivers_license = false;
    let mut job = base_job();
    job.driver_license_required = true;
    let config = diagnostic_path();
    let ctx = EvaluationContext::new(&worker, &job, &config);
    let score = service.score_job_for_worker(&ctx);
    assert_eq!(score.rating, -RATING_SCALE);
    // without short-circuiting, every rule still reports a diagnostic
    assert_eq!(score.details.len(), 6);
}

#[test]
fn short_circuit_stops_at_first_failure() {
    let service = RulesServiceImpl::new(full_rule_set());
    let mut worker = base_worker();
    worker.has_drivers_license = false;
    let mut job = base_job();
    job.driver_license_required = true;
    let config = fast_path();
    let ctx = EvaluationContext::new(&worker, &job, &config);
    let score = service.score_job_for_worker(&ctx);
    assert_eq!(score.rating, -RATING_SCALE);
    // the licence gate is the fifth rule: its index plus one entries recorded
    assert_eq!(score.details.len(), 5);
    assert_eq!(score.details[4].rule_name, "CanDrive");
}

#[test]
fn diagnostics_follow_policy_flags() {
    let service = RulesServiceImpl::new(full_rule_set());
    let worker = base_worker();
    let job = base_job();
    let fast = fast_path();
    let ctx = EvaluationContext::new(&worker, &job, &fast);
    let lean = service.score_job_for_worker(&ctx);
    assert!(lean.details.iter().all(|d| d.metrics.is_empty()));

    let diag = diagnostic_path();
    let ctx2 = EvaluationContext::new(&worker, &job, &diag);
    let full = service.score_job_for_worker(&ctx2);
    assert_eq!(full.details.len(), 6);
    assert!(full.details.iter().any(|d| !d.metrics.is_empty()));
}

#[test]
fn rule_configs_list_names_and_weights() {
    let service = RulesServiceImpl::new(full_rule_set());
    let configs = service.get_rule_configs();
    let expected = [
        ("AvailableOnStartDay", 1_000_000i64),
        ("HasRequiredCertificates", 1_000_000),
        ("JobLocation", 2_000_000),
        ("PayRate", 1_000_000),
        ("CanDrive", 1_000_000),
        ("JobPositions", 500_000),
    ];
    assert_eq!(configs.len(), expected.len());
    for (c, (name, weight)) in configs.iter().zip(expected.iter()) {
        assert_eq!(&c.name, name);
        assert_eq!(c.weight, *weight);
    }
}

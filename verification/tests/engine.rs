use ruliadema::aggregate::Aggregate;
use ruliadema::checker::ProbeResponse;
use ruliadema::checker::check_outcome;
use ruliadema::checker::outcome_from_probe;
use ruliadema::config::Config;
use ruliadema::config::Target;
use ruliadema::config::default_latency;
use ruliadema::model::CheckHistory;
use ruliadema::model::CheckResult;
use ruliadema::model::CheckStatus;
use ruliadema::scheduler::Phase;
use ruliadema::scheduler::Scheduler;

fn outcome(ts: i64, latency: Option<u64>) -> CheckResult {
    CheckResult {
        timestamp_ms: ts,
        status: if latency.is_some() { CheckStatus::Up } else { CheckStatus::Error },
        response_time_ms: latency,
        diff_from_prev: None,
        diff_from_acceptable: None,
    }
}

#[test]
fn history_caps_at_fifty_and_evicts_oldest() {
    let mut h = CheckHistory::new(String::from("https://a"), 1000);
    for i in 0..51i64 {
        h.push(outcome(i, Some(100)));
        assert!(h.results.len() <= 50);
    }
    assert_eq!(h.results.len(), 50);
    // The first inserted outcome (timestamp 0) is gone; 1..=50 remain in order.
    for (k, r) in h.results.iter().enumerate() {
        assert_eq!(r.timestamp_ms, k as i64 + 1);
    }
}

#[test]
fn delta_vs_previous_requires_both_latencies() {
    let mut h = CheckHistory::new(String::from("u"), 1000);
    h.push(outcome(0, Some(100)));
    assert_eq!(h.latest().unwrap().diff_from_prev, None);
    h.push(outcome(1, Some(130)));
    assert_eq!(h.latest().unwrap().diff_from_prev, Some(30));
    h.push(outcome(2, None));
    assert_eq!(h.latest().unwrap().diff_from_prev, None);
    h.push(outcome(3, Some(90)));
    assert_eq!(h.latest().unwrap().diff_from_prev, None);
    h.push(outcome(4, Some(100)));
    assert_eq!(h.latest().unwrap().diff_from_prev, Some(10));
}

#[test]
fn delta_vs_threshold_is_not_retroactive() {
    let mut h = CheckHistory::new(String::from("u"), 500);
    h.push(outcome(0, Some(800)));
    assert_eq!(h.latest().unwrap().diff_from_acceptable, Some(300));
    h.set_threshold(100);
    // The stored outcome keeps the delta computed under the old budget.
    assert_eq!(h.results[0].diff_from_acceptable, Some(300));
    // A later insertion uses the new budget.
    h.push(outcome(1, Some(800)));
    assert_eq!(h.latest().unwrap().diff_from_acceptable, Some(700));
}

#[test]
fn push_ignores_caller_supplied_deltas() {
    let mut h = CheckHistory::new(String::from("u"), 1000);
    let mut r = outcome(0, None);
    r.diff_from_prev = Some(77);
    r.diff_from_acceptable = Some(88);
    h.push(r);
    assert_eq!(h.latest().unwrap().diff_from_prev, None);
    assert_eq!(h.latest().unwrap().diff_from_acceptable, None);
}

#[test]
fn scenario_first_probe_over_budget() {
    let mut h = CheckHistory::new(String::from("X"), 500);
    let probe = ProbeResponse::Responded { status_code: 200, elapsed_ms: 800 };
    h.push(outcome_from_probe(&probe, 42));
    let latest = h.latest().unwrap();
    assert!(matches!(latest.status, CheckStatus::Up));
    assert_eq!(latest.response_time_ms, Some(800));
    assert_eq!(latest.diff_from_acceptable, Some(300));
    assert_eq!(latest.diff_from_prev, None);
}

#[test]
fn scenario_second_probe_improves() {
    let mut h = CheckHistory::new(String::from("X"), 500);
    h.push(outcome_from_probe(&ProbeResponse::Responded { status_code: 200, elapsed_ms: 800 }, 1));
    h.push(outcome_from_probe(&ProbeResponse::Responded { status_code: 204, elapsed_ms: 650 }, 2));
    let latest = h.latest().unwrap();
    assert_eq!(latest.diff_from_prev, Some(-150));
    assert_eq!(latest.diff_from_acceptable, Some(150));
}

#[test]
fn scenario_timed_out_probe_is_an_error_without_deltas() {
    let mut h = CheckHistory::new(String::from("X"), 500);
    h.push(outcome_from_probe(&ProbeResponse::Responded { status_code: 200, elapsed_ms: 10 }, 1));
    h.push(outcome_from_probe(&ProbeResponse::Failed, 2));
    let latest = h.latest().unwrap();
    assert!(matches!(latest.status, CheckStatus::Error));
    assert_eq!(latest.response_time_ms, None);
    assert_eq!(latest.diff_from_prev, None);
    assert_eq!(latest.diff_from_acceptable, None);
}

#[test]
fn classification_follows_the_status_code() {
    for code in [200u16, 204, 299] {
        let r = outcome_from_probe(&ProbeResponse::Responded { status_code: code, elapsed_ms: 5 }, 0);
        assert!(matches!(r.status, CheckStatus::Up));
    }
    for code in [199u16, 300, 404, 500] {
        let r = outcome_from_probe(&ProbeResponse::Responded { status_code: code, elapsed_ms: 5 }, 0);
        assert!(matches!(r.status, CheckStatus::Down));
        // The endpoint was reachable: its latency is still recorded.
        assert_eq!(r.response_time_ms, Some(5));
    }
    let r = outcome_from_probe(&ProbeResponse::Failed, 0);
    assert!(matches!(r.status, CheckStatus::Error));
    assert_eq!(r.response_time_ms, None);
}

#[test]
fn check_outcome_classifies_like_outcome_from_probe() {
    let r = check_outcome(&ProbeResponse::Responded { status_code: 503, elapsed_ms: 12 });
    assert!(matches!(r.status, CheckStatus::Down));
    assert_eq!(r.response_time_ms, Some(12));
    assert_eq!(r.diff_from_prev, None);
    assert_eq!(r.diff_from_acceptable, None);
}

#[test]
fn record_creates_a_missing_history_with_the_default_budget() {
    let mut a = Aggregate::new();
    let url = String::from("https://new");
    a.record(&url, outcome(0, Some(1200)));
    assert_eq!(a.all().len(), 1);
    assert_eq!(a.all()[0].url, url);
    assert_eq!(a.all()[0].acceptable_latency_ms, default_latency());
    assert_eq!(a.all()[0].results[0].diff_from_acceptable, Some(200));
}

#[test]
fn apply_config_reconciles_without_touching_outcomes() {
    let mut a = Aggregate::new();
    let url = String::from("https://a");
    a.record(&url, outcome(0, Some(100)));
    let targets = vec![
        Target { url: String::from("https://a"), acceptable_latency_ms: 700 },
        Target { url: String::from("https://b"), acceptable_latency_ms: 300 },
        // A later duplicate wins over the earlier value.
        Target { url: String::from("https://b"), acceptable_latency_ms: 900 },
    ];
    a.apply_config(&targets);
    assert_eq!(a.all().len(), 2);
    assert_eq!(a.all()[0].url, "https://a");
    assert_eq!(a.all()[0].acceptable_latency_ms, 700);
    assert_eq!(a.all()[0].results.len(), 1);
    assert_eq!(a.all()[1].url, "https://b");
    assert_eq!(a.all()[1].acceptable_latency_ms, 900);
    assert!(a.all()[1].results.is_empty());
}

fn five_target_config(max_concurrency: usize) -> Config {
    let targets = (0..5)
        .map(|i| Target { url: format!("https://t{}", i), acceptable_latency_ms: 500 })
        .collect();
    Config { interval_seconds: 30, timeout_seconds: 5, max_concurrency, targets }
}

#[test]
fn scenario_concurrency_cap_bounds_the_fan_out() {
    let config = five_target_config(2);
    let mut a = Aggregate::new();
    a.apply_config(&config.targets);
    let mut s = Scheduler::new(config, a);
    assert_eq!(s.phase(), Phase::Idle);
    s.start_tick();

    let mut in_flight: Vec<String> = Vec::new();
    let mut max_seen = 0usize;
    let mut completed = 0usize;
    while !s.tick_done() {
        while let Some(url) = s.dispatch_next() {
            in_flight.push(url);
        }
        // Never more than two probes are in flight at once.
        assert!(s.in_flight <= 2);
        max_seen = max_seen.max(s.in_flight);
        let url = in_flight.pop().unwrap();
        s.record_result(&url, outcome(completed as i64, Some(100)));
        completed += 1;
    }
    assert_eq!(max_seen, 2);
    assert_eq!(completed, 5);
    s.complete_tick();
    assert_eq!(s.phase(), Phase::Persisting);
    s.persisted();
    assert_eq!(s.phase(), Phase::Idle);
    for h in s.aggregate.all() {
        assert_eq!(h.results.len(), 1);
    }
}

#[test]
fn scheduler_stops_only_between_ticks() {
    let config = five_target_config(1);
    let mut a = Aggregate::new();
    a.apply_config(&config.targets);
    let mut s = Scheduler::new(config, a);
    s.shutdown();
    assert_eq!(s.phase(), Phase::Stopped);
}

#[test]
fn an_empty_target_list_completes_its_tick_immediately() {
    let config = Config {
        interval_seconds: 30,
        timeout_seconds: 5,
        max_concurrency: 4,
        targets: Vec::new(),
    };
    let mut s = Scheduler::new(config, Aggregate::new());
    s.start_tick();
    assert!(s.dispatch_next().is_none());
    assert!(s.tick_done());
    s.complete_tick();
    s.persisted();
    assert_eq!(s.phase(), Phase::Idle);
}

#[test]
fn latest_is_the_most_recent_outcome() {
    let mut h = CheckHistory::new(String::from("u"), 1000);
    assert!(h.latest().is_none());
    h.push(outcome(7, Some(1)));
    h.push(outcome(9, Some(2)));
    assert_eq!(h.latest().unwrap().timestamp_ms, 9);
}

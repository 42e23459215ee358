use ruliadema::aggregate::Aggregate;
use ruliadema::codec::recover;
use ruliadema::codec::recover_document;
use ruliadema::codec::snapshot_document;
use ruliadema::config::ConfigFormat;
use ruliadema::config::Target;
use ruliadema::config::config_format;
use ruliadema::config::default_latency;
use ruliadema::model::CheckResult;
use ruliadema::model::CheckStatus;
use ruliadema::output::log_line;
use ruliadema::output::log_record;

fn outcome(ts: i64, latency: Option<u64>, status: CheckStatus) -> CheckResult {
    CheckResult {
        timestamp_ms: ts,
        status,
        response_time_ms: latency,
        diff_from_prev: None,
        diff_from_acceptable: None,
    }
}

fn sample_aggregate() -> Aggregate {
    let mut a = Aggregate::new();
    a.apply_config(&vec![
        Target { url: String::from("https://a"), acceptable_latency_ms: 500 },
        Target { url: String::from("https://b"), acceptable_latency_ms: 250 },
    ]);
    let a_url = String::from("https://a");
    let b_url = String::from("https://b");
    a.record(&a_url, outcome(-5, Some(800), CheckStatus::Up));
    a.record(&a_url, outcome(10, Some(650), CheckStatus::Up));
    a.record(&a_url, outcome(20, None, CheckStatus::Error));
    a.record(&b_url, outcome(30, Some(100), CheckStatus::Down));
    a
}

#[test]
fn snapshot_writes_the_exact_document() {
    let mut a = Aggregate::new();
    let url = String::from("x");
    a.apply_config(&vec![Target { url: String::from("x"), acceptable_latency_ms: 500 }]);
    a.record(&url, outcome(5, Some(800), CheckStatus::Up));
    let doc = snapshot_document(&a);
    assert_eq!(
        doc,
        "{\"x\":{\"acceptable_latency_ms\":500,\"results\":[{\"timestamp\":5,\
         \"status\":\"Up\",\"response_time\":800,\"diff_from_prev\":null,\
         \"diff_from_acceptable\":300}]}}"
    );
}

#[test]
fn snapshot_of_an_empty_aggregate_is_an_empty_mapping() {
    assert_eq!(snapshot_document(&Aggregate::new()), "{}");
}

fn assert_same_aggregate(a: &Aggregate, b: &Aggregate) {
    assert_eq!(a.all().len(), b.all().len());
    for (x, y) in a.all().iter().zip(b.all().iter()) {
        assert_eq!(x.url, y.url);
        assert_eq!(x.acceptable_latency_ms, y.acceptable_latency_ms);
        assert_eq!(x.results.len(), y.results.len());
        for (r, s) in x.results.iter().zip(y.results.iter()) {
            assert_eq!(r, s);
        }
    }
}

#[test]
fn round_trip_reproduces_the_aggregate() {
    let a = sample_aggregate();
    let doc = snapshot_document(&a);
    let b = recover_document(&doc);
    assert_same_aggregate(&a, &b);
}

#[test]
fn snapshot_is_idempotent_across_recovery() {
    let a = sample_aggregate();
    let doc = snapshot_document(&a);
    let b = recover_document(&doc);
    assert_eq!(snapshot_document(&b), doc);
}

#[test]
fn scenario_missing_snapshot_recovers_empty_and_config_recreates_targets() {
    let mut a = recover(None);
    assert!(a.all().is_empty());
    a.apply_config(&vec![
        Target { url: String::from("https://a"), acceptable_latency_ms: 500 },
        Target { url: String::from("https://b"), acceptable_latency_ms: 250 },
    ]);
    assert_eq!(a.all().len(), 2);
    assert!(a.all().iter().all(|h| h.results.is_empty()));
}

#[test]
fn corrupt_documents_recover_as_a_first_run() {
    for doc in [
        "",
        "{",
        "not a snapshot",
        "{\"x\":{\"acceptable_latency_ms\":",
        "{\"x\":{\"acceptable_latency_ms\":07,\"results\":[]}}",
        "{\"x\":{\"acceptable_latency_ms\":5,\"results\":[]}} ",
        "{\"x\":{\"acceptable_latency_ms\":99999999999999999999999,\"results\":[]}}",
    ] {
        assert!(recover_document(doc).all().is_empty());
    }
}

#[test]
fn recovery_rejects_a_duplicated_endpoint() {
    let doc = "{\"x\":{\"acceptable_latency_ms\":5,\"results\":[]},\
               \"x\":{\"acceptable_latency_ms\":6,\"results\":[]}}";
    assert!(recover_document(doc).all().is_empty());
}

#[test]
fn recovery_rejects_an_oversized_history() {
    let mut results = String::new();
    for i in 0..51 {
        if i > 0 {
            results.push(',');
        }
        results.push_str(&format!(
            "{{\"timestamp\":{},\"status\":\"Up\",\"response_time\":1,\
             \"diff_from_prev\":null,\"diff_from_acceptable\":null}}",
            i
        ));
    }
    let doc = format!("{{\"x\":{{\"acceptable_latency_ms\":5,\"results\":[{}]}}}}", results);
    assert!(recover_document(&doc).all().is_empty());
}

#[test]
fn recovery_accepts_documents_from_older_schemas() {
    // Before the budget field existed: it defaults to zero.
    let a = recover_document("{\"x\":{\"results\":[]}}");
    assert_eq!(a.all().len(), 1);
    assert_eq!(a.all()[0].acceptable_latency_ms, 0);

    // Before the threshold delta existed: it defaults to absent.
    let b = recover_document(
        "{\"x\":{\"acceptable_latency_ms\":7,\"results\":[{\"timestamp\":1,\
         \"status\":\"Up\",\"response_time\":5,\"diff_from_prev\":null}]}}",
    );
    assert_eq!(b.all().len(), 1);
    let r = &b.all()[0].results[0];
    assert_eq!(r.response_time_ms, Some(5));
    assert_eq!(r.diff_from_acceptable, None);
}

#[test]
fn recovery_keeps_negative_numbers_intact() {
    let doc = "{\"x\":{\"acceptable_latency_ms\":500,\"results\":[{\"timestamp\":-42,\
               \"status\":\"Down\",\"response_time\":3,\"diff_from_prev\":-150,\
               \"diff_from_acceptable\":null}]}}";
    let a = recover_document(doc);
    let r = &a.all()[0].results[0];
    assert_eq!(r.timestamp_ms, -42);
    assert_eq!(r.diff_from_prev, Some(-150));
    assert_eq!(snapshot_document(&a), doc);
}

#[test]
fn log_lines_match_each_status() {
    let mut up = outcome(0, Some(650), CheckStatus::Up);
    up.diff_from_prev = Some(-150);
    assert_eq!(log_line("https://x", &up), "[OK] https://x response_time=650ms diff_from_prev=-150ms");

    let first = outcome(0, Some(800), CheckStatus::Up);
    assert_eq!(log_line("https://x", &first), "[OK] https://x response_time=800ms diff_from_prev= -");

    let down = outcome(0, Some(30), CheckStatus::Down);
    assert_eq!(log_line("https://x", &down), "[NG] https://x down");

    let err = outcome(0, None, CheckStatus::Error);
    assert_eq!(log_line("https://x", &err), "[ERR] https://x error");
}

#[test]
fn log_records_are_single_json_lines() {
    let mut r = outcome(5, Some(800), CheckStatus::Up);
    r.diff_from_acceptable = Some(300);
    assert_eq!(
        log_record("x", &r),
        "{\"url\":\"x\",\"response_time_ms\":800,\"result\":{\"timestamp\":5,\
         \"status\":\"Up\",\"response_time\":800,\"diff_from_prev\":null,\
         \"diff_from_acceptable\":300}}"
    );
    let e = outcome(6, None, CheckStatus::Error);
    assert_eq!(
        log_record("x", &e),
        "{\"url\":\"x\",\"response_time_ms\":0,\"result\":{\"timestamp\":6,\
         \"status\":\"Error\",\"response_time\":null,\"diff_from_prev\":null,\
         \"diff_from_acceptable\":null}}"
    );
}

#[test]
fn configuration_format_follows_the_suffix() {
    assert_eq!(config_format("config.toml"), ConfigFormat::Toml);
    assert_eq!(config_format("config.yaml"), ConfigFormat::Yaml);
    assert_eq!(config_format("config.yml"), ConfigFormat::Yaml);
    assert_eq!(config_format("config.json"), ConfigFormat::Unsupported);
    assert_eq!(config_format("toml"), ConfigFormat::Unsupported);
    assert_eq!(default_latency(), 1000);
}

use axotly::AxParser;
use axotly::Dispatch;
use axotly::Executor;
use axotly::HttpRequest;
use axotly::HttpResponse;
use axotly::Runner;
use axotly::TestResult;
use axotly::summary_counts;

fn stub_response(status: u16, body: Option<&str>) -> HttpResponse {
    HttpResponse {
        request: None,
        duration_ms: 10,
        status,
        headers: Vec::new(),
        body: body.map(|s| s.to_string()),
    }
}

#[test]
fn scenario_status_eq_passes() {
    let text = "TEST hello\nGET http://h/\n\nEXPECT status == 200\nEND".to_string();
    let cases = AxParser::parse_file(&text).unwrap();
    assert_eq!(cases.len(), 1);
    let outcomes = vec![(Ok(stub_response(200, None)), 10u64)];
    let done = Executor::run_tests(cases, outcomes, 1);
    assert_eq!(done.len(), 1);
    match &done[0].result {
        Some(TestResult::Passed { .. }) => {}
        other => panic!("expected Passed, got {:?}", other),
    }
}

#[test]
fn scenario_status_eq_fails_with_diff() {
    let text = "TEST hello\nGET http://h/\n\nEXPECT status == 200\nEND".to_string();
    let cases = AxParser::parse_file(&text).unwrap();
    let outcomes = vec![(Ok(stub_response(404, None)), 10u64)];
    let done = Executor::run_tests(cases, outcomes, 1);
    match &done[0].result {
        Some(TestResult::Failed { errors, .. }) => {
            assert_eq!(errors.len(), 1);
            assert_eq!(errors[0].path, "status");
            assert_eq!(errors[0].expected, Some("200".to_string()));
            assert_eq!(errors[0].actual, Some("404".to_string()));
        }
        other => panic!("expected Failed, got {:?}", other),
    }
}

#[test]
fn scenario_nested_json_body() {
    let text = "GET http://h/j\n\nEXPECT body.user.name == \"alice\"\nEND".to_string();
    let cases = AxParser::parse_file(&text).unwrap();
    let outcomes = vec![(
        Ok(stub_response(200, Some(r#"{"user":{"name":"alice","age":30}}"#))),
        10u64,
    )];
    let done = Executor::run_tests(cases, outcomes, 1);
    match &done[0].result {
        Some(TestResult::Passed { .. }) => {}
        other => panic!("expected Passed, got {:?}", other),
    }
}

#[test]
fn scenario_exists_on_missing_key() {
    let text = "GET http://h/\n\nEXPECT body.missing EXISTS\nEND".to_string();
    let cases = AxParser::parse_file(&text).unwrap();
    let outcomes = vec![(Ok(stub_response(200, Some("{}"))), 10u64)];
    let done = Executor::run_tests(cases, outcomes, 1);
    match &done[0].result {
        Some(TestResult::Failed { errors, .. }) => {
            assert_eq!(errors.len(), 1);
            assert_eq!(errors[0].path, "body.missing");
        }
        other => panic!("expected Failed, got {:?}", other),
    }
}

#[test]
fn scenario_status_in_list() {
    let text = "GET http://h/\n\nEXPECT status IN [200, 201]\nEND".to_string();
    let cases = AxParser::parse_file(&text).unwrap();
    let outcomes = vec![(Ok(stub_response(201, None)), 10u64)];
    let done = Executor::run_tests(cases, outcomes, 1);
    assert!(matches!(&done[0].result, Some(TestResult::Passed { .. })));

    let cases = AxParser::parse_file(&text).unwrap();
    let outcomes = vec![(Ok(stub_response(500, None)), 10u64)];
    let done = Executor::run_tests(cases, outcomes, 1);
    assert!(matches!(&done[0].result, Some(TestResult::Failed { .. })));
}

#[test]
fn transport_error_becomes_request_failure() {
    let text = "GET http://h/\n\nEXPECT status == 200\nEND".to_string();
    let cases = AxParser::parse_file(&text).unwrap();
    let outcomes = vec![(Err("connection refused".to_string()), 7u64)];
    let done = Executor::run_tests(cases, outcomes, 1);
    assert!(done[0].response.is_none());
    match &done[0].result {
        Some(TestResult::Failed { duration_ms, errors }) => {
            assert_eq!(*duration_ms, 7);
            assert_eq!(errors.len(), 1);
            assert_eq!(errors[0].path, "request");
            assert_eq!(errors[0].expected, None);
            assert_eq!(errors[0].actual, None);
            assert_eq!(errors[0].message, "connection refused");
        }
        other => panic!("expected Failed, got {:?}", other),
    }
}

#[test]
fn all_assertions_checked_no_short_circuit() {
    let text =
        "GET http://h/\n\nEXPECT status == 500\nEXPECT body.a == 1\nEXPECT status == 200\nEND"
            .to_string();
    let cases = AxParser::parse_file(&text).unwrap();
    let outcomes = vec![(Ok(stub_response(200, Some(r#"{"a": 2}"#))), 10u64)];
    let done = Executor::run_tests(cases, outcomes, 1);
    match &done[0].result {
        Some(TestResult::Failed { errors, .. }) => {
            // the first and second assertions fail, the third passes;
            // both failures are reported, in authored order
            assert_eq!(errors.len(), 2);
            assert_eq!(errors[0].path, "status");
            assert_eq!(errors[1].path, "body.a");
        }
        other => panic!("expected Failed, got {:?}", other),
    }
}

#[test]
fn every_returned_case_has_a_result() {
    let text = "GET http://h/\n\nEXPECT status == 200\nEND\n\nGET http://h/2\n\nEND".to_string();
    let cases = AxParser::parse_file(&text).unwrap();
    assert_eq!(cases.len(), 2);
    let outcomes = vec![
        (Ok(stub_response(200, None)), 3u64),
        (Ok(stub_response(404, None)), 4u64),
    ];
    let done = Executor::run_tests(cases, outcomes, 2);
    assert_eq!(done.len(), 2);
    assert!(done.iter().all(|c| c.result.is_some()));
    // a case without assertions passes on any response
    assert!(matches!(&done[1].result, Some(TestResult::Passed { .. })));
}

#[test]
fn concurrency_level_does_not_change_results() {
    let text = "GET http://h/\n\nEXPECT status == 200\nEND\n\nGET http://h/\n\nEXPECT status == 200\nEND\n\nGET http://h/\n\nEXPECT status == 200\nEND".to_string();
    let mut all_passed = Vec::new();
    for conc in [1usize, 2, 3, 100] {
        let cases = AxParser::parse_file(&text).unwrap();
        let outcomes = vec![
            (Ok(stub_response(200, None)), 1u64),
            (Ok(stub_response(200, None)), 1u64),
            (Ok(stub_response(200, None)), 1u64),
        ];
        let done = Executor::run_tests(cases, outcomes, conc);
        all_passed.push(
            done.iter()
                .filter(|c| matches!(c.result, Some(TestResult::Passed { .. })))
                .count(),
        );
    }
    assert_eq!(all_passed, vec![3, 3, 3, 3]);
}

#[test]
fn summary_counts_passed_failed_and_duration() {
    let text = "GET http://h/\n\nEXPECT status == 200\nEND\n\nGET http://h/\n\nEXPECT status == 404\nEND".to_string();
    let cases = AxParser::parse_file(&text).unwrap();
    let outcomes = vec![
        (Ok(stub_response(200, None)), 30u64),
        (Ok(stub_response(200, None)), 12u64),
    ];
    let done = Executor::run_tests(cases, outcomes, 2);
    let (passed, failed, total_ms) = summary_counts(&done);
    assert_eq!(passed, 1);
    assert_eq!(failed, 1);
    assert_eq!(total_ms, 42);
}

#[test]
fn runner_discovers_by_extension() {
    assert!(Runner::has_ax_extension("smoke.ax"));
    assert!(Runner::has_ax_extension("nested.tar.ax"));
    assert!(!Runner::has_ax_extension("smoke.axx"));
    assert!(!Runner::has_ax_extension("smoke.txt"));
    assert!(!Runner::has_ax_extension(".ax"));
    assert!(!Runner::has_ax_extension("ax"));
}

#[test]
fn runner_parses_all_files_eagerly() {
    let files = vec![
        "GET http://h/\n\nEXPECT status == 200\nEND".to_string(),
        "".to_string(),
        "GET http://h/\n\nEND\n\nGET http://h/\n\nEND".to_string(),
    ];
    let suites = Runner::parse_all(&files).unwrap();
    assert_eq!(suites.len(), 3);
    assert_eq!(suites[0].len(), 1);
    assert_eq!(suites[1].len(), 0);
    assert_eq!(suites[2].len(), 2);
    assert_eq!(Runner::total_tests(&suites), 3);

    let broken = vec![
        "GET http://h/\n\nEND".to_string(),
        "GET notaurl\n\nEND".to_string(),
    ];
    assert!(Runner::parse_all(&broken).is_err());
}

#[test]
fn request_builder_uppercases_method() {
    let req = HttpRequest::new("get".to_string(), "http://h/".to_string());
    assert_eq!(req.method, "GET");
    assert!(req.headers.is_empty());
    assert!(req.body.is_none());
}

#[test]
fn method_whitelist() {
    assert!(axotly::http::method_allowed("GET"));
    assert!(axotly::http::method_allowed("OPTIONS"));
    assert!(!axotly::http::method_allowed("get"));
    assert!(!axotly::http::method_allowed("FETCH"));
}

#[test]
fn dispatch_ledger_honors_the_cap() {
    // one permit: the second unit cannot start until the first finishes
    let mut d = Dispatch::new(3, 1);
    assert!(d.can_start());
    d.start();
    assert!(!d.can_start());
    d.finish();
    assert!(d.can_start());

    // ample permits: a start is possible whenever work remains
    let mut d = Dispatch::new(3, 5);
    assert!(d.can_start());
    d.start();
    assert!(d.can_start());
    d.start();
    assert!(d.can_start());
    d.start();
    assert!(!d.can_start());
    d.finish();
    d.finish();
    d.finish();
    assert!(!d.can_start());
}

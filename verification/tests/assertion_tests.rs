use axotly::Assertion;
use axotly::AxValue;
use axotly::HttpResponse;
use axotly::Operator;
use axotly::compare;
use axotly::resolve_path;

fn create_response(status: u16, body: Option<&str>) -> HttpResponse {
    HttpResponse {
        request: None,
        duration_ms: 100,
        status,
        headers: Vec::new(),
        body: body.map(|s| s.to_string()),
    }
}

#[test]
fn test_resolve_path_status() {
    let response = create_response(200, None);
    assert_eq!(resolve_path(&response, "status"), Some(AxValue::Number(200)));
}

#[test]
fn test_resolve_path_body() {
    let response = create_response(200, Some("hello world"));
    assert_eq!(
        resolve_path(&response, "body"),
        Some(AxValue::String("hello world".to_string()))
    );
}

#[test]
fn test_resolve_path_body_json_string() {
    let body = r#"{"name": "test", "active": true, "count": 42}"#;
    let response = create_response(200, Some(body));
    assert_eq!(
        resolve_path(&response, "body.name"),
        Some(AxValue::String("test".to_string()))
    );
    assert_eq!(
        resolve_path(&response, "body.active"),
        Some(AxValue::Bool(true))
    );
    assert_eq!(
        resolve_path(&response, "body.count"),
        Some(AxValue::Number(42))
    );
}

#[test]
fn test_resolve_path_body_json_nested() {
    let body = r#"{"user": {"name": "alice", "age": 30}}"#;
    let response = create_response(200, Some(body));
    assert_eq!(
        resolve_path(&response, "body.user.name"),
        Some(AxValue::String("alice".to_string()))
    );
    assert_eq!(
        resolve_path(&response, "body.user.age"),
        Some(AxValue::Number(30))
    );
}

#[test]
fn test_resolve_path_missing() {
    let response = create_response(200, Some("{}"));
    assert_eq!(resolve_path(&response, "body.missing"), None);
    assert_eq!(resolve_path(&response, "invalid"), None);
}

#[test]
fn test_compare_eq() {
    assert!(compare(&Operator::Eq, &AxValue::Number(5), &AxValue::Number(5)));
    assert!(!compare(
        &Operator::Eq,
        &AxValue::Number(5),
        &AxValue::Number(6)
    ));
    assert!(compare(
        &Operator::Eq,
        &AxValue::String("a".to_string()),
        &AxValue::String("a".to_string())
    ));
    assert!(compare(
        &Operator::Eq,
        &AxValue::Bool(true),
        &AxValue::Bool(true)
    ));
}

#[test]
fn test_compare_ne() {
    assert!(!compare(
        &Operator::Ne,
        &AxValue::Number(5),
        &AxValue::Number(5)
    ));
    assert!(compare(&Operator::Ne, &AxValue::Number(5), &AxValue::Number(6)));
}

#[test]
fn test_compare_gt_lt() {
    assert!(compare(&Operator::Gt, &AxValue::Number(6), &AxValue::Number(5)));
    assert!(!compare(
        &Operator::Gt,
        &AxValue::Number(5),
        &AxValue::Number(5)
    ));
    assert!(compare(&Operator::Lt, &AxValue::Number(4), &AxValue::Number(5)));
    assert!(compare(
        &Operator::Gte,
        &AxValue::Number(5),
        &AxValue::Number(5)
    ));
    assert!(compare(
        &Operator::Lte,
        &AxValue::Number(5),
        &AxValue::Number(5)
    ));
    // Non-numbers should return false
    assert!(!compare(
        &Operator::Gt,
        &AxValue::String("a".to_string()),
        &AxValue::String("b".to_string())
    ));
}

#[test]
fn test_assertion_binary_pass() {
    let assertion = Assertion::Binary {
        path: "status".to_string(),
        op: Operator::Eq,
        value: AxValue::Number(200),
    };
    let response = create_response(200, None);
    assert!(assertion.check(&response).is_ok());
}

#[test]
fn test_assertion_binary_fail() {
    let assertion = Assertion::Binary {
        path: "status".to_string(),
        op: Operator::Eq,
        value: AxValue::Number(404),
    };
    let response = create_response(200, None);
    let result = assertion.check(&response);
    assert!(result.is_err());
    let err = result.unwrap_err();
    assert_eq!(err.path, "status");
    assert_eq!(err.expected, Some("404".to_string()));
    assert_eq!(err.actual, Some("200".to_string()));
}

#[test]
fn test_assertion_binary_path_missing() {
    let assertion = Assertion::Binary {
        path: "body.missing".to_string(),
        op: Operator::Eq,
        value: AxValue::Number(42),
    };
    let response = create_response(200, Some("{}"));
    let result = assertion.check(&response);
    assert!(result.is_err());
    let err = result.unwrap_err();
    assert_eq!(err.path, "body.missing");
    assert_eq!(err.actual, None);
}

#[test]
fn test_assertion_exists_pass() {
    let assertion = Assertion::Exists {
        path: "status".to_string(),
    };
    let response = create_response(200, None);
    assert!(assertion.check(&response).is_ok());
}

#[test]
fn test_assertion_exists_fail() {
    let assertion = Assertion::Exists {
        path: "body.missing".to_string(),
    };
    let response = create_response(200, Some("{}"));
    let result = assertion.check(&response);
    assert!(result.is_err());
    let err = result.unwrap_err();
    assert_eq!(err.path, "body.missing");
}

#[test]
fn test_assertion_unary_pass() {
    let assertion = Assertion::Unary {
        path: "body.active".to_string(),
    };
    let response = create_response(200, Some(r#"{"active": true}"#));
    assert!(assertion.check(&response).is_ok());
}

#[test]
fn test_assertion_unary_fail() {
    let assertion = Assertion::Unary {
        path: "body.active".to_string(),
    };
    let response = create_response(200, Some(r#"{"active": false}"#));
    let result = assertion.check(&response);
    assert!(result.is_err());
    let err = result.unwrap_err();
    assert_eq!(err.expected, Some("true".to_string()));
    assert_eq!(err.actual, Some("false".to_string()));
}

#[test]
fn test_assertion_in_pass() {
    let assertion = Assertion::In {
        path: "status".to_string(),
        values: vec![AxValue::Number(200), AxValue::Number(201)],
    };
    let response = create_response(200, None);
    assert!(assertion.check(&response).is_ok());
}

#[test]
fn test_assertion_in_fail() {
    let assertion = Assertion::In {
        path: "status".to_string(),
        values: vec![AxValue::Number(201), AxValue::Number(202)],
    };
    let response = create_response(200, None);
    let result = assertion.check(&response);
    assert!(result.is_err());
    let err = result.unwrap_err();
    assert_eq!(err.path, "status");
}

#[test]
fn test_assertion_between_pass() {
    let assertion = Assertion::Between {
        path: "status".to_string(),
        min: AxValue::Number(199),
        max: AxValue::Number(300),
    };
    let response = create_response(200, None);
    assert!(assertion.check(&response).is_ok());
}

#[test]
fn test_assertion_between_fail() {
    let assertion = Assertion::Between {
        path: "status".to_string(),
        min: AxValue::Number(300),
        max: AxValue::Number(400),
    };
    let response = create_response(200, None);
    let result = assertion.check(&response);
    assert!(result.is_err());
    let err = result.unwrap_err();
    assert_eq!(err.path, "status");
}

#[test]
fn resolve_rejects_numbers_outside_i64() {
    // a JSON number that does not fit a signed 64-bit integer resolves
    // to nothing, as does any fractional number
    let response = create_response(200, Some(r#"{"n": 99999999999999999999999}"#));
    assert_eq!(resolve_path(&response, "body.n"), None);
    let response = create_response(200, Some(r#"{"x": 1.5}"#));
    assert_eq!(resolve_path(&response, "body.x"), None);
}

#[test]
fn resolve_rejects_non_json_body() {
    let response = create_response(200, Some("plain text, not json"));
    assert_eq!(resolve_path(&response, "body.x.y"), None);
}

#[test]
fn resolve_body_absent() {
    let response = create_response(204, None);
    assert_eq!(resolve_path(&response, "body"), None);
    assert_eq!(resolve_path(&response, "body.x"), None);
}

#[test]
fn ne_fails_on_missing_path() {
    // a path that resolves to nothing fails Ne as well: there is no
    // actual side to compare
    let assertion = Assertion::Binary {
        path: "body.missing".to_string(),
        op: Operator::Ne,
        value: AxValue::Number(1),
    };
    let response = create_response(200, Some("{}"));
    let result = assertion.check(&response);
    assert!(result.is_err());
}

#[test]
fn in_singleton_behaves_like_eq() {
    let response = create_response(201, None);
    let in_one = Assertion::In {
        path: "status".to_string(),
        values: vec![AxValue::Number(201)],
    };
    let eq = Assertion::Binary {
        path: "status".to_string(),
        op: Operator::Eq,
        value: AxValue::Number(201),
    };
    assert_eq!(in_one.check(&response).is_ok(), eq.check(&response).is_ok());
    let miss_in = Assertion::In {
        path: "status".to_string(),
        values: vec![AxValue::Number(500)],
    };
    let miss_eq = Assertion::Binary {
        path: "status".to_string(),
        op: Operator::Eq,
        value: AxValue::Number(500),
    };
    assert_eq!(
        miss_in.check(&response).is_ok(),
        miss_eq.check(&response).is_ok()
    );
}

#[test]
fn between_bounds_are_inclusive() {
    let response = create_response(200, None);
    let tight = Assertion::Between {
        path: "status".to_string(),
        min: AxValue::Number(200),
        max: AxValue::Number(200),
    };
    assert!(tight.check(&response).is_ok());
    let below = Assertion::Between {
        path: "status".to_string(),
        min: AxValue::Number(201),
        max: AxValue::Number(300),
    };
    assert!(below.check(&response).is_err());
}

#[test]
fn failure_renders_expected_and_actual() {
    let assertion = Assertion::Binary {
        path: "status".to_string(),
        op: Operator::Eq,
        value: AxValue::Number(404),
    };
    let response = create_response(200, None);
    let err = assertion.check(&response).unwrap_err();
    assert_eq!(
        err.render(),
        "Expected status Eq 404\n  expected: 404\n  actual:   200"
    );

    let missing = Assertion::Binary {
        path: "body.x".to_string(),
        op: Operator::Eq,
        value: AxValue::Bool(true),
    };
    let response = create_response(200, Some("{}"));
    let err = missing.check(&response).unwrap_err();
    assert_eq!(
        err.render(),
        "Path 'body.x' not found\n  expected: true\n  actual:   <missing>"
    );
}

#[test]
fn in_failure_renders_value_list() {
    let assertion = Assertion::In {
        path: "status".to_string(),
        values: vec![AxValue::Number(201), AxValue::String("ok".to_string())],
    };
    let response = create_response(200, None);
    let err = assertion.check(&response).unwrap_err();
    assert_eq!(
        err.expected,
        Some("[Number(201), String(\"ok\")]".to_string())
    );
    assert_eq!(err.actual, Some("200".to_string()));
}

#[test]
fn between_failure_renders_range() {
    let assertion = Assertion::Between {
        path: "status".to_string(),
        min: AxValue::Number(300),
        max: AxValue::Number(400),
    };
    let response = create_response(200, None);
    let err = assertion.check(&response).unwrap_err();
    assert_eq!(err.expected, Some("between 300 and 400".to_string()));
    assert_eq!(err.message, "Value not in range");
}

#[test]
fn negative_numbers_render_in_decimal() {
    let assertion = Assertion::Binary {
        path: "body.n".to_string(),
        op: Operator::Eq,
        value: AxValue::Number(-5),
    };
    let response = create_response(200, Some(r#"{"n": -17}"#));
    let err = assertion.check(&response).unwrap_err();
    assert_eq!(err.expected, Some("-5".to_string()));
    assert_eq!(err.actual, Some("-17".to_string()));
}

use axotly::Assertion;
use axotly::AxParser;
use axotly::AxValue;
use axotly::Body;
use axotly::Operator;
use axotly::ParseError;
use axotly::parse_assertion;
use axotly::parse_between_op;
use axotly::parse_binary_op;
use axotly::parse_exists_op;
use axotly::parse_http_request;
use axotly::parse_in_op;
use axotly::parse_operator;
use axotly::parse_test_block;
use axotly::parse_unary_path;
use axotly::parse_value;

#[test]
fn test_parse_http_request() {
    let input = "POST https://httpbin.org/post\nContent-Type: application/json\n\nBODY\n{\"name\": \"test\"}\nBODYEND";
    let http_request = parse_http_request(input).unwrap();
    assert_eq!(http_request.method, "POST");
    assert_eq!(http_request.url.as_str(), "https://httpbin.org/post");
    let content_type = http_request
        .headers
        .iter()
        .find(|(k, _)| k == "Content-Type")
        .map(|(_, v)| v);
    assert_eq!(content_type, Some(&"application/json".to_string()));
    match http_request.body {
        Some(Body::Text(text)) => assert_eq!(text.trim(), r#"{"name": "test"}"#),
        _ => panic!("Expected text body"),
    }
}

#[test]
fn test_parse_assertion_binary() {
    let input = "status == 200";
    let assertion = parse_assertion(input).unwrap();
    match assertion {
        Assertion::Binary { path, op, value } => {
            assert_eq!(path, "status");
            assert_eq!(op, Operator::Eq);
            assert_eq!(value, AxValue::Number(200));
        }
        _ => panic!("Expected binary assertion"),
    }
}

#[test]
fn test_parse_binary_op() {
    let input = "status == 200";
    let assertion = parse_binary_op(input).unwrap();
    match assertion {
        Assertion::Binary { path, op, value } => {
            assert_eq!(path, "status");
            assert_eq!(op, Operator::Eq);
            assert_eq!(value, AxValue::Number(200));
        }
        _ => panic!("Expected binary assertion"),
    }
}

#[test]
fn test_parse_operator() {
    let input = "==";
    let operator = parse_operator(input).unwrap();
    assert_eq!(operator, Operator::Eq);
}

#[test]
fn test_parse_in_op() {
    let input = "status IN [200, 201]";
    let assertion = parse_in_op(input).unwrap();
    match assertion {
        Assertion::In { path, values } => {
            assert_eq!(path, "status");
            assert_eq!(values, vec![AxValue::Number(200), AxValue::Number(201)]);
        }
        _ => panic!("Expected in assertion"),
    }
}

#[test]
fn test_parse_between_op() {
    let input = "body.age BETWEEN 18 AND 65";
    let assertion = parse_between_op(input).unwrap();
    match assertion {
        Assertion::Between { path, min, max } => {
            assert_eq!(path, "body.age");
            assert_eq!(min, AxValue::Number(18));
            assert_eq!(max, AxValue::Number(65));
        }
        _ => panic!("Expected between assertion"),
    }
}

#[test]
fn test_parse_exists_op() {
    let input = "body.email EXISTS";
    let assertion = parse_exists_op(input).unwrap();
    match assertion {
        Assertion::Exists { path } => {
            assert_eq!(path, "body.email");
        }
        _ => panic!("Expected exists assertion"),
    }
}

#[test]
fn test_parse_unary_path() {
    let input = "body.active";
    let assertion = parse_unary_path(input).unwrap();
    match assertion {
        Assertion::Unary { path } => {
            assert_eq!(path, "body.active");
        }
        _ => panic!("Expected unary assertion"),
    }
}

#[test]
fn test_parse_value_string() {
    let input = "\"hello\"";
    let value = parse_value(input).unwrap();
    assert_eq!(value, AxValue::String("hello".to_string()));
}

#[test]
fn test_parse_value_number() {
    let input = "42";
    let value = parse_value(input).unwrap();
    assert_eq!(value, AxValue::Number(42));
}

#[test]
fn test_parse_value_boolean() {
    let input = "true";
    let value = parse_value(input).unwrap();
    assert_eq!(value, AxValue::Bool(true));
}

#[test]
fn test_parse_test_block() {
    let input = "TEST POST create a resource\nPOST https://httpbin.org/post\nContent-Type: application/json\n\nBODY\n{\"name\": \"Axotly\"}\nBODYEND\n\nEXPECT status == 200\nEND";
    let test_case = parse_test_block(input).unwrap();
    assert_eq!(test_case.name, Some("POST create a resource".to_string()));
    assert_eq!(test_case.request.method, "POST");
    assert_eq!(test_case.assertions.len(), 1);
}

#[test]
fn parse_file_counts_blocks() {
    let text = "TEST one\nGET http://h/\n\nEXPECT status == 200\nEND\n\nTEST two\nGET http://h/other\n\nEXPECT status == 404\nEND\n".to_string();
    let cases = AxParser::parse_file(&text).unwrap();
    assert_eq!(cases.len(), 2);
    assert_eq!(cases[0].name, Some("one".to_string()));
    assert_eq!(cases[1].name, Some("two".to_string()));
    assert!(cases.iter().all(|c| c.result.is_none() && c.response.is_none()));
}

#[test]
fn parse_file_empty_is_zero_tests() {
    let cases = AxParser::parse_file(&String::new()).unwrap();
    assert_eq!(cases.len(), 0);
    let commented = "# a comment\n\n   \n# another\n".to_string();
    let cases = AxParser::parse_file(&commented).unwrap();
    assert_eq!(cases.len(), 0);
}

#[test]
fn parse_file_normalizes_url() {
    // the URL is stored in the normal form its parse gives it: a bare
    // authority gains its root path
    let text = "GET http://h\n\nEXPECT status == 200\nEND".to_string();
    let cases = AxParser::parse_file(&text).unwrap();
    assert_eq!(cases[0].request.url.as_str(), "http://h/");
}

#[test]
fn parse_file_invalid_url_error() {
    let text = "GET notaurl\n\nEXPECT status == 200\nEND".to_string();
    match AxParser::parse_file(&text) {
        Err(ParseError::InvalidUrl { url }) => assert_eq!(url, "notaurl"),
        other => panic!("expected InvalidUrl, got {:?}", other),
    }
}

#[test]
fn parse_file_missing_request_error() {
    let text = "TEST only a name\nEND".to_string();
    match AxParser::parse_file(&text) {
        Err(ParseError::MissingRequest { block_index }) => assert_eq!(block_index, 0),
        other => panic!("expected MissingRequest, got {:?}", other),
    }
}

#[test]
fn parse_file_unknown_operator_error() {
    let text = "GET http://h/\n\nEXPECT status =! 200\nEND".to_string();
    match AxParser::parse_file(&text) {
        Err(ParseError::UnknownOperator { token }) => assert_eq!(token, "=!"),
        other => panic!("expected UnknownOperator, got {:?}", other),
    }
}

#[test]
fn parse_file_invalid_number_error() {
    let text = "GET http://h/\n\nEXPECT status == 99999999999999999999\nEND".to_string();
    match AxParser::parse_file(&text) {
        Err(ParseError::InvalidNumber { token }) => {
            assert_eq!(token, "99999999999999999999")
        }
        other => panic!("expected InvalidNumber, got {:?}", other),
    }
}

#[test]
fn parse_file_syntax_error_on_unclosed_block() {
    let text = "GET http://h/\n\nEXPECT status == 200\n".to_string();
    match AxParser::parse_file(&text) {
        Err(ParseError::Syntax { .. }) => {}
        other => panic!("expected Syntax error, got {:?}", other),
    }
}

#[test]
fn parse_negative_and_boundary_numbers() {
    match parse_value("-7") {
        Ok(AxValue::Number(n)) => assert_eq!(n, -7),
        other => panic!("expected -7, got {:?}", other),
    }
    match parse_value("9223372036854775807") {
        Ok(AxValue::Number(n)) => assert_eq!(n, i64::MAX),
        other => panic!("expected i64::MAX, got {:?}", other),
    }
    match parse_value("-9223372036854775808") {
        Ok(AxValue::Number(n)) => assert_eq!(n, i64::MIN),
        other => panic!("expected i64::MIN, got {:?}", other),
    }
    assert!(parse_value("9223372036854775808").is_err());
}

#[test]
fn comments_are_stripped_outside_strings() {
    let text = "GET http://h/ # the endpoint\n\nEXPECT body.note == \"a#b\" # hash kept in the string\nEND".to_string();
    let cases = AxParser::parse_file(&text).unwrap();
    assert_eq!(cases.len(), 1);
    assert_eq!(cases[0].request.url.as_str(), "http://h/");
    match &cases[0].assertions[0] {
        Assertion::Binary { value, .. } => {
            assert_eq!(*value, AxValue::String("a#b".to_string()))
        }
        other => panic!("expected binary assertion, got {:?}", other),
    }
}

#[test]
fn body_region_is_verbatim() {
    // lines inside BODY..BODYEND are kept as written: END does not
    // close the block there, comments and blank lines survive
    let text = "POST http://h/\n\nBODY\nline one\n\nEND # not a sentinel\nline two\nBODYEND\nEXPECT status == 200\nEND".to_string();
    let cases = AxParser::parse_file(&text).unwrap();
    assert_eq!(cases.len(), 1);
    match &cases[0].request.body {
        Some(Body::Text(t)) => {
            assert_eq!(t, "line one\n\nEND # not a sentinel\nline two")
        }
        other => panic!("expected text body, got {:?}", other),
    }
    assert_eq!(cases[0].assertions.len(), 1);
}

#[test]
fn carriage_returns_are_insignificant() {
    let text = "TEST crlf\r\nGET http://h/\r\n\r\nEXPECT status == 200\r\nEND\r\n".to_string();
    let cases = AxParser::parse_file(&text).unwrap();
    assert_eq!(cases.len(), 1);
    assert_eq!(cases[0].name, Some("crlf".to_string()));
    assert_eq!(cases[0].assertions.len(), 1);
}

#[test]
fn header_value_keeps_later_colons() {
    let text = "GET http://h/\nAuthorization: Bearer a:b:c\n\nEXPECT status == 200\nEND".to_string();
    let cases = AxParser::parse_file(&text).unwrap();
    let headers = &cases[0].request.headers;
    assert_eq!(headers.len(), 1);
    assert_eq!(headers[0].0, "Authorization");
    assert_eq!(headers[0].1, "Bearer a:b:c");
}

#[test]
fn stray_end_is_an_error() {
    let text = "END".to_string();
    assert!(matches!(
        AxParser::parse_file(&text),
        Err(ParseError::Syntax { .. })
    ));
}

#[test]
fn duplicate_header_names_keep_the_last_value() {
    // a repeated header name is a mapping update: the name keeps its
    // first spelling and place, the last value wins
    let text = "GET http://h/\nAccept: text/plain\nX-Tag: one\nAccept: application/json\n\nEXPECT status == 200\nEND".to_string();
    let cases = AxParser::parse_file(&text).unwrap();
    let headers = &cases[0].request.headers;
    assert_eq!(headers.len(), 2);
    assert_eq!(headers[0].0, "Accept");
    assert_eq!(headers[0].1, "application/json");
    assert_eq!(headers[1].0, "X-Tag");
    assert_eq!(headers[1].1, "one");
}

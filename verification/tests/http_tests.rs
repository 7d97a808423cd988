use tachyon_proxy::http::{ParseError, Request};

#[test]
fn test_parse_simple_request() {
    let request_data = b"GET / HTTP/1.1\r\nHost: example.com\r\n\r\n";
    let request = Request::parse(request_data).unwrap();

    assert_eq!(request.method, b"GET".to_vec());
    assert_eq!(request.path, b"/".to_vec());
    assert_eq!(request.version, b"HTTP/1.1".to_vec());
    assert_eq!(request.headers.get(b"host"), Some(&b"example.com".to_vec()));
}

#[test]
fn test_parse_request_with_multiple_headers() {
    let request_data =
        b"POST /api/data HTTP/1.1\r\nHost: api.example.com\r\nContent-Type: application/json\r\n\r\n";
    let request = Request::parse(request_data).unwrap();

    assert_eq!(request.method, b"POST".to_vec());
    assert_eq!(request.path, b"/api/data".to_vec());
    assert_eq!(request.version, b"HTTP/1.1".to_vec());
    assert_eq!(request.headers.get(b"host"), Some(&b"api.example.com".to_vec()));
    assert_eq!(
        request.headers.get(b"content-type"),
        Some(&b"application/json".to_vec())
    );
}

#[test]
fn test_parse_invalid_request() {
    let request_data = b"INVALID REQUEST\r\n\r\n";
    let result = Request::parse(request_data);
    assert!(result.is_err());
}

#[test]
fn test_parse_empty_request() {
    let request_data = b"";
    let result = Request::parse(request_data);
    assert!(result.is_err());
}

#[test]
fn empty_input_reports_empty_error() {
    assert!(matches!(Request::parse(b""), Err(ParseError::Empty)));
}

#[test]
fn one_token_request_line_fails() {
    assert!(matches!(
        Request::parse(b"GET\r\n\r\n"),
        Err(ParseError::InvalidRequestLine)
    ));
}

#[test]
fn whitespace_only_request_line_fails() {
    assert!(matches!(
        Request::parse(b"   \r\nHost: a\r\n\r\n"),
        Err(ParseError::InvalidRequestLine)
    ));
}

#[test]
fn four_token_request_line_fails() {
    assert!(matches!(
        Request::parse(b"GET / HTTP/1.1 extra\r\n\r\n"),
        Err(ParseError::InvalidRequestLine)
    ));
}

#[test]
fn three_tokens_survive_extra_whitespace() {
    let request = Request::parse(b"GET   /x\t HTTP/1.0\r\n\r\n").unwrap();
    assert_eq!(request.method, b"GET".to_vec());
    assert_eq!(request.path, b"/x".to_vec());
    assert_eq!(request.version, b"HTTP/1.0".to_vec());
}

#[test]
fn header_names_are_lowercased() {
    let request =
        Request::parse(b"GET / HTTP/1.1\r\nHost: one\r\n\r\n").unwrap();
    let shouting =
        Request::parse(b"GET / HTTP/1.1\r\nHOST: one\r\n\r\n").unwrap();
    let mixed = Request::parse(b"GET / HTTP/1.1\r\nhOsT: one\r\n\r\n").unwrap();
    assert_eq!(request.headers.get(b"host"), Some(&b"one".to_vec()));
    assert_eq!(shouting.headers.get(b"host"), Some(&b"one".to_vec()));
    assert_eq!(mixed.headers.get(b"host"), Some(&b"one".to_vec()));
    assert_eq!(request.headers.get(b"Host"), None);
}

#[test]
fn duplicate_header_keeps_later_value() {
    let request = Request::parse(b"GET / HTTP/1.1\r\nX-Tag: first\r\nx-tag: second\r\n\r\n")
        .unwrap();
    assert_eq!(request.headers.get(b"x-tag"), Some(&b"second".to_vec()));
}

#[test]
fn line_without_colon_is_ignored() {
    let request =
        Request::parse(b"GET / HTTP/1.1\r\nthis line has no separator\r\nHost: a\r\n\r\n")
            .unwrap();
    assert_eq!(request.headers.get(b"host"), Some(&b"a".to_vec()));
    assert_eq!(request.headers.get(b"this line has no separator"), None);
}

#[test]
fn blank_line_terminates_header_scan() {
    let request =
        Request::parse(b"GET / HTTP/1.1\r\nHost: a\r\n\r\nLate: too-late\r\n").unwrap();
    assert_eq!(request.headers.get(b"host"), Some(&b"a".to_vec()));
    assert_eq!(request.headers.get(b"late"), None);
}

#[test]
fn header_names_and_values_are_trimmed() {
    let request = Request::parse(b"GET / HTTP/1.1\r\n  Accept  :  text/plain  \r\n\r\n")
        .unwrap();
    assert_eq!(request.headers.get(b"accept"), Some(&b"text/plain".to_vec()));
}

#[test]
fn value_splits_at_first_colon_only() {
    let request = Request::parse(b"CONNECT example.com:443 HTTP/1.1\r\nHost: example.com:443\r\n\r\n")
        .unwrap();
    assert_eq!(request.method, b"CONNECT".to_vec());
    assert_eq!(request.path, b"example.com:443".to_vec());
    assert_eq!(request.headers.get(b"host"), Some(&b"example.com:443".to_vec()));
}

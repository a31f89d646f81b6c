use httpcore::method::Method;
use httpcore::request::{ParseError, Request};

#[test]
fn simple_request_line_parses_path_exactly() {
    let req = Request::parse(b"GET /home HTTP/1.1").unwrap();
    assert_eq!(req.path(), "/home");
    assert!(matches!(req.method(), Method::GET));
    assert!(req.query_string().is_none());
    assert!(req.headers().is_none());
}

#[test]
fn full_request_parses_path_query_and_headers() {
    let req = Request::parse(b"GET /search?name=abc&sort=1 HTTP/1.1\r\nHost: x\r\n\r\n").unwrap();
    assert_eq!(req.path(), "/search");
    assert!(matches!(req.method(), Method::GET));
    let qs = req.query_string().unwrap();
    assert_eq!(qs.get("name").map(|s| s.as_str()), Some("abc"));
    assert_eq!(qs.get("sort").map(|s| s.as_str()), Some("1"));
    let headers = req.headers().unwrap();
    match headers.get("Host").unwrap() {
        httpcore::headers::Value::Single(v) => assert_eq!(v.as_str(), "x"),
        httpcore::headers::Value::Multiple(_) => panic!("expected a single value"),
    }
}

#[test]
fn wrong_protocol_is_invalid_protocol() {
    let err = Request::parse(b"GET / HTTP/1.0\r\n\r\n").unwrap_err();
    assert!(matches!(err, ParseError::InvalidProtocol));
}

#[test]
fn unknown_method_is_invalid_method() {
    let err = Request::parse(b"FOOBAR / HTTP/1.1\r\n\r\n").unwrap_err();
    assert!(matches!(err, ParseError::InvalidMethod));
}

#[test]
fn missing_target_is_invalid_request() {
    let err = Request::parse(b"GET HTTP/1.1\r\n\r\n").unwrap_err();
    assert!(matches!(err, ParseError::InvalidRequest));
}

#[test]
fn invalid_bytes_are_invalid_encoding() {
    let err = Request::parse(&[0xff, 0xfe, 0x20]).unwrap_err();
    assert!(matches!(err, ParseError::InvalidEncoding));
}

#[test]
fn error_messages_follow_the_kind() {
    assert_eq!(ParseError::InvalidRequest.message(), "Invalid Request");
    assert_eq!(ParseError::InvalidEncoding.message(), "Invalid Encoding");
    assert_eq!(ParseError::InvalidProtocol.message(), "Invalid Protocol");
    assert_eq!(ParseError::InvalidMethod.message(), "Invalid Method");
}

#[test]
fn method_tokens_match_case_sensitively() {
    assert!(matches!(Method::from_token("GET"), Some(Method::GET)));
    assert!(matches!(Method::from_token("PATCH"), Some(Method::PATCH)));
    assert!(Method::from_token("get").is_none());
    assert!(Method::from_token("").is_none());
}

#[test]
fn next_word_splits_at_first_space() {
    let (w, rest) = httpcore::request::get_next_word("GET /").unwrap();
    assert_eq!(w, "GET");
    assert_eq!(rest, "/");
    let (w2, rest2) = httpcore::request::get_next_word("/").unwrap();
    assert_eq!(w2, "/");
    assert_eq!(rest2, "");
    assert!(httpcore::request::get_next_word("").is_none());
}

#[test]
fn query_string_keeps_first_match_and_empty_values() {
    let qs = httpcore::query_string::QueryString::from("a=1&b=2&a=3");
    assert_eq!(qs.get("a").map(|s| s.as_str()), Some("1"));
    assert_eq!(qs.get("b").map(|s| s.as_str()), Some("2"));
    assert!(qs.get("c").is_none());
    let qs2 = httpcore::query_string::QueryString::from("flag");
    assert_eq!(qs2.get("flag").map(|s| s.as_str()), Some(""));
}

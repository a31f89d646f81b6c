use httpcore::date::rfc2822_from_epoch;
use httpcore::headers::{Headers, Value};
use httpcore::response::Response;
use httpcore::status::StatusCode;
use httpcore::strutil::u64_to_dec;

fn single(v: Option<&Value>) -> &str {
    match v.unwrap() {
        Value::Single(s) => s.as_str(),
        Value::Multiple(_) => panic!("expected a single value"),
    }
}

fn multiple(v: Option<&Value>) -> Vec<&str> {
    match v.unwrap() {
        Value::Single(_) => panic!("expected a multi-valued entry"),
        Value::Multiple(vs) => vs.iter().map(|s| s.as_str()).collect(),
    }
}

#[test]
fn lookup_is_case_insensitive() {
    let mut h = Headers::new();
    h.add("Content-Type", "text/html");
    assert_eq!(single(h.get("content-type")), "text/html");
    assert_eq!(single(h.get("CONTENT-TYPE")), "text/html");
}

#[test]
fn lookup_lowercases_beyond_ascii() {
    let mut h = Headers::new();
    h.add("Ärger", "x");
    assert_eq!(single(h.get("ÄRGER")), "x");
}

#[test]
fn one_value_entries_come_back_as_single() {
    let mut h = Headers::new();
    h.add("A", "1");
    assert!(matches!(h.get("A"), Some(Value::Single(_))));
    h.add("A", "2");
    assert!(matches!(h.get("A"), Some(Value::Multiple(_))));
}

#[test]
fn repeated_names_keep_insertion_order() {
    let mut h = Headers::new();
    h.add("X", "1");
    h.add("X", "2");
    assert_eq!(multiple(h.get("X")), vec!["1", "2"]);
}

#[test]
fn lookup_twice_returns_equal_results() {
    let mut h = Headers::new();
    h.add("A", "first");
    let r1 = single(h.get("a")).to_owned();
    let r2 = single(h.get("a")).to_owned();
    assert_eq!(r1, r2);
}

#[test]
fn parse_stops_at_blank_line_and_skips_lines_without_colon() {
    let h = Headers::from("A: 1\r\nno colon here\r\nB: 2\r\n\r\nC: 3\r\n");
    assert_eq!(single(h.get("A")), "1");
    assert_eq!(single(h.get("B")), "2");
    assert!(h.get("C").is_none());
    assert!(h.get("no colon here").is_none());
}

#[test]
fn parse_strips_at_most_one_leading_space() {
    let h = Headers::from("A:1\r\nB:  2\r\n");
    assert_eq!(single(h.get("A")), "1");
    assert_eq!(single(h.get("B")), " 2");
}

#[test]
fn wire_text_round_trips() {
    let mut h = Headers::new();
    h.add("Alpha", "1");
    h.add("beta", "two");
    h.add("Alpha", "3");
    let wire = h.to_wire_text();
    assert_eq!(wire, "Alpha: 1\r\nAlpha: 3\r\nbeta: two\r\n");
    let back = Headers::from(wire.as_str());
    assert_eq!(multiple(back.get("Alpha")), vec!["1", "3"]);
    assert_eq!(single(back.get("beta")), "two");
}

#[test]
fn status_codes_and_reasons() {
    assert_eq!(StatusCode::OK.code(), 200);
    assert_eq!(StatusCode::OK.reason_phrase(), "OK");
    assert_eq!(StatusCode::BadRequest.code(), 400);
    assert_eq!(StatusCode::BadRequest.reason_phrase(), "Bad Request");
    assert_eq!(StatusCode::NotFound.code(), 404);
    assert_eq!(StatusCode::NotFound.reason_phrase(), "Not Found");
}

#[test]
fn wire_text_is_exact_for_a_known_date() {
    let mut r = Response::new_with_default_headers(StatusCode::OK, Some(String::from("hi")));
    r.add_header("X", "1");
    let text = r.to_wire_text("D");
    assert_eq!(
        text,
        "HTTP/1.1 200 OK\r\nDate: D\r\nServer: eli's rusty server\r\nContent-Length: 2\r\nX: 1\r\n\r\nhi"
    );
}

#[test]
fn send_writes_status_line_content_length_and_body() {
    let r = Response::new_with_default_headers(StatusCode::OK, Some(String::from("hi")));
    let mut sink: Vec<u8> = Vec::new();
    r.send(&mut sink).unwrap();
    let text = String::from_utf8(sink).unwrap();
    assert!(text.starts_with("HTTP/1.1 200 OK\r\n"));
    assert!(text.contains("\r\nContent-Length: 2\r\n"));
    assert!(text.contains("\r\nDate: "));
    assert!(text.contains("\r\nServer: eli's rusty server\r\n"));
    assert!(text.ends_with("\r\n\r\nhi"));
}

#[test]
fn send_without_body_has_length_zero_and_empty_body() {
    let r = Response::new_with_default_headers(StatusCode::NotFound, None);
    let mut sink: Vec<u8> = Vec::new();
    r.send(&mut sink).unwrap();
    let text = String::from_utf8(sink).unwrap();
    assert!(text.starts_with("HTTP/1.1 404 Not Found\r\n"));
    assert!(text.contains("\r\nContent-Length: 0\r\n"));
    assert!(text.ends_with("\r\n\r\n"));
}

#[test]
fn decimal_rendering_is_exact() {
    assert_eq!(u64_to_dec(0), "0");
    assert_eq!(u64_to_dec(7), "7");
    assert_eq!(u64_to_dec(12345), "12345");
    assert_eq!(u64_to_dec(18446744073709551615), "18446744073709551615");
}

#[test]
fn leap_years_follow_the_gregorian_rule() {
    assert!(httpcore::date::is_leap(2000));
    assert!(!httpcore::date::is_leap(1900));
    assert!(httpcore::date::is_leap(2024));
    assert!(!httpcore::date::is_leap(2023));
}

#[test]
fn rfc2822_formatting_matches_known_moments() {
    assert_eq!(rfc2822_from_epoch(0), "Thu, 01 Jan 1970 00:00:00 +0000");
    assert_eq!(rfc2822_from_epoch(1057055557), "Tue, 01 Jul 2003 10:32:37 +0000");
    assert_eq!(rfc2822_from_epoch(1700000000), "Tue, 14 Nov 2023 22:13:20 +0000");
    assert_eq!(rfc2822_from_epoch(4102444799), "Thu, 31 Dec 2099 23:59:59 +0000");
}

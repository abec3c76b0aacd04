use minihttp::request_parser::{RequestParser, ParseError};
use minihttp::HttpMethod;

fn parse(bytes: &[u8]) -> Result<minihttp::http_request::HttpRequest, ParseError> {
    RequestParser::new(bytes.to_vec()).parse()
}

#[test]
fn request_line_with_query_recovers_all_parts() {
    let req = parse(b"GET /x?a=1&b=2 HTTP/1.1\r\n\r\n").unwrap();
    assert_eq!(*req.get_method(), HttpMethod::Get);
    assert_eq!(req.get_path(), &b"/x".to_vec());
    assert_eq!(req.get_query().get(&b"a".to_vec()), Some(&b"1".to_vec()));
    assert_eq!(req.get_query().get(&b"b".to_vec()), Some(&b"2".to_vec()));
    assert_eq!(req.get_query().len(), 2);
    assert!(req.get_body().is_none());
}

#[test]
fn all_nine_methods_parse() {
    let cases: Vec<(&[u8], HttpMethod)> = vec![
        (b"GET", HttpMethod::Get),
        (b"POST", HttpMethod::Post),
        (b"PUT", HttpMethod::Put),
        (b"DELETE", HttpMethod::Delete),
        (b"PATCH", HttpMethod::Patch),
        (b"HEAD", HttpMethod::Head),
        (b"OPTIONS", HttpMethod::Options),
        (b"TRACE", HttpMethod::Trace),
        (b"CONNECT", HttpMethod::Connect),
    ];
    for (tok, m) in cases {
        let mut input = tok.to_vec();
        input.extend_from_slice(b" /p HTTP/1.1\r\n\r\n");
        let req = parse(&input).unwrap();
        assert_eq!(*req.get_method(), m);
        assert_eq!(req.get_path(), &b"/p".to_vec());
    }
}

#[test]
fn duplicate_query_key_last_wins() {
    let req = parse(b"GET /x?a=1&a=2 HTTP/1.1\r\n\r\n").unwrap();
    assert_eq!(req.get_query().get(&b"a".to_vec()), Some(&b"2".to_vec()));
    assert_eq!(req.get_query().len(), 1);
}

#[test]
fn exact_content_length_body_parses() {
    let req = parse(b"POST /x HTTP/1.1\r\nContent-Length: 5\r\n\r\nhello").unwrap();
    assert_eq!(req.get_body(), Some(&b"hello".to_vec()));
}

#[test]
fn short_body_is_content_too_small() {
    let r = parse(b"POST /x HTTP/1.1\r\nContent-Length: 5\r\n\r\nhel");
    assert!(matches!(r, Err(ParseError::ContentTooSmall)));
}

#[test]
fn long_body_is_content_too_large() {
    let r = parse(b"POST /x HTTP/1.1\r\nContent-Length: 5\r\n\r\nhelloEXTRA");
    assert!(matches!(r, Err(ParseError::ContentTooLarge)));
}

#[test]
fn unknown_method_is_invalid_method() {
    let r = parse(b"FOO /x HTTP/1.1\r\n\r\n");
    assert!(matches!(r, Err(ParseError::InvalidMethod)));
}

#[test]
fn empty_input_is_malformed() {
    assert!(matches!(parse(b""), Err(ParseError::MalformedRequest)));
}

#[test]
fn missing_target_is_malformed() {
    assert!(matches!(parse(b"GET\r\n\r\n"), Err(ParseError::MalformedRequest)));
}

#[test]
fn query_pair_without_equals_is_malformed() {
    assert!(matches!(parse(b"GET /x?a HTTP/1.1\r\n\r\n"), Err(ParseError::MalformedRequest)));
}

#[test]
fn missing_header_terminator_is_malformed() {
    assert!(matches!(parse(b"GET / HTTP/1.1\r\n"), Err(ParseError::MalformedRequest)));
}

#[test]
fn header_line_without_colon_is_malformed() {
    assert!(matches!(
        parse(b"GET / HTTP/1.1\r\nNoColonHere\r\n\r\n"),
        Err(ParseError::MalformedRequest)
    ));
}

#[test]
fn header_values_are_trimmed() {
    let req = parse(b"GET / HTTP/1.1\r\nHost:   example.com  \r\n\r\n").unwrap();
    assert_eq!(
        req.get_headers().get(&b"Host".to_vec()),
        Some(&b"example.com".to_vec())
    );
}

#[test]
fn header_lookup_is_case_sensitive() {
    let req = parse(b"GET / HTTP/1.1\r\nHost: a\r\n\r\n").unwrap();
    assert_eq!(req.get_headers().get(&b"host".to_vec()), None);
}

#[test]
fn unparseable_content_length_counts_as_zero() {
    let req = parse(b"POST /x HTTP/1.1\r\nContent-Length: abc\r\n\r\n").unwrap();
    assert!(req.get_body().is_none());
}

#[test]
fn content_length_with_plus_sign_parses() {
    let req = parse(b"POST /x HTTP/1.1\r\nContent-Length: +5\r\n\r\nhello").unwrap();
    assert_eq!(req.get_body(), Some(&b"hello".to_vec()));
}

#[test]
fn zero_content_length_means_no_body() {
    let req = parse(b"POST /x HTTP/1.1\r\nContent-Length: 0\r\n\r\n").unwrap();
    assert!(req.get_body().is_none());
}

#[test]
fn lf_only_line_endings_parse() {
    let req = parse(b"GET /x HTTP/1.1\nHost: a\n\n").unwrap();
    assert_eq!(req.get_path(), &b"/x".to_vec());
    assert_eq!(req.get_headers().get(&b"Host".to_vec()), Some(&b"a".to_vec()));
}

#[test]
fn header_value_splits_on_first_colon_only() {
    let req = parse(b"GET / HTTP/1.1\r\nX-Time: 10:30:00\r\n\r\n").unwrap();
    assert_eq!(
        req.get_headers().get(&b"X-Time".to_vec()),
        Some(&b"10:30:00".to_vec())
    );
}

#[test]
fn query_value_splits_on_first_equals_only() {
    let req = parse(b"GET /x?a=b=c HTTP/1.1\r\n\r\n").unwrap();
    assert_eq!(req.get_query().get(&b"a".to_vec()), Some(&b"b=c".to_vec()));
}

#[test]
fn query_and_body_parse_together() {
    let req = parse(b"POST /submit?id=7 HTTP/1.1\r\nContent-Length: 3\r\nHost: h\r\n\r\nabc").unwrap();
    assert_eq!(req.get_path(), &b"/submit".to_vec());
    assert_eq!(req.get_query().get(&b"id".to_vec()), Some(&b"7".to_vec()));
    assert_eq!(req.get_headers().get(&b"Host".to_vec()), Some(&b"h".to_vec()));
    assert_eq!(req.get_body(), Some(&b"abc".to_vec()));
}

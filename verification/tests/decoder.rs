use rusty_mvc::errors::HttpError;
use rusty_mvc::request::Request;

#[test]
fn malformed_start_line_single_token() {
    // A stream whose first line is a single token has no path.
    let r = Request::new("GET");
    assert!(matches!(r, Err(HttpError::MalformedInput)));
    let r2 = Request::parse_route("GET");
    assert!(matches!(r2, Err(HttpError::MalformedInput)));
}

#[test]
fn empty_stream_is_malformed() {
    let r = Request::new("");
    assert!(matches!(r, Err(HttpError::MalformedInput)));
}

#[test]
fn parse_route_splits_method_path_query() {
    let (method, path, query) = Request::parse_route("GET /dogs?a=1 HTTP/1.1").unwrap();
    assert_eq!(method, "GET".to_string());
    assert_eq!(path, "/dogs".to_string());
    assert_eq!(query, Some("a=1".to_string()));
}

#[test]
fn parse_route_keeps_later_question_marks() {
    // The target is cut at the first `?` only.
    let (_, path, query) = Request::parse_route("GET /x?a=1?b=2 HTTP/1.1").unwrap();
    assert_eq!(path, "/x".to_string());
    assert_eq!(query, Some("a=1?b=2".to_string()));
}

#[test]
fn parse_query_mixed_separators() {
    // Both `&` and `;` separate tokens; a bare key carries no value.
    let q = Request::parse_query("a=1&b;c=3").unwrap();
    assert_eq!(q.get("a"), Some(&Some("1".to_string())));
    assert_eq!(q.get("b"), Some(&None));
    assert_eq!(q.get("c"), Some(&Some("3".to_string())));
    assert_eq!(q.get("d"), None);
}

#[test]
fn parse_query_splits_once_on_equals() {
    // The token splits once: everything after the first `=` is value.
    let q = Request::parse_query("a=1=2").unwrap();
    assert_eq!(q.get("a"), Some(&Some("1=2".to_string())));
}

#[test]
fn parse_query_later_token_wins() {
    let q = Request::parse_query("a=1&a=2").unwrap();
    assert_eq!(q.get("a"), Some(&Some("2".to_string())));
}

#[test]
fn parse_headers_until_short_line() {
    let m = Request::parse_headers("GET / HTTP/1.1\r\nHost: here\r\nX-One: 1\r\n\r\nbody").unwrap();
    assert_eq!(m.get("Host"), Some(&" here".to_string()));
    assert_eq!(m.get("X-One"), Some(&" 1".to_string()));
    assert_eq!(m.get("body"), None);
}

#[test]
fn parse_headers_missing_colon_is_malformed() {
    let r = Request::parse_headers("GET / HTTP/1.1\r\nnocolonhere\r\n\r\n");
    assert!(matches!(r, Err(HttpError::MalformedInput)));
}

#[test]
fn parse_headers_last_line_wins() {
    let m = Request::parse_headers("GET / HTTP/1.1\r\nHost: here\r\nHost: there\r\n\r\n").unwrap();
    assert_eq!(m.get("Host"), Some(&" there".to_string()));
}

#[test]
fn decode_full_request() {
    let text = "GET /dogs?a=1 HTTP/1.1\r\nHost: here\r\n\r\nhello body";
    let req = Request::new(text).unwrap();
    assert_eq!(req.method, "GET".to_string());
    assert_eq!(req.route, "/dogs".to_string());
    assert_eq!(req.headers.get("Host"), Some(&" here".to_string()));
    let q = req.query.as_ref().unwrap();
    assert_eq!(q.get("a"), Some(&Some("1".to_string())));
    assert!(req.params.is_none());
    assert_eq!(req.raw_full, text.to_string());
    assert_eq!(req.raw_headers, "GET /dogs?a=1 HTTP/1.1\r\nHost: here".to_string());
    assert_eq!(req.body, Some("hello body".to_string()));
}

#[test]
fn decode_without_blank_line_has_no_body() {
    let req = Request::new("GET / HTTP/1.1\r\nHost: x\r\n").unwrap();
    assert!(req.body.is_none());
    assert_eq!(req.raw_headers, "GET / HTTP/1.1\r\nHost: x\r\n".to_string());
}

#[test]
fn decode_without_question_mark_has_no_query() {
    let req = Request::new("GET /plain HTTP/1.1\r\n\r\n").unwrap();
    assert!(req.query.is_none());
    assert_eq!(req.route, "/plain".to_string());
}

#[test]
fn describe_lists_headers_and_query() {
    let req = Request::new("GET /x?k=v HTTP/1.1\r\nA: 1\r\n\r\n").unwrap();
    let text = req.describe();
    assert!(text.starts_with("method: GET\n"));
    assert!(text.contains("A:  1\n"));
    assert!(text.contains("k: v\n"));
    assert!(text.ends_with(" route: /x"));
}

#[test]
fn describe_without_query_says_so() {
    let req = Request::new("GET /x HTTP/1.1\r\n\r\n").unwrap();
    let text = req.describe();
    assert!(text.contains("no query"));
}

use rusty_mvc::errors::HttpError;
use rusty_mvc::response::{status_to_named, Response};

#[test]
fn reason_table_exact_values() {
    assert_eq!(status_to_named(100), Some("Continue".to_string()));
    assert_eq!(status_to_named(200), Some("OK".to_string()));
    assert_eq!(status_to_named(301), Some("Moved Permanently".to_string()));
    assert_eq!(status_to_named(400), Some("Bad Request".to_string()));
    assert_eq!(status_to_named(401), Some("Unauthorized".to_string()));
    assert_eq!(status_to_named(403), Some("Forbidden".to_string()));
    assert_eq!(status_to_named(404), Some("Not Found".to_string()));
    assert_eq!(status_to_named(405), Some("Method Not Allowed".to_string()));
    assert_eq!(status_to_named(414), Some("URI Too Long".to_string()));
    assert_eq!(status_to_named(418), Some("I'm a teapot".to_string()));
    assert_eq!(status_to_named(500), Some("Internal Server Error".to_string()));
}

#[test]
fn reason_table_unknown_code() {
    assert_eq!(status_to_named(123), None);
    assert_eq!(status_to_named(0), None);
}

#[test]
fn send_serializes_status_headers_and_body() {
    let mut res = Response::new();
    res.status(404);
    res.content_type("text/html");
    res.send("oops").unwrap();
    assert_eq!(
        res.output,
        "HTTP/1.1 404 Not Found\r\nContent-Type: text/html\r\n\r\n\r\noops".to_string()
    );
}

#[test]
fn send_default_status_is_ok() {
    let mut res = Response::new();
    res.send("hello").unwrap();
    assert_eq!(res.output, "HTTP/1.1 200 OK\r\n\r\n\r\nhello".to_string());
}

#[test]
fn send_unknown_status_is_an_error_not_a_panic() {
    let mut res = Response::new();
    res.status(123);
    let r = res.send("x");
    assert!(matches!(r, Err(HttpError::UnknownStatus)));
    assert_eq!(res.output, "".to_string());
}

#[test]
fn create_response_does_not_write() {
    let mut res = Response::new();
    res.status(418);
    let payload = res.create_response("tea").unwrap();
    assert_eq!(payload, "HTTP/1.1 418 I'm a teapot\r\n\r\n\r\ntea".to_string());
    assert_eq!(res.output, "".to_string());
}

#[test]
fn headers_serialize_in_insertion_order() {
    let mut res = Response::new();
    res.headers.insert("B".to_string(), "2".to_string());
    res.headers.insert("A".to_string(), "1".to_string());
    res.headers.insert("B".to_string(), "3".to_string());
    res.send("").unwrap();
    assert_eq!(res.output, "HTTP/1.1 200 OK\r\nB: 3\r\nA: 1\r\n\r\n\r\n".to_string());
}

#[test]
fn two_sends_append() {
    let mut res = Response::new();
    res.send("one").unwrap();
    res.send("two").unwrap();
    assert_eq!(
        res.output,
        "HTTP/1.1 200 OK\r\n\r\n\r\noneHTTP/1.1 200 OK\r\n\r\n\r\ntwo".to_string()
    );
}

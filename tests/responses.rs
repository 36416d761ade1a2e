use http_server::response::{content_headers_for, parse_status_line, Response};
use http_server::text::decimal_string;

#[test]
fn empty_ok_wire_form() {
    assert_eq!(Response::empty_ok().as_string(), "HTTP/1.1 200 OK\r\n\r\n\r\n");
}

#[test]
fn ok_with_body_wire_form() {
    let r = Response::ok(content_headers_for(5, "text/plain"), Some("hello".to_string()));
    assert_eq!(
        r.as_string(),
        "HTTP/1.1 200 Ok\r\nContent-Length: 5\r\nContent-Type: text/plain\r\n\r\nhello"
    );
}

#[test]
fn fixed_statuses() {
    let c = Response::created();
    assert_eq!(c.status_code, (201, "Created".to_string()));
    assert!(c.headers.is_empty() && c.body.is_none());
    let n = Response::not_found();
    assert_eq!(n.status_code, (404, "Not found".to_string()));
    assert_eq!(n.as_string(), "HTTP/1.1 404 Not found\r\n\r\n\r\n");
    let e = Response::error("boom".to_string());
    assert_eq!(e.status_code, (500, "ERROR".to_string()));
    assert_eq!(e.body, Some("boom".to_string()));
}

#[test]
fn status_line_round_trip() {
    for r in [
        Response::empty_ok(),
        Response::created(),
        Response::not_found(),
        Response::error("x".to_string()),
        Response::ok(content_headers_for(2, "text/plain"), Some("hi".to_string())),
    ] {
        let (code, text) = parse_status_line(&r.as_string()).unwrap();
        assert_eq!(code, r.status_code.0);
        assert_eq!(text, r.status_code.1);
    }
}

#[test]
fn status_line_of_other_text_is_refused() {
    assert_eq!(parse_status_line("HTTP/1.0 200 OK\r\n"), None);
    assert_eq!(parse_status_line("HTTP/1.1 abc OK\r\n"), None);
    assert_eq!(parse_status_line("HTTP/1.1 200\r\n"), None);
}

#[test]
fn decimal_forms() {
    assert_eq!(decimal_string(0), "0");
    assert_eq!(decimal_string(7), "7");
    assert_eq!(decimal_string(12345), "12345");
    assert_eq!(decimal_string(usize::MAX), usize::MAX.to_string());
}

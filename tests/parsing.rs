use http_server::errors::ParsingError;
use http_server::header::HttpHeader;
use http_server::request::{is_end_of_headers, parse_headers, parse_method_path, HttpMethod, Request};
use http_server::response::Response;

fn lines(ls: &[&str]) -> Vec<String> {
    ls.iter().map(|l| l.to_string()).collect()
}

#[test]
fn header_value_is_trimmed_and_name_is_not() {
    let h = HttpHeader::try_from("X-Custom:   value  \r\n").unwrap();
    assert_eq!(h.name, "X-Custom");
    assert_eq!(h.value, "value");
}

#[test]
fn header_keeps_later_colons_in_value() {
    let h = HttpHeader::try_from("Date: 12:30:45\r\n").unwrap();
    assert_eq!(h.name, "Date");
    assert_eq!(h.value, "12:30:45");
}

#[test]
fn header_name_keeps_its_spaces() {
    let h = HttpHeader::try_from(" Host :x").unwrap();
    assert_eq!(h.name, " Host ");
    assert_eq!(h.value, "x");
}

#[test]
fn header_without_colon_is_refused() {
    match HttpHeader::try_from("no colon here\r\n") {
        Err(ParsingError::UnsupportedHeaderFormat(s)) => assert_eq!(s, "no colon here\r\n"),
        other => panic!("unexpected {:?}", other),
    }
}

#[test]
fn header_wire_form() {
    let h = HttpHeader { name: "Host".to_string(), value: "example.com".to_string() };
    assert_eq!(h.as_string(), "Host: example.com");
}

#[test]
fn method_is_read_without_regard_to_case() {
    assert_eq!(HttpMethod::from_str("get").unwrap(), HttpMethod::GET);
    assert_eq!(HttpMethod::from_str("PoSt").unwrap(), HttpMethod::POST);
    assert_eq!(HttpMethod::from_str("PUT").unwrap(), HttpMethod::PUT);
    assert_eq!(HttpMethod::from_str("Delete").unwrap(), HttpMethod::DELETE);
}

#[test]
fn unknown_method_is_refused() {
    match HttpMethod::from_str("PATCH") {
        Err(ParsingError::UnsupportedOrMissingMethodError(s)) => assert_eq!(s, "PATCH"),
        other => panic!("unexpected {:?}", other),
    }
}

#[test]
fn request_line_gives_method_and_path() {
    let (m, p) = parse_method_path("GET /index.html HTTP/1.1\r\n").unwrap();
    assert_eq!(m, HttpMethod::GET);
    assert_eq!(p, "/index.html");
    let (m, p) = parse_method_path("delete /files/a.txt HTTP/1.1\r\n").unwrap();
    assert_eq!(m, HttpMethod::DELETE);
    assert_eq!(p, "/files/a.txt");
}

#[test]
fn request_line_without_version_gives_path() {
    let (m, p) = parse_method_path("POST /echo/x\r\n").unwrap();
    assert_eq!(m, HttpMethod::POST);
    assert_eq!(p, "/echo/x");
}

#[test]
fn request_line_without_path_fails() {
    assert!(matches!(parse_method_path("GET\r\n"), Err(ParsingError::NoPathError)));
    assert!(matches!(parse_method_path("GET  HTTP/1.1\r\n"), Err(ParsingError::NoPathError)));
}

#[test]
fn request_line_with_unknown_method_fails() {
    match parse_method_path("FETCH / HTTP/1.1\r\n") {
        Err(ParsingError::UnsupportedOrMissingMethodError(s)) => assert_eq!(s, "FETCH"),
        other => panic!("unexpected {:?}", other),
    }
    match parse_method_path("") {
        Err(ParsingError::UnsupportedOrMissingMethodError(s)) => assert_eq!(s, ""),
        other => panic!("unexpected {:?}", other),
    }
}

#[test]
fn missing_path_becomes_error_response() {
    let err = parse_method_path("GET\r\n").unwrap_err();
    let wire = Response::error(err.to_string()).as_string();
    assert_eq!(wire, "HTTP/1.1 500 ERROR\r\n\r\n\r\nFailed to parse path");
}

#[test]
fn error_descriptions() {
    let e = ParsingError::UnsupportedOrMissingMethodError("FOO".to_string());
    assert_eq!(e.to_string(), "Failed to parse http method: FOO");
    let e = ParsingError::UnsupportedHeaderFormat("bad".to_string());
    assert_eq!(e.to_string(), "Unsupported header format: bad");
}

#[test]
fn blank_line_ends_headers() {
    assert!(is_end_of_headers("\r\n"));
    assert!(!is_end_of_headers("Host: x\r\n"));
    assert!(!is_end_of_headers(""));
}

#[test]
fn malformed_header_lines_are_dropped() {
    let hs = parse_headers(&lines(&["Host: a\r\n", "garbage\r\n", "Accept: */*\r\n"]));
    assert_eq!(hs.len(), 2);
    assert_eq!(hs[0].name, "Host");
    assert_eq!(hs[1].name, "Accept");
    assert_eq!(hs[1].value, "*/*");
}

#[test]
fn head_is_assembled() {
    let req = Request::from_head(
        "GET /user-agent HTTP/1.1\r\n",
        &lines(&["Host: localhost\r\n", "User-Agent: test-agent\r\n"]),
    )
    .unwrap();
    assert_eq!(req.method, HttpMethod::GET);
    assert_eq!(req.path, "/user-agent");
    assert_eq!(req.headers.len(), 2);
    assert_eq!(req.headers[1].value, "test-agent");
    assert!(req.body.is_none());
    assert_eq!(req.body_length(), None);
}

#[test]
fn body_takes_exactly_the_announced_bytes() {
    let mut req =
        Request::from_head("POST /files/a HTTP/1.1\r\n", &lines(&["Content-Length: 5\r\n"])).unwrap();
    assert_eq!(req.body_length(), Some(5));
    req.attach_body(b"helloEXTRA GET / HTTP/1.1");
    assert_eq!(req.body, Some(b"hello".to_vec()));
}

#[test]
fn content_length_name_ignores_case_and_first_wins() {
    let req = Request::from_head(
        "POST / HTTP/1.1\r\n",
        &lines(&["content-LENGTH: 3\r\n", "Content-Length: 9\r\n"]),
    )
    .unwrap();
    assert_eq!(req.body_length(), Some(3));
}

#[test]
fn zero_or_unreadable_content_length_gives_no_body() {
    for v in ["0", "abc", "", "-1", "99999999999999999999999999"] {
        let line = format!("Content-Length: {}\r\n", v);
        let req = Request::from_head("POST / HTTP/1.1\r\n", &lines(&[line.as_str()])).unwrap();
        assert_eq!(req.body_length(), None, "value {:?}", v);
    }
}

#[test]
fn content_length_accepts_plus_sign() {
    let req = Request::from_head("POST / HTTP/1.1\r\n", &lines(&["Content-Length: +7\r\n"])).unwrap();
    assert_eq!(req.body_length(), Some(7));
}

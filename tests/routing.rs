use std::collections::HashMap;

use http_server::request::Request;
use http_server::response::Response;
use http_server::router::{file_response, handle_request, write_response, Action};
use http_server::utils::concat_path;

fn request(line: &str, headers: &[&str], body: Option<&[u8]>) -> Request {
    let lines: Vec<String> = headers.iter().map(|l| l.to_string()).collect();
    let mut req = Request::from_head(line, &lines).unwrap();
    if let Some(b) = body {
        req.attach_body(b);
    }
    req
}

fn respond(req: Request, dir: Option<&str>, files: &mut HashMap<String, Vec<u8>>) -> Response {
    match handle_request(req, dir.map(|d| d.to_string())) {
        Action::Respond(r) => r,
        Action::ReadFile(p) => {
            file_response(files.get(&p).map(|c| String::from_utf8(c.clone()).unwrap()))
        }
        Action::WriteFile(p, b) => {
            files.insert(p, b);
            write_response(true)
        }
    }
}

#[test]
fn echo_route() {
    let mut files = HashMap::new();
    let r = respond(request("GET /echo/hello HTTP/1.1\r\n", &[], None), None, &mut files);
    assert_eq!(r.status_code.0, 200);
    assert!(r.headers.contains(&"Content-Length: 5".to_string()));
    assert!(r.headers.contains(&"Content-Type: text/plain".to_string()));
    assert_eq!(r.body, Some("hello".to_string()));
}

#[test]
fn echo_route_strips_one_trailing_slash() {
    let mut files = HashMap::new();
    let r = respond(request("GET /echo/abc/ HTTP/1.1\r\n", &[], None), None, &mut files);
    assert_eq!(r.body, Some("abc".to_string()));
}

#[test]
fn root_route() {
    let mut files = HashMap::new();
    let r = respond(request("GET / HTTP/1.1\r\n", &[], None), None, &mut files);
    assert_eq!(r.status_code, (200, "OK".to_string()));
    assert!(r.headers.is_empty());
    assert_eq!(r.body, None);
    assert_eq!(r.as_string(), "HTTP/1.1 200 OK\r\n\r\n\r\n");
}

#[test]
fn user_agent_route() {
    let mut files = HashMap::new();
    let req = request("GET /user-agent HTTP/1.1\r\n", &["Host: x\r\n", "User-Agent: test-agent\r\n"], None);
    let r = respond(req, None, &mut files);
    assert_eq!(r.status_code.0, 200);
    assert_eq!(r.body, Some("test-agent".to_string()));
    assert_eq!(r.headers, vec!["Content-Length: 10".to_string(), "Content-Type: text/plain".to_string()]);
}

#[test]
fn user_agent_route_without_header() {
    let mut files = HashMap::new();
    let r = respond(request("GET /user-agent HTTP/1.1\r\n", &[], None), None, &mut files);
    assert_eq!(r.body, Some("None".to_string()));
}

#[test]
fn file_written_then_read() {
    let mut files = HashMap::new();
    let post = request("POST /files/a.txt HTTP/1.1\r\n", &["Content-Length: 2\r\n"], Some(b"hi"));
    let r = respond(post, Some("/tmp/store"), &mut files);
    assert_eq!(r.status_code, (201, "Created".to_string()));
    assert_eq!(files.get("/tmp/store/a.txt"), Some(&b"hi".to_vec()));
    let r = respond(request("GET /files/a.txt HTTP/1.1\r\n", &[], None), Some("/tmp/store"), &mut files);
    assert_eq!(r.status_code.0, 200);
    assert_eq!(r.body, Some("hi".to_string()));
    assert!(r.headers.contains(&"Content-Type: application/octet-stream".to_string()));
    assert!(r.headers.contains(&"Content-Length: 2".to_string()));
}

#[test]
fn missing_file_is_not_found() {
    let mut files = HashMap::new();
    let r = respond(request("GET /files/missing.txt HTTP/1.1\r\n", &[], None), Some("/tmp/empty/"), &mut files);
    assert_eq!(r.status_code.0, 404);
}

#[test]
fn file_routes_without_directory_are_not_found() {
    let mut files = HashMap::new();
    let r = respond(request("GET /files/a.txt HTTP/1.1\r\n", &[], None), None, &mut files);
    assert_eq!(r.status_code.0, 404);
    let r = respond(request("POST /files/a.txt HTTP/1.1\r\n", &[], None), None, &mut files);
    assert_eq!(r.status_code.0, 404);
    assert!(files.is_empty());
}

#[test]
fn failed_write_is_not_found() {
    assert_eq!(write_response(false).status_code.0, 404);
}

#[test]
fn post_without_body_writes_nothing() {
    match handle_request(request("POST /files/e HTTP/1.1\r\n", &[], None), Some("d".to_string())) {
        Action::WriteFile(p, b) => {
            assert_eq!(p, "d/e");
            assert!(b.is_empty());
        }
        other => panic!("unexpected {:?}", other),
    }
}

#[test]
fn unknown_route_is_not_found() {
    let mut files = HashMap::new();
    let r = respond(request("GET /nope HTTP/1.1\r\n", &[], None), None, &mut files);
    assert_eq!(r.status_code, (404, "Not found".to_string()));
    let r = respond(request("PUT /echo/x HTTP/1.1\r\n", &[], None), None, &mut files);
    assert_eq!(r.status_code.0, 404);
}

#[test]
fn paths_are_joined_with_one_slash() {
    assert_eq!(concat_path(Some("/tmp".to_string()), "a"), Some("/tmp/a".to_string()));
    assert_eq!(concat_path(Some("/tmp/".to_string()), "a"), Some("/tmp/a".to_string()));
    assert_eq!(concat_path(None, "a"), None);
}

#[test]
fn read_failure_is_answered_with_500() {
    match http_server::router::answer(Err("Failed to parse path".to_string()), None) {
        Action::Respond(r) => {
            assert_eq!(r.status_code, (500, "ERROR".to_string()));
            assert_eq!(r.body, Some("Failed to parse path".to_string()));
        }
        other => panic!("unexpected {:?}", other),
    }
}

#[test]
fn read_request_is_routed() {
    let req = request("GET /echo/abc HTTP/1.1\r\n", &[], None);
    match http_server::router::answer(Ok(req), None) {
        Action::Respond(r) => assert_eq!(r.body, Some("abc".to_string())),
        other => panic!("unexpected {:?}", other),
    }
}

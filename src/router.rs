//! Choosing what to do with a request.
use vstd::prelude::*;
use crate::request::{HttpMethod, Request, find_header, header_value, headers_view, is_first_named};
use crate::response::{Response, ResponseView, bare, byte_len, content_headers, content_headers_for};
use crate::text::{has_prefix, range_eq, range_starts_with, to_chars};
use crate::utils::{concat_path, path_in};

verus! {

/// What answering a request takes: a response that is ready, or a file to read or write
/// first.
#[derive(Debug)]
pub enum Action {
    /// Send this response.
    Respond(Response),
    /// Read the file at this path and answer with `file_response`.
    ReadFile(String),
    /// Write these bytes to the file at this path and answer with `write_response`.
    WriteFile(String, Vec<u8>),
}

/// The content of an `Action`.
pub ghost enum ActionView {
    Respond(ResponseView),
    ReadFile(Seq<char>),
    WriteFile(Seq<char>, Seq<u8>),
}

impl View for Action {
    type V = ActionView;

    open spec fn view(&self) -> ActionView {
        match self {
            Action::Respond(r) => ActionView::Respond(r@),
            Action::ReadFile(p) => ActionView::ReadFile(p@),
            Action::WriteFile(p, b) => ActionView::WriteFile(p@, b@),
        }
    }
}

/// The path that routes are matched against: one trailing `/` removed, except from `/`.
pub open spec fn route_path(path: Seq<char>) -> Seq<char> {
    if path.len() > 1 && path.last() == '/' {
        path.drop_last()
    } else {
        path
    }
}

/// `200 Ok` carrying `body`, with its length and type.
pub open spec fn body_response(body: Seq<char>, content_type: Seq<char>) -> ResponseView {
    ResponseView {
        code: 200,
        text: "Ok"@,
        headers: content_headers(byte_len(body) as nat, content_type),
        body: Some(body),
    }
}

pub open spec fn not_found_view() -> ResponseView {
    bare(404, "Not found"@)
}

/// What a request is answered with, by the first route that matches it.
pub open spec fn route_of(
    method: HttpMethod,
    path: Seq<char>,
    headers: Seq<(Seq<char>, Seq<char>)>,
    body: Option<Seq<u8>>,
    dir: Option<Seq<char>>,
) -> ActionView {
    let p = route_path(path);
    if method == HttpMethod::GET && p == "/"@ {
        ActionView::Respond(bare(200, "OK"@))
    } else if method == HttpMethod::GET && p == "/user-agent"@ {
        let agent = match header_value(headers, "user-agent"@) {
            Some(v) => v,
            None => "None"@,
        };
        ActionView::Respond(body_response(agent, "text/plain"@))
    } else if method == HttpMethod::GET && has_prefix(p, "/echo/"@) {
        ActionView::Respond(
            body_response(p.subrange("/echo/"@.len() as int, p.len() as int), "text/plain"@),
        )
    } else if method == HttpMethod::GET && has_prefix(p, "/files/"@) {
        match dir {
            Some(d) => ActionView::ReadFile(
                path_in(d, p.subrange("/files/"@.len() as int, p.len() as int)),
            ),
            None => ActionView::Respond(not_found_view()),
        }
    } else if method == HttpMethod::POST && has_prefix(p, "/files/"@) {
        match dir {
            Some(d) => ActionView::WriteFile(
                path_in(d, p.subrange("/files/"@.len() as int, p.len() as int)),
                match body {
                    Some(b) => b,
                    None => seq![],
                },
            ),
            None => ActionView::Respond(not_found_view()),
        }
    } else {
        ActionView::Respond(not_found_view())
    }
}

/// `200 Ok` carrying `body`, with its length and type.
fn body_response_for(body: String, content_type: &str) -> (r: Response)
    ensures
        r@ == body_response(body@, content_type@),
{
    let len = body.as_str().len();
    let headers = content_headers_for(len, content_type);
    Response::ok(headers, Some(body))
}

/// Decides how to answer `req`, given the directory that files are served from, if any.
pub fn handle_request(req: Request, dir: Option<String>) -> (r: Action)
    ensures
        r@ == route_of(
            req.method,
            req.path@,
            headers_view(req.headers@),
            match req.body {
                Some(b) => Some(b@),
                None => None,
            },
            match dir {
                Some(d) => Some(d@),
                None => None,
            },
        ),
{
    let ghost hs = headers_view(req.headers@);
    let chars = to_chars(req.path.as_str());
    let n = chars.len();
    let end = if n > 1 && chars[n - 1] == '/' {
        n - 1
    } else {
        n
    };
    assert(chars@.subrange(0, end as int) =~= route_path(req.path@));
    let ghost p = route_path(req.path@);
    let get = req.method == HttpMethod::GET;
    if get && range_eq(&chars, 0, end, "/") {
        Action::Respond(Response::empty_ok())
    } else if get && range_eq(&chars, 0, end, "/user-agent") {
        let agent = match find_header(&req.headers, "user-agent") {
            Some(i) => {
                proof {
                    let k = choose|k: int| is_first_named(hs, "user-agent"@, k);
                    assert(k == i as int);
                    assert(hs[k].1 == req.headers@[k].value@);
                }
                req.headers[i].value.clone()
            },
            None => String::from_str("None"),
        };
        Action::Respond(body_response_for(agent, "text/plain"))
    } else if get && range_starts_with(&chars, 0, end, "/echo/") {
        let from = "/echo/".unicode_len();
        let echo = String::from_str(req.path.as_str().substring_char(from, end));
        assert(echo@ =~= p.subrange("/echo/"@.len() as int, p.len() as int));
        Action::Respond(body_response_for(echo, "text/plain"))
    } else if range_starts_with(&chars, 0, end, "/files/") && (get || req.method
        == HttpMethod::POST) {
        let from = "/files/".unicode_len();
        let name = req.path.as_str().substring_char(from, end);
        assert(name@ =~= p.subrange("/files/"@.len() as int, p.len() as int));
        match concat_path(dir, name) {
            Some(p) => if get {
                Action::ReadFile(p)
            } else {
                let body = match req.body {
                    Some(b) => b,
                    None => Vec::new(),
                };
                Action::WriteFile(p, body)
            },
            None => Action::Respond(Response::not_found()),
        }
    } else {
        Action::Respond(Response::not_found())
    }
}

/// The answer to a file read: the content as an octet stream, or `404` where it could not
/// be read.
pub fn file_response(content: Option<String>) -> (r: Response)
    ensures
        r@ == match content {
            Some(c) => body_response(c@, "application/octet-stream"@),
            None => not_found_view(),
        },
{
    match content {
        Some(c) => body_response_for(c, "application/octet-stream"),
        None => Response::not_found(),
    }
}

/// The answer to a file write: `201 Created`, or `404` where it failed.
pub fn write_response(written: bool) -> (r: Response)
    ensures
        r@ == if written {
            bare(201, "Created"@)
        } else {
            not_found_view()
        },
{
    if written {
        Response::created()
    } else {
        Response::not_found()
    }
}

/// Decides how to answer what was read from a connection: a request is routed as
/// `handle_request` does; a failure to read one is answered with `500` and its description.
pub fn answer(read: Result<Request, String>, dir: Option<String>) -> (r: Action)
    ensures
        match read {
            Ok(req) => r@ == route_of(
                req.method,
                req.path@,
                headers_view(req.headers@),
                match req.body {
                    Some(b) => Some(b@),
                    None => None,
                },
                match dir {
                    Some(d) => Some(d@),
                    None => None,
                },
            ),
            Err(description) => r@ == ActionView::Respond(
                ResponseView {
                    code: 500,
                    text: "ERROR"@,
                    headers: seq![],
                    body: Some(description@),
                },
            ),
        },
{
    match read {
        Ok(req) => handle_request(req, dir),
        Err(description) => Action::Respond(Response::error(description)),
    }
}

} // verus!

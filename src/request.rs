//! The request model and the steps that build it from the lines and bytes of a connection.
use vstd::prelude::*;
use crate::errors::{ParsingError, ParsingErrorView};
use crate::header::{HttpHeader, header_of};
use crate::text::{
    char_matches_lower, decimal_value, eq_ignore_case, find_char, first_index, has_prefix,
    is_first_index, parse_usize, range_eq_ignore_case, range_starts_with, to_chars,
};

verus! {

/// The request methods that are understood.
#[derive(Debug, Clone, Copy, PartialEq, Eq, Structural)]
pub enum HttpMethod {
    GET,
    POST,
    PUT,
    DELETE,
}

/// The method that the token `tok` names, compared without regard to case.
pub open spec fn method_of(tok: Seq<char>) -> Option<HttpMethod> {
    if eq_ignore_case(tok, "get"@) {
        Some(HttpMethod::GET)
    } else if eq_ignore_case(tok, "post"@) {
        Some(HttpMethod::POST)
    } else if eq_ignore_case(tok, "put"@) {
        Some(HttpMethod::PUT)
    } else if eq_ignore_case(tok, "delete"@) {
        Some(HttpMethod::DELETE)
    } else {
        None
    }
}

/// A line without its terminator (`\r\n`, or a bare `\n`).
pub open spec fn line_content(line: Seq<char>) -> Seq<char> {
    if line.len() >= 2 && line[line.len() - 2] == '\r' && line.last() == '\n' {
        line.subrange(0, line.len() - 2)
    } else if line.len() >= 1 && line.last() == '\n' {
        line.drop_last()
    } else {
        line
    }
}

/// `s` up to its first space, or all of `s` where it has none.
pub open spec fn first_token(s: Seq<char>) -> Seq<char> {
    match first_index(s, ' ') {
        Some(j) => s.subrange(0, j),
        None => s,
    }
}

/// What a request line gives: its method and its path, or why it gives none.
/// The method is the token before the first space; the path is the token after it, up to the
/// next space or the end of the line. The version that may follow is not read.
pub open spec fn request_line_of(line: Seq<char>) -> Result<(HttpMethod, Seq<char>), ParsingErrorView> {
    let c = line_content(line);
    let tok = first_token(c);
    match method_of(tok) {
        None => Err(ParsingErrorView::UnsupportedOrMissingMethodError(tok)),
        Some(m) => match first_index(c, ' ') {
            None => Err(ParsingErrorView::NoPathError),
            Some(i) => {
                let p = first_token(c.subrange(i + 1, c.len() as int));
                if p.len() == 0 {
                    Err(ParsingErrorView::NoPathError)
                } else {
                    Ok((m, p))
                }
            },
        },
    }
}

/// The headers that a header block gives, in order; lines that hold no header are dropped.
pub open spec fn headers_of(lines: Seq<Seq<char>>) -> Seq<(Seq<char>, Seq<char>)>
    decreases lines.len(),
{
    if lines.len() == 0 {
        seq![]
    } else {
        let front = headers_of(lines.drop_last());
        match header_of(lines.last()) {
            Some(h) => front.push(h),
            None => front,
        }
    }
}

/// `i` is the position of the first header whose name equals `lower` regardless of case.
pub open spec fn is_first_named(hs: Seq<(Seq<char>, Seq<char>)>, lower: Seq<char>, i: int) -> bool {
    0 <= i < hs.len() && eq_ignore_case(hs[i].0, lower) && forall|j: int|
        0 <= j < i ==> !eq_ignore_case(#[trigger] hs[j].0, lower)
}

/// The value of the first header whose name equals `lower` regardless of case.
pub open spec fn header_value(hs: Seq<(Seq<char>, Seq<char>)>, lower: Seq<char>) -> Option<Seq<char>> {
    if exists|i: int| is_first_named(hs, lower, i) {
        Some(hs[choose|i: int| is_first_named(hs, lower, i)].1)
    } else {
        None
    }
}

/// The length of the body that the headers announce: the first `Content-Length` header,
/// where its value reads as a `usize` above zero.
pub open spec fn body_length_of(hs: Seq<(Seq<char>, Seq<char>)>) -> Option<nat> {
    match header_value(hs, "content-length"@) {
        Some(v) => match decimal_value(v) {
            Some(n) => if 0 < n <= usize::MAX {
                Some(n)
            } else {
                None
            },
            None => None,
        },
        None => None,
    }
}

pub open spec fn headers_view(hs: Seq<HttpHeader>) -> Seq<(Seq<char>, Seq<char>)> {
    hs.map_values(|h: HttpHeader| h@)
}

pub open spec fn lines_view(ls: Seq<String>) -> Seq<Seq<char>> {
    ls.map_values(|l: String| l@)
}

/// Returns the method in `s[from..to]`, if it names one.
fn method_in(s: &Vec<char>, from: usize, to: usize) -> (r: Option<HttpMethod>)
    requires
        from <= to <= s@.len(),
    ensures
        r == method_of(s@.subrange(from as int, to as int)),
{
    if range_eq_ignore_case(s, from, to, "get") {
        Some(HttpMethod::GET)
    } else if range_eq_ignore_case(s, from, to, "post") {
        Some(HttpMethod::POST)
    } else if range_eq_ignore_case(s, from, to, "put") {
        Some(HttpMethod::PUT)
    } else if range_eq_ignore_case(s, from, to, "delete") {
        Some(HttpMethod::DELETE)
    } else {
        None
    }
}

impl HttpMethod {
    /// Reads a method token, without regard to case.
    pub fn from_str(s: &str) -> (r: Result<HttpMethod, ParsingError>)
        ensures
            match method_of(s@) {
                Some(m) => r == Ok::<HttpMethod, ParsingError>(m),
                None => r matches Err(e) && e@
                    == ParsingErrorView::UnsupportedOrMissingMethodError(s@),
            },
    {
        let chars = to_chars(s);
        assert(chars@.subrange(0, chars@.len() as int) =~= s@);
        match method_in(&chars, 0, chars.len()) {
            Some(m) => Ok(m),
            None => Err(ParsingError::UnsupportedOrMissingMethodError(String::from_str(s))),
        }
    }
}

/// Returns the position where the content of the line `s` ends, before its terminator.
fn content_end(s: &Vec<char>) -> (r: usize)
    ensures
        r <= s@.len(),
        s@.subrange(0, r as int) == line_content(s@),
{
    let n = s.len();
    if n >= 2 && s[n - 2] == '\r' && s[n - 1] == '\n' {
        n - 2
    } else if n >= 1 && s[n - 1] == '\n' {
        assert(s@.subrange(0, n - 1) =~= s@.drop_last());
        n - 1
    } else {
        assert(s@.subrange(0, n as int) =~= s@);
        n
    }
}

/// Reads the method and the path from a request line.
pub fn parse_method_path(line: &str) -> (r: Result<(HttpMethod, String), ParsingError>)
    ensures
        match request_line_of(line@) {
            Ok((m, p)) => r matches Ok(v) && v.0 == m && v.1@ == p,
            Err(e) => r matches Err(x) && x@ == e,
        },
{
    let chars = to_chars(line);
    let end = content_end(&chars);
    let ghost c = line_content(line@);
    let space = find_char(&chars, 0, end, ' ');
    let tok_end = match space {
        Some(i) => i,
        None => end,
    };
    assert(c.subrange(0, tok_end as int) =~= chars@.subrange(0, tok_end as int));
    assert(c =~= chars@.subrange(0, end as int));
    assert(first_token(c) == chars@.subrange(0, tok_end as int));
    let method = match method_in(&chars, 0, tok_end) {
        Some(m) => m,
        None => {
            let tok = String::from_str(line.substring_char(0, tok_end));
            return Err(ParsingError::UnsupportedOrMissingMethodError(tok));
        },
    };
    let i = match space {
        Some(i) => i,
        None => {
            return Err(ParsingError::NoPathError);
        },
    };
    let ghost rest = c.subrange(i + 1, c.len() as int);
    assert(rest =~= chars@.subrange(i + 1, end as int));
    let path_end = match find_char(&chars, i + 1, end, ' ') {
        Some(j) => j,
        None => end,
    };
    assert(first_token(rest) =~= chars@.subrange(i + 1, path_end as int));
    if path_end == i + 1 {
        return Err(ParsingError::NoPathError);
    }
    let path = String::from_str(line.substring_char(i + 1, path_end));
    Ok((method, path))
}

/// Returns whether `line` ends the header block: it begins with `\r\n`.
pub fn is_end_of_headers(line: &str) -> (r: bool)
    ensures
        r == has_prefix(line@, "\r\n"@),
{
    let chars = to_chars(line);
    assert(chars@.subrange(0, chars@.len() as int) =~= line@);
    range_starts_with(&chars, 0, chars.len(), "\r\n")
}

/// Parses the lines of a header block, keeping the headers in order and dropping the lines
/// that hold none.
pub fn parse_headers(lines: &Vec<String>) -> (r: Vec<HttpHeader>)
    ensures
        headers_view(r@) == headers_of(lines_view(lines@)),
{
    let mut r: Vec<HttpHeader> = Vec::new();
    let mut i: usize = 0;
    while i < lines.len()
        invariant
            i <= lines@.len(),
            headers_view(r@) == headers_of(lines_view(lines@.subrange(0, i as int))),
        decreases lines@.len() - i,
    {
        let ghost before = r@;
        assert(lines_view(lines@.subrange(0, i + 1)).drop_last() =~= lines_view(
            lines@.subrange(0, i as int),
        ));
        assert(lines_view(lines@.subrange(0, i + 1)).last() == lines@[i as int]@);
        match HttpHeader::try_from(lines[i].as_str()) {
            Ok(h) => {
                r.push(h);
                assert(headers_view(r@) =~= headers_view(before).push(h@));
            },
            Err(_) => {},
        }
        i = i + 1;
    }
    assert(lines@.subrange(0, i as int) =~= lines@);
    r
}

/// Returns the position of the first header whose name equals `lower` regardless of case.
pub fn find_header(headers: &Vec<HttpHeader>, lower: &str) -> (r: Option<usize>)
    ensures
        match r {
            Some(i) => is_first_named(headers_view(headers@), lower@, i as int),
            None => !exists|i: int| is_first_named(headers_view(headers@), lower@, i),
        },
{
    let ghost hs = headers_view(headers@);
    let mut i: usize = 0;
    while i < headers.len()
        invariant
            i <= headers@.len(),
            hs == headers_view(headers@),
            forall|j: int| 0 <= j < i ==> !eq_ignore_case(#[trigger] hs[j].0, lower@),
        decreases headers@.len() - i,
    {
        let name = to_chars(headers[i].name.as_str());
        assert(name@.subrange(0, name@.len() as int) =~= name@);
        if range_eq_ignore_case(&name, 0, name.len(), lower) {
            return Some(i);
        }
        i = i + 1;
    }
    None
}

/// A request, as handed to the router.
#[derive(Debug)]
pub struct Request {
    pub method: HttpMethod,
    pub path: String,
    pub headers: Vec<HttpHeader>,
    pub body: Option<Vec<u8>>,
}

impl Request {
    /// Builds a request, without its body, from the request line and the lines of the header
    /// block. Fails where the request line gives no method or no path.
    pub fn from_head(request_line: &str, header_lines: &Vec<String>) -> (r: Result<
        Request,
        ParsingError,
    >)
        ensures
            match request_line_of(request_line@) {
                Ok((m, p)) => r matches Ok(q) && q.method == m && q.path@ == p && headers_view(
                    q.headers@,
                ) == headers_of(lines_view(header_lines@)) && q.body is None,
                Err(e) => r matches Err(x) && x@ == e,
            },
    {
        let (method, path) = parse_method_path(request_line)?;
        let headers = parse_headers(header_lines);
        Ok(Request { method, path, headers, body: None })
    }

    /// The number of body bytes to read: what the first `Content-Length` header announces,
    /// where it reads as a number above zero; `None` where the request has no body.
    pub fn body_length(&self) -> (r: Option<usize>)
        ensures
            match body_length_of(headers_view(self.headers@)) {
                Some(n) => r == Some(n as usize),
                None => r is None,
            },
    {
        let ghost hs = headers_view(self.headers@);
        match find_header(&self.headers, "content-length") {
            Some(i) => {
                proof {
                    let k = choose|k: int| is_first_named(hs, "content-length"@, k);
                    assert(k == i as int);
                }
                let value = to_chars(self.headers[i].value.as_str());
                assert(value@.subrange(0, value@.len() as int) =~= value@);
                match parse_usize(&value, 0, value.len()) {
                    Some(n) => if n > 0 {
                        Some(n)
                    } else {
                        None
                    },
                    None => None,
                }
            },
            None => None,
        }
    }

    /// Takes the body from the bytes that followed the header block: exactly as many as
    /// `body_length` announces, whatever comes after them.
    pub fn attach_body(&mut self, available: &[u8])
        requires
            body_length_of(headers_view(old(self).headers@)) is Some,
            available@.len() >= body_length_of(headers_view(old(self).headers@))->Some_0,
        ensures
            final(self).method == old(self).method,
            final(self).path == old(self).path,
            final(self).headers == old(self).headers,
            final(self).body matches Some(b) && b@ == available@.subrange(
                0,
                body_length_of(headers_view(old(self).headers@))->Some_0 as int,
            ),
    {
        let n = match self.body_length() {
            Some(n) => n,
            None => 0,
        };
        let mut body: Vec<u8> = Vec::new();
        let mut i: usize = 0;
        while i < n
            invariant
                i <= n <= available@.len(),
                body@ == available@.subrange(0, i as int),
            decreases n - i,
        {
            body.push(available[i]);
            i = i + 1;
        }
        self.body = Some(body);
    }
}

proof fn lemma_first_token(a: Seq<char>, b: Seq<char>)
    requires
        forall|i: int| 0 <= i < a.len() ==> a[i] != ' ',
    ensures
        first_index(a + seq![' '] + b, ' ') == Some(a.len() as int),
        first_token(a + seq![' '] + b) == a,
        (a + seq![' '] + b).subrange(a.len() as int + 1, (a + seq![' '] + b).len() as int) == b,
{
    let s = a + seq![' '] + b;
    assert(is_first_index(s, ' ', a.len() as int));
    let k = choose|k: int| is_first_index(s, ' ', k);
    assert(k == a.len());
    assert(s.subrange(0, a.len() as int) =~= a);
    assert(s.subrange(a.len() as int + 1, s.len() as int) =~= b);
}

proof fn lemma_method_has_no_space(tok: Seq<char>)
    requires
        method_of(tok) is Some,
    ensures
        forall|i: int| 0 <= i < tok.len() ==> tok[i] != ' ',
{
    reveal_strlit("get");
    reveal_strlit("post");
    reveal_strlit("put");
    reveal_strlit("delete");
    assert forall|i: int| 0 <= i < tok.len() implies tok[i] != ' ' by {
        if eq_ignore_case(tok, "get"@) {
            assert(char_matches_lower(tok[i], "get"@[i]));
        } else if eq_ignore_case(tok, "post"@) {
            assert(char_matches_lower(tok[i], "post"@[i]));
        } else if eq_ignore_case(tok, "put"@) {
            assert(char_matches_lower(tok[i], "put"@[i]));
        } else {
            assert(char_matches_lower(tok[i], "delete"@[i]));
        }
    }
}

/// A request line `METHOD path VERSION\r\n` whose method token names a known method and whose
/// path is a non-empty token gives back exactly that method and that path, whatever the
/// version text holds.
pub proof fn lemma_request_line_recovered(tok: Seq<char>, path: Seq<char>, version: Seq<char>)
    requires
        method_of(tok) is Some,
        path.len() > 0,
        forall|i: int| 0 <= i < path.len() ==> path[i] != ' ',
    ensures
        request_line_of(tok + seq![' '] + path + seq![' '] + version + seq!['\r', '\n']) == Ok::<
            (HttpMethod, Seq<char>),
            ParsingErrorView,
        >((method_of(tok)->Some_0, path)),
{
    let c = tok + seq![' '] + path + seq![' '] + version;
    let line = c + seq!['\r', '\n'];
    assert(line_content(line) =~= c);
    lemma_method_has_no_space(tok);
    assert(c =~= tok + seq![' '] + (path + seq![' '] + version));
    lemma_first_token(tok, path + seq![' '] + version);
    lemma_first_token(path, version);
}

/// A request line whose method token is known but which holds no space has no path token:
/// parsing it fails with `NoPathError`.
pub proof fn lemma_missing_path_fails(tok: Seq<char>)
    requires
        method_of(tok) is Some,
    ensures
        request_line_of(tok + seq!['\r', '\n']) == Err::<(HttpMethod, Seq<char>), ParsingErrorView>(
            ParsingErrorView::NoPathError,
        ),
{
    let line = tok + seq!['\r', '\n'];
    assert(line_content(line) =~= tok);
    lemma_method_has_no_space(tok);
    assert(forall|k: int| !is_first_index(tok, ' ', k));
}

} // verus!

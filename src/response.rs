//! The response model and its wire form.
use vstd::prelude::*;
use crate::text::{
    all_digits, decimal, decimal_string, decimal_value, digit_char, digits_value, find_char,
    first_index, has_prefix, is_digit, is_first_index, parse_usize, range_starts_with, to_chars,
};

verus! {

/// A response: status code and reason, header lines (`Name: Value`), and an optional body.
/// No header is added on its own: whoever builds a response with a body adds its length.
#[derive(Debug)]
pub struct Response {
    pub status_code: (usize, String),
    pub headers: Vec<String>,
    pub body: Option<String>,
}

/// The content of a `Response`, with its text as characters.
pub ghost struct ResponseView {
    pub code: nat,
    pub text: Seq<char>,
    pub headers: Seq<Seq<char>>,
    pub body: Option<Seq<char>>,
}

impl View for Response {
    type V = ResponseView;

    open spec fn view(&self) -> ResponseView {
        ResponseView {
            code: self.status_code.0 as nat,
            text: self.status_code.1@,
            headers: self.headers@.map_values(|h: String| h@),
            body: match self.body {
                Some(b) => Some(b@),
                None => None,
            },
        }
    }
}

/// The header lines joined by `\r\n`.
pub open spec fn join_lines(hs: Seq<Seq<char>>) -> Seq<char>
    decreases hs.len(),
{
    if hs.len() == 0 {
        seq![]
    } else if hs.len() == 1 {
        hs[0]
    } else {
        join_lines(hs.drop_last()) + "\r\n"@ + hs.last()
    }
}

/// The status line, without its terminator: `HTTP/1.1 <code> <text>`.
pub open spec fn status_line(code: nat, text: Seq<char>) -> Seq<char> {
    "HTTP/1.1 "@ + decimal(code) + " "@ + text
}

/// The wire form of a response: the status line, the header lines joined by `\r\n`, a blank
/// line, then the body, if any.
pub open spec fn wire_of(r: ResponseView) -> Seq<char> {
    status_line(r.code, r.text) + "\r\n"@ + join_lines(r.headers) + "\r\n\r\n"@ + match r.body {
        Some(b) => b,
        None => seq![],
    }
}

/// A response with the given status, no headers and no body.
pub open spec fn bare(code: nat, text: Seq<char>) -> ResponseView {
    ResponseView { code, text, headers: seq![], body: None }
}

/// The number of bytes that the UTF-8 encoding of `s` takes, as `str::len` gives it.
pub open spec fn byte_len(s: Seq<char>) -> usize {
    vstd::utf8::encode_utf8(s).len() as usize
}

/// The headers that describe a body of `len` bytes and of the given type.
pub open spec fn content_headers(len: nat, content_type: Seq<char>) -> Seq<Seq<char>> {
    seq!["Content-Length: "@ + decimal(len), "Content-Type: "@ + content_type]
}

/// Returns the headers that describe a body of `len` bytes and of the given type.
pub fn content_headers_for(len: usize, content_type: &str) -> (r: Vec<String>)
    ensures
        r@.map_values(|h: String| h@) == content_headers(len as nat, content_type@),
{
    let length = String::from_str("Content-Length: ").concat(decimal_string(len).as_str());
    let kind = String::from_str("Content-Type: ").concat(content_type);
    let mut r: Vec<String> = Vec::new();
    r.push(length);
    r.push(kind);
    assert(r@.map_values(|h: String| h@) =~= content_headers(len as nat, content_type@));
    r
}

impl Response {
    /// `200 Ok` with the given headers and body.
    pub fn ok(headers: Vec<String>, body: Option<String>) -> (r: Response)
        ensures
            r@ == (ResponseView {
                code: 200,
                text: "Ok"@,
                headers: headers@.map_values(|h: String| h@),
                body: match body {
                    Some(b) => Some(b@),
                    None => None,
                },
            }),
    {
        Response { status_code: (200, String::from_str("Ok")), headers, body }
    }

    /// `200 OK` with no headers and no body.
    pub fn empty_ok() -> (r: Response)
        ensures
            r@ == bare(200, "OK"@),
    {
        let r = Response { status_code: (200, String::from_str("OK")), headers: Vec::new(), body: None };
        assert(r@.headers =~= seq![]);
        r
    }

    /// `201 Created` with no headers and no body.
    pub fn created() -> (r: Response)
        ensures
            r@ == bare(201, "Created"@),
    {
        let r = Response {
            status_code: (201, String::from_str("Created")),
            headers: Vec::new(),
            body: None,
        };
        assert(r@.headers =~= seq![]);
        r
    }

    /// `404 Not found` with no headers and no body.
    pub fn not_found() -> (r: Response)
        ensures
            r@ == bare(404, "Not found"@),
    {
        let r = Response {
            status_code: (404, String::from_str("Not found")),
            headers: Vec::new(),
            body: None,
        };
        assert(r@.headers =~= seq![]);
        r
    }

    /// `500 ERROR` with no headers, and the description of what failed as its body.
    pub fn error(description: String) -> (r: Response)
        ensures
            r@ == (ResponseView {
                code: 500,
                text: "ERROR"@,
                headers: seq![],
                body: Some(description@),
            }),
    {
        let r = Response {
            status_code: (500, String::from_str("ERROR")),
            headers: Vec::new(),
            body: Some(description),
        };
        assert(r@.headers =~= seq![]);
        r
    }

    /// The response in its wire form.
    pub fn as_string(&self) -> (r: String)
        ensures
            r@ == wire_of(self@),
    {
        let ghost hs = self@.headers;
        let mut joined = String::new();
        let mut i: usize = 0;
        while i < self.headers.len()
            invariant
                i <= self.headers@.len(),
                hs == self@.headers,
                joined@ == join_lines(hs.subrange(0, i as int)),
            decreases self.headers@.len() - i,
        {
            let ghost prev = joined@;
            assert(hs.subrange(0, i + 1).drop_last() =~= hs.subrange(0, i as int));
            if i > 0 {
                joined.append("\r\n");
            }
            joined.append(self.headers[i].as_str());
            assert(joined@ =~= join_lines(hs.subrange(0, i + 1)));
            i = i + 1;
        }
        assert(hs.subrange(0, i as int) =~= hs);
        let mut r = String::from_str("HTTP/1.1 ");
        r.append(decimal_string(self.status_code.0).as_str());
        r.append(" ");
        r.append(self.status_code.1.as_str());
        r.append("\r\n");
        r.append(joined.as_str());
        r.append("\r\n\r\n");
        match &self.body {
            Some(b) => r.append(b.as_str()),
            None => {},
        }
        assert(r@ =~= wire_of(self@));
        r
    }
}

/// What a client reads from the status line at the start of `wire`: the code and the reason
/// phrase. The line ends at the first `\r`; the code is the decimal number after
/// `HTTP/1.1 `, up to the next space, and the reason phrase is the rest of the line.
pub open spec fn status_of(wire: Seq<char>) -> Option<(nat, Seq<char>)> {
    let line = match first_index(wire, '\r') {
        Some(i) => wire.subrange(0, i),
        None => wire,
    };
    if has_prefix(line, "HTTP/1.1 "@) {
        let after = line.subrange("HTTP/1.1 "@.len() as int, line.len() as int);
        match first_index(after, ' ') {
            Some(j) => match decimal_value(after.subrange(0, j)) {
                Some(code) => Some((code, after.subrange(j + 1, after.len() as int))),
                None => None,
            },
            None => None,
        }
    } else {
        None
    }
}

/// Reads the status code and the reason phrase from the start of a response's wire form.
pub fn parse_status_line(wire: &str) -> (r: Option<(usize, String)>)
    ensures
        match status_of(wire@) {
            Some((code, text)) => if code <= usize::MAX {
                r matches Some(v) && v.0 == code && v.1@ == text
            } else {
                r is None
            },
            None => r is None,
        },
{
    let chars = to_chars(wire);
    let n = chars.len();
    assert(chars@.subrange(0, n as int) =~= wire@);
    let end = match find_char(&chars, 0, n, '\r') {
        Some(i) => i,
        None => n,
    };
    let ghost line = chars@.subrange(0, end as int);
    if !range_starts_with(&chars, 0, end, "HTTP/1.1 ") {
        return None;
    }
    let from = "HTTP/1.1 ".unicode_len();
    assert(line.subrange(from as int, line.len() as int) =~= chars@.subrange(from as int, end as int));
    let space = match find_char(&chars, from, end, ' ') {
        Some(j) => j,
        None => {
            return None;
        },
    };
    assert(chars@.subrange(from as int, end as int).subrange(0, space - from) =~= chars@.subrange(
        from as int,
        space as int,
    ));
    assert(chars@.subrange(from as int, end as int).subrange(
        space - from + 1,
        end - from,
    ) =~= chars@.subrange(space + 1, end as int));
    match parse_usize(&chars, from, space) {
        Some(code) => Some((code, String::from_str(wire.substring_char(space + 1, end)))),
        None => None,
    }
}

proof fn lemma_digit_char(d: nat)
    requires
        d < 10,
    ensures
        is_digit(digit_char(d)),
        (digit_char(d) as u32 - '0' as u32) as nat == d,
{
}

proof fn lemma_decimal(n: nat)
    ensures
        decimal(n).len() > 0,
        all_digits(decimal(n)),
        digits_value(decimal(n)) == n,
    decreases n,
{
    if n < 10 {
        lemma_digit_char(n);
        assert(seq![digit_char(n)].drop_last() =~= seq![]);
        assert(digits_value(seq![digit_char(n)]) == digits_value(seq![]) * 10 + (digit_char(n) as u32
            - '0' as u32) as nat);
    } else {
        lemma_decimal(n / 10);
        lemma_digit_char(n % 10);
        let s = decimal(n / 10).push(digit_char(n % 10));
        assert(s.drop_last() =~= decimal(n / 10));
        assert(digits_value(s) == digits_value(decimal(n / 10)) * 10 + (digit_char(n % 10) as u32
            - '0' as u32) as nat);
        assert((n / 10) * 10 + n % 10 == n) by (nonlinear_arith);
        assert forall|i: int| 0 <= i < s.len() implies #[trigger] is_digit(s[i]) by {
            if i < s.len() - 1 {
                assert(s[i] == decimal(n / 10)[i]);
            }
        }
    }
}

/// Writing a response and reading its status line back gives the same status code and reason
/// phrase, for every reason phrase without a `\r`.
pub proof fn lemma_status_line_round_trip(r: ResponseView)
    requires
        forall|i: int| 0 <= i < r.text.len() ==> r.text[i] != '\r',
    ensures
        status_of(wire_of(r)) == Some((r.code, r.text)),
{
    reveal_strlit("HTTP/1.1 ");
    reveal_strlit(" ");
    reveal_strlit("\r\n");
    let prefix = "HTTP/1.1 "@;
    let digits = decimal(r.code);
    lemma_decimal(r.code);
    let after = digits + " "@ + r.text;
    let line = status_line(r.code, r.text);
    let w = wire_of(r);
    let tail = "\r\n"@ + join_lines(r.headers) + "\r\n\r\n"@ + match r.body {
        Some(b) => b,
        None => seq![],
    };
    assert(w =~= line + tail);
    assert(line =~= prefix + after);
    assert forall|j: int| 0 <= j < line.len() implies line[j] != '\r' by {
        if j < prefix.len() {
            assert(line[j] == prefix[j]);
        } else if j < prefix.len() + digits.len() {
            assert(line[j] == digits[j - prefix.len()]);
            assert(is_digit(digits[j - prefix.len()]));
        } else if j == prefix.len() + digits.len() {
            assert(line[j] == ' ');
        } else {
            assert(line[j] == r.text[j - prefix.len() - digits.len() - 1]);
        }
    }
    assert(is_first_index(w, '\r', line.len() as int));
    let k = choose|k: int| is_first_index(w, '\r', k);
    assert(k == line.len());
    assert(w.subrange(0, line.len() as int) =~= line);
    assert(line.subrange(0, prefix.len() as int) =~= prefix);
    assert(line.subrange(prefix.len() as int, line.len() as int) =~= after);
    assert(is_first_index(after, ' ', digits.len() as int)) by {
        assert forall|j: int| 0 <= j < digits.len() implies after[j] != ' ' by {
            assert(after[j] == digits[j]);
            assert(is_digit(digits[j]));
        }
    }
    let k2 = choose|k: int| is_first_index(after, ' ', k);
    assert(k2 == digits.len());
    assert(after.subrange(0, digits.len() as int) =~= digits);
    assert(after.subrange(digits.len() as int + 1, after.len() as int) =~= r.text);
    assert(is_digit(digits[0]));
}

} // verus!

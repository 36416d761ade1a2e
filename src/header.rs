//! One `Name: Value` header.
use vstd::prelude::*;
use crate::errors::{ParsingError, ParsingErrorView};
use crate::text::{first_index, trimmed, to_chars, find_char, trim_bounds};

verus! {

/// A header as received: the name as written, the value without surrounding whitespace.
#[derive(Debug)]
pub struct HttpHeader {
    pub name: String,
    pub value: String,
}

impl View for HttpHeader {
    type V = (Seq<char>, Seq<char>);

    open spec fn view(&self) -> (Seq<char>, Seq<char>) {
        (self.name@, self.value@)
    }
}

/// The header that `line` holds: what stands before its first `:`, and what follows it with
/// surrounding whitespace (the line terminator included) removed.
pub open spec fn header_of(line: Seq<char>) -> Option<(Seq<char>, Seq<char>)> {
    match first_index(line, ':') {
        Some(i) => Some((line.subrange(0, i), trimmed(line.subrange(i + 1, line.len() as int)))),
        None => None,
    }
}

/// The wire form `name: value` of a header.
pub open spec fn header_line(h: (Seq<char>, Seq<char>)) -> Seq<char> {
    h.0 + ": "@ + h.1
}

impl HttpHeader {
    /// Parses a header line; a line without `:` is refused.
    pub fn try_from(line: &str) -> (r: Result<HttpHeader, ParsingError>)
        ensures
            match header_of(line@) {
                Some(h) => r matches Ok(v) && v@ == h,
                None => r matches Err(e) && e@ == ParsingErrorView::UnsupportedHeaderFormat(
                    line@,
                ),
            },
    {
        let chars = to_chars(line);
        let n = chars.len();
        assert(chars@.subrange(0, n as int) =~= line@);
        match find_char(&chars, 0, n, ':') {
            Some(i) => {
                let (lo, hi) = trim_bounds(&chars, i + 1, n);
                let name = String::from_str(line.substring_char(0, i));
                let value = String::from_str(line.substring_char(lo, hi));
                Ok(HttpHeader { name, value })
            },
            None => Err(ParsingError::UnsupportedHeaderFormat(String::from_str(line))),
        }
    }

    /// The header as it is written on the wire, `name: value`.
    pub fn as_string(&self) -> (r: String)
        ensures
            r@ == header_line(self@),
    {
        let r = self.name.clone().concat(": ").concat(self.value.as_str());
        r
    }
}

} // verus!

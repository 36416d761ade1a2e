//! Locating files under the storage directory.
use vstd::prelude::*;
use crate::text::to_chars;

verus! {

/// The path of `file` under `dir`, with one `/` between them unless `dir` ends with one.
pub open spec fn path_in(dir: Seq<char>, file: Seq<char>) -> Seq<char> {
    if dir.len() > 0 && dir.last() == '/' {
        dir + file
    } else {
        dir + "/"@ + file
    }
}

/// Returns the path of `file` under `dir`; none where no directory is configured.
pub fn concat_path(dir: Option<String>, file: &str) -> (r: Option<String>)
    ensures
        match dir {
            Some(d) => r matches Some(p) && p@ == path_in(d@, file@),
            None => r is None,
        },
{
    match dir {
        Some(d) => {
            let chars = to_chars(d.as_str());
            let n = chars.len();
            if n > 0 && chars[n - 1] == '/' {
                Some(d.concat(file))
            } else {
                Some(d.concat("/").concat(file))
            }
        },
        None => None,
    }
}

} // verus!

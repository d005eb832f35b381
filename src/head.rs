//! The count arguments of `head`.
use vstd::prelude::*;
use vstd::string::StringExecFns;
use crate::decimal::{parse_usize_text, usize_text};

verus! {

/// A count as `head` takes it: a `usize` above zero.
pub open spec fn head_count(s: Seq<char>) -> Option<usize> {
    match usize_text(s) {
        Some(n) => if n > 0 { Some(n) } else { None },
        None => None,
    }
}

/// Reads a count of lines or bytes: a `usize` above zero. Anything else
/// comes back as the error, as written.
pub fn parse_num(val: &str) -> (r: Result<usize, String>)
    ensures
        head_count(val@) matches Some(n) ==> r == Ok::<usize, String>(n),
        head_count(val@) is None ==> (r matches Err(e) && e@ == val@),
{
    match parse_usize_text(val) {
        Some(n) => {
            if n > 0 {
                Ok(n)
            } else {
                Err(String::from_str(val))
            }
        },
        None => Err(String::from_str(val)),
    }
}

} // verus!

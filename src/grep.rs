//! The line filter of `grep`.
use vstd::prelude::*;
use vstd::string::StringExecFns;
use crate::text::{lines, lines_of, string_views, utf8_text};

verus! {

#[verifier::external_type_specification]
#[verifier::external_body]
pub struct ExRegex(regex::Regex);

/// Relies on `regex::Regex::is_match`, of which nothing is assumed here.
pub assume_specification[ regex::Regex::is_match ](re: &regex::Regex, haystack: &str) -> bool;

/// The lines whose match flag differs from `invert`, in order.
pub open spec fn kept_lines(ls: Seq<Seq<char>>, matched: Seq<bool>, invert: bool) -> Seq<Seq<char>>
    decreases ls.len(),
{
    if ls.len() == 0 {
        Seq::empty()
    } else {
        let rest = kept_lines(ls.drop_last(), matched, invert);
        if matched[ls.len() - 1] != invert {
            rest.push(ls.last())
        } else {
            rest
        }
    }
}

/// Keeps the lines that matched, or with `invert_match` those that did not.
pub fn select_lines(ls: &Vec<String>, matched: &Vec<bool>, invert_match: bool) -> (r: Vec<String>)
    requires
        matched@.len() == ls@.len(),
    ensures
        string_views(r@) == kept_lines(string_views(ls@), matched@, invert_match),
{
    let mut out: Vec<String> = Vec::new();
    let mut i: usize = 0;
    while i < ls.len()
        invariant
            i <= ls@.len(),
            matched@.len() == ls@.len(),
            string_views(out@) == kept_lines(string_views(ls@).take(i as int), matched@, invert_match),
        decreases ls@.len() - i,
    {
        let ghost prev = out@;
        assert(string_views(ls@).take(i + 1).drop_last() =~= string_views(ls@).take(i as int));
        if matched[i] != invert_match {
            out.push(ls[i].clone());
            assert(string_views(out@) =~= string_views(prev).push(ls@[i as int]@));
        }
        i = i + 1;
    }
    assert(string_views(ls@).take(i as int) =~= string_views(ls@));
    out
}

/// The lines of `text` that match `pattern` (or, with `invert_match`, that do
/// not); input that is not UTF-8 is refused.
pub fn find_lines(text: &[u8], pattern: &regex::Regex, invert_match: bool) -> (r: Result<Vec<String>, String>)
    ensures
        vstd::utf8::valid_utf8(text@) <==> r is Ok,
        r matches Ok(found) ==> exists|matched: Seq<bool>|
            matched.len() == lines_of(vstd::utf8::decode_utf8(text@)).len()
            && string_views(found@) == #[trigger] kept_lines(lines_of(vstd::utf8::decode_utf8(text@)), matched, invert_match),
{
    let s = match utf8_text(text) {
        Some(s) => s,
        None => {
            return Err(String::from_str("stream did not contain valid UTF-8"));
        },
    };
    proof {
        vstd::utf8::encode_utf8_decode_utf8(s@);
    }
    let ls = lines(s);
    let mut matched: Vec<bool> = Vec::new();
    let mut i: usize = 0;
    while i < ls.len()
        invariant
            i <= ls@.len(),
            matched@.len() == i,
        decreases ls@.len() - i,
    {
        matched.push(pattern.is_match(ls[i].as_str()));
        i = i + 1;
    }
    let found = select_lines(&ls, &matched, invert_match);
    Ok(found)
}

} // verus!

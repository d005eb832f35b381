//! The decisions of `uniq`: which runs of equal lines to report, and how.
use vstd::prelude::*;
use vstd::string::StringExecFns;
use crate::decimal::decimal_digits;
use crate::text::{chars_of, is_whitespace, right_aligned, right_aligned_number, trim_end};

verus! {

/// A run of equal lines: how many have been read, and the first of them as
/// it was read (line end included). No line has been read at the start.
pub struct UniqState {
    pub count: u64,
    pub previous: String,
}

/// How a run is reported: the line as read, after its count in four columns
/// where counts are asked for; a run of no lines is not reported.
pub open spec fn run_text(count: u64, text: Seq<char>, show_count: bool) -> Option<Seq<char>> {
    if count == 0 {
        None
    } else if show_count {
        Some(right_aligned(decimal_digits(count as nat), 4) + " "@ + text)
    } else {
        Some(text)
    }
}

/// Whether two lines are equal once white space at their ends is set aside.
fn same_line(a: &str, b: &str) -> (r: bool)
    ensures
        r == (trim_end(a@) == trim_end(b@)),
{
    let ac = chars_of(a);
    let bc = chars_of(b);
    let ea = trimmed_len(&ac);
    let eb = trimmed_len(&bc);
    if ea != eb {
        assert(trim_end(a@).len() != trim_end(b@).len());
        return false;
    }
    let mut i: usize = 0;
    while i < ea
        invariant
            i <= ea,
            ea == eb,
            ea <= ac@.len(),
            eb <= bc@.len(),
            ac@.subrange(0, ea as int) == trim_end(a@),
            bc@.subrange(0, eb as int) == trim_end(b@),
            forall|j: int| 0 <= j < i ==> ac@[j] == bc@[j],
        decreases ea - i,
    {
        if ac[i] != bc[i] {
            assert(ac@.subrange(0, ea as int)[i as int] != bc@.subrange(0, eb as int)[i as int]);
            return false;
        }
        i = i + 1;
    }
    assert(ac@.subrange(0, ea as int) =~= bc@.subrange(0, eb as int));
    true
}

/// The length of `cs` without the white space at its end.
fn trimmed_len(cs: &Vec<char>) -> (r: usize)
    ensures
        r <= cs@.len(),
        cs@.subrange(0, r as int) == trim_end(cs@),
{
    let mut j: usize = cs.len();
    assert(cs@.subrange(0, j as int) =~= cs@);
    while j > 0 && is_whitespace(cs[j - 1])
        invariant
            j <= cs@.len(),
            trim_end(cs@) == trim_end(cs@.subrange(0, j as int)),
        decreases j,
    {
        assert(cs@.subrange(0, j as int).drop_last() =~= cs@.subrange(0, j - 1));
        j = j - 1;
    }
    j
}

/// The report of a run.
pub fn format_run(count: u64, text: &str, show_count: bool) -> (r: Option<String>)
    ensures
        r matches Some(s) ==> run_text(count, text@, show_count) == Some(s@),
        r is None ==> run_text(count, text@, show_count) is None,
{
    if count == 0 {
        None
    } else if show_count {
        let mut s = right_aligned_number(count, 4);
        s.append(" ");
        s.append(text);
        Some(s)
    } else {
        Some(String::from_str(text))
    }
}

impl UniqState {
    /// No line read yet.
    pub fn new() -> (r: UniqState)
        ensures
            r.count == 0,
            r.previous@ == Seq::<char>::empty(),
    {
        UniqState { count: 0, previous: String::new() }
    }

    /// Takes the next line (line end included). A line that differs from the
    /// run's first line, ends aside, closes the run: its report comes back
    /// and the line starts a new run.
    pub fn step(&mut self, line: &str, show_count: bool) -> (r: Option<String>)
        requires
            old(self).count < u64::MAX,
        ensures
            trim_end(old(self).previous@) == trim_end(line@) ==> {
                &&& r is None
                &&& final(self).count == old(self).count + 1
                &&& final(self).previous@ == old(self).previous@
            },
            trim_end(old(self).previous@) != trim_end(line@) ==> {
                &&& r matches Some(s) ==> run_text(old(self).count, old(self).previous@, show_count) == Some(s@)
                &&& r is None ==> run_text(old(self).count, old(self).previous@, show_count) is None
                &&& final(self).count == 1
                &&& final(self).previous@ == line@
            },
    {
        let mut out: Option<String> = None;
        if !same_line(self.previous.as_str(), line) {
            out = format_run(self.count, self.previous.as_str(), show_count);
            self.count = 0;
            self.previous = String::from_str(line);
        }
        self.count = self.count + 1;
        out
    }

    /// The report of the last run, once the input is over.
    pub fn finish(&self, show_count: bool) -> (r: Option<String>)
        ensures
            r matches Some(s) ==> run_text(self.count, self.previous@, show_count) == Some(s@),
            r is None ==> run_text(self.count, self.previous@, show_count) is None,
    {
        format_run(self.count, self.previous.as_str(), show_count)
    }
}

} // verus!

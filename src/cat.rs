//! The line decisions of `cat`: numbering, squeezing blank lines, marking ends.
use vstd::prelude::*;
use vstd::string::StringExecFns;
use crate::decimal::decimal_digits;
use crate::text::{right_aligned, right_aligned_number};

verus! {

/// The options of `cat` that shape lines.
#[derive(Debug, Clone, Copy, PartialEq, Eq, Structural)]
pub struct CatOptions {
    pub number_lines: bool,
    pub number_nonblank_lines: bool,
    pub show_ends: bool,
    pub squeeze_blank: bool,
}

/// What `cat` remembers between the lines of one file.
#[derive(Debug, Clone, Copy, PartialEq, Eq, Structural)]
pub struct CatState {
    pub line_number: u64,
    pub previous_line_empty: bool,
}

/// Whether `line` gets a number.
pub open spec fn numbered(opts: CatOptions, line: Seq<char>) -> bool {
    opts.number_lines || (opts.number_nonblank_lines && line.len() > 0)
}

/// Whether `line` is dropped: a blank line after a blank line, when squeezing.
pub open spec fn squeezed(state: CatState, opts: CatOptions, line: Seq<char>) -> bool {
    opts.squeeze_blank && state.previous_line_empty && line.len() == 0
}

pub open spec fn end_mark(opts: CatOptions) -> Seq<char> {
    if opts.show_ends { "$"@ } else { ""@ }
}

/// The output of a line that is shown: its number in six columns and a tab
/// where it is numbered, then the line and the end mark.
pub open spec fn shown_line(n: u64, opts: CatOptions, line: Seq<char>) -> Seq<char> {
    if numbered(opts, line) {
        right_aligned(decimal_digits(n as nat), 6) + "\t"@ + line + end_mark(opts)
    } else {
        line + end_mark(opts)
    }
}

impl CatState {
    /// The state at the start of a file.
    pub fn new() -> (r: CatState)
        ensures
            r == (CatState { line_number: 0, previous_line_empty: false }),
    {
        CatState { line_number: 0, previous_line_empty: false }
    }

    /// Takes the next line (without its line end) and gives what to print
    /// for it, if anything.
    pub fn step(&mut self, line: &str, opts: CatOptions) -> (r: Option<String>)
        requires
            old(self).line_number < u64::MAX,
        ensures
            squeezed(*old(self), opts, line@) ==> r is None && *final(self) == *old(self),
            !squeezed(*old(self), opts, line@) ==> {
                let n = if numbered(opts, line@) { old(self).line_number + 1 } else { old(self).line_number as int };
                &&& final(self).line_number == n
                &&& final(self).previous_line_empty == (line@.len() == 0)
                &&& r matches Some(s) && s@ == shown_line(n as u64, opts, line@)
            },
    {
        let is_empty = line.is_empty();
        if opts.squeeze_blank && self.previous_line_empty && is_empty {
            return None;
        }
        self.previous_line_empty = is_empty;
        let end_char = if opts.show_ends { "$" } else { "" };
        if opts.number_lines || opts.number_nonblank_lines && !is_empty {
            self.line_number = self.line_number + 1;
            let mut s = right_aligned_number(self.line_number, 6);
            s.append("\t");
            s.append(line);
            s.append(end_char);
            Some(s)
        } else {
            let mut s = String::from_str(line);
            s.append(end_char);
            Some(s)
        }
    }
}

} // verus!

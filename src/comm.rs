//! The decisions of `comm`: how lines compare, which column a line goes to,
//! and how it is indented there.
use vstd::prelude::*;
use vstd::string::StringExecFns;
use crate::text::{chars_of, lower_of, lowercase};

verus! {

/// Where a line of the merged input belongs.
#[derive(Debug, Clone, Copy, PartialEq, Eq, Structural)]
pub enum Column {
    File1,
    File2,
    Both,
}

/// The line as compared: folded to lower case where case is ignored.
pub fn case(line: String, insensitive: &bool) -> (r: String)
    ensures
        *insensitive ==> r@ == lower_of(line@),
        !*insensitive ==> r@ == line@,
{
    if *insensitive {
        lowercase(line.as_str())
    } else {
        line
    }
}

/// Lexicographic order of texts, by character: -1, 0 or 1. It is the order
/// of `str`'s `cmp`, since UTF-8 keeps the order of code points.
pub open spec fn text_cmp(a: Seq<char>, b: Seq<char>) -> int
    decreases a.len(),
{
    if a.len() == 0 {
        if b.len() == 0 { 0 } else { -1 }
    } else if b.len() == 0 {
        1
    } else if (a[0] as u32) < (b[0] as u32) {
        -1
    } else if (a[0] as u32) > (b[0] as u32) {
        1
    } else {
        text_cmp(a.skip(1), b.skip(1))
    }
}

/// Compares two lines in lexicographic order.
pub fn compare_lines(a: &str, b: &str) -> (r: i8)
    ensures
        r == text_cmp(a@, b@),
{
    let ac = chars_of(a);
    let bc = chars_of(b);
    let mut i: usize = 0;
    assert(ac@.skip(0) =~= ac@);
    assert(bc@.skip(0) =~= bc@);
    loop
        invariant
            i <= ac@.len(),
            i <= bc@.len(),
            ac@ == a@,
            bc@ == b@,
            text_cmp(a@, b@) == text_cmp(ac@.skip(i as int), bc@.skip(i as int)),
        decreases ac@.len() - i,
    {
        if i == ac.len() {
            return if i == bc.len() { 0 } else { -1 };
        }
        if i == bc.len() {
            return 1;
        }
        let x = ac[i] as u32;
        let y = bc[i] as u32;
        if x < y {
            return -1;
        }
        if x > y {
            return 1;
        }
        assert(ac@.skip(i as int).skip(1) =~= ac@.skip(i + 1));
        assert(bc@.skip(i as int).skip(1) =~= bc@.skip(i + 1));
        i = i + 1;
    }
}

/// The column of the next line to report, given the next unread line of each
/// input: the smaller one goes to its own column, equal ones to both.
pub open spec fn next_column_of(line1: Option<Seq<char>>, line2: Option<Seq<char>>) -> Option<Column> {
    match (line1, line2) {
        (None, None) => None,
        (Some(_), None) => Some(Column::File1),
        (None, Some(_)) => Some(Column::File2),
        (Some(a), Some(b)) => if text_cmp(a, b) == 0 {
            Some(Column::Both)
        } else if text_cmp(a, b) < 0 {
            Some(Column::File1)
        } else {
            Some(Column::File2)
        },
    }
}

pub open spec fn opt_view(s: Option<&str>) -> Option<Seq<char>> {
    match s {
        Some(x) => Some(x@),
        None => None,
    }
}

/// Decides where the next line goes; the caller then reads on from the
/// input(s) whose line was used.
pub fn next_column(line1: Option<&str>, line2: Option<&str>) -> (r: Option<Column>)
    ensures
        r == next_column_of(opt_view(line1), opt_view(line2)),
{
    match (line1, line2) {
        (None, None) => None,
        (Some(_), None) => Some(Column::File1),
        (None, Some(_)) => Some(Column::File2),
        (Some(a), Some(b)) => {
            let c = compare_lines(a, b);
            if c == 0 {
                Some(Column::Both)
            } else if c < 0 {
                Some(Column::File1)
            } else {
                Some(Column::File2)
            }
        },
    }
}

/// A line indented by `pos` delimiters (at most two).
pub open spec fn indented(val: Seq<char>, pos: u8, delimiter: Seq<char>) -> Seq<char> {
    if pos == 0 {
        val
    } else if pos == 1 {
        delimiter + val
    } else {
        delimiter + delimiter + val
    }
}

/// A line placed in its column: each shown column before it adds one delimiter.
pub fn format_line(val: &str, pos: u8, delimiter: &str) -> (r: String)
    ensures
        r@ == indented(val@, pos, delimiter@),
{
    let mut r = String::new();
    if pos >= 1 {
        r.append(delimiter);
    }
    if pos >= 2 {
        r.append(delimiter);
    }
    r.append(val);
    r
}

/// The indentation of a line of column `col`, or `None` where that column is
/// not shown.
pub open spec fn column_indent(col: Column, show1: bool, show2: bool, show3: bool) -> Option<u8> {
    match col {
        Column::File1 => if show1 { Some(0) } else { None },
        Column::File2 => if show2 { Some(if show1 { 1u8 } else { 0u8 }) } else { None },
        Column::Both => if show3 {
            Some(((if show1 { 1u8 } else { 0u8 }) + (if show2 { 1u8 } else { 0u8 })) as u8)
        } else {
            None
        },
    }
}

/// What to print for a line of column `col`, if anything.
pub fn column_text(val: &str, col: Column, show_col1: bool, show_col2: bool, show_col3: bool, delimiter: &str) -> (r: Option<String>)
    ensures
        column_indent(col, show_col1, show_col2, show_col3) matches Some(p)
            ==> (r matches Some(s) && s@ == indented(val@, p, delimiter@)),
        column_indent(col, show_col1, show_col2, show_col3) is None ==> r is None,
{
    match (show_col1, show_col2, show_col3, col) {
        (true, _, _, Column::File1) => Some(format_line(val, 0, delimiter)),
        (false, true, _, Column::File2) => Some(format_line(val, 0, delimiter)),
        (true, true, _, Column::File2) => Some(format_line(val, 1, delimiter)),
        (false, false, true, Column::Both) => Some(format_line(val, 0, delimiter)),
        (true, false, true, Column::Both) => Some(format_line(val, 1, delimiter)),
        (false, true, true, Column::Both) => Some(format_line(val, 1, delimiter)),
        (true, true, true, Column::Both) => Some(format_line(val, 2, delimiter)),
        _ => None,
    }
}

} // verus!

//! The month layout of `cal`: dates, month names, the header lines and the
//! grid of days.
use vstd::prelude::*;
use vstd::string::StringExecFns;
use chrono::Datelike;
use crate::decimal::{decimal_digits, i32_text, int_digits, i64_string, parse_i32_text, parse_u32_text, u32_text, u64_string};
use crate::text::{chars_of, lower_of, lowercase, push_spaces, spaces};

verus! {

/// The earliest and the latest year that `chrono` holds dates in.
pub open spec fn chrono_year(y: int) -> bool {
    -262143 <= y <= 262142
}

pub open spec fn is_leap_year(y: int) -> bool {
    (y % 4 == 0 && y % 100 != 0) || y % 400 == 0
}

/// The number of days of a month (1 to 12) of the proleptic Gregorian calendar.
pub open spec fn days_in_month(y: int, m: int) -> int {
    if m == 2 {
        if is_leap_year(y) { 29 } else { 28 }
    } else if m == 4 || m == 6 || m == 9 || m == 11 {
        30
    } else {
        31
    }
}

/// The days of the year before the first of month `m`.
pub open spec fn days_before_month(y: int, m: int) -> int {
    let base: int = if m == 1 { 0 } else if m == 2 { 31 } else if m == 3 { 59 } else if m == 4 { 90 }
        else if m == 5 { 120 } else if m == 6 { 151 } else if m == 7 { 181 } else if m == 8 { 212 }
        else if m == 9 { 243 } else if m == 10 { 273 } else if m == 11 { 304 } else { 334 };
    base + if m > 2 && is_leap_year(y) { 1int } else { 0int }
}

/// Days from 31 December of year 0 to the date: 1 January of year 1 is day 1.
pub open spec fn day_number(y: int, m: int, d: int) -> int {
    365 * (y - 1) + (y - 1) / 4 - (y - 1) / 100 + (y - 1) / 400 + days_before_month(y, m) + d
}

/// The weekday of a date, counted from Sunday (0) to Saturday (6);
/// 1 January of year 1 was a Monday.
pub open spec fn weekday_from_sunday(y: int, m: int, d: int) -> int {
    day_number(y, m, d) % 7
}

/// A calendar date.
#[derive(Debug, Clone, Copy, PartialEq, Eq, Structural)]
pub struct Date {
    pub year: i32,
    pub month: u32,
    pub day: u32,
}

impl Date {
    /// A date that exists in the calendar and in `chrono`'s range.
    pub open spec fn wf(&self) -> bool {
        &&& chrono_year(self.year as int)
        &&& 1 <= self.month <= 12
        &&& 1 <= self.day <= days_in_month(self.year as int, self.month as int)
    }

    /// The date, where it exists in the calendar.
    pub fn from_ymd_opt(year: i32, month: u32, day: u32) -> (r: Option<Date>)
        ensures
            r matches Some(x) ==> x == (Date { year, month, day }),
            r is Some <==> (Date { year, month, day }).wf(),
    {
        if year < -262143 || year > 262142 || month < 1 || month > 12 || day < 1 {
            return None;
        }
        let leap = (year % 4 == 0 && year % 100 != 0) || year % 400 == 0;
        let dim: u32 = if month == 2 {
            if leap { 29 } else { 28 }
        } else if month == 4 || month == 6 || month == 9 || month == 11 {
            30
        } else {
            31
        };
        if day > dim {
            None
        } else {
            Some(Date { year, month, day })
        }
    }
}

/// The day before a date.
pub open spec fn day_before(d: Date) -> Date {
    if d.day > 1 {
        Date { day: (d.day - 1) as u32, ..d }
    } else if d.month > 1 {
        Date {
            year: d.year,
            month: (d.month - 1) as u32,
            day: days_in_month(d.year as int, d.month - 1) as u32,
        }
    } else {
        Date { year: (d.year - 1) as i32, month: 12, day: 31 }
    }
}

/// Relies on `chrono::NaiveDate::checked_sub_days` with one day: the
/// previous date of the proleptic Gregorian calendar.
#[verifier::external_body]
fn previous_day(d: Date) -> (r: Date)
    requires
        d.wf(),
        d.month == 1 && d.day == 1 ==> chrono_year(d.year - 1),
    ensures
        r == day_before(d),
{
    let date = chrono::NaiveDate::from_ymd_opt(d.year, d.month, d.day).unwrap();
    let prev = date.checked_sub_days(chrono::Days::new(1)).unwrap();
    Date { year: prev.year(), month: prev.month(), day: prev.day() }
}

/// Relies on `chrono::NaiveDate::weekday` and `Weekday::num_days_from_sunday`:
/// the weekday of the date, Sunday being 0.
#[verifier::external_body]
fn weekday_of(d: Date) -> (r: u32)
    requires
        d.wf(),
    ensures
        r == weekday_from_sunday(d.year as int, d.month as int, d.day as int),
{
    chrono::NaiveDate::from_ymd_opt(d.year, d.month, d.day).unwrap().weekday().num_days_from_sunday()
}

/// The last day of a month.
pub fn last_day_in_month(year: i32, month: u32) -> (r: Date)
    requires
        1 <= month <= 12,
        chrono_year(year as int),
        month == 12 ==> chrono_year(year + 1),
    ensures
        r == (Date { year, month, day: days_in_month(year as int, month as int) as u32 }),
        r.wf(),
{
    let first_of_next = if month == 12 {
        Date { year: year + 1, month: 1, day: 1 }
    } else {
        Date { year, month: month + 1, day: 1 }
    };
    previous_day(first_of_next)
}

pub open spec fn month_name_text(m: int) -> Seq<char> {
    if m == 1 { "January"@ } else if m == 2 { "February"@ } else if m == 3 { "March"@ }
    else if m == 4 { "April"@ } else if m == 5 { "May"@ } else if m == 6 { "June"@ }
    else if m == 7 { "July"@ } else if m == 8 { "August"@ } else if m == 9 { "September"@ }
    else if m == 10 { "October"@ } else if m == 11 { "November"@ } else { "December"@ }
}

pub open spec fn lower_month_name_text(m: int) -> Seq<char> {
    if m == 1 { "january"@ } else if m == 2 { "february"@ } else if m == 3 { "march"@ }
    else if m == 4 { "april"@ } else if m == 5 { "may"@ } else if m == 6 { "june"@ }
    else if m == 7 { "july"@ } else if m == 8 { "august"@ } else if m == 9 { "september"@ }
    else if m == 10 { "october"@ } else if m == 11 { "november"@ } else { "december"@ }
}

/// The English name of a month.
pub fn month_name(m: u32) -> (r: &'static str)
    requires
        1 <= m <= 12,
    ensures
        r@ == month_name_text(m as int),
{
    if m == 1 { "January" } else if m == 2 { "February" } else if m == 3 { "March" }
    else if m == 4 { "April" } else if m == 5 { "May" } else if m == 6 { "June" }
    else if m == 7 { "July" } else if m == 8 { "August" } else if m == 9 { "September" }
    else if m == 10 { "October" } else if m == 11 { "November" } else { "December" }
}

/// The English name of a month, in lower case.
fn lower_month_name(m: u32) -> (r: &'static str)
    requires
        1 <= m <= 12,
    ensures
        r@ == lower_month_name_text(m as int),
{
    if m == 1 { "january" } else if m == 2 { "february" } else if m == 3 { "march" }
    else if m == 4 { "april" } else if m == 5 { "may" } else if m == 6 { "june" }
    else if m == 7 { "july" } else if m == 8 { "august" } else if m == 9 { "september" }
    else if m == 10 { "october" } else if m == 11 { "november" } else { "december" }
}

/// The first month, from `m` on, whose lower-case name starts with `p`.
pub open spec fn month_with_prefix_from(p: Seq<char>, m: int) -> Option<u32>
    decreases 13 - m,
{
    if m < 1 || m > 12 {
        None
    } else if p.is_prefix_of(lower_month_name_text(m)) {
        Some(m as u32)
    } else {
        month_with_prefix_from(p, m + 1)
    }
}

fn is_prefix(p: &str, s: &str) -> (r: bool)
    ensures
        r == p@.is_prefix_of(s@),
{
    let pc = chars_of(p);
    let sc = chars_of(s);
    if pc.len() > sc.len() {
        return false;
    }
    let mut i: usize = 0;
    while i < pc.len()
        invariant
            i <= pc@.len() <= sc@.len(),
            pc@ == p@,
            sc@ == s@,
            forall|j: int| 0 <= j < i ==> pc@[j] == sc@[j],
        decreases pc@.len() - i,
    {
        if pc[i] != sc[i] {
            assert(sc@.subrange(0, pc@.len() as int)[i as int] == sc@[i as int]);
            return false;
        }
        i = i + 1;
    }
    assert(pc@ =~= sc@.subrange(0, pc@.len() as int));
    true
}

/// The first month whose lower-case name starts with `lower` (the empty text
/// starts every name, so it gives January).
pub fn month_by_prefix(lower: &str) -> (r: Option<u32>)
    ensures
        r == month_with_prefix_from(lower@, 1),
{
    let mut m: u32 = 1;
    while m <= 12
        invariant
            1 <= m <= 13,
            month_with_prefix_from(lower@, 1) == month_with_prefix_from(lower@, m as int),
        decreases 13 - m,
    {
        if is_prefix(lower, lower_month_name(m)) {
            return Some(m);
        }
        m = m + 1;
    }
    None
}

/// What a month argument stands for: a number from 1 to 12, or else the
/// first month whose name starts with the argument in lower case.
pub open spec fn month_arg(val: Seq<char>, lower: Seq<char>) -> Option<u32> {
    match u32_text(val) {
        Some(n) => if 1 <= n <= 12 { Some(n) } else { month_with_prefix_from(lower, 1) },
        None => month_with_prefix_from(lower, 1),
    }
}

pub open spec fn month_err_text(val: Seq<char>) -> Seq<char> {
    "month '"@ + val + "' not in the range 1 through 12"@
}

/// Reads a month: a number from 1 to 12, or the start of a month's name in
/// any case.
pub fn parse_month(val: &str) -> (r: Result<u32, String>)
    ensures
        month_arg(val@, lower_of(val@)) matches Some(m) ==> r == Ok::<u32, String>(m),
        month_arg(val@, lower_of(val@)) is None ==> (r matches Err(e) && e@ == month_err_text(val@)),
{
    match parse_u32_text(val) {
        Some(n) => {
            if 1 <= n && n <= 12 {
                return Ok(n);
            }
        },
        None => {},
    }
    let lower = lowercase(val);
    match month_by_prefix(lower.as_str()) {
        Some(m) => Ok(m),
        None => {
            let mut e = String::from_str("month '");
            e.append(val);
            e.append("' not in the range 1 through 12");
            Err(e)
        },
    }
}

/// A year as `cal` takes it: from 1 to 9999.
pub open spec fn year_arg(val: Seq<char>) -> Option<i32> {
    match i32_text(val) {
        Some(n) => if 1 <= n <= 9999 { Some(n) } else { None },
        None => None,
    }
}

pub open spec fn year_err_text(val: Seq<char>) -> Seq<char> {
    "year '"@ + val + "' not in the range 1 through 9999"@
}

/// Reads a year from 1 to 9999.
pub fn parse_year(val: &str) -> (r: Result<i32, String>)
    ensures
        year_arg(val@) matches Some(y) ==> r == Ok::<i32, String>(y),
        year_arg(val@) is None ==> (r matches Err(e) && e@ == year_err_text(val@)),
{
    match parse_i32_text(val) {
        Some(n) => {
            if 1 <= n && n <= 9999 {
                return Ok(n);
            }
        },
        None => {},
    }
    let mut e = String::from_str("year '");
    e.append(val);
    e.append("' not in the range 1 through 9999");
    Err(e)
}

/// `s` centred in a field of `w` characters, the odd space going right, as
/// the `{:^w}` format does; text as wide as the field or wider stays as it is.
pub open spec fn centered(s: Seq<char>, w: nat) -> Seq<char> {
    if s.len() >= w {
        s
    } else {
        let pad = (w - s.len()) as nat;
        spaces(pad / 2) + s + spaces((pad - pad / 2) as nat)
    }
}

/// The title of a month: its name, and the year where asked for.
pub open spec fn month_title(year: i32, month: u32, print_year: bool) -> Seq<char> {
    if print_year {
        month_name_text(month as int) + " "@ + int_digits(year as int)
    } else {
        month_name_text(month as int)
    }
}

/// The title line of a month: the title centred over the 20 columns of the
/// grid, then two spaces.
pub fn format_month_header(year: i32, month: u32, print_year: bool) -> (r: String)
    requires
        1 <= month <= 12,
    ensures
        r@ == centered(month_title(year, month, print_year), 20) + "  "@,
{
    let mut title = String::from_str(month_name(month));
    if print_year {
        title.append(" ");
        title.append(i64_string(year as i64).as_str());
    }
    let width = chars_of(title.as_str()).len();
    let mut r = String::new();
    if width >= 20 {
        r.append(title.as_str());
    } else {
        let pad = 20 - width;
        push_spaces(&mut r, pad / 2);
        r.append(title.as_str());
        push_spaces(&mut r, pad - pad / 2);
    }
    r.append("  ");
    r
}

/// The line that names the weekdays.
pub fn format_days_header() -> (r: String)
    ensures
        r@ == "Su Mo Tu We Th Fr Sa  "@,
{
    String::from_str("Su Mo Tu We Th Fr Sa  ")
}

/// A day of the month right-aligned in two columns.
pub open spec fn day_text(d: nat) -> Seq<char> {
    if d < 10 {
        " "@ + decimal_digits(d)
    } else {
        decimal_digits(d)
    }
}

/// `s` shown in reverse video.
pub open spec fn reverse_video_text(s: Seq<char>) -> Seq<char> {
    "\x1B[7m"@ + s + "\x1B[0m"@
}

/// Relies on `ansi_term::Style::reverse` and `paint`: the reverse-video code,
/// the text, then the reset code.
#[verifier::external_body]
fn reverse_video(s: &str) -> (r: String)
    ensures
        r@ == reverse_video_text(s@),
{
    ansi_term::Style::new().reverse().paint(s).to_string()
}

/// Cell `i` of the six-by-seven grid of a month whose first day falls on
/// weekday `first`: the day, in reverse video where it is `today`, or blank.
pub open spec fn grid_cell(year: i32, month: u32, today: Date, first: int, i: int) -> Seq<char> {
    let d = i - first + 1;
    if 1 <= d <= days_in_month(year as int, month as int) {
        if today.year == year && today.month == month && today.day == d {
            reverse_video_text(day_text(d as nat))
        } else {
            day_text(d as nat)
        }
    } else {
        "  "@
    }
}

/// The first `k` cells of a row of the grid, one space between cells.
pub open spec fn row_cells(year: i32, month: u32, today: Date, first: int, row: int, k: nat) -> Seq<char>
    decreases k,
{
    if k <= 1 {
        grid_cell(year, month, today, first, 7 * row)
    } else {
        row_cells(year, month, today, first, row, (k - 1) as nat) + " "@
            + grid_cell(year, month, today, first, 7 * row + k - 1)
    }
}

/// Row `row` (0 to 5) of the grid of a month, then two spaces.
pub open spec fn grid_row(year: i32, month: u32, today: Date, row: int) -> Seq<char> {
    row_cells(year, month, today, weekday_from_sunday(year as int, month as int, 1), row, 7) + "  "@
}

fn grid_cell_string(year: i32, month: u32, today: Date, first: u32, dim: u32, i: u32) -> (r: String)
    requires
        1 <= month <= 12,
        dim == days_in_month(year as int, month as int),
        first <= 6,
        i < 42,
    ensures
        r@ == grid_cell(year, month, today, first as int, i as int),
{
    if i + 1 >= first + 1 && i + 1 - first <= dim {
        let d = i + 1 - first;
        let mut t = String::new();
        if d < 10 {
            t.append(" ");
        }
        t.append(u64_string(d as u64).as_str());
        if today.year == year && today.month == month && today.day == d {
            reverse_video(t.as_str())
        } else {
            t
        }
    } else {
        String::from_str("  ")
    }
}

/// The six rows of the grid of a month, a week to a row from Sunday, with
/// `today` in reverse video.
pub fn format_days(year: i32, month: u32, today: Date) -> (r: Vec<String>)
    requires
        1 <= month <= 12,
        chrono_year(year as int),
        month == 12 ==> chrono_year(year + 1),
    ensures
        r@.len() == 6,
        forall|i: int| 0 <= i < 6 ==> (#[trigger] r@[i])@ == grid_row(year, month, today, i),
{
    let first = weekday_of(Date { year, month, day: 1 });
    let last = last_day_in_month(year, month);
    let dim = last.day;
    let mut rows: Vec<String> = Vec::new();
    let mut row: u32 = 0;
    while row < 6
        invariant
            row <= 6,
            rows@.len() == row,
            first == weekday_from_sunday(year as int, month as int, 1),
            first <= 6,
            dim == days_in_month(year as int, month as int),
            1 <= month <= 12,
            forall|i: int| 0 <= i < row ==> (#[trigger] rows@[i])@ == grid_row(year, month, today, i),
        decreases 6 - row,
    {
        let mut line = grid_cell_string(year, month, today, first, dim, 7 * row);
        let mut col: u32 = 1;
        while col < 7
            invariant
                1 <= col <= 7,
                row < 6,
                first <= 6,
                1 <= month <= 12,
                dim == days_in_month(year as int, month as int),
                line@ == row_cells(year, month, today, first as int, row as int, col as nat),
            decreases 7 - col,
        {
            line.append(" ");
            line.append(grid_cell_string(year, month, today, first, dim, 7 * row + col).as_str());
            col = col + 1;
        }
        line.append("  ");
        rows.push(line);
        row = row + 1;
    }
    rows
}

/// A whole month: the title line, the weekday line and the six rows of days.
pub fn format_month(year: i32, month: u32, print_year: bool, today: Date) -> (r: Vec<String>)
    requires
        1 <= month <= 12,
        chrono_year(year as int),
        month == 12 ==> chrono_year(year + 1),
    ensures
        r@.len() == 8,
        r@[0]@ == centered(month_title(year, month, print_year), 20) + "  "@,
        r@[1]@ == "Su Mo Tu We Th Fr Sa  "@,
        forall|i: int| 0 <= i < 6 ==> (#[trigger] r@[i + 2])@ == grid_row(year, month, today, i),
{
    let mut month_vec = vec![format_month_header(year, month, print_year), format_days_header()];
    let mut days_vec = format_days(year, month, today);
    month_vec.append(&mut days_vec);
    month_vec
}

} // verus!

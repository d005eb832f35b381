use cliutils::cal::{
    format_days, format_days_header, format_month, format_month_header, last_day_in_month,
    month_by_prefix, parse_month, parse_year, Date,
};

#[test]
fn test_parse_month() {
    let res = parse_month("1");
    assert!(res.is_ok());
    assert_eq!(res.unwrap(), 1u32);
    let res = parse_month("12");
    assert!(res.is_ok());
    assert_eq!(res.unwrap(), 12u32);
    let res = parse_month("jan");
    assert!(res.is_ok());
    assert_eq!(res.unwrap(), 1u32);
    let res = parse_month("0");
    assert!(res.is_err());
    assert_eq!(
        res.unwrap_err().to_string(),
        "month '0' not in the range 1 through 12"
    );
    let res = parse_month("13");
    assert!(res.is_err());
    assert_eq!(
        res.unwrap_err().to_string(),
        "month '13' not in the range 1 through 12"
    );
    let res = parse_month("foo");
    assert!(res.is_err());
    assert_eq!(
        res.unwrap_err().to_string(),
        "month 'foo' not in the range 1 through 12"
    );
}
#[test]
fn test_parse_year() {
    let res = parse_year("1");
    assert!(res.is_ok());
    assert_eq!(res.unwrap(), 1i32);
    let res = parse_year("9999");
    assert!(res.is_ok());
    assert_eq!(res.unwrap(), 9999i32);
    let res = parse_year("0");
    assert_eq!(
        res.unwrap_err().to_string(),
        "year '0' not in the range 1 through 9999"
    );
    let res = parse_year("10000");
    assert_eq!(
        res.unwrap_err().to_string(),
        "year '10000' not in the range 1 through 9999"
    );
    let res = parse_year("foo");
    assert!(res.is_err());
}
#[test]
fn test_format_month() {
    let today = Date::from_ymd_opt(0, 1, 1).unwrap();
    let leap_february = vec![
        "   February 2020      ",
        "Su Mo Tu We Th Fr Sa  ",
        "                   1  ",
        " 2  3  4  5  6  7  8  ",
        " 9 10 11 12 13 14 15  ",
        "16 17 18 19 20 21 22  ",
        "23 24 25 26 27 28 29  ",
        "                      ",
    ];
    assert_eq!(format_month(2020, 2, true, today), leap_february);
    let may = vec![
        "        May           ",
        "Su Mo Tu We Th Fr Sa  ",
        "                1  2  ",
        " 3  4  5  6  7  8  9  ",
        "10 11 12 13 14 15 16  ",
        "17 18 19 20 21 22 23  ",
        "24 25 26 27 28 29 30  ",
        "31                    ",
    ];
    assert_eq!(format_month(2020, 5, false, today), may);
    let april_hl = vec![
        "     April 2021       ",
        "Su Mo Tu We Th Fr Sa  ",
        "             1  2  3  ",
        " 4  5  6 \u{1b}[7m 7\u{1b}[0m  8  9 10  ",
        "11 12 13 14 15 16 17  ",
        "18 19 20 21 22 23 24  ",
        "25 26 27 28 29 30     ",
        "                      ",
    ];
    let today = Date::from_ymd_opt(2021, 4, 7).unwrap();
    assert_eq!(format_month(2021, 4, true, today), april_hl);
}
#[test]
fn test_format_month_header() {
    let february = "   February 2020      ";
    assert_eq!(format_month_header(2020, 2, true), february);
    let may = "        May           ";
    assert_eq!(format_month_header(2020, 5, false), may);
    let april = "     April 2021       ";
    assert_eq!(format_month_header(2021, 4, true), april);
}
#[test]
fn test_format_days() {
    let today = Date::from_ymd_opt(0, 1, 1).unwrap();
    let leap_february = vec![
        "                   1  ",
        " 2  3  4  5  6  7  8  ",
        " 9 10 11 12 13 14 15  ",
        "16 17 18 19 20 21 22  ",
        "23 24 25 26 27 28 29  ",
        "                      ",
    ];
    assert_eq!(format_days(2020, 2, today), leap_february);
    let may = vec![
        "                1  2  ",
        " 3  4  5  6  7  8  9  ",
        "10 11 12 13 14 15 16  ",
        "17 18 19 20 21 22 23  ",
        "24 25 26 27 28 29 30  ",
        "31                    ",
    ];
    assert_eq!(format_days(2020, 5, today), may);
    let april_hl = vec![
        "             1  2  3  ",
        " 4  5  6 \u{1b}[7m 7\u{1b}[0m  8  9 10  ",
        "11 12 13 14 15 16 17  ",
        "18 19 20 21 22 23 24  ",
        "25 26 27 28 29 30     ",
        "                      ",
    ];
    let today = Date::from_ymd_opt(2021, 4, 7).unwrap();
    assert_eq!(format_days(2021, 4, today), april_hl);
}
#[test]
fn test_last_day_in_month() {
    assert_eq!(
        last_day_in_month(2020, 1),
        Date::from_ymd_opt(2020, 1, 31).unwrap()
    );
    assert_eq!(
        last_day_in_month(2020, 2),
        Date::from_ymd_opt(2020, 2, 29).unwrap()
    );
    assert_eq!(
        last_day_in_month(2020, 4),
        Date::from_ymd_opt(2020, 4, 30).unwrap()
    );
}

#[test]
fn month_edges() {
    assert_eq!(last_day_in_month(2020, 12), Date::from_ymd_opt(2020, 12, 31).unwrap());
    assert_eq!(last_day_in_month(1900, 2).day, 28);
    assert_eq!(last_day_in_month(2000, 2).day, 29);
    assert!(Date::from_ymd_opt(2021, 2, 29).is_none());
    assert!(Date::from_ymd_opt(2021, 13, 1).is_none());
    assert_eq!(format_days_header(), "Su Mo Tu We Th Fr Sa  ");
}

#[test]
fn month_names_by_prefix() {
    assert_eq!(month_by_prefix("ju"), Some(6));
    assert_eq!(month_by_prefix("jul"), Some(7));
    assert_eq!(month_by_prefix(""), Some(1));
    assert_eq!(month_by_prefix("x"), None);
    assert_eq!(parse_month("DEC").unwrap(), 12);
    assert_eq!(parse_month("+3").unwrap(), 3);
}

#[test]
fn first_weekday_of_known_months() {
    let today = Date::from_ymd_opt(1, 1, 1).unwrap();
    // September 1752 in the proleptic Gregorian calendar starts on a Friday.
    assert_eq!(format_days(1752, 9, today)[0], "                1  2  ");
    // 1 January of year 1 was a Monday.
    assert_eq!(format_days(1, 1, today)[0], "   \u{1b}[7m 1\u{1b}[0m  2  3  4  5  6  ");
}

use cliutils::tail::TakeValue::{PlusZero, TakeNum};
use cliutils::tail::{get_start_index, parse_num};

#[test]
fn test_parse_num_positive() {
    // A leading "+" should result in a positive number
    let res = parse_num("+3");
    assert!(res.is_ok());
    assert_eq!(res.unwrap(), TakeNum(3));
}

#[test]
fn test_parse_num_negative() {
    // All integers should be interpreted as negative numbers
    let res = parse_num("3");
    assert!(res.is_ok());
    assert_eq!(res.unwrap(), TakeNum(-3));
}

#[test]
fn test_parse_num_explicit_negative() {
    // An explicit "-" value should result in a negative number
    let res = parse_num("-3");
    assert!(res.is_ok());
    assert_eq!(res.unwrap(), TakeNum(-3));
}

#[test]
fn test_parse_num_zero() {
    // Zero is Zero
    let res = parse_num("0");
    assert!(res.is_ok());
    assert_eq!(res.unwrap(), TakeNum(0));
}

#[test]
fn test_parse_num_plus_zero() {
    // Plus zero is special
    let res = parse_num("+0");
    assert!(res.is_ok());
    assert_eq!(res.unwrap(), PlusZero);
}

#[test]
fn test_parse_num_boundaries() {
    // Test boundaries
    let res = parse_num(&i64::MAX.to_string());
    assert!(res.is_ok());
    assert_eq!(res.unwrap(), TakeNum(i64::MIN + 1));
    let res = parse_num(&(i64::MIN + 1).to_string());
    assert!(res.is_ok());
    assert_eq!(res.unwrap(), TakeNum(i64::MIN + 1));
    let res = parse_num(&format!("+{}", i64::MAX));
    assert!(res.is_ok());
    assert_eq!(res.unwrap(), TakeNum(i64::MAX));
    let res = parse_num(&i64::MIN.to_string());
    assert!(res.is_ok());
    assert_eq!(res.unwrap(), TakeNum(i64::MIN));
}

#[test]
fn test_parse_num_float() {
    // A floating-point value is invalid
    let res = parse_num("3.14");
    assert!(res.is_err());
    assert_eq!(res.unwrap_err().to_string(), "3.14");
}

#[test]
fn test_parse_num_noninteger() {
    // Any noninteger string is invalid
    let res = parse_num("foo");
    assert!(res.is_err());
    assert_eq!(res.unwrap_err().to_string(), "foo");
}
#[test]
fn test_get_start_index_empty_file() {
    assert_eq!(get_start_index(&PlusZero, 0), None);
}

#[test]
fn test_get_start_index_plus_zero() {
    assert_eq!(get_start_index(&PlusZero, 1), Some(0));
}

#[test]
fn test_get_start_index_take_zero() {
    assert_eq!(get_start_index(&TakeNum(0), 1), None);
}

#[test]
fn test_get_start_index_take_more_than_available() {
    assert_eq!(get_start_index(&TakeNum(2), 1), None);
}

#[test]
fn test_get_start_index_take_one() {
    assert_eq!(get_start_index(&TakeNum(1), 10), Some(0));
}

#[test]
fn test_get_start_index_take_two() {
    assert_eq!(get_start_index(&TakeNum(2), 10), Some(1));
}

#[test]
fn test_get_start_index_take_three() {
    assert_eq!(get_start_index(&TakeNum(3), 10), Some(2));
}

#[test]
fn test_get_start_index_take_negative_one() {
    assert_eq!(get_start_index(&TakeNum(-1), 10), Some(9));
}

#[test]
fn test_get_start_index_take_negative_two() {
    assert_eq!(get_start_index(&TakeNum(-2), 10), Some(8));
}

#[test]
fn test_get_start_index_take_negative_three() {
    assert_eq!(get_start_index(&TakeNum(-3), 10), Some(7));
}

#[test]
fn test_get_start_index_take_negative_more_than_available() {
    assert_eq!(get_start_index(&TakeNum(-20), 10), Some(0));
}

#[test]
fn take_value_written_back() {
    assert_eq!(PlusZero.to_string(), "+0");
    assert_eq!(TakeNum(-12).to_string(), "-12");
    assert_eq!(TakeNum(7).to_string(), "7");
}

#[test]
fn extreme_totals_do_not_overflow() {
    assert_eq!(get_start_index(&TakeNum(i64::MIN), -5), Some(0));
    assert_eq!(get_start_index(&TakeNum(-1), i64::MAX), Some((i64::MAX - 1) as u64));
    assert_eq!(parse_num("+-3").unwrap_err(), "+-3");
    assert_eq!(parse_num("").unwrap_err(), "");
}

use cliutils::extract::{extract_bytes, extract_chars, extract_fields};
use cliutils::positions::{parse, parse_delimiter, parse_position, parsed_to_range, CutError};
use csv::StringRecord;

#[test]
fn test_parse_position0() {
    // The empty string is an error
    assert!(parse_position("0").is_err());
}
#[test]
fn test_parse_position01() {
    let res = parse_position("0-1");
    assert!(res.is_err());
    assert_eq!(res.unwrap_err().to_string(), "illegal list value: \"0\"",);
}
#[test]
fn test_parse_position_plus1() {
    // A leading "+" is an error
    let res = parse_position("+1");
    assert!(res.is_err());
    assert_eq!(res.unwrap_err().to_string(), "illegal list value: \"+1\"",);
}
#[test]
fn test_parse_position_plus12() {
    let res = parse_position("+1-2");
    assert!(res.is_err());
    assert_eq!(res.unwrap_err().to_string(), "illegal list value: \"+1-2\"",);
}
#[test]
fn test_parse_position_1plus2() {
    let res = parse_position("1-+2");
    assert!(res.is_err());
    assert_eq!(res.unwrap_err().to_string(), "illegal list value: \"+2\"",);
}
#[test]
fn test_parse_position_non_number() {
    // Any non-number is an error
    let res = parse_position("a");
    assert!(res.is_err());
    assert_eq!(res.unwrap_err().to_string(), "illegal list value: \"a\"",);
}
#[test]
fn test_parse_position_number_non_number() {
    let res = parse_position("1,a");
    assert!(res.is_err());
    assert_eq!(res.unwrap_err().to_string(), "illegal list value: \",a\"",);
}
#[test]
fn test_parse_position_number_non_number_range() {
    let res = parse_position("1-a");
    assert!(res.is_err());
    assert_eq!(res.unwrap_err().to_string(), "illegal list value: \"a\"",);
}
#[test]
fn test_parse_position_non_number_number_range() {
    let res = parse_position("a-1");
    assert!(res.is_err());
    assert_eq!(res.unwrap_err().to_string(), "illegal list value: \"a-1\"",);
}
#[test]
fn test_parse_position_empty_range() {
    // Wonky ranges
    let res = parse_position("-");
    assert!(res.is_err());
}
#[test]
fn test_parse_position_comma() {
    let res = parse_position(",");
    assert!(res.is_err());
}
#[test]
fn test_parse_position_nothing_after_comma() {
    let res = parse_position("1,");
    assert!(res.is_err());
}
#[test]
fn test_parse_position_invalid_range_int() {
    let res = parse_position("1-1-1");
    assert!(res.is_err());
}
#[test]
fn test_parse_position_invalid_range_char() {
    let res = parse_position("1-1-a");
    assert!(res.is_err());
}
#[test]
fn test_parse_position_invalid_range_reverse() {
    let res = parse_position("2-1");
    assert!(res.is_err());
    assert_eq!(
        res.unwrap_err().to_string(),
        "First number in range (2) must be lower than second number (1)"
    );
}
#[test]
fn test_parse_position() {
    // Zero is an error
    let res = parse_position("");
    assert!(res.is_ok());
    let empty: Vec<std::ops::Range<usize>> = vec![];
    assert_eq!(res.unwrap(), empty);
}
#[test]
fn test_parse_position_ok_single() {
    // All the following are acceptable
    let res = parse_position("1");
    assert!(res.is_ok());
    assert_eq!(res.unwrap(), vec![0..1]);
}
#[test]
fn test_parse_position_ok_single_with_0() {
    let res = parse_position("01");
    assert!(res.is_ok());
    assert_eq!(res.unwrap(), vec![0..1]);
}
#[test]
fn test_parse_position_ok_comma() {
    let res = parse_position("1,3");
    assert!(res.is_ok());
    assert_eq!(res.unwrap(), vec![0..1, 2..3]);
}
#[test]
fn test_parse_position_ok_comma_with_0() {
    let res = parse_position("001,0003");
    assert!(res.is_ok());
    assert_eq!(res.unwrap(), vec![0..1, 2..3]);
}
#[test]
fn test_parse_position_ok_range() {
    let res = parse_position("1-3");
    assert!(res.is_ok());
    assert_eq!(res.unwrap(), vec![0..3]);
}
#[test]
fn test_parse_position_ok_range_same() {
    let res = parse_position("1-1");
    assert!(res.is_ok());
    assert_eq!(res.unwrap(), vec![0..1]);
}
#[test]
fn test_parse_position_ok_range_with_0() {
    let res = parse_position("0001-03");
    assert!(res.is_ok());
    assert_eq!(res.unwrap(), vec![0..3]);
}
#[test]
fn test_parse_position_ok_multiple_x() {
    let res = parse_position("1,7,3-5");
    assert!(res.is_ok());
    assert_eq!(res.unwrap(), vec![0..1, 6..7, 2..5]);
}
#[test]
fn test_parse_position_ok_multiple_xx() {
    let res = parse_position("15,19-20");
    assert!(res.is_ok());
    assert_eq!(res.unwrap(), vec![14..15, 18..20]);
}

#[test]
fn test_extract_fields() {
    let rec = StringRecord::from(vec!["Captain", "Sham", "12345"]);
    assert_eq!(extract_fields(&rec, &[0..1]), &["Captain"]);
    assert_eq!(extract_fields(&rec, &[1..2]), &["Sham"]);
    assert_eq!(extract_fields(&rec, &[0..1, 2..3]), &["Captain", "12345"]);
    assert_eq!(extract_fields(&rec, &[0..1, 3..4]), &["Captain"]);
    assert_eq!(extract_fields(&rec, &[1..2, 0..1]), &["Sham", "Captain"]);
}

#[test]
fn test_extract_chars() {
    assert_eq!(extract_chars("", &[0..1]), "".to_string());
    assert_eq!(extract_chars("ábc", &[0..1]), "á".to_string());
    assert_eq!(extract_chars("ábc", &[0..1, 2..3]), "ác".to_string());
    assert_eq!(extract_chars("ábc", &[0..3]), "ábc".to_string());
    assert_eq!(extract_chars("ábc", &[2..3, 1..2]), "cb".to_string());
    assert_eq!(extract_chars("ábc", &[0..1, 1..2, 4..5]), "áb".to_string());
}
#[test]
fn test_extract_bytes() {
    assert_eq!(extract_bytes("ábc", &[0..1]), "�".to_string());
    assert_eq!(extract_bytes("ábc", &[0..2]), "á".to_string());
    assert_eq!(extract_bytes("ábc", &[0..3]), "áb".to_string());
    assert_eq!(extract_bytes("ábc", &[0..4]), "ábc".to_string());
    assert_eq!(extract_bytes("ábc", &[3..4, 2..3]), "cb".to_string());
    assert_eq!(extract_bytes("ábc", &[0..2, 5..6]), "á".to_string());
}

#[test]
fn open_ended_and_leading_ranges() {
    assert_eq!(parse_position("3-").unwrap(), vec![2..usize::MAX]);
    assert_eq!(parse_position("-3").unwrap(), vec![0..3]);
    assert_eq!(parse_position("2,2").unwrap(), vec![1..2, 1..2]);
}

#[test]
fn underscores_inside_numbers_do_not_count() {
    assert_eq!(parse_position("1_0").unwrap(), vec![9..10]);
    assert_eq!(parse_position("1_-2_").unwrap(), vec![0..2]);
    assert_eq!(parse("1__2").unwrap(), 12);
}

#[test]
fn grammar_errors_name_the_rest_of_the_list() {
    assert_eq!(parse_position("0,a").unwrap_err().to_string(), "illegal list value: \",a\"");
    assert_eq!(parse_position("1-1-1").unwrap_err().to_string(), "illegal list value: \"-1\"");
    assert_eq!(parse_position(",").unwrap_err().to_string(), "illegal list value: \",\"");
}

#[test]
fn first_bad_piece_gives_the_error() {
    assert!(matches!(parse_position("3-2,0"), Err(CutError::InvalidRangeOrder(3, 2))));
    assert!(matches!(parse_position("0,3-2"), Err(CutError::InvalidListValue(ref s)) if s == "0"));
}

#[test]
fn overflowing_position_is_refused() {
    let res = parse_position("99999999999999999999999");
    assert_eq!(res.unwrap_err().to_string(), "illegal list value: \"99999999999999999999999\"");
}

#[test]
fn single_pieces() {
    assert_eq!(parsed_to_range("4").unwrap(), 3..4);
    assert_eq!(parsed_to_range("2-5").unwrap(), 1..5);
    assert_eq!(parsed_to_range("-").unwrap_err().to_string(), "illegal list value: \"\"");
    assert_eq!(parsed_to_range("1-2-3").unwrap_err().to_string(), "illegal list value: \"1-2-3\"");
    assert!(parse("0").is_err());
    assert!(parse("").is_err());
}

#[test]
fn delimiter_is_one_byte() {
    assert_eq!(parse_delimiter(",").unwrap(), b',');
    assert_eq!(parse_delimiter("\t").unwrap(), b'\t');
    assert_eq!(parse_delimiter(",,").unwrap_err().to_string(), "Invalid delimiter: \",,\"");
    assert_eq!(parse_delimiter("").unwrap_err().to_string(), "Invalid delimiter: \"\"");
    assert!(parse_delimiter("é").is_err());
}

#[test]
fn round_trip_of_numbers() {
    let list = parse_position("007,2-04,9-,-3").unwrap();
    let back: Vec<(usize, usize)> = list.iter().map(|r| (r.start + 1, r.end)).collect();
    assert_eq!(back, vec![(7, 7), (2, 4), (9, usize::MAX), (1, 3)]);
}

#[test]
fn extraction_is_repeatable() {
    let list = parse_position("2-3,1").unwrap();
    let first = extract_chars("héllo", &list);
    let second = extract_chars("héllo", &list);
    assert_eq!(first, "élh");
    assert_eq!(first, second);
    assert_eq!(extract_bytes("héllo", &list), extract_bytes("héllo", &list));
}

#[test]
fn open_range_runs_to_end_of_line() {
    let list = parse_position("2-").unwrap();
    assert_eq!(extract_chars("abcdef", &list), "bcdef");
    assert_eq!(extract_bytes("abcdef", &list), "bcdef");
    let rec = StringRecord::from(vec!["a", "b", "c"]);
    assert_eq!(extract_fields(&rec, &list), &["b", "c"]);
}

use cliutils::head::parse_num as parse_count;

#[test]
fn head_counts_are_positive() {
    assert_eq!(parse_count("3").unwrap(), 3);
    assert_eq!(parse_count("+3").unwrap(), 3);
    assert_eq!(parse_count("0").unwrap_err(), "0");
    assert_eq!(parse_count("-1").unwrap_err(), "-1");
    assert_eq!(parse_count("foo").unwrap_err(), "foo");
}

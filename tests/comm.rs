use cliutils::comm::{case, column_text, compare_lines, format_line, next_column, Column};

#[test]
fn columns_follow_order() {
    assert_eq!(next_column(Some("a"), Some("b")), Some(Column::File1));
    assert_eq!(next_column(Some("b"), Some("a")), Some(Column::File2));
    assert_eq!(next_column(Some("a"), Some("a")), Some(Column::Both));
    assert_eq!(next_column(None, Some("a")), Some(Column::File2));
    assert_eq!(next_column(Some("a"), None), Some(Column::File1));
    assert_eq!(next_column(None, None), None);
    assert_eq!(compare_lines("B", "a"), -1);
    assert_eq!(compare_lines("ab", "a"), 1);
    assert_eq!(compare_lines("é", "z"), 1);
}

#[test]
fn indentation_by_shown_columns() {
    assert_eq!(format_line("x", 2, "\t"), "\t\tx");
    assert_eq!(column_text("x", Column::Both, true, true, true, "\t").unwrap(), "\t\tx");
    assert_eq!(column_text("x", Column::Both, false, true, true, "|").unwrap(), "|x");
    assert_eq!(column_text("x", Column::File2, true, true, false, "\t").unwrap(), "\tx");
    assert_eq!(column_text("x", Column::File1, false, true, true, "\t"), None);
}

#[test]
fn case_folding() {
    assert_eq!(case("AbC".to_string(), &true), "abc");
    assert_eq!(case("AbC".to_string(), &false), "AbC");
}

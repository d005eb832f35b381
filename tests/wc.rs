use cliutils::wc::{count, FileInfo};

#[test]
fn test_count_ascii() {
    let text = "I don't want the world. I just want your half.\r\n";
    let info = count(text.as_bytes());
    assert!(info.is_ok());
    let expected = FileInfo {
        num_lines: 1,
        num_words: 10,
        num_chars: 48,
        num_bytes: 48,
    };
    assert_eq!(info.unwrap(), expected);
}
#[test]
fn test_count_non_ascii() {
    let text = "Frétt hefir öld óvu, þá er endr of gerðu\r";
    let info = count(text.as_bytes());
    assert!(info.is_ok());
    let expected = FileInfo {
        num_lines: 1,
        num_words: 9,
        num_chars: 41,
        num_bytes: 47,
    };
    assert_eq!(info.unwrap(), expected);
}
#[test]
fn test_count_ascii_multiline() {
    let text = "I don't want the world. I just want your half.\r\nI don't want the world. I just want your half.\r\n";
    let info = count(text.as_bytes());
    assert!(info.is_ok());
    let expected = FileInfo {
        num_lines: 2,
        num_words: 20,
        num_chars: 96,
        num_bytes: 96,
    };
    assert_eq!(info.unwrap(), expected);
}

#[test]
fn count_empty_and_unterminated() {
    assert_eq!(count(b"").unwrap(), FileInfo { num_lines: 0, num_words: 0, num_bytes: 0, num_chars: 0 });
    assert_eq!(count(b"a\nb").unwrap().num_lines, 2);
    assert_eq!(count(b"\n\n").unwrap().num_lines, 2);
    assert_eq!(count("a\u{3000}b\u{a0}c".as_bytes()).unwrap().num_words, 3);
}

#[test]
fn count_refuses_invalid_utf8() {
    assert!(count(&[0x66, 0xff, 0x0a]).is_err());
}

#[test]
fn totals_add_up() {
    let mut total = FileInfo::default();
    total.add_assign(FileInfo { num_lines: 1, num_words: 2, num_bytes: 3, num_chars: 4 });
    total.add_assign(FileInfo { num_lines: 10, num_words: 20, num_bytes: 30, num_chars: 40 });
    assert_eq!(total, FileInfo { num_lines: 11, num_words: 22, num_bytes: 33, num_chars: 44 });
}

use cliutils::wc::{display, CountFlags};

#[test]
fn report_lines() {
    let info = FileInfo { num_lines: 1, num_words: 10, num_bytes: 48, num_chars: 48 };
    let all = CountFlags { lines: true, words: true, bytes: true, chars: false };
    assert_eq!(display(&info, all, "x.txt"), "       1      10      48 x.txt");
    let one = CountFlags { lines: false, words: false, bytes: false, chars: true };
    assert_eq!(display(&info, one, "-"), "      48");
}

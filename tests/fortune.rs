use cliutils::fortune::parse_u64;

#[test]
fn test_parse_u64() {
    let res = parse_u64("a");
    assert!(res.is_err());
    assert_eq!(res.unwrap_err().to_string(), "'a' not a valid integer");
    let res = parse_u64("0");
    assert!(res.is_ok());
    assert_eq!(res.unwrap(), 0);
    let res = parse_u64("4");
    assert!(res.is_ok());
    assert_eq!(res.unwrap(), 4);
}

#[test]
fn seed_limits() {
    assert_eq!(parse_u64("18446744073709551615").unwrap(), u64::MAX);
    assert!(parse_u64("18446744073709551616").is_err());
    assert_eq!(parse_u64("+5").unwrap(), 5);
    assert!(parse_u64("-5").is_err());
    assert!(parse_u64("").is_err());
}

use cliutils::fortune::{fortunes_of, pick_fortune, Fortune};

#[test]
fn test_pick_fortune() {
    // Create a slice of fortunes
    let fortunes = &[
        Fortune {
            source: "fortunes".to_string(),
            text: "You cannot achieve the impossible without \
                  attempting the absurd."
                .to_string(),
        },
        Fortune {
            source: "fortunes".to_string(),
            text: "Assumption is the mother of all screw-ups.".to_string(),
        },
        Fortune {
            source: "fortunes".to_string(),
            text: "Neckties strangle clear thinking.".to_string(),
        },
    ];
    // Pick a fortune with a seed
    assert_eq!(
        pick_fortune(fortunes, Some(1)).unwrap(),
        "Neckties strangle clear thinking.".to_string()
    );
}

#[test]
fn no_fortune_from_nothing() {
    assert_eq!(pick_fortune(&[], Some(3)), None);
    assert_eq!(pick_fortune(&[], None), None);
}

#[test]
fn fortune_file_pieces() {
    let content = "Q. One?\nA. Two.\n%\n  \n%\nThree.\n%\n";
    let fs = fortunes_of("jokes", content);
    assert_eq!(fs.len(), 2);
    assert_eq!(fs[0].text, "Q. One?\nA. Two.");
    assert_eq!(fs[1].text, "Three.");
    assert_eq!(fs[1].source, "jokes");
    assert!(fortunes_of("x", "").is_empty());
}

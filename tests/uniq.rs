use cliutils::uniq::{format_run, UniqState};

fn run_all(input: &[&str], show_count: bool) -> Vec<String> {
    let mut state = UniqState::new();
    let mut out = Vec::new();
    for line in input {
        if let Some(s) = state.step(line, show_count) {
            out.push(s);
        }
    }
    if let Some(s) = state.finish(show_count) {
        out.push(s);
    }
    out
}

#[test]
fn runs_are_reported_once() {
    let out = run_all(&["a\n", "a\n", "b\n", "a\n"], false);
    assert_eq!(out, vec!["a\n", "b\n", "a\n"]);
}

#[test]
fn runs_with_counts() {
    let out = run_all(&["a\n", "a \n", "b"], true);
    assert_eq!(out, vec!["   2 a\n", "   1 b"]);
}

#[test]
fn no_input_no_output() {
    assert!(run_all(&[], true).is_empty());
    assert_eq!(format_run(0, "x", true), None);
    assert_eq!(format_run(12345, "x", true).unwrap(), "12345 x");
}

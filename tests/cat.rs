use cliutils::cat::{CatOptions, CatState};

fn run_all(input: &[&str], opts: CatOptions) -> Vec<String> {
    let mut state = CatState::new();
    input.iter().filter_map(|l| state.step(l, opts)).collect()
}

#[test]
fn numbering_all_lines() {
    let opts = CatOptions { number_lines: true, number_nonblank_lines: false, show_ends: false, squeeze_blank: false };
    assert_eq!(run_all(&["a", "", "b"], opts), vec!["     1\ta", "     2\t", "     3\tb"]);
}

#[test]
fn numbering_nonblank_with_ends() {
    let opts = CatOptions { number_lines: false, number_nonblank_lines: true, show_ends: true, squeeze_blank: false };
    assert_eq!(run_all(&["a", "", "b"], opts), vec!["     1\ta$", "$", "     2\tb$"]);
}

#[test]
fn squeezing_blank_lines() {
    let opts = CatOptions { number_lines: false, number_nonblank_lines: false, show_ends: false, squeeze_blank: true };
    assert_eq!(run_all(&["a", "", "", "", "b", ""], opts), vec!["a", "", "b", ""]);
}

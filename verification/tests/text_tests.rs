//! Tests of the elementary text transforms.

use pgn_split::text::collapse_spaces;
use pgn_split::text::join_lines;
use pgn_split::text::trim_line;

#[test]
fn trim_removes_leading_and_trailing_whitespace() {
    assert_eq!("a b", trim_line("  a b \t"));
    assert_eq!("", trim_line("   "));
    assert_eq!("", trim_line(""));
    assert_eq!("x", trim_line("x"));
    assert_eq!("a  b", trim_line("\ta  b\r"));
}

#[test]
fn collapse_shortens_every_space_run_to_one() {
    assert_eq!("a b c", collapse_spaces("a  b   c"));
    assert_eq!(" a ", collapse_spaces("  a  "));
    assert_eq!("ab", collapse_spaces("ab"));
    assert_eq!("", collapse_spaces(""));
}

#[test]
fn join_separates_lines_with_single_spaces() {
    let lines: Vec<String> = vec!["a".to_string(), "b c".to_string(), "d".to_string()];
    assert_eq!("a b c d", join_lines(&lines));
    assert_eq!("", join_lines(&Vec::new()));
    assert_eq!("solo", join_lines(&vec!["solo".to_string()]));
}

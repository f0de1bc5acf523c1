//! Tests of the move-count stripper.

use pgn_split::remove_move_counts;

#[test]
fn test_remove_move_counts() {
    // Arrange
    let input = "1. Nf3 d5 2. c4 d4 3. d3 Nc6 4. g3 e5 5. Bg2 Bb4+ 6. Bd2 a5 7. O-O Nf6 8. Na3";
    let expected_output = "Nf3 d5 c4 d4 d3 Nc6 g3 e5 Bg2 Bb4+ Bd2 a5 O-O Nf6 Na3";

    // Act
    let actual_output = remove_move_counts(input);

    // Assert
    assert_eq!(expected_output, actual_output)
}

#[test]
fn strip_leaves_annotation_free_text_alone() {
    let inputs = [
        "",
        "e4 e5 Nf3 Nc6",
        "O-O O-O-O Bb4+ Qxe4 exd5",
        "a line with words only",
        "123a is not an annotation",
        "1 . spaced period is not an annotation",
    ];
    for input in inputs {
        assert_eq!(input, remove_move_counts(input));
    }
}

#[test]
fn strip_removes_annotation_and_following_whitespace() {
    assert_eq!("e4", remove_move_counts("1. e4"));
    assert_eq!("e4", remove_move_counts("1.e4"));
    assert_eq!("e4 e5", remove_move_counts("1. e4 12.  e5"));
    assert_eq!("e4 ", remove_move_counts("e4 12."));
    assert_eq!("", remove_move_counts("37.   "));
    assert_eq!("3", remove_move_counts("1.2.3"));
    assert_eq!(".", remove_move_counts("12.."));
}

#[test]
fn strip_is_idempotent() {
    let inputs = ["1. e4 e5 2. Nf3", "12.. 34. x", "no annotations here", "9.9.9."];
    for input in inputs {
        let once = remove_move_counts(input);
        let twice = remove_move_counts(&once);
        assert_eq!(once, twice);
    }
}

//! Tests of the result splitter.

use pgn_split::parse_winner;

#[test]
fn test_parse_winner() {
    // Arrange
    let input = "d4 Nf6 c4 e6 Nc3 Bb4 a3 Bxc3+ bxc3 c5 e3 Nc6 Bd3 b6 e4 e5 d5 Na5 f4 d6 fxe5 dxe5 Nf3 Qe7 Bg5 h6 Bh4 g5 Bg3 Nd7 O-O h5 Be2 Nb7 d6 Nxd6 Nxe5 Nxe5 Qd5 Bb7 Qxe5 Rh6 Qg7 Rg6 Qh8+ Kd7 Qxh5 Qxe4 Bg4+ f5 Qh7+ 1-0";
    let (expected_game, expected_winner) = ("d4 Nf6 c4 e6 Nc3 Bb4 a3 Bxc3+ bxc3 c5 e3 Nc6 Bd3 b6 e4 e5 d5 Na5 f4 d6 fxe5 dxe5 Nf3 Qe7 Bg5 h6 Bh4 g5 Bg3 Nd7 O-O h5 Be2 Nb7 d6 Nxd6 Nxe5 Nxe5 Qd5 Bb7 Qxe5 Rh6 Qg7 Rg6 Qh8+ Kd7 Qxh5 Qxe4 Bg4+ f5 Qh7+", 1);

    // Act
    let (actual_game, actual_winner) = parse_winner(input);

    // Assert
    assert_eq!(expected_game, actual_game);
    assert_eq!(expected_winner, actual_winner)
}

#[test]
fn white_win_token_maps_to_one() {
    let (moves, winner) = parse_winner("e4 e5 1-0");
    assert_eq!("e4 e5", moves);
    assert_eq!(1, winner);
}

#[test]
fn black_win_token_maps_to_minus_one() {
    let (moves, winner) = parse_winner("e4 e5 0-1");
    assert_eq!("e4 e5", moves);
    assert_eq!(-1, winner);
}

#[test]
fn draw_token_maps_to_zero() {
    let (moves, winner) = parse_winner("e4 e5 1/2-1/2");
    assert_eq!("e4 e5", moves);
    assert_eq!(0, winner);
}

#[test]
fn missing_result_token_gives_degenerate_default() {
    assert_eq!((String::new(), 0), parse_winner("e4 e5 Nf3 Nc6"));
    assert_eq!((String::new(), 0), parse_winner(""));
    // a result token with no move text before it is no match
    assert_eq!((String::new(), 0), parse_winner("1-0"));
    assert_eq!((String::new(), 0), parse_winner(" 1-0"));
    // the token must end the line
    assert_eq!((String::new(), 0), parse_winner("e4 e5 1-0 junk"));
    // the token must be preceded by whitespace
    assert_eq!((String::new(), 0), parse_winner("e4 e51-0"));
}

#[test]
fn only_one_whitespace_character_is_consumed() {
    let (moves, winner) = parse_winner("e4 e5  0-1");
    assert_eq!("e4 e5 ", moves);
    assert_eq!(-1, winner);
}

//! Tests of the game segmenter and the whole pipeline.

use pgn_split::process_lines;
use pgn_split::segment_games;
use pgn_split::Segmenter;

fn lines_of(strs: &[&str]) -> Vec<String> {
    strs.iter().map(|s| s.to_string()).collect()
}

#[test]
fn blocks_become_one_joined_line_each() {
    let input = lines_of(&[
        "header material",
        "",
        "first line",
        "second line",
        "",
        "only line",
        "",
    ]);
    let games = segment_games(&input);
    assert_eq!(vec!["first line second line".to_string(), "only line".to_string()], games);
}

#[test]
fn joined_lines_are_trimmed_stripped_and_collapsed() {
    let input = lines_of(&["", "  1. e4  e5 ", "2. Nf3 Nc6 1-0", ""]);
    let games = segment_games(&input);
    assert_eq!(vec!["e4 e5 Nf3 Nc6 1-0".to_string()], games);
}

#[test]
fn trailing_block_without_closing_blank_is_not_flushed() {
    let input = lines_of(&["", "e4 e5 1-0"]);
    assert_eq!(Vec::<String>::new(), segment_games(&input));

    let closed_then_open = lines_of(&["", "a b 1-0", "", "c d 0-1"]);
    assert_eq!(vec!["a b 1-0".to_string()], segment_games(&closed_then_open));
}

#[test]
fn lines_before_the_first_blank_are_dropped() {
    let input = lines_of(&["e4 e5 1-0", "", "d4 d5 0-1", ""]);
    assert_eq!(vec!["d4 d5 0-1".to_string()], segment_games(&input));
}

#[test]
fn empty_and_blank_only_input_yields_no_games() {
    assert_eq!(Vec::<String>::new(), segment_games(&lines_of(&[])));
    assert_eq!(Vec::<String>::new(), segment_games(&lines_of(&["", "  ", "\t"])));
}

#[test]
fn feed_line_emits_only_on_a_flushing_blank() {
    let mut seg = Segmenter::new();
    assert_eq!(None, seg.feed_line("dropped header"));
    assert_eq!(None, seg.feed_line(""));
    assert_eq!(None, seg.feed_line("1. e4 e5"));
    assert_eq!(None, seg.feed_line("2. Nf3"));
    assert_eq!(Some("e4 e5 Nf3".to_string()), seg.feed_line("   "));
    // the block was reset: another blank flushes nothing
    assert_eq!(None, seg.feed_line(""));
}

#[test]
fn end_to_end_two_games() {
    let input = lines_of(&[
        "Event info",
        "",
        "1. e4 e5 2. Nf3 Nc6 1-0",
        "",
        "1. d4 d5 2. c4 1/2-1/2",
        "",
    ]);
    let (joined, moves, winners) = process_lines(&input);
    assert_eq!(
        vec!["e4 e5 Nf3 Nc6 1-0".to_string(), "d4 d5 c4 1/2-1/2".to_string()],
        joined
    );
    assert_eq!(vec!["e4 e5 Nf3 Nc6".to_string(), "d4 d5 c4".to_string()], moves);
    assert_eq!(vec![1, 0], winners);
}

#[test]
fn outputs_stay_index_aligned() {
    let input = lines_of(&[
        "junk",
        "",
        "no result token here",
        "",
        "e4 e5 0-1",
        "",
        "left open",
    ]);
    let (joined, moves, winners) = process_lines(&input);
    assert_eq!(joined.len(), moves.len());
    assert_eq!(joined.len(), winners.len());
    assert_eq!(2, joined.len());
    // the degenerate default keeps the alignment even without a token
    assert_eq!("", moves[0]);
    assert_eq!(0, winners[0]);
    assert_eq!("e4 e5", moves[1]);
    assert_eq!(-1, winners[1]);
}

#[test]
fn args_carry_the_run_configuration() {
    let args = pgn_split::Args::new("archive.pgn".to_string());
    assert_eq!("archive.pgn", args.pgn);
    assert_eq!(1, args.n_threads);
    assert_eq!(100, args.batch_size);
}

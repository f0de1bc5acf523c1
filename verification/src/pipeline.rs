//! The whole pipeline over an in-memory line stream: segment the input into
//! joined game lines, then split each joined line into move text and an
//! encoded result. The three outputs stay index-aligned: line `N` of each
//! speaks of the same game.

use vstd::prelude::*;
use vstd::string::StringExecFns;
use crate::segment::segment_games;
use crate::segment::segment_spec;
use crate::winner::parse_winner;
use crate::winner::split_result_spec;

verus! {

/// Runs the pipeline over the input lines. Returns the joined game lines,
/// the move texts, and the encoded results; the three vectors always have
/// equal length, and entry `i` of the last two is the split of joined line
/// `i`.
pub fn process_lines(lines: &Vec<String>) -> (r: (Vec<String>, Vec<String>, Vec<isize>))
    ensures
        r.0@.map_values(|g: String| g@) == segment_spec(lines@.map_values(|l: String| l@)),
        r.1@.len() == r.0@.len(),
        r.2@.len() == r.0@.len(),
        forall|i: int|
            0 <= i < r.0@.len() ==> (#[trigger] r.1@[i])@ == split_result_spec(r.0@[i]@).0,
        forall|i: int|
            0 <= i < r.0@.len() ==> (#[trigger] r.2@[i]) as int == split_result_spec(r.0@[i]@).1,
{
    let games = segment_games(lines);
    let mut moves: Vec<String> = Vec::new();
    let mut winners: Vec<isize> = Vec::new();
    let mut i: usize = 0;
    while i < games.len()
        invariant
            0 <= i <= games@.len(),
            moves@.len() == i,
            winners@.len() == i,
            forall|k: int|
                0 <= k < i ==> (#[trigger] moves@[k])@ == split_result_spec(games@[k]@).0,
            forall|k: int|
                0 <= k < i ==> (#[trigger] winners@[k]) as int == split_result_spec(games@[k]@).1,
        decreases games@.len() - i,
    {
        let (g, w) = parse_winner(games[i].as_str());
        moves.push(g);
        winners.push(w);
        i = i + 1;
    }
    (games, moves, winners)
}

} // verus!

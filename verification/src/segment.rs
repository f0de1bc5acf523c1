//! The game segmenter: a state machine over a line stream. Lines before the
//! first blank line are header material and are dropped. A blank line opens
//! game territory; from then on non-blank lines accumulate into the current
//! block, and each blank line flushes the block gathered so far — trimmed
//! lines joined with single spaces, move-count annotations stripped, space
//! runs collapsed — as one joined game line. A trailing block that no blank
//! line closes is never flushed.

use vstd::prelude::*;
use vstd::string::StrSliceExecFns;
use crate::text::collapse_spec;
use crate::text::collapse_spaces;
use crate::text::join_spec;
use crate::text::join_lines;
use crate::text::trim_spec;
use crate::text::trim_line;
use crate::strip::strip_spec;
use crate::strip::remove_move_counts;

verus! {

/// Every line of `ls` trimmed.
pub open spec fn trim_all(ls: Seq<Seq<char>>) -> Seq<Seq<char>> {
    ls.map_values(|l: Seq<char>| trim_spec(l))
}

/// What flushing a block of trimmed lines emits: the lines joined with
/// single spaces, move-count annotations stripped, space runs collapsed.
pub open spec fn flush_spec(acc: Seq<Seq<char>>) -> Seq<char> {
    collapse_spec(strip_spec(join_spec(acc)))
}

/// The `inside game territory` flag after one line: a blank line turns it on
/// and it never turns off.
pub open spec fn next_inside(inside: bool, line: Seq<char>) -> bool {
    if trim_spec(line).len() == 0 {
        true
    } else {
        inside
    }
}

/// The accumulated block after one line: a flush empties it, a non-blank
/// line inside game territory appends its trimmed text, and everything else
/// leaves it alone.
pub open spec fn next_acc(inside: bool, acc: Seq<Seq<char>>, line: Seq<char>) -> Seq<Seq<char>> {
    let t = trim_spec(line);
    if t.len() == 0 {
        if inside && acc.len() > 0 {
            Seq::empty()
        } else {
            acc
        }
    } else if inside {
        acc.push(t)
    } else {
        acc
    }
}

/// What one line makes the segmenter emit: a blank line inside game
/// territory flushes a non-empty block; nothing else emits.
pub open spec fn emit_spec(inside: bool, acc: Seq<Seq<char>>, line: Seq<char>) -> Option<
    Seq<char>,
> {
    let t = trim_spec(line);
    if t.len() == 0 && inside && acc.len() > 0 {
        Some(flush_spec(acc))
    } else {
        None
    }
}

/// The joined game lines the segmenter emits over a whole line stream,
/// started in the given state.
pub open spec fn seg_run(inside: bool, acc: Seq<Seq<char>>, lines: Seq<Seq<char>>) -> Seq<
    Seq<char>,
>
    decreases lines.len(),
{
    if lines.len() == 0 {
        Seq::empty()
    } else {
        let rest = seg_run(
            next_inside(inside, lines[0]),
            next_acc(inside, acc, lines[0]),
            lines.skip(1),
        );
        match emit_spec(inside, acc, lines[0]) {
            Some(g) => seq![g] + rest,
            None => rest,
        }
    }
}

/// The segmenter state after a whole line stream.
pub open spec fn seg_state(inside: bool, acc: Seq<Seq<char>>, lines: Seq<Seq<char>>) -> (
    bool,
    Seq<Seq<char>>,
)
    decreases lines.len(),
{
    if lines.len() == 0 {
        (inside, acc)
    } else {
        seg_state(next_inside(inside, lines[0]), next_acc(inside, acc, lines[0]), lines.skip(1))
    }
}

/// The joined game lines a fresh segmenter emits over a line stream.
pub open spec fn segment_spec(lines: Seq<Seq<char>>) -> Seq<Seq<char>> {
    seg_run(false, Seq::empty(), lines)
}

/// The game segmenter: feeds on one line at a time and emits a joined game
/// line whenever a blank line closes a non-empty block.
pub struct Segmenter {
    /// Whether a blank line has been seen yet: game territory.
    pub inside: bool,
    /// The trimmed non-blank lines of the block being gathered.
    pub acc: Vec<String>,
}

impl Segmenter {
    /// The accumulated block as sequences of characters.
    pub open spec fn acc_lines(self) -> Seq<Seq<char>> {
        self.acc@.map_values(|l: String| l@)
    }

    /// A fresh segmenter: outside game territory, nothing accumulated.
    pub fn new() -> (s: Segmenter)
        ensures
            !s.inside,
            s.acc_lines() == Seq::<Seq<char>>::empty(),
    {
        let s = Segmenter { inside: false, acc: Vec::new() };
        proof {
            assert(s.acc_lines() =~= Seq::<Seq<char>>::empty());
        }
        s
    }

    /// Feeds one line to the segmenter; returns the joined game line if this
    /// line flushed a block.
    pub fn feed_line(&mut self, line: &str) -> (out: Option<String>)
        ensures
            final(self).inside == next_inside(old(self).inside, line@),
            final(self).acc_lines() == next_acc(old(self).inside, old(self).acc_lines(), line@),
            match out {
                Some(g) => emit_spec(old(self).inside, old(self).acc_lines(), line@) == Some(g@),
                None => emit_spec(old(self).inside, old(self).acc_lines(), line@) == None::<
                    Seq<char>,
                >,
            },
    {
        let t = trim_line(line);
        if t.unicode_len() == 0 {
            if self.inside && self.acc.len() > 0 {
                let joined = join_lines(&self.acc);
                let stripped = remove_move_counts(joined.as_str());
                let flushed = collapse_spaces(stripped.as_str());
                self.acc = Vec::new();
                proof {
                    assert(self.acc_lines() =~= Seq::<Seq<char>>::empty());
                }
                Some(flushed)
            } else {
                self.inside = true;
                None
            }
        } else {
            if self.inside {
                let ghost pre = self.acc_lines();
                self.acc.push(t);
                proof {
                    assert(self.acc_lines() =~= pre.push(trim_spec(line@)));
                }
            }
            None
        }
    }
}

/// No joined game line holds two spaces side by side: every flushed block
/// goes through the collapse.
pub proof fn lemma_flush_no_double_space(acc: Seq<Seq<char>>)
    ensures
        forall|i: int|
            0 <= i && i + 1 < flush_spec(acc).len() ==> !(#[trigger] flush_spec(acc)[i] == ' '
                && flush_spec(acc)[i + 1] == ' '),
{
    crate::text::lemma_collapse_no_double_space(strip_spec(join_spec(acc)));
}

/// A run over concatenated streams is the first stream's run followed by the
/// second's, started in the state the first stream leaves behind.
pub proof fn lemma_seg_run_concat(
    inside: bool,
    acc: Seq<Seq<char>>,
    xs: Seq<Seq<char>>,
    ys: Seq<Seq<char>>,
)
    ensures
        seg_run(inside, acc, xs + ys) == seg_run(inside, acc, xs) + seg_run(
            seg_state(inside, acc, xs).0,
            seg_state(inside, acc, xs).1,
            ys,
        ),
        seg_state(inside, acc, xs + ys) == seg_state(
            seg_state(inside, acc, xs).0,
            seg_state(inside, acc, xs).1,
            ys,
        ),
    decreases xs.len(),
{
    if xs.len() == 0 {
        assert(xs + ys =~= ys);
        assert(Seq::<Seq<char>>::empty() + seg_run(inside, acc, ys) =~= seg_run(inside, acc, ys));
    } else {
        let i2 = next_inside(inside, xs[0]);
        let a2 = next_acc(inside, acc, xs[0]);
        assert((xs + ys)[0] == xs[0]);
        assert((xs + ys).skip(1) =~= xs.skip(1) + ys);
        lemma_seg_run_concat(i2, a2, xs.skip(1), ys);
        let mid = seg_state(i2, a2, xs.skip(1));
        match emit_spec(inside, acc, xs[0]) {
            Some(g) => {
                assert(seq![g] + (seg_run(i2, a2, xs.skip(1)) + seg_run(mid.0, mid.1, ys)) =~= (
                seq![g] + seg_run(i2, a2, xs.skip(1))) + seg_run(mid.0, mid.1, ys));
            },
            None => {},
        }
    }
}

/// Outside game territory, a stream of non-blank lines is dropped whole: it
/// emits nothing and changes nothing.
pub proof fn lemma_seg_run_dropped(acc: Seq<Seq<char>>, ls: Seq<Seq<char>>)
    requires
        forall|i: int| 0 <= i < ls.len() ==> trim_spec(#[trigger] ls[i]).len() != 0,
    ensures
        seg_run(false, acc, ls) == Seq::<Seq<char>>::empty(),
        seg_state(false, acc, ls) == (false, acc),
    decreases ls.len(),
{
    if ls.len() > 0 {
        assert(trim_spec(ls[0]).len() != 0);
        assert forall|i: int| 0 <= i < ls.skip(1).len() implies trim_spec(
            #[trigger] ls.skip(1)[i],
        ).len() != 0 by {
            assert(ls.skip(1)[i] == ls[i + 1]);
        }
        lemma_seg_run_dropped(acc, ls.skip(1));
    }
}

/// Inside game territory, a stream of non-blank lines emits nothing and
/// appends its trimmed lines to the block.
pub proof fn lemma_seg_run_accumulate(acc: Seq<Seq<char>>, ls: Seq<Seq<char>>)
    requires
        forall|i: int| 0 <= i < ls.len() ==> trim_spec(#[trigger] ls[i]).len() != 0,
    ensures
        seg_run(true, acc, ls) == Seq::<Seq<char>>::empty(),
        seg_state(true, acc, ls) == (true, acc + trim_all(ls)),
    decreases ls.len(),
{
    if ls.len() == 0 {
        assert(acc + trim_all(ls) =~= acc);
    } else {
        assert(trim_spec(ls[0]).len() != 0);
        assert forall|i: int| 0 <= i < ls.skip(1).len() implies trim_spec(
            #[trigger] ls.skip(1)[i],
        ).len() != 0 by {
            assert(ls.skip(1)[i] == ls[i + 1]);
        }
        lemma_seg_run_accumulate(acc.push(trim_spec(ls[0])), ls.skip(1));
        assert(acc.push(trim_spec(ls[0])) + trim_all(ls.skip(1)) =~= acc + trim_all(ls));
    }
}

/// The flushed form of each block: its lines trimmed, joined with single
/// spaces, annotations stripped, space runs collapsed.
pub open spec fn flushed_blocks(blocks: Seq<Seq<Seq<char>>>) -> Seq<Seq<char>> {
    blocks.map_values(|b: Seq<Seq<char>>| flush_spec(trim_all(b)))
}

/// The line stream that presents each block in turn, each closed by a blank
/// line.
pub open spec fn blocks_chain(blocks: Seq<Seq<Seq<char>>>) -> Seq<Seq<char>>
    decreases blocks.len(),
{
    if blocks.len() == 0 {
        Seq::empty()
    } else {
        blocks[0] + seq![Seq::<char>::empty()] + blocks_chain(blocks.skip(1))
    }
}

/// Inside game territory with an empty block, a chain of non-empty,
/// non-blank blocks, each closed by a blank line, emits exactly one joined
/// line per block.
proof fn lemma_seg_run_chain(blocks: Seq<Seq<Seq<char>>>)
    requires
        forall|i: int| 0 <= i < blocks.len() ==> (#[trigger] blocks[i]).len() > 0,
        forall|i: int, j: int|
            0 <= i < blocks.len() && 0 <= j < blocks[i].len() ==> trim_spec(
                #[trigger] blocks[i][j],
            ).len() != 0,
    ensures
        seg_run(true, Seq::empty(), blocks_chain(blocks)) == flushed_blocks(blocks),
    decreases blocks.len(),
{
    if blocks.len() == 0 {
        assert(flushed_blocks(blocks) =~= Seq::<Seq<char>>::empty());
    } else {
        let b0 = blocks[0];
        let rest = seq![Seq::<char>::empty()] + blocks_chain(blocks.skip(1));
        assert(blocks_chain(blocks) =~= b0 + rest);
        lemma_seg_run_concat(true, Seq::empty(), b0, rest);
        assert forall|j: int| 0 <= j < b0.len() implies trim_spec(#[trigger] b0[j]).len() != 0 by {
            assert(trim_spec(blocks[0][j]).len() != 0);
        }
        lemma_seg_run_accumulate(Seq::empty(), b0);
        let acc = Seq::<Seq<char>>::empty() + trim_all(b0);
        assert(acc =~= trim_all(b0));
        // the blank line flushes the block
        assert(rest[0] == Seq::<char>::empty());
        assert(trim_spec(Seq::<char>::empty()).len() == 0);
        assert(acc.len() == b0.len() > 0);
        assert(emit_spec(true, acc, rest[0]) == Some(flush_spec(acc)));
        assert(next_acc(true, acc, rest[0]) =~= Seq::<Seq<char>>::empty());
        assert(rest.skip(1) =~= blocks_chain(blocks.skip(1)));
        assert forall|i: int| 0 <= i < blocks.skip(1).len() implies (
        #[trigger] blocks.skip(1)[i]).len() > 0 by {
            assert(blocks.skip(1)[i] == blocks[i + 1]);
        }
        assert forall|i: int, j: int|
            0 <= i < blocks.skip(1).len() && 0 <= j < blocks.skip(1)[i].len() implies trim_spec(
            #[trigger] blocks.skip(1)[i][j],
        ).len() != 0 by {
            assert(blocks.skip(1)[i] == blocks[i + 1]);
        }
        lemma_seg_run_chain(blocks.skip(1));
        assert(seg_run(true, acc, rest) == seq![flush_spec(acc)] + flushed_blocks(blocks.skip(1)));
        assert(Seq::<Seq<char>>::empty() + (seq![flush_spec(acc)] + flushed_blocks(blocks.skip(1)))
            =~= seq![flush_spec(acc)] + flushed_blocks(blocks.skip(1)));
        assert(seq![flush_spec(trim_all(b0))] + flushed_blocks(blocks.skip(1)) =~= flushed_blocks(
            blocks,
        ));
    }
}

/// Given header lines, then a blank line, then any number of non-empty
/// blocks of non-blank lines, each closed by a blank line, the segmenter
/// emits exactly one joined line per block: each block's lines trimmed,
/// joined with single spaces, annotations stripped and space runs collapsed,
/// in arrival order.
pub proof fn lemma_segment_blocks(junk: Seq<Seq<char>>, blocks: Seq<Seq<Seq<char>>>)
    requires
        forall|i: int| 0 <= i < junk.len() ==> trim_spec(#[trigger] junk[i]).len() != 0,
        forall|i: int| 0 <= i < blocks.len() ==> (#[trigger] blocks[i]).len() > 0,
        forall|i: int, j: int|
            0 <= i < blocks.len() && 0 <= j < blocks[i].len() ==> trim_spec(
                #[trigger] blocks[i][j],
            ).len() != 0,
    ensures
        segment_spec(junk + seq![Seq::<char>::empty()] + blocks_chain(blocks)) == flushed_blocks(
            blocks,
        ),
{
    let blank = seq![Seq::<char>::empty()];
    let tail = blank + blocks_chain(blocks);
    assert(junk + blank + blocks_chain(blocks) =~= junk + tail);
    lemma_seg_run_concat(false, Seq::empty(), junk, tail);
    lemma_seg_run_dropped(Seq::empty(), junk);
    // the first blank line opens game territory without emitting
    assert(tail[0] == Seq::<char>::empty());
    assert(trim_spec(Seq::<char>::empty()).len() == 0);
    assert(emit_spec(false, Seq::empty(), tail[0]) == None::<Seq<char>>);
    assert(next_inside(false, tail[0]) == true);
    assert(next_acc(false, Seq::empty(), tail[0]) == Seq::<Seq<char>>::empty());
    assert(tail.skip(1) =~= blocks_chain(blocks));
    lemma_seg_run_chain(blocks);
    assert(Seq::<Seq<char>>::empty() + seg_run(false, Seq::empty(), tail) =~= seg_run(
        false,
        Seq::empty(),
        tail,
    ));
}

/// A trailing block that no blank line closes is never flushed: appending
/// only non-blank lines to any stream adds nothing to what is emitted.
pub proof fn lemma_trailing_block_unflushed(lines: Seq<Seq<char>>, tail: Seq<Seq<char>>)
    requires
        forall|i: int| 0 <= i < tail.len() ==> trim_spec(#[trigger] tail[i]).len() != 0,
    ensures
        segment_spec(lines + tail) == segment_spec(lines),
{
    lemma_seg_run_concat(false, Seq::empty(), lines, tail);
    let st = seg_state(false, Seq::empty(), lines);
    if st.0 {
        lemma_seg_run_accumulate(st.1, tail);
    } else {
        lemma_seg_run_dropped(st.1, tail);
    }
    assert(segment_spec(lines) + Seq::<Seq<char>>::empty() =~= segment_spec(lines));
}

/// Segments a whole line stream, returning the joined game lines in arrival
/// order.
pub fn segment_games(lines: &Vec<String>) -> (games: Vec<String>)
    ensures
        games@.map_values(|g: String| g@) == segment_spec(lines@.map_values(|l: String| l@)),
{
    let ghost lv = lines@.map_values(|l: String| l@);
    let mut seg = Segmenter::new();
    let mut games: Vec<String> = Vec::new();
    let mut i: usize = 0;
    proof {
        assert(lv.skip(0) =~= lv);
        assert(games@.map_values(|g: String| g@) =~= Seq::<Seq<char>>::empty());
        assert(Seq::<Seq<char>>::empty() + seg_run(false, Seq::empty(), lv) =~= seg_run(
            false,
            Seq::empty(),
            lv,
        ));
    }
    while i < lines.len()
        invariant
            0 <= i <= lines.len(),
            lv == lines@.map_values(|l: String| l@),
            segment_spec(lv) == games@.map_values(|g: String| g@) + seg_run(
                seg.inside,
                seg.acc_lines(),
                lv.skip(i as int),
            ),
        decreases lines.len() - i,
    {
        let ghost pre_games = games@.map_values(|g: String| g@);
        let ghost u = lv.skip(i as int);
        proof {
            assert(lv[i as int] == lines@[i as int]@);
            assert(u[0] == lv[i as int]);
            assert(u.skip(1) =~= lv.skip(i + 1));
        }
        let out = seg.feed_line(lines[i].as_str());
        match out {
            Some(g) => {
                games.push(g);
                proof {
                    assert(games@.map_values(|g: String| g@) =~= pre_games.push(g@));
                    assert(pre_games.push(g@) + seg_run(
                        seg.inside,
                        seg.acc_lines(),
                        lv.skip(i + 1),
                    ) =~= pre_games + (seq![g@] + seg_run(
                        seg.inside,
                        seg.acc_lines(),
                        lv.skip(i + 1),
                    )));
                }
            },
            None => {},
        }
        i = i + 1;
    }
    proof {
        assert(lv.skip(lines@.len() as int) =~= Seq::<Seq<char>>::empty());
        assert(games@.map_values(|g: String| g@) + Seq::<Seq<char>>::empty() =~= games@.map_values(
            |g: String| g@,
        ));
    }
    games
}

} // verus!

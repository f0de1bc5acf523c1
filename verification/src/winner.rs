//! The result splitter: separates a joined game line into its move text and
//! the trailing result token, mapped to a signed integer — `1` for a White
//! win, `-1` for a Black win, `0` for a draw.
//!
//! A line with no trailing result token degrades to an empty moves string and
//! `0`; callers must not mistake that default for a real draw.

use vstd::prelude::*;
use vstd::string::StrSliceExecFns;
use vstd::string::StringExecFns;
use crate::text::is_space_char;
use crate::text::is_space;

verus! {

/// The token recording a White win.
pub open spec fn white_tok() -> Seq<char> {
    seq!['1', '-', '0']
}

/// The token recording a Black win.
pub open spec fn black_tok() -> Seq<char> {
    seq!['0', '-', '1']
}

/// The token recording a draw.
pub open spec fn draw_tok() -> Seq<char> {
    seq!['1', '/', '2', '-', '1', '/', '2']
}

/// `s` ends with the result token `t`, a whitespace character stands right
/// before the token, and at least one character of move text stands before
/// that.
pub open spec fn ends_with_result(s: Seq<char>, t: Seq<char>) -> bool {
    &&& s.len() >= t.len() + 2
    &&& s.skip(s.len() - t.len()) == t
    &&& is_space_char(s[s.len() - t.len() - 1])
}

/// The move text before the token: everything up to the whitespace character
/// that separates the token from it.
pub open spec fn moves_before(s: Seq<char>, t: Seq<char>) -> Seq<char> {
    s.take(s.len() - t.len() - 1)
}

/// What splitting a joined game line yields: the move text and the encoded
/// result, or the degenerate default `("", 0)` when no result token ends the
/// line.
pub open spec fn split_result_spec(s: Seq<char>) -> (Seq<char>, int) {
    if ends_with_result(s, draw_tok()) {
        (moves_before(s, draw_tok()), 0)
    } else if ends_with_result(s, white_tok()) {
        (moves_before(s, white_tok()), 1)
    } else if ends_with_result(s, black_tok()) {
        (moves_before(s, black_tok()), -1)
    } else {
        (Seq::empty(), 0)
    }
}

/// Does `s` end in the draw token, separated from move text by whitespace?
fn ends_draw(s: &str) -> (r: bool)
    ensures
        r == ends_with_result(s@, draw_tok()),
{
    let n = s.unicode_len();
    let r = n >= 9 && is_space(s.get_char(n - 8)) && s.get_char(n - 7) == '1' && s.get_char(n - 6)
        == '/' && s.get_char(n - 5) == '2' && s.get_char(n - 4) == '-' && s.get_char(n - 3) == '1'
        && s.get_char(n - 2) == '/' && s.get_char(n - 1) == '2';
    proof {
        let t = draw_tok();
        assert(t.len() == 7);
        let a = s@.len() as int - 7;
        if r {
            assert(s@.skip(a) =~= t);
        } else if ends_with_result(s@, t) {
            assert(s@.skip(a)[0] == s@[a]);
            assert(s@.skip(a)[1] == s@[a + 1]);
            assert(s@.skip(a)[2] == s@[a + 2]);
            assert(s@.skip(a)[3] == s@[a + 3]);
            assert(s@.skip(a)[4] == s@[a + 4]);
            assert(s@.skip(a)[5] == s@[a + 5]);
            assert(s@.skip(a)[6] == s@[a + 6]);
            assert(false);
        }
    }
    r
}

/// Does `s` end in the White-win token, separated from move text by
/// whitespace?
fn ends_white(s: &str) -> (r: bool)
    ensures
        r == ends_with_result(s@, white_tok()),
{
    let n = s.unicode_len();
    let r = n >= 5 && is_space(s.get_char(n - 4)) && s.get_char(n - 3) == '1' && s.get_char(n - 2)
        == '-' && s.get_char(n - 1) == '0';
    proof {
        let t = white_tok();
        assert(t.len() == 3);
        let a = s@.len() as int - 3;
        if r {
            assert(s@.skip(a) =~= t);
        } else if ends_with_result(s@, t) {
            assert(s@.skip(a)[0] == s@[a]);
            assert(s@.skip(a)[1] == s@[a + 1]);
            assert(s@.skip(a)[2] == s@[a + 2]);
            assert(false);
        }
    }
    r
}

/// Does `s` end in the Black-win token, separated from move text by
/// whitespace?
fn ends_black(s: &str) -> (r: bool)
    ensures
        r == ends_with_result(s@, black_tok()),
{
    let n = s.unicode_len();
    let r = n >= 5 && is_space(s.get_char(n - 4)) && s.get_char(n - 3) == '0' && s.get_char(n - 2)
        == '-' && s.get_char(n - 1) == '1';
    proof {
        let t = black_tok();
        assert(t.len() == 3);
        let a = s@.len() as int - 3;
        if r {
            assert(s@.skip(a) =~= t);
        } else if ends_with_result(s@, t) {
            assert(s@.skip(a)[0] == s@[a]);
            assert(s@.skip(a)[1] == s@[a + 1]);
            assert(s@.skip(a)[2] == s@[a + 2]);
            assert(false);
        }
    }
    r
}

/// Splits a joined game line into its move text and the result encoded as an
/// integer: `1` for White, `-1` for Black, `0` for a draw — or `("", 0)` when
/// no result token ends the line.
pub fn parse_winner(game: &str) -> (r: (String, isize))
    ensures
        r.0@ == split_result_spec(game@).0,
        r.1 as int == split_result_spec(game@).1,
{
    let n = game.unicode_len();
    if ends_draw(game) {
        let m = game.substring_char(0, n - 8);
        proof {
            assert(game@.subrange(0, n as int - 8) =~= moves_before(game@, draw_tok()));
        }
        (String::from_str(m), 0)
    } else if ends_white(game) {
        let m = game.substring_char(0, n - 4);
        proof {
            assert(game@.subrange(0, n as int - 4) =~= moves_before(game@, white_tok()));
        }
        (String::from_str(m), 1)
    } else if ends_black(game) {
        let m = game.substring_char(0, n - 4);
        proof {
            assert(game@.subrange(0, n as int - 4) =~= moves_before(game@, black_tok()));
        }
        (String::from_str(m), -1)
    } else {
        (String::new(), 0)
    }
}

/// A line of non-empty move text followed by a space and the White-win token
/// splits into exactly that move text and result `1`.
pub proof fn lemma_split_white(m: Seq<char>)
    requires
        m.len() > 0,
    ensures
        split_result_spec(m + seq![' '] + white_tok()) == (m, 1int),
{
    let s = m + seq![' '] + white_tok();
    let a = s.len() as int - 3;
    assert(s.skip(a) =~= white_tok());
    assert(s[a - 1] == ' ');
    if ends_with_result(s, draw_tok()) {
        let b = s.len() as int - 7;
        assert(s.skip(b)[6] == s[b + 6]);
        assert(false);
    }
    assert(moves_before(s, white_tok()) =~= m);
}

/// A line of non-empty move text followed by a space and the Black-win token
/// splits into exactly that move text and result `-1`.
pub proof fn lemma_split_black(m: Seq<char>)
    requires
        m.len() > 0,
    ensures
        split_result_spec(m + seq![' '] + black_tok()) == (m, -1int),
{
    let s = m + seq![' '] + black_tok();
    let a = s.len() as int - 3;
    assert(s.skip(a) =~= black_tok());
    assert(s[a - 1] == ' ');
    if ends_with_result(s, draw_tok()) {
        let b = s.len() as int - 7;
        assert(s.skip(b)[6] == s[b + 6]);
        assert(false);
    }
    if ends_with_result(s, white_tok()) {
        assert(s.skip(a)[2] == s[a + 2]);
        assert(false);
    }
    assert(moves_before(s, black_tok()) =~= m);
}

/// A line of non-empty move text followed by a space and the draw token
/// splits into exactly that move text and result `0`.
pub proof fn lemma_split_draw(m: Seq<char>)
    requires
        m.len() > 0,
    ensures
        split_result_spec(m + seq![' '] + draw_tok()) == (m, 0int),
{
    let s = m + seq![' '] + draw_tok();
    let a = s.len() as int - 7;
    assert(s.skip(a) =~= draw_tok());
    assert(s[a - 1] == ' ');
    assert(moves_before(s, draw_tok()) =~= m);
}

/// A line that ends in no result token splits into the degenerate default:
/// an empty moves string and result `0`.
pub proof fn lemma_split_no_token(s: Seq<char>)
    requires
        !ends_with_result(s, white_tok()),
        !ends_with_result(s, black_tok()),
        !ends_with_result(s, draw_tok()),
    ensures
        split_result_spec(s) == (Seq::<char>::empty(), 0int),
{
}

} // verus!

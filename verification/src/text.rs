//! Character classes and the elementary text transforms the pipeline is built
//! from: trimming a line, joining accumulated lines with single spaces, and
//! collapsing runs of spaces.

use vstd::prelude::*;
use vstd::string::StrSliceExecFns;
use vstd::string::StringExecFns;

verus! {

/// The ASCII whitespace characters: space, tab, line feed, carriage return
/// and form feed.
pub open spec fn is_space_char(c: char) -> bool {
    c == ' ' || c == '\t' || c == '\n' || c == '\r' || c == '\u{c}'
}

/// The ASCII decimal digits.
pub open spec fn is_digit_char(c: char) -> bool {
    '0' <= c && c <= '9'
}

/// Runtime test for [`is_space_char`].
pub fn is_space(c: char) -> (r: bool)
    ensures
        r == is_space_char(c),
{
    c == ' ' || c == '\t' || c == '\n' || c == '\r' || c == '\u{c}'
}

/// Runtime test for [`is_digit_char`].
pub fn is_move_digit(c: char) -> (r: bool)
    ensures
        r == is_digit_char(c),
{
    '0' <= c && c <= '9'
}

/// Relies on `String::push`: appends the given character to the end of the
/// string.
#[verifier::external_body]
pub fn push_char(s: &mut String, c: char)
    ensures
        final(s)@ == old(s)@.push(c),
{
    s.push(c)
}

/// Length of the maximal whitespace prefix of `s`.
pub open spec fn space_run_len(s: Seq<char>) -> nat
    decreases s.len(),
{
    if s.len() > 0 && is_space_char(s[0]) {
        (1 + space_run_len(s.skip(1))) as nat
    } else {
        0
    }
}

/// Length of the maximal digit prefix of `s`.
pub open spec fn digit_run_len(s: Seq<char>) -> nat
    decreases s.len(),
{
    if s.len() > 0 && is_digit_char(s[0]) {
        (1 + digit_run_len(s.skip(1))) as nat
    } else {
        0
    }
}

/// A whitespace prefix of length `k` that is maximal has `space_run_len` `k`.
pub proof fn lemma_space_run_len_is(s: Seq<char>, k: int)
    requires
        0 <= k <= s.len(),
        forall|i: int| 0 <= i < k ==> is_space_char(#[trigger] s[i]),
        k == s.len() || !is_space_char(s[k]),
    ensures
        space_run_len(s) == k,
    decreases k,
{
    if k == 0 {
    } else {
        assert forall|i: int| 0 <= i < k - 1 implies is_space_char(#[trigger] s.skip(1)[i]) by {
            assert(s.skip(1)[i] == s[i + 1]);
        }
        if k < s.len() {
            assert(s.skip(1)[k - 1] == s[k]);
        }
        lemma_space_run_len_is(s.skip(1), k - 1);
    }
}

/// A digit prefix of length `k` that is maximal has `digit_run_len` `k`.
pub proof fn lemma_digit_run_len_is(s: Seq<char>, k: int)
    requires
        0 <= k <= s.len(),
        forall|i: int| 0 <= i < k ==> is_digit_char(#[trigger] s[i]),
        k == s.len() || !is_digit_char(s[k]),
    ensures
        digit_run_len(s) == k,
    decreases k,
{
    if k == 0 {
    } else {
        assert forall|i: int| 0 <= i < k - 1 implies is_digit_char(#[trigger] s.skip(1)[i]) by {
            assert(s.skip(1)[i] == s[i + 1]);
        }
        if k < s.len() {
            assert(s.skip(1)[k - 1] == s[k]);
        }
        lemma_digit_run_len_is(s.skip(1), k - 1);
    }
}

/// The whitespace prefix never reaches past the end, and it is exactly the
/// run of whitespace characters at the front.
pub proof fn lemma_space_run_facts(s: Seq<char>)
    ensures
        space_run_len(s) <= s.len(),
        forall|i: int| 0 <= i < space_run_len(s) ==> is_space_char(#[trigger] s[i]),
        space_run_len(s) < s.len() ==> !is_space_char(s[space_run_len(s) as int]),
    decreases s.len(),
{
    if s.len() > 0 && is_space_char(s[0]) {
        lemma_space_run_facts(s.skip(1));
        let d = space_run_len(s) as int;
        assert forall|i: int| 0 <= i < d implies is_space_char(#[trigger] s[i]) by {
            if i > 0 {
                assert(s.skip(1)[i - 1] == s[i]);
            }
        }
        if d < s.len() {
            assert(s.skip(1)[d - 1] == s[d]);
        }
    }
}

/// The digit prefix never reaches past the end, and it is exactly the run of
/// digits at the front.
pub proof fn lemma_digit_run_facts(s: Seq<char>)
    ensures
        digit_run_len(s) <= s.len(),
        forall|i: int| 0 <= i < digit_run_len(s) ==> is_digit_char(#[trigger] s[i]),
        digit_run_len(s) < s.len() ==> !is_digit_char(s[digit_run_len(s) as int]),
    decreases s.len(),
{
    if s.len() > 0 && is_digit_char(s[0]) {
        lemma_digit_run_facts(s.skip(1));
        let d = digit_run_len(s) as int;
        assert forall|i: int| 0 <= i < d implies is_digit_char(#[trigger] s[i]) by {
            if i > 0 {
                assert(s.skip(1)[i - 1] == s[i]);
            }
        }
        if d < s.len() {
            assert(s.skip(1)[d - 1] == s[d]);
        }
    }
}

/// `s` with its maximal whitespace suffix removed.
pub open spec fn trim_end_spec(s: Seq<char>) -> Seq<char>
    decreases s.len(),
{
    if s.len() > 0 && is_space_char(s[s.len() - 1]) {
        trim_end_spec(s.take(s.len() - 1))
    } else {
        s
    }
}

/// `s` with its maximal whitespace prefix and suffix removed.
pub open spec fn trim_spec(s: Seq<char>) -> Seq<char> {
    trim_end_spec(s.skip(space_run_len(s) as int))
}

/// If everything from index `k` on is whitespace and `s[k - 1]` is not,
/// trimming the end keeps exactly the first `k` characters.
pub proof fn lemma_trim_end_is(s: Seq<char>, k: int)
    requires
        0 <= k <= s.len(),
        forall|i: int| k <= i < s.len() ==> is_space_char(#[trigger] s[i]),
        k == 0 || !is_space_char(s[k - 1]),
    ensures
        trim_end_spec(s) == s.take(k),
    decreases s.len(),
{
    if s.len() == 0 {
        assert(s.take(0) =~= s);
    } else if is_space_char(s[s.len() - 1]) {
        let t = s.take(s.len() - 1);
        assert forall|i: int| k <= i < t.len() implies is_space_char(#[trigger] t[i]) by {
            assert(t[i] == s[i]);
        }
        if k > 0 {
            assert(t[k - 1] == s[k - 1]);
        }
        lemma_trim_end_is(t, k);
        assert(t.take(k) =~= s.take(k));
    } else {
        assert(k == s.len());
        assert(s.take(k) =~= s);
    }
}

/// Removes the leading and trailing whitespace of a line.
pub fn trim_line(s: &str) -> (r: String)
    ensures
        r@ == trim_spec(s@),
{
    let n = s.unicode_len();
    let mut lo: usize = 0;
    while lo < n && is_space(s.get_char(lo))
        invariant
            0 <= lo <= n,
            n == s@.len(),
            forall|i: int| 0 <= i < lo ==> is_space_char(#[trigger] s@[i]),
        decreases n - lo,
    {
        lo = lo + 1;
    }
    let mut hi: usize = n;
    while hi > lo && is_space(s.get_char(hi - 1))
        invariant
            lo <= hi <= n,
            n == s@.len(),
            forall|i: int| hi <= i < n ==> is_space_char(#[trigger] s@[i]),
        decreases hi,
    {
        hi = hi - 1;
    }
    let t = s.substring_char(lo, hi);
    proof {
        lemma_space_run_len_is(s@, lo as int);
        let u = s@.skip(lo as int);
        assert forall|i: int| hi - lo <= i < u.len() implies is_space_char(#[trigger] u[i]) by {
            assert(u[i] == s@[lo + i]);
        }
        if hi > lo {
            assert(u[hi - lo - 1] == s@[hi - 1]);
        }
        lemma_trim_end_is(u, hi - lo);
        assert(u.take(hi - lo) =~= s@.subrange(lo as int, hi as int));
    }
    String::from_str(t)
}

/// Every maximal run of spaces in `s` shortened to a single space.
pub open spec fn collapse_spec(s: Seq<char>) -> Seq<char>
    decreases s.len(),
{
    if s.len() == 0 {
        Seq::empty()
    } else if s.len() >= 2 && s[0] == ' ' && s[1] == ' ' {
        collapse_spec(s.skip(1))
    } else {
        seq![s[0]] + collapse_spec(s.skip(1))
    }
}

/// Collapses every run of two or more spaces to a single space.
pub fn collapse_spaces(s: &str) -> (r: String)
    ensures
        r@ == collapse_spec(s@),
{
    let n = s.unicode_len();
    let mut out = String::new();
    let mut i: usize = 0;
    proof {
        assert(s@.skip(0) =~= s@);
        assert(Seq::<char>::empty() + collapse_spec(s@) =~= collapse_spec(s@));
    }
    while i < n
        invariant
            0 <= i <= n,
            n == s@.len(),
            collapse_spec(s@) == out@ + collapse_spec(s@.skip(i as int)),
        decreases n - i,
    {
        let c = s.get_char(i);
        let ghost pre = out@;
        if c == ' ' && i + 1 < n && s.get_char(i + 1) == ' ' {
        } else {
            push_char(&mut out, c);
        }
        proof {
            assert(s@.skip(i as int).skip(1) =~= s@.skip(i + 1));
            assert(pre.push(c) + collapse_spec(s@.skip(i + 1)) =~= pre + (seq![c] + collapse_spec(
                s@.skip(i + 1),
            )));
        }
        i = i + 1;
    }
    proof {
        assert(s@.skip(n as int) =~= Seq::<char>::empty());
        assert(out@ + Seq::<char>::empty() =~= out@);
    }
    out
}

/// No run of two or more spaces survives collapsing: the result never holds
/// two spaces side by side.
pub proof fn lemma_collapse_no_double_space(s: Seq<char>)
    ensures
        forall|i: int|
            0 <= i && i + 1 < collapse_spec(s).len() ==> !(#[trigger] collapse_spec(s)[i] == ' '
                && collapse_spec(s)[i + 1] == ' '),
    decreases s.len(),
{
    if s.len() == 0 {
    } else if s.len() >= 2 && s[0] == ' ' && s[1] == ' ' {
        lemma_collapse_no_double_space(s.skip(1));
    } else {
        lemma_collapse_no_double_space(s.skip(1));
        let r = seq![s[0]] + collapse_spec(s.skip(1));
        assert forall|i: int| 0 <= i && i + 1 < r.len() implies !(#[trigger] r[i] == ' ' && r[i
            + 1] == ' ') by {
            if i == 0 {
                if s[0] == ' ' && s.len() >= 2 {
                    // this branch has s[1] != ' ', and the collapse of the
                    // rest keeps s[1] as its first character
                    assert(s.skip(1)[0] == s[1]);
                    assert(collapse_spec(s.skip(1))[0] == s[1]);
                    assert(r[1] == s[1]);
                }
            } else {
                assert(r[i] == collapse_spec(s.skip(1))[i - 1]);
                assert(r[i + 1] == collapse_spec(s.skip(1))[i]);
            }
        }
    }
}

/// The lines joined into one line with a single space between neighbours.
pub open spec fn join_spec(lines: Seq<Seq<char>>) -> Seq<char>
    decreases lines.len(),
{
    if lines.len() == 0 {
        Seq::empty()
    } else if lines.len() == 1 {
        lines[0]
    } else {
        lines[0] + seq![' '] + join_spec(lines.skip(1))
    }
}

/// Joining one more line appends a separating space and then that line.
pub proof fn lemma_join_push(lines: Seq<Seq<char>>, x: Seq<char>)
    ensures
        join_spec(lines.push(x)) == if lines.len() == 0 {
            x
        } else {
            join_spec(lines) + seq![' '] + x
        },
    decreases lines.len(),
{
    let p = lines.push(x);
    if lines.len() == 0 {
        assert(p[0] == x);
    } else if lines.len() == 1 {
        assert(p.skip(1) =~= Seq::empty().push(x));
        lemma_join_push(Seq::empty(), x);
        assert(p[0] == lines[0]);
    } else {
        assert(p.skip(1) =~= lines.skip(1).push(x));
        lemma_join_push(lines.skip(1), x);
        assert(p[0] == lines[0]);
        assert(lines[0] + seq![' '] + (join_spec(lines.skip(1)) + seq![' '] + x) =~= (lines[0]
            + seq![' '] + join_spec(lines.skip(1))) + seq![' '] + x);
    }
}

/// Joins the lines with single spaces between them.
pub fn join_lines(lines: &Vec<String>) -> (r: String)
    ensures
        r@ == join_spec(lines@.map_values(|l: String| l@)),
{
    let ghost lv = lines@.map_values(|l: String| l@);
    let mut out = String::new();
    let mut i: usize = 0;
    while i < lines.len()
        invariant
            0 <= i <= lines.len(),
            lv == lines@.map_values(|l: String| l@),
            out@ == join_spec(lv.take(i as int)),
        decreases lines.len() - i,
    {
        if i > 0 {
            push_char(&mut out, ' ');
        }
        out.append(lines[i].as_str());
        proof {
            assert(lv.take(i + 1) =~= lv.take(i as int).push(lv[i as int]));
            lemma_join_push(lv.take(i as int), lv[i as int]);
            if i > 0 {
                assert(join_spec(lv.take(i as int)) + seq![' '] + lv[i as int] =~= (join_spec(
                    lv.take(i as int),
                ).push(' ')) + lv[i as int]);
            }
        }
        i = i + 1;
    }
    proof {
        assert(lv.take(lines@.len() as int) =~= lv);
    }
    out
}

} // verus!

//! The move-count stripper: removes every move-number annotation — a run of
//! digits followed by a period and any whitespace after it, such as `"12. "`
//! — from a line of movetext, scanning left to right.

use vstd::prelude::*;
use vstd::string::StrSliceExecFns;
use crate::text::digit_run_len;
use crate::text::is_digit_char;
use crate::text::is_space_char;
use crate::text::lemma_digit_run_len_is;
use crate::text::lemma_digit_run_facts;
use crate::text::lemma_space_run_len_is;
use crate::text::lemma_space_run_facts;
use crate::text::push_char;
use crate::text::space_run_len;
use crate::text::is_move_digit;
use crate::text::is_space;

verus! {

/// A move-count annotation begins at the head of `s`: a non-empty run of
/// digits with a period right after it.
pub open spec fn annotation_at_head(s: Seq<char>) -> bool {
    let d = digit_run_len(s) as int;
    1 <= d < s.len() && s[d] == '.'
}

/// Length of the annotation at the head of `s`: the digits, the period, and
/// the run of whitespace after the period.
pub open spec fn annotation_len(s: Seq<char>) -> nat
    recommends
        annotation_at_head(s),
{
    (digit_run_len(s) + 1 + space_run_len(s.skip(digit_run_len(s) as int + 1))) as nat
}

/// A move-count annotation begins somewhere in `s`.
pub open spec fn has_annotation(s: Seq<char>) -> bool {
    exists|i: int| 0 <= i < s.len() && annotation_at_head(#[trigger] s.skip(i))
}

/// `s` with every move-count annotation removed: the leftmost annotation is
/// deleted whole and the scan resumes right after it; all other characters
/// are kept.
pub open spec fn strip_spec(s: Seq<char>) -> Seq<char>
    decreases s.len(),
    via strip_spec_dec
{
    if s.len() == 0 {
        Seq::empty()
    } else if !is_digit_char(s[0]) {
        seq![s[0]] + strip_spec(s.skip(1))
    } else {
        let d = digit_run_len(s) as int;
        if annotation_at_head(s) {
            strip_spec(s.skip(annotation_len(s) as int))
        } else {
            s.take(d) + strip_spec(s.skip(d))
        }
    }
}

#[via_fn]
proof fn strip_spec_dec(s: Seq<char>) {
    if s.len() > 0 && is_digit_char(s[0]) {
        lemma_digit_run_facts(s);
        if annotation_at_head(s) {
            lemma_space_run_facts(s.skip(digit_run_len(s) as int + 1));
        }
    }
}

/// A line in which no move-count annotation begins is returned unchanged by
/// the stripper.
pub proof fn lemma_strip_no_annotation(s: Seq<char>)
    requires
        !has_annotation(s),
    ensures
        strip_spec(s) == s,
    decreases s.len(),
{
    if s.len() == 0 {
        assert(strip_spec(s) =~= s);
    } else if !is_digit_char(s[0]) {
        assert forall|j: int| 0 <= j < s.skip(1).len() implies !annotation_at_head(
            #[trigger] s.skip(1).skip(j),
        ) by {
            assert(s.skip(1).skip(j) =~= s.skip(1 + j));
            assert(!annotation_at_head(s.skip(1 + j)));
        }
        lemma_strip_no_annotation(s.skip(1));
        assert(seq![s[0]] + s.skip(1) =~= s);
    } else {
        let d = digit_run_len(s) as int;
        lemma_digit_run_facts(s);
        assert(s.skip(0) =~= s);
        assert(!annotation_at_head(s));
        assert forall|j: int| 0 <= j < s.skip(d).len() implies !annotation_at_head(
            #[trigger] s.skip(d).skip(j),
        ) by {
            assert(s.skip(d).skip(j) =~= s.skip(d + j));
            assert(!annotation_at_head(s.skip(d + j)));
        }
        lemma_strip_no_annotation(s.skip(d));
        assert(s.take(d) + s.skip(d) =~= s);
    }
}

/// Prepending a character that is not a digit starts no annotation.
proof fn lemma_cons_annotation_free(c: char, r: Seq<char>)
    requires
        !is_digit_char(c),
        !has_annotation(r),
    ensures
        !has_annotation(seq![c] + r),
{
    let a = seq![c] + r;
    assert forall|i: int| 0 <= i < a.len() implies !annotation_at_head(#[trigger] a.skip(i)) by {
        if i == 0 {
            assert(a.skip(0) =~= a);
            assert(a[0] == c);
            assert(digit_run_len(a) == 0);
        } else {
            assert(a.skip(i) =~= r.skip(i - 1));
            assert(!annotation_at_head(r.skip(i - 1)));
        }
    }
}

/// Prepending a run of digits to a sequence that starts with neither a digit
/// nor a period starts no annotation.
proof fn lemma_run_annotation_free(dd: Seq<char>, r: Seq<char>)
    requires
        forall|i: int| 0 <= i < dd.len() ==> is_digit_char(#[trigger] dd[i]),
        !has_annotation(r),
        r.len() == 0 || (!is_digit_char(r[0]) && r[0] != '.'),
    ensures
        !has_annotation(dd + r),
{
    let a = dd + r;
    assert forall|i: int| 0 <= i < a.len() implies !annotation_at_head(#[trigger] a.skip(i)) by {
        if i < dd.len() {
            let u = a.skip(i);
            assert forall|x: int| 0 <= x < dd.len() - i implies is_digit_char(
                #[trigger] u[x],
            ) by {
                assert(u[x] == dd[i + x]);
            }
            if r.len() == 0 {
                lemma_digit_run_len_is(u, u.len() as int);
                assert(!annotation_at_head(u));
            } else {
                assert(u[dd.len() - i] == r[0]);
                lemma_digit_run_len_is(u, dd.len() - i);
                assert(!annotation_at_head(u));
            }
        } else {
            assert(a.skip(i) =~= r.skip(i - dd.len()));
            assert(!annotation_at_head(r.skip(i - dd.len())));
        }
    }
}

/// No move-count annotation survives the stripper: its result contains none.
pub proof fn lemma_strip_annotation_free(s: Seq<char>)
    ensures
        !has_annotation(strip_spec(s)),
    decreases s.len(),
{
    if s.len() == 0 {
        assert(strip_spec(s) == Seq::<char>::empty());
    } else if !is_digit_char(s[0]) {
        lemma_strip_annotation_free(s.skip(1));
        lemma_cons_annotation_free(s[0], strip_spec(s.skip(1)));
    } else {
        lemma_digit_run_facts(s);
        let d = digit_run_len(s) as int;
        if annotation_at_head(s) {
            lemma_space_run_facts(s.skip(d + 1));
            lemma_strip_annotation_free(s.skip(annotation_len(s) as int));
        } else {
            lemma_strip_annotation_free(s.skip(d));
            let r = strip_spec(s.skip(d));
            if s.skip(d).len() > 0 {
                assert(!is_digit_char(s.skip(d)[0]));
                assert(r == seq![s.skip(d)[0]] + strip_spec(s.skip(d).skip(1)));
                assert(r[0] == s.skip(d)[0]);
                assert(s.skip(d)[0] == s[d]);
                assert(s[d] != '.');
            }
            assert forall|i: int| 0 <= i < d implies is_digit_char(#[trigger] s.take(d)[i]) by {
                assert(s.take(d)[i] == s[i]);
            }
            lemma_run_annotation_free(s.take(d), r);
        }
    }
}

/// Skipping a prefix of an annotation-free sequence leaves it
/// annotation-free.
proof fn lemma_annotation_free_skip(s: Seq<char>, k: int)
    requires
        !has_annotation(s),
        0 <= k <= s.len(),
    ensures
        !has_annotation(s.skip(k)),
{
    assert forall|j: int| 0 <= j < s.skip(k).len() implies !annotation_at_head(
        #[trigger] s.skip(k).skip(j),
    ) by {
        assert(s.skip(k).skip(j) =~= s.skip(k + j));
        assert(!annotation_at_head(s.skip(k + j)));
    }
}

/// An annotation embedded anywhere in a line is removed exactly: the digits,
/// the period and the whitespace after it go, and nothing else changes. The
/// text before it must hold no annotation of its own and not end in a digit
/// (else its digits would belong to this annotation), and the text after it
/// must not begin with whitespace (else that whitespace would belong to it).
pub proof fn lemma_strip_removes_annotation(
    a: Seq<char>,
    dd: Seq<char>,
    w: Seq<char>,
    b: Seq<char>,
)
    requires
        !has_annotation(a),
        a.len() == 0 || !is_digit_char(a[a.len() - 1]),
        dd.len() >= 1,
        forall|i: int| 0 <= i < dd.len() ==> is_digit_char(#[trigger] dd[i]),
        forall|i: int| 0 <= i < w.len() ==> is_space_char(#[trigger] w[i]),
        b.len() == 0 || !is_space_char(b[0]),
    ensures
        strip_spec(a + dd + seq!['.'] + w + b) == a + strip_spec(b),
    decreases a.len(),
{
    let s = a + dd + seq!['.'] + w + b;
    if a.len() == 0 {
        let d = dd.len() as int;
        assert forall|i: int| 0 <= i < d implies is_digit_char(#[trigger] s[i]) by {
            assert(s[i] == dd[i]);
        }
        assert(s[d] == '.');
        lemma_digit_run_len_is(s, d);
        assert(annotation_at_head(s));
        let u = s.skip(d + 1);
        assert(u =~= w + b);
        assert forall|i: int| 0 <= i < w.len() implies is_space_char(#[trigger] u[i]) by {
            assert(u[i] == w[i]);
        }
        if b.len() > 0 {
            assert(u[w.len() as int] == b[0]);
        }
        lemma_space_run_len_is(u, w.len() as int);
        assert(annotation_len(s) == d + 1 + w.len());
        assert(s.skip(annotation_len(s) as int) =~= b);
        assert(a + strip_spec(b) =~= strip_spec(b));
    } else if !is_digit_char(a[0]) {
        assert(s[0] == a[0]);
        lemma_annotation_free_skip(a, 1);
        if a.len() > 1 {
            assert(a.skip(1)[a.len() - 2] == a[a.len() - 1]);
        }
        lemma_strip_removes_annotation(a.skip(1), dd, w, b);
        assert(s.skip(1) =~= a.skip(1) + dd + seq!['.'] + w + b);
        assert(strip_spec(s) == seq![s[0]] + (a.skip(1) + strip_spec(b)));
        assert(seq![a[0]] + (a.skip(1) + strip_spec(b)) =~= a + strip_spec(b));
    } else {
        lemma_digit_run_facts(a);
        let ra = digit_run_len(a) as int;
        assert(ra < a.len()) by {
            if ra == a.len() {
                assert(is_digit_char(a[a.len() - 1]));
            }
        }
        assert(!is_digit_char(a[ra]));
        assert forall|i: int| 0 <= i < ra implies is_digit_char(#[trigger] s[i]) by {
            assert(s[i] == a[i]);
        }
        assert(s[ra] == a[ra]);
        lemma_digit_run_len_is(s, ra);
        assert(a[ra] != '.') by {
            if a[ra] == '.' {
                assert(a.skip(0) =~= a);
                assert(annotation_at_head(a.skip(0)));
                assert(has_annotation(a));
            }
        }
        assert(!annotation_at_head(s));
        assert(ra >= 1);
        lemma_annotation_free_skip(a, ra);
        assert(a.skip(ra)[a.len() - ra - 1] == a[a.len() - 1]);
        lemma_strip_removes_annotation(a.skip(ra), dd, w, b);
        assert(s.skip(ra) =~= a.skip(ra) + dd + seq!['.'] + w + b);
        assert(s.take(ra) =~= a.take(ra));
        assert(strip_spec(s) == a.take(ra) + (a.skip(ra) + strip_spec(b)));
        assert(a.take(ra) + (a.skip(ra) + strip_spec(b)) =~= a + strip_spec(b));
    }
}

/// The stripper is idempotent: stripping an already-stripped line changes
/// nothing.
pub proof fn lemma_strip_idempotent(s: Seq<char>)
    ensures
        strip_spec(strip_spec(s)) == strip_spec(s),
{
    lemma_strip_annotation_free(s);
    lemma_strip_no_annotation(strip_spec(s));
}

/// Removes every move-count annotation (digits, period, and the whitespace
/// after it) from a line of movetext.
pub fn remove_move_counts(line: &str) -> (r: String)
    ensures
        r@ == strip_spec(line@),
{
    let n = line.unicode_len();
    let mut out = String::new();
    let mut i: usize = 0;
    proof {
        assert(line@.skip(0) =~= line@);
        assert(Seq::<char>::empty() + strip_spec(line@) =~= strip_spec(line@));
    }
    while i < n
        invariant
            0 <= i <= n,
            n == line@.len(),
            strip_spec(line@) == out@ + strip_spec(line@.skip(i as int)),
        decreases n - i,
    {
        let ghost u = line@.skip(i as int);
        let ghost pre = out@;
        let c = line.get_char(i);
        proof {
            assert(u[0] == line@[i as int]);
        }
        if is_move_digit(c) {
            let mut j: usize = i + 1;
            while j < n && is_move_digit(line.get_char(j))
                invariant
                    i < j <= n,
                    n == line@.len(),
                    forall|x: int| i <= x < j ==> is_digit_char(#[trigger] line@[x]),
                decreases n - j,
            {
                j = j + 1;
            }
            proof {
                assert forall|x: int| 0 <= x < j - i implies is_digit_char(#[trigger] u[x]) by {
                    assert(u[x] == line@[i + x]);
                }
                if j < n {
                    assert(u[j - i] == line@[j as int]);
                }
                lemma_digit_run_len_is(u, j - i);
            }
            if j < n && line.get_char(j) == '.' {
                let mut k: usize = j + 1;
                while k < n && is_space(line.get_char(k))
                    invariant
                        j + 1 <= k <= n,
                        n == line@.len(),
                        forall|x: int| j + 1 <= x < k ==> is_space_char(#[trigger] line@[x]),
                    decreases n - k,
                {
                    k = k + 1;
                }
                proof {
                    let w = u.skip(j - i + 1);
                    assert(w =~= line@.skip(j + 1));
                    assert forall|x: int| 0 <= x < k - j - 1 implies is_space_char(
                        #[trigger] w[x],
                    ) by {
                        assert(w[x] == line@[j + 1 + x]);
                    }
                    if k < n {
                        assert(w[k - j - 1] == line@[k as int]);
                    }
                    lemma_space_run_len_is(w, k - j - 1);
                    assert(u[j - i] == '.');
                    assert(annotation_at_head(u));
                    assert(annotation_len(u) == k - i);
                    assert(u.skip(k - i) =~= line@.skip(k as int));
                    assert(strip_spec(u) == strip_spec(line@.skip(k as int)));
                }
                i = k;
            } else {
                let mut m: usize = i;
                while m < j
                    invariant
                        i <= m <= j,
                        j <= n,
                        n == line@.len(),
                        out@ == pre + line@.subrange(i as int, m as int),
                    decreases j - m,
                {
                    let cc = line.get_char(m);
                    push_char(&mut out, cc);
                    proof {
                        assert((pre + line@.subrange(i as int, m as int)).push(cc) =~= pre
                            + line@.subrange(i as int, m + 1));
                    }
                    m = m + 1;
                }
                proof {
                    let d = j - i;
                    if j < n {
                        assert(u[d] == line@[j as int]);
                        assert(u[d] != '.');
                    }
                    assert(!annotation_at_head(u));
                    assert(u.take(d) =~= line@.subrange(i as int, j as int));
                    assert(u.skip(d) =~= line@.skip(j as int));
                    assert(strip_spec(u) == u.take(d) + strip_spec(u.skip(d)));
                    assert((pre + line@.subrange(i as int, j as int)) + strip_spec(
                        line@.skip(j as int),
                    ) =~= pre + (u.take(d) + strip_spec(u.skip(d))));
                }
                i = j;
            }
        } else {
            push_char(&mut out, c);
            proof {
                assert(u.skip(1) =~= line@.skip(i + 1));
                assert(strip_spec(u) == seq![u[0]] + strip_spec(u.skip(1)));
                assert(pre.push(c) + strip_spec(line@.skip(i + 1)) =~= pre + (seq![c] + strip_spec(
                    line@.skip(i + 1),
                )));
            }
            i = i + 1;
        }
    }
    proof {
        assert(line@.skip(n as int) =~= Seq::<char>::empty());
        assert(out@ + Seq::<char>::empty() =~= out@);
    }
    out
}

} // verus!

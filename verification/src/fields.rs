//! Whitespace-separated fields and line splitting, as `str::split_whitespace`,
//! `str::lines` and `[..].join(" ")` give them, specified over `Seq<char>`.
use vstd::prelude::*;
use crate::text::{is_whitespace, is_ws, substring};

verus! {

/// End of the run of non-whitespace characters that starts at `i`.
pub open spec fn word_end(s: Seq<char>, i: int) -> int
    decreases s.len() - i,
{
    if i < 0 || i >= s.len() || is_ws(s[i]) {
        i
    } else {
        word_end(s, i + 1)
    }
}

/// The whitespace-separated fields of `s` from index `i` on.
pub open spec fn words_from(s: Seq<char>, i: int) -> Seq<Seq<char>>
    decreases s.len() - i,
{
    if i < 0 || i >= s.len() {
        Seq::empty()
    } else if is_ws(s[i]) {
        words_from(s, i + 1)
    } else {
        let e = word_end(s, i);
        if e <= i || e > s.len() {
            Seq::empty()
        } else {
            seq![s.subrange(i, e)] + words_from(s, e)
        }
    }
}

/// `str::split_whitespace`.
pub open spec fn words(s: Seq<char>) -> Seq<Seq<char>> {
    words_from(s, 0)
}

pub proof fn lemma_word_end(s: Seq<char>, i: int)
    requires
        0 <= i <= s.len(),
    ensures
        i <= word_end(s, i) <= s.len(),
        word_end(s, i) < s.len() ==> is_ws(s[word_end(s, i)]),
        forall|k: int| i <= k < word_end(s, i) ==> !is_ws(#[trigger] s[k]),
        i < s.len() && !is_ws(s[i]) ==> word_end(s, i) > i,
    decreases s.len() - i,
{
    if i < s.len() && !is_ws(s[i]) {
        lemma_word_end(s, i + 1);
    }
}

/// The fields of `s` separated by whitespace (`str::split_whitespace`).
pub fn split_whitespace(s: &str) -> (r: Vec<String>)
    ensures
        r@.map_values(|w: String| w@) == words(s@),
{
    let n = s.unicode_len();
    let mut out: Vec<String> = Vec::new();
    let mut i: usize = 0;
    while i < n
        invariant
            n == s@.len(),
            i <= n,
            out@.map_values(|w: String| w@) + words_from(s@, i as int) == words(s@),
        decreases n - i,
    {
        if is_whitespace(s.get_char(i)) {
            i = i + 1;
        } else {
            let mut j: usize = i + 1;
            proof {
                lemma_word_end(s@, i as int);
            }
            while j < n && !is_whitespace(s.get_char(j))
                invariant
                    n == s@.len(),
                    i < j <= n,
                    !is_ws(s@[i as int]),
                    word_end(s@, i as int) == word_end(s@, j as int),
                decreases n - j,
            {
                j = j + 1;
            }
            proof {
                lemma_word_end(s@, j as int);
                lemma_word_end(s@, i as int);
            }
            let w = substring(s, i, j);
            let ghost before = out@.map_values(|w: String| w@);
            out.push(w);
            proof {
                assert(out@.map_values(|w: String| w@) =~= before.push(w@));
                assert(words_from(s@, i as int) == seq![s@.subrange(i as int, j as int)] + words_from(
                    s@,
                    j as int,
                ));
                assert(before.push(w@) + words_from(s@, j as int) =~= before + (seq![w@]
                    + words_from(s@, j as int)));
            }
            i = j;
        }
    }
    proof {
        assert(out@.map_values(|w: String| w@) + words_from(s@, n as int) =~= out@.map_values(
            |w: String| w@,
        ));
    }
    out
}

/// The fields joined with one space between each two (`[..].join(" ")`).
pub open spec fn join_spaced(ws: Seq<Seq<char>>) -> Seq<char>
    decreases ws.len(),
{
    if ws.len() == 0 {
        Seq::empty()
    } else if ws.len() == 1 {
        ws[0]
    } else {
        join_spaced(ws.drop_last()) + seq![' '] + ws.last()
    }
}

/// `ws[from..].join(" ")`.
pub fn join_spaced_from(ws: &Vec<String>, from: usize) -> (r: String)
    requires
        from <= ws@.len(),
    ensures
        r@ == join_spaced(ws@.map_values(|w: String| w@).subrange(from as int, ws@.len() as int)),
{
    let ghost views = ws@.map_values(|w: String| w@);
    let mut out = String::new();
    let mut i: usize = from;
    while i < ws.len()
        invariant
            from <= i <= ws@.len(),
            views == ws@.map_values(|w: String| w@),
            out@ == join_spaced(views.subrange(from as int, i as int)),
        decreases ws@.len() - i,
    {
        let ghost prev = views.subrange(from as int, i as int);
        let ghost next = views.subrange(from as int, i + 1);
        proof {
            assert(next.drop_last() =~= prev);
            assert(next.last() == ws@[i as int]@);
        }
        if i > from {
            out.append(" ");
            proof {
                reveal_strlit(" ");
            }
        } else {
            assert(prev.len() == 0);
        }
        out.append(ws[i].as_str());
        proof {
            if i > from {
                assert(out@ =~= join_spaced(prev) + seq![' '] + next.last());
            } else {
                assert(out@ =~= next[0]);
            }
        }
        i = i + 1;
    }
    out
}

/// Index just past the line that starts at `i`: the next `'\n'`, or the end.
pub open spec fn line_end(s: Seq<char>, i: int) -> int
    decreases s.len() - i,
{
    if i < 0 || i >= s.len() || s[i] == '\n' {
        i
    } else {
        line_end(s, i + 1)
    }
}

/// A line without its trailing carriage return, if it has one.
pub open spec fn strip_cr(l: Seq<char>) -> Seq<char> {
    if l.len() > 0 && l.last() == '\r' {
        l.drop_last()
    } else {
        l
    }
}

/// The lines of `s` from index `i` on (`str::lines`).
pub open spec fn lines_from(s: Seq<char>, i: int) -> Seq<Seq<char>>
    decreases s.len() - i,
{
    if i < 0 || i >= s.len() {
        Seq::empty()
    } else {
        let e = line_end(s, i);
        if e < i || e > s.len() {
            Seq::empty()
        } else if e == s.len() {
            seq![strip_cr(s.subrange(i, e))]
        } else {
            seq![strip_cr(s.subrange(i, e))] + lines_from(s, e + 1)
        }
    }
}

/// `str::lines`.
pub open spec fn lines(s: Seq<char>) -> Seq<Seq<char>> {
    lines_from(s, 0)
}

pub proof fn lemma_line_end(s: Seq<char>, i: int)
    requires
        0 <= i <= s.len(),
    ensures
        i <= line_end(s, i) <= s.len(),
        line_end(s, i) < s.len() ==> s[line_end(s, i)] == '\n',
        forall|k: int| i <= k < line_end(s, i) ==> #[trigger] s[k] != '\n',
    decreases s.len() - i,
{
    if i < s.len() && s[i] != '\n' {
        lemma_line_end(s, i + 1);
    }
}

/// The lines of `s` (`str::lines`): split at `'\n'`, a final `'\r'` of each
/// line dropped, and no empty line after a final `'\n'`.
pub fn split_lines(s: &str) -> (r: Vec<String>)
    ensures
        r@.map_values(|w: String| w@) == lines(s@),
{
    let n = s.unicode_len();
    let mut out: Vec<String> = Vec::new();
    let mut i: usize = 0;
    while i < n
        invariant
            n == s@.len(),
            i <= n,
            out@.map_values(|w: String| w@) + lines_from(s@, i as int) == lines(s@),
        decreases n - i,
    {
        let mut j: usize = i;
        while j < n && s.get_char(j) != '\n'
            invariant
                n == s@.len(),
                i <= j <= n,
                line_end(s@, i as int) == line_end(s@, j as int),
            decreases n - j,
        {
            j = j + 1;
        }
        proof {
            lemma_line_end(s@, j as int);
        }
        let end = if j > i && s.get_char(j - 1) == '\r' {
            j - 1
        } else {
            j
        };
        let w = substring(s, i, end);
        proof {
            assert(w@ =~= strip_cr(s@.subrange(i as int, j as int)));
        }
        let ghost before = out@.map_values(|w: String| w@);
        out.push(w);
        proof {
            assert(out@.map_values(|w: String| w@) =~= before.push(w@));
        }
        if j == n {
            proof {
                assert(lines_from(s@, i as int) == seq![w@]);
                assert(before.push(w@) + lines_from(s@, n as int) =~= before + seq![w@]);
            }
            i = n;
        } else {
            proof {
                assert(lines_from(s@, i as int) == seq![w@] + lines_from(s@, j + 1));
                assert(before.push(w@) + lines_from(s@, j + 1) =~= before + (seq![w@]
                    + lines_from(s@, j + 1)));
            }
            i = j + 1;
        }
    }
    proof {
        assert(out@.map_values(|w: String| w@) + lines_from(s@, n as int) =~= out@.map_values(
            |w: String| w@,
        ));
    }
    out
}


/// Lines, each followed by `'\n'`.
pub open spec fn unlines(ls: Seq<Seq<char>>) -> Seq<char>
    decreases ls.len(),
{
    if ls.len() == 0 {
        Seq::empty()
    } else {
        unlines(ls.drop_last()) + ls.last() + seq!['\n']
    }
}

/// A line that is read back unchanged once written with a `'\n'` after it:
/// it holds no `'\n'` and does not end in `'\r'`.
pub open spec fn plain_line(l: Seq<char>) -> bool {
    &&& forall|k: int| 0 <= k < l.len() ==> #[trigger] l[k] != '\n'
    &&& !(l.len() > 0 && l.last() == '\r')
}

/// No line of `s` holds a `'\n'`.
pub proof fn lemma_lines_have_no_newline(s: Seq<char>, i: int)
    requires
        0 <= i <= s.len(),
    ensures
        forall|j: int, k: int|
            0 <= j < lines_from(s, i).len() && 0 <= k < lines_from(s, i)[j].len()
                ==> #[trigger] lines_from(s, i)[j][k] != '\n',
    decreases s.len() - i,
{
    if i < s.len() {
        lemma_line_end(s, i);
        let e = line_end(s, i);
        let first = strip_cr(s.subrange(i, e));
        assert forall|k: int| 0 <= k < first.len() implies first[k] != '\n' by {
            assert(first[k] == s[i + k]);
        }
        if e < s.len() {
            lemma_lines_have_no_newline(s, e + 1);
            let rest = lines_from(s, e + 1);
            assert(lines_from(s, i) == seq![first] + rest);
            assert forall|j: int, k: int|
                0 <= j < lines_from(s, i).len() && 0 <= k < lines_from(s, i)[j].len()
                    implies #[trigger] lines_from(s, i)[j][k] != '\n' by {
                if j > 0 {
                    assert(lines_from(s, i)[j] == rest[j - 1]);
                }
            }
        }
    }
}

proof fn lemma_line_end_shift(p: Seq<char>, y: Seq<char>, j: int)
    requires
        0 <= j <= y.len(),
    ensures
        line_end(p + y, p.len() + j) == p.len() + line_end(y, j),
    decreases y.len() - j,
{
    let s = p + y;
    if j < y.len() {
        assert(s[p.len() + j] == y[j]);
        if y[j] != '\n' {
            lemma_line_end_shift(p, y, j + 1);
        }
    }
}

proof fn lemma_lines_shift(p: Seq<char>, y: Seq<char>, j: int)
    requires
        0 <= j <= y.len(),
    ensures
        lines_from(p + y, p.len() + j) == lines_from(y, j),
    decreases y.len() - j,
{
    let s = p + y;
    if j < y.len() {
        lemma_line_end_shift(p, y, j);
        lemma_line_end(y, j);
        let e = line_end(y, j);
        assert(s.subrange(p.len() + j, p.len() + e) =~= y.subrange(j, e));
        if e < y.len() {
            lemma_lines_shift(p, y, e + 1);
        }
    }
}

/// The lines of `a`, a line break and `rest`: `a`, then the lines of `rest`.
pub proof fn lemma_lines_cons(a: Seq<char>, rest: Seq<char>)
    requires
        plain_line(a),
    ensures
        lines(a + seq!['\n'] + rest) == seq![a] + lines(rest),
{
    let p = a + seq!['\n'];
    let s = p + rest;
    assert(a + seq!['\n'] + rest == s);
    assert forall|k: int| 0 <= k < a.len() implies s[k] != '\n' by {
        assert(s[k] == a[k]);
    }
    lemma_line_end(s, 0);
    assert(s[a.len() as int] == '\n');
    assert(line_end(s, 0) == a.len()) by {
        if line_end(s, 0) < a.len() {
            assert(s[line_end(s, 0)] == '\n');
        }
    }
    assert(s.subrange(0, a.len() as int) =~= a);
    assert(strip_cr(a) == a);
    lemma_lines_shift(p, rest, 0);
}

/// Plain lines written one after another read back as the same lines.
pub proof fn lemma_lines_unlines(ls: Seq<Seq<char>>, rest: Seq<char>)
    requires
        forall|j: int| 0 <= j < ls.len() ==> plain_line(#[trigger] ls[j]),
    ensures
        lines(unlines(ls) + rest) == ls + lines(rest),
    decreases ls.len(),
{
    if ls.len() == 0 {
        assert(unlines(ls) + rest =~= rest);
        assert(ls + lines(rest) =~= lines(rest));
    } else {
        let p = ls.drop_last();
        let l = ls.last();
        let tail = l + seq!['\n'] + rest;
        assert(plain_line(ls[ls.len() - 1]));
        lemma_lines_unlines(p, tail);
        assert(unlines(ls) + rest =~= unlines(p) + tail);
        lemma_lines_cons(l, rest);
        assert(p + (seq![l] + lines(rest)) =~= ls + lines(rest));
    }
}

} // verus!

//! The text of `~/.ssh/config`: the user's own lines are kept as they are,
//! and the application's `Host` stanzas live in one managed block between
//! two marker lines, rewritten as a whole each time.
use vstd::prelude::*;
use crate::fields::{
    lemma_lines_have_no_newline, lemma_lines_unlines, lines, lines_from, plain_line, split_lines, unlines,
};
use crate::ssh::SshConfigEntry;
use crate::ssh_service::entry_view;
use crate::text::{is_ws, lead_from, lemma_lead_from_bounds, lemma_trail_to_bounds, push_char, str_eq, trail_to, trim, trim_seq};

verus! {

/// The line that opens the managed block.
pub open spec fn block_begin() -> Seq<char> {
    "# >>> gitpersona managed >>>"@
}

/// The line that closes the managed block.
pub open spec fn block_end() -> Seq<char> {
    "# <<< gitpersona managed <<<"@
}

/// Whether, after the first `n` lines, a managed block is open.
pub open spec fn inside_after(ls: Seq<Seq<char>>, n: int) -> bool
    decreases n,
{
    if n <= 0 || n > ls.len() {
        false
    } else if trim_seq(ls[n - 1]) == block_begin() {
        true
    } else if trim_seq(ls[n - 1]) == block_end() {
        false
    } else {
        inside_after(ls, n - 1)
    }
}

/// The first `n` lines without the managed blocks and their marker lines.
pub open spec fn kept_lines(ls: Seq<Seq<char>>, n: int) -> Seq<Seq<char>>
    decreases n,
{
    if n <= 0 || n > ls.len() {
        Seq::empty()
    } else {
        let prev = kept_lines(ls, n - 1);
        let t = trim_seq(ls[n - 1]);
        if t == block_begin() || t == block_end() || inside_after(ls, n - 1) {
            prev
        } else {
            prev.push(ls[n - 1])
        }
    }
}

/// The user's own lines of a config file: every line outside the managed block.
pub open spec fn user_lines(text: Seq<char>) -> Seq<Seq<char>> {
    kept_lines(lines(text), lines(text).len() as int)
}

/// The lines of the `Host` stanza written for one entry.
pub open spec fn entry_lines(e: (Seq<char>, Seq<char>, Seq<char>, Seq<char>)) -> Seq<Seq<char>> {
    seq![
        "Host "@ + e.0,
        "  HostName "@ + e.1,
        "  User "@ + e.2,
        "  IdentityFile "@ + e.3,
        "  IdentitiesOnly yes"@,
    ]
}

/// The lines of the stanzas of all entries, in order.
pub open spec fn stanza_lines(es: Seq<(Seq<char>, Seq<char>, Seq<char>, Seq<char>)>) -> Seq<Seq<char>>
    decreases es.len(),
{
    if es.len() == 0 {
        Seq::empty()
    } else {
        stanza_lines(es.drop_last()) + entry_lines(es.last())
    }
}

/// The lines of the rewritten file: the user's lines of `current`, then the
/// managed block holding `es`.
pub open spec fn rewritten_lines(
    current: Seq<char>,
    es: Seq<(Seq<char>, Seq<char>, Seq<char>, Seq<char>)>,
) -> Seq<Seq<char>> {
    user_lines(current).push(block_begin()) + stanza_lines(es).push(block_end())
}

/// The text of the rewritten file.
pub open spec fn rewritten_config(
    current: Seq<char>,
    es: Seq<(Seq<char>, Seq<char>, Seq<char>, Seq<char>)>,
) -> Seq<char> {
    unlines(rewritten_lines(current, es))
}

proof fn lemma_unlines_push(ls: Seq<Seq<char>>, l: Seq<char>)
    ensures
        unlines(ls.push(l)) == unlines(ls) + l + seq!['\n'],
{
    assert(ls.push(l).drop_last() =~= ls);
}

/// Append `line` and a line break to `out`.
fn push_line(out: &mut String, line: &str, Ghost(ls): Ghost<Seq<Seq<char>>>)
    requires
        old(out)@ == unlines(ls),
    ensures
        final(out)@ == unlines(ls.push(line@)),
{
    out.append(line);
    push_char(out, '\n');
    proof {
        lemma_unlines_push(ls, line@);
    }
}

/// Append a stanza line made of `head` and `field`.
fn push_field_line(out: &mut String, head: &str, field: &str, Ghost(ls): Ghost<Seq<Seq<char>>>)
    requires
        old(out)@ == unlines(ls),
    ensures
        final(out)@ == unlines(ls.push(head@ + field@)),
{
    out.append(head);
    out.append(field);
    push_char(out, '\n');
    proof {
        lemma_unlines_push(ls, head@ + field@);
        assert(final(out)@ =~= unlines(ls) + (head@ + field@) + seq!['\n']);
    }
}

/// The new text of `~/.ssh/config`: the lines of `current` outside the
/// managed block, unchanged and in order, followed by a managed block with
/// one `Host` stanza per entry.
pub fn rewrite_config(current: &str, entries: &Vec<SshConfigEntry>) -> (r: String)
    ensures
        r@ == rewritten_config(current@, entries@.map_values(|e: SshConfigEntry| entry_view(e))),
{
    let ls = split_lines(current);
    let ghost lv = ls@.map_values(|w: String| w@);
    let begin = "# >>> gitpersona managed >>>";
    let end = "# <<< gitpersona managed <<<";
    let mut out = String::new();
    let mut inside = false;
    let mut i: usize = 0;
    while i < ls.len()
        invariant
            i <= ls@.len(),
            lv == ls@.map_values(|w: String| w@),
            lv == lines(current@),
            begin@ == block_begin(),
            end@ == block_end(),
            inside == inside_after(lv, i as int),
            out@ == unlines(kept_lines(lv, i as int)),
        decreases ls@.len() - i,
    {
        let t = trim(ls[i].as_str());
        proof {
            assert(lv[i as int] == ls@[i as int]@);
        }
        if str_eq(t.as_str(), begin) {
            inside = true;
        } else if str_eq(t.as_str(), end) {
            inside = false;
        } else if !inside {
            push_line(&mut out, ls[i].as_str(), Ghost(kept_lines(lv, i as int)));
        }
        i = i + 1;
    }
    let ghost ev = entries@.map_values(|e: SshConfigEntry| entry_view(e));
    let ghost head = kept_lines(lv, lv.len() as int).push(block_begin());
    push_line(&mut out, begin, Ghost(kept_lines(lv, lv.len() as int)));
    assert(out@ == unlines(head + stanza_lines(ev.subrange(0, 0)))) by {
        assert(head + stanza_lines(ev.subrange(0, 0)) =~= head);
    }
    let mut k: usize = 0;
    while k < entries.len()
        invariant
            k <= entries@.len(),
            ev == entries@.map_values(|e: SshConfigEntry| entry_view(e)),
            end@ == block_end(),
            out@ == unlines(head + stanza_lines(ev.subrange(0, k as int))),
        decreases entries@.len() - k,
    {
        let e = &entries[k];
        let ghost before = head + stanza_lines(ev.subrange(0, k as int));
        push_field_line(&mut out, "Host ", e.host_alias.as_str(), Ghost(before));
        let ghost l1 = before.push("Host "@ + e.host_alias@);
        push_field_line(&mut out, "  HostName ", e.host_name.as_str(), Ghost(l1));
        let ghost l2 = l1.push("  HostName "@ + e.host_name@);
        push_field_line(&mut out, "  User ", e.user.as_str(), Ghost(l2));
        let ghost l3 = l2.push("  User "@ + e.user@);
        push_field_line(&mut out, "  IdentityFile ", e.identity_file.as_str(), Ghost(l3));
        let ghost l4 = l3.push("  IdentityFile "@ + e.identity_file@);
        push_line(&mut out, "  IdentitiesOnly yes", Ghost(l4));
        proof {
            assert(ev.subrange(0, k + 1).drop_last() =~= ev.subrange(0, k as int));
            assert(ev[k as int] == entry_view(entries@[k as int]));
            assert(l4.push("  IdentitiesOnly yes"@) =~= head + stanza_lines(ev.subrange(0, k + 1)));
        }
        k = k + 1;
    }
    proof {
        assert(ev.subrange(0, entries@.len() as int) =~= ev);
    }
    let ghost body = head + stanza_lines(ev);
    push_line(&mut out, end, Ghost(body));
    proof {
        assert(body.push(block_end()) =~= rewritten_lines(current@, ev));
    }
    out
}

/// The first non-blank character of a line made of `p` and `x`, where `p`
/// starts with `idx` blanks and then a non-blank character.
proof fn lemma_trim_first(p: Seq<char>, x: Seq<char>, idx: int)
    requires
        0 <= idx < p.len(),
        forall|k: int| 0 <= k < idx ==> is_ws(#[trigger] p[k]),
        !is_ws(p[idx]),
    ensures
        trim_seq(p + x).len() > 0,
        trim_seq(p + x)[0] == p[idx],
{
    let l = p + x;
    lemma_lead_from_bounds(l, 0);
    let lo = lead_from(l, 0);
    assert(l[idx] == p[idx]);
    if lo < idx {
        assert(l[lo] == p[lo]);
    }
    assert(lo == idx);
    lemma_trail_to_bounds(l, lo, l.len() as int);
    if trail_to(l, lo, l.len() as int) == lo {
        assert(is_ws(l[lo]));
    }
}

/// Each stanza line is plain and never reads as the closing marker.
proof fn lemma_entry_lines(e: (Seq<char>, Seq<char>, Seq<char>, Seq<char>))
    requires
        plain_line(e.0),
        plain_line(e.1),
        plain_line(e.2),
        plain_line(e.3),
    ensures
        forall|j: int|
            0 <= j < entry_lines(e).len() ==> plain_line(#[trigger] entry_lines(e)[j]) && trim_seq(
                entry_lines(e)[j],
            ) != block_end(),
{
    reveal_strlit("Host ");
    reveal_strlit("  HostName ");
    reveal_strlit("  User ");
    reveal_strlit("  IdentityFile ");
    reveal_strlit("  IdentitiesOnly yes");
    reveal_strlit("# <<< gitpersona managed <<<");
    let ls = entry_lines(e);
    lemma_plain_concat("Host "@, e.0);
    lemma_plain_concat("  HostName "@, e.1);
    lemma_plain_concat("  User "@, e.2);
    lemma_plain_concat("  IdentityFile "@, e.3);
    lemma_plain_concat("  IdentitiesOnly yes"@, Seq::empty());
    assert("  IdentitiesOnly yes"@ + Seq::<char>::empty() =~= "  IdentitiesOnly yes"@);
    lemma_trim_first("Host "@, e.0, 0);
    lemma_trim_first("  HostName "@, e.1, 2);
    lemma_trim_first("  User "@, e.2, 2);
    lemma_trim_first("  IdentityFile "@, e.3, 2);
    lemma_trim_first("  IdentitiesOnly yes"@, Seq::empty(), 2);
    assert forall|j: int| 0 <= j < ls.len() implies plain_line(#[trigger] ls[j]) && trim_seq(ls[j])
        != block_end() by {
        assert(trim_seq(ls[j])[0] != block_end()[0]);
    }
}

proof fn lemma_plain_concat(p: Seq<char>, x: Seq<char>)
    requires
        plain_line(p),
        plain_line(x),
        p.len() > 0,
    ensures
        plain_line(p + x),
{
    let l = p + x;
    assert forall|k: int| 0 <= k < l.len() implies #[trigger] l[k] != '\n' by {
        if k < p.len() {
            assert(l[k] == p[k]);
        } else {
            assert(l[k] == x[k - p.len()]);
        }
    }
    if x.len() > 0 {
        assert(l.last() == x.last());
    } else {
        assert(l.last() == p.last());
    }
}

/// Every stanza line is plain and never reads as the closing marker.
proof fn lemma_stanza_lines(es: Seq<(Seq<char>, Seq<char>, Seq<char>, Seq<char>)>)
    requires
        forall|j: int| 0 <= j < es.len() ==> plain_entry(#[trigger] es[j]),
    ensures
        forall|j: int|
            0 <= j < stanza_lines(es).len() ==> plain_line(#[trigger] stanza_lines(es)[j]) && trim_seq(
                stanza_lines(es)[j],
            ) != block_end(),
    decreases es.len(),
{
    if es.len() > 0 {
        let p = es.drop_last();
        assert forall|j: int| 0 <= j < p.len() implies plain_entry(#[trigger] p[j]) by {
            assert(p[j] == es[j]);
        }
        lemma_stanza_lines(p);
        assert(plain_entry(es[es.len() - 1]));
        lemma_entry_lines(es.last());
        let a = stanza_lines(p);
        let b = entry_lines(es.last());
        assert forall|j: int| 0 <= j < stanza_lines(es).len() implies plain_line(
            #[trigger] stanza_lines(es)[j],
        ) && trim_seq(stanza_lines(es)[j]) != block_end() by {
            if j < a.len() {
                assert(stanza_lines(es)[j] == a[j]);
            } else {
                assert(stanza_lines(es)[j] == b[j - a.len()]);
            }
        }
    }
}

/// Each field of an entry is a plain line.
pub open spec fn plain_entry(e: (Seq<char>, Seq<char>, Seq<char>, Seq<char>)) -> bool {
    plain_line(e.0) && plain_line(e.1) && plain_line(e.2) && plain_line(e.3)
}

/// Every kept line comes from `ls` and is no marker line.
proof fn lemma_kept_lines(ls: Seq<Seq<char>>, n: int)
    requires
        0 <= n <= ls.len(),
        forall|j: int| 0 <= j < ls.len() ==> plain_line(#[trigger] ls[j]),
    ensures
        forall|j: int|
            0 <= j < kept_lines(ls, n).len() ==> {
                &&& plain_line(#[trigger] kept_lines(ls, n)[j])
                &&& trim_seq(kept_lines(ls, n)[j]) != block_begin()
                &&& trim_seq(kept_lines(ls, n)[j]) != block_end()
            },
    decreases n,
{
    if n > 0 {
        lemma_kept_lines(ls, n - 1);
        assert(plain_line(ls[n - 1]));
        let prev = kept_lines(ls, n - 1);
        let t = trim_seq(ls[n - 1]);
        if !(t == block_begin() || t == block_end() || inside_after(ls, n - 1)) {
            assert forall|j: int| 0 <= j < kept_lines(ls, n).len() implies {
                &&& plain_line(#[trigger] kept_lines(ls, n)[j])
                &&& trim_seq(kept_lines(ls, n)[j]) != block_begin()
                &&& trim_seq(kept_lines(ls, n)[j]) != block_end()
            } by {
                if j < prev.len() {
                    assert(kept_lines(ls, n)[j] == prev[j]);
                } else {
                    assert(kept_lines(ls, n)[j] == ls[n - 1]);
                }
            }
        }
    }
}

proof fn lemma_markers_trim()
    ensures
        trim_seq(block_begin()) == block_begin(),
        trim_seq(block_end()) == block_end(),
        block_begin() != block_end(),
{
    reveal_strlit("# >>> gitpersona managed >>>");
    reveal_strlit("# <<< gitpersona managed <<<");
    let b = block_begin();
    let e = block_end();
    assert(lead_from(b, 0) == 0);
    assert(trail_to(b, 0, b.len() as int) == b.len());
    assert(b.subrange(0, b.len() as int) =~= b);
    assert(lead_from(e, 0) == 0);
    assert(trail_to(e, 0, e.len() as int) == e.len());
    assert(e.subrange(0, e.len() as int) =~= e);
    assert(b[2] != e[2]);
}

/// Reading back a file made of the user's lines `k`, the opening marker,
/// the lines `s` and the closing marker keeps exactly `k`.
proof fn lemma_kept_of_layout(k: Seq<Seq<char>>, s: Seq<Seq<char>>)
    requires
        forall|j: int|
            0 <= j < k.len() ==> trim_seq(#[trigger] k[j]) != block_begin() && trim_seq(k[j])
                != block_end(),
        forall|j: int| 0 <= j < s.len() ==> trim_seq(#[trigger] s[j]) != block_end(),
    ensures
        ({
            let l = k.push(block_begin()) + s.push(block_end());
            kept_lines(l, l.len() as int) == k
        }),
{
    let l = k.push(block_begin()) + s.push(block_end());
    lemma_markers_trim();
    lemma_kept_prefix(k, s, k.len() as int);
    assert(k.subrange(0, k.len() as int) =~= k);
    assert(l[k.len() as int] == block_begin());
    lemma_kept_block(k, s, s.len() as int);
    assert(l[l.len() - 1] == block_end());
}

proof fn lemma_kept_prefix(k: Seq<Seq<char>>, s: Seq<Seq<char>>, n: int)
    requires
        0 <= n <= k.len(),
        forall|j: int|
            0 <= j < k.len() ==> trim_seq(#[trigger] k[j]) != block_begin() && trim_seq(k[j])
                != block_end(),
    ensures
        ({
            let l = k.push(block_begin()) + s.push(block_end());
            &&& !inside_after(l, n)
            &&& kept_lines(l, n) == k.subrange(0, n)
        }),
    decreases n,
{
    let l = k.push(block_begin()) + s.push(block_end());
    if n > 0 {
        lemma_kept_prefix(k, s, n - 1);
        assert(l[n - 1] == k[n - 1]);
        assert(trim_seq(k[n - 1]) != block_begin());
        assert(k.subrange(0, n - 1).push(k[n - 1]) =~= k.subrange(0, n));
    } else {
        assert(k.subrange(0, 0) =~= Seq::<Seq<char>>::empty());
    }
}

proof fn lemma_kept_block(k: Seq<Seq<char>>, s: Seq<Seq<char>>, m: int)
    requires
        0 <= m <= s.len(),
        forall|j: int|
            0 <= j < k.len() ==> trim_seq(#[trigger] k[j]) != block_begin() && trim_seq(k[j])
                != block_end(),
        forall|j: int| 0 <= j < s.len() ==> trim_seq(#[trigger] s[j]) != block_end(),
    ensures
        ({
            let l = k.push(block_begin()) + s.push(block_end());
            &&& inside_after(l, k.len() + 1 + m)
            &&& kept_lines(l, k.len() + 1 + m) == k
        }),
    decreases m,
{
    let l = k.push(block_begin()) + s.push(block_end());
    lemma_markers_trim();
    if m == 0 {
        lemma_kept_prefix(k, s, k.len() as int);
        assert(k.subrange(0, k.len() as int) =~= k);
        assert(l[k.len() as int] == block_begin());
    } else {
        lemma_kept_block(k, s, m - 1);
        assert(l[k.len() + m] == s[m - 1]);
        assert(trim_seq(s[m - 1]) != block_end());
    }
}

/// Rewriting the config file keeps the user's own lines: reading the
/// rewritten text gives back exactly the lines outside the managed block
/// that the file had before. This holds when no line of the file ends in a
/// carriage return once split, and no field of an entry spans lines.
pub proof fn lemma_rewrite_keeps_user_lines(
    current: Seq<char>,
    es: Seq<(Seq<char>, Seq<char>, Seq<char>, Seq<char>)>,
)
    requires
        forall|j: int|
            0 <= j < lines(current).len() ==> !(#[trigger] lines(current)[j].len() > 0
                && lines(current)[j].last() == '\r'),
        forall|j: int| 0 <= j < es.len() ==> plain_entry(#[trigger] es[j]),
    ensures
        user_lines(rewritten_config(current, es)) == user_lines(current),
        lines(rewritten_config(current, es)) == rewritten_lines(current, es),
{
    let ls = lines(current);
    lemma_lines_have_no_newline(current, 0);
    assert forall|j: int| 0 <= j < ls.len() implies plain_line(#[trigger] ls[j]) by {
        assert forall|q: int| 0 <= q < ls[j].len() implies #[trigger] ls[j][q] != '\n' by {
            assert(lines_from(current, 0)[j][q] != '\n');
        }
    }
    let k = user_lines(current);
    lemma_kept_lines(ls, ls.len() as int);
    lemma_stanza_lines(es);
    let s = stanza_lines(es);
    let l = rewritten_lines(current, es);
    reveal_strlit("# >>> gitpersona managed >>>");
    reveal_strlit("# <<< gitpersona managed <<<");
    assert(plain_line(block_begin()));
    assert(plain_line(block_end()));
    assert forall|j: int| 0 <= j < l.len() implies plain_line(#[trigger] l[j]) by {
        if j < k.len() {
            assert(l[j] == k[j]);
        } else if j == k.len() {
            assert(l[j] == block_begin());
        } else if j < k.len() + 1 + s.len() {
            assert(l[j] == s[j - k.len() - 1]);
        } else {
            assert(l[j] == block_end());
        }
    }
    lemma_lines_unlines(l, Seq::empty());
    assert(unlines(l) + Seq::<char>::empty() =~= unlines(l));
    assert(lines(Seq::<char>::empty()) =~= Seq::<Seq<char>>::empty());
    assert(l + Seq::<Seq<char>>::empty() =~= l);
    lemma_kept_of_layout(k, s);
}

/// Rewriting the config file twice with the same entries gives the same
/// text as rewriting it once, under the conditions of
/// `lemma_rewrite_keeps_user_lines`.
pub proof fn lemma_rewrite_idempotent(
    current: Seq<char>,
    es: Seq<(Seq<char>, Seq<char>, Seq<char>, Seq<char>)>,
)
    requires
        forall|j: int|
            0 <= j < lines(current).len() ==> !(#[trigger] lines(current)[j].len() > 0
                && lines(current)[j].last() == '\r'),
        forall|j: int| 0 <= j < es.len() ==> plain_entry(#[trigger] es[j]),
    ensures
        rewritten_config(rewritten_config(current, es), es) == rewritten_config(current, es),
{
    lemma_rewrite_keeps_user_lines(current, es);
}

} // verus!

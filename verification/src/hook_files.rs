//! The files of the commit guard in a repository's `.git/hooks`: the managed
//! `pre-commit` script, recognised by its tag line, and the marker file that
//! holds the expected name, email and mode, one per line.
use vstd::prelude::*;
use crate::commit_guard::{ExpectedIdentity, HookState};
use crate::fields::{lemma_lines_cons, lines, plain_line, split_lines};
use crate::profile::GuardMode;
use crate::text::{contains, contains_seq, push_char, str_eq};

verus! {

/// The line that marks a `pre-commit` hook as the managed one.
pub open spec fn hook_tag() -> Seq<char> {
    "# gitpersona-managed"@
}

/// What a `pre-commit` hook is, from its text (none when there is no hook)
/// and whether a chained foreign hook sits beside it.
pub open spec fn hook_state_of(text: Option<Seq<char>>, chained: bool) -> HookState {
    match text {
        None => HookState::NotInstalled,
        Some(t) => if contains_seq(t, hook_tag()) {
            if chained {
                HookState::ManagedChained
            } else {
                HookState::Managed
            }
        } else {
            HookState::Foreign
        },
    }
}

/// Classify the `pre-commit` hook found on disk.
pub fn classify_hook(text: &Option<String>, chained: bool) -> (r: HookState)
    ensures
        r == hook_state_of(
            match text {
                Some(t) => Some(t@),
                None => None,
            },
            chained,
        ),
{
    match text {
        None => HookState::NotInstalled,
        Some(t) => {
            if contains(t.as_str(), "# gitpersona-managed") {
                if chained {
                    HookState::ManagedChained
                } else {
                    HookState::Managed
                }
            } else {
                HookState::Foreign
            }
        },
    }
}

/// The word a marker file holds for a guard mode.
pub open spec fn mode_word(m: GuardMode) -> Seq<char> {
    match m {
        GuardMode::Block => "block"@,
        GuardMode::Warn => "warn"@,
    }
}

/// The text of the marker file: name, email and mode, each on its own line.
pub open spec fn marker_text(name: Seq<char>, email: Seq<char>, mode: GuardMode) -> Seq<char> {
    name + seq!['\n'] + email + seq!['\n'] + mode_word(mode) + seq!['\n']
}

/// The `i`-th line of `t`, or the empty line when `t` has fewer lines.
pub open spec fn line_or_empty(t: Seq<char>, i: int) -> Seq<char> {
    if 0 <= i < lines(t).len() {
        lines(t)[i]
    } else {
        Seq::empty()
    }
}

/// The expected identity a marker file's text gives: its first line as the
/// name, its second as the email, and `Block` exactly when its third line
/// is `block`.
pub open spec fn marker_of(t: Seq<char>) -> (Seq<char>, Seq<char>, GuardMode) {
    (
        line_or_empty(t, 0),
        line_or_empty(t, 1),
        if lines(t).len() > 2 && lines(t)[2] == "block"@ {
            GuardMode::Block
        } else {
            GuardMode::Warn
        },
    )
}

/// The text written to the marker file for `identity`.
pub fn render_marker(identity: &ExpectedIdentity) -> (r: String)
    ensures
        r@ == marker_text(identity.name@, identity.email@, identity.mode),
{
    let mut out = identity.name.clone();
    push_char(&mut out, '\n');
    out.append(identity.email.as_str());
    push_char(&mut out, '\n');
    match identity.mode {
        GuardMode::Block => out.append("block"),
        GuardMode::Warn => out.append("warn"),
    }
    push_char(&mut out, '\n');
    out
}

/// Read a marker file's text back into the expected identity.
pub fn parse_marker(text: &str) -> (r: ExpectedIdentity)
    ensures
        (r.name@, r.email@, r.mode) == marker_of(text@),
{
    let ls = split_lines(text);
    let ghost lv = ls@.map_values(|w: String| w@);
    let name = if ls.len() > 0 {
        assert(lv[0] == ls@[0]@);
        ls[0].clone()
    } else {
        String::new()
    };
    let email = if ls.len() > 1 {
        assert(lv[1] == ls@[1]@);
        ls[1].clone()
    } else {
        String::new()
    };
    let mode = if ls.len() > 2 && {
        assert(lv[2] == ls@[2]@);
        str_eq(ls[2].as_str(), "block")
    } {
        GuardMode::Block
    } else {
        GuardMode::Warn
    };
    ExpectedIdentity { name, email, mode }
}

/// Reading the marker back gives what was written, for a name and an email
/// that are plain lines.
pub proof fn lemma_marker_round_trip(name: Seq<char>, email: Seq<char>, mode: GuardMode)
    requires
        plain_line(name),
        plain_line(email),
    ensures
        marker_of(marker_text(name, email, mode)) == (name, email, mode),
{
    let w = mode_word(mode);
    let tail = w + seq!['\n'];
    let mid = email + seq!['\n'] + tail;
    reveal_strlit("block");
    reveal_strlit("warn");
    assert(plain_line(w));
    assert(w + seq!['\n'] + Seq::<char>::empty() =~= tail);
    lemma_lines_cons(w, Seq::empty());
    assert(lines(Seq::<char>::empty()) =~= Seq::<Seq<char>>::empty());
    assert(lines(tail) =~= seq![w]);
    lemma_lines_cons(email, tail);
    assert(email + seq!['\n'] + tail =~= mid);
    lemma_lines_cons(name, mid);
    assert(marker_text(name, email, mode) =~= name + seq!['\n'] + mid);
    assert(lines(marker_text(name, email, mode)) =~= seq![name, email, w]);
    if mode == GuardMode::Warn {
        assert(w != "block"@) by {
            assert(w.len() != "block"@.len());
        }
    }
}

} // verus!

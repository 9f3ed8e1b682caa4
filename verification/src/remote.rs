//! Parsing of Git remote URLs into a host and a repository path.
use vstd::prelude::*;
use crate::text::{
    back_char_to, contains, contains_seq, find_char, index_of_char, last_index_of_char, lemma_index_of_char,
    lemma_last_index_of_char, lower_seq, rfind_char, skip_char_from, starts_with, starts_with_seq, substring,
    to_ascii_lowercase, trim_char_range, trim_char_seq,
};

verus! {

/// The parse of `u[start..]` as `[user@]host/path`: the lowercased host
/// (user info dropped) and the path with leading/trailing `/` removed.
/// `None` unless both are non-empty.
pub open spec fn authority_and_path(u: Seq<char>, start: int) -> Option<(Seq<char>, Seq<char>)> {
    let slash = index_of_char(u, '/', start);
    if slash < 0 {
        None
    } else {
        let auth = u.subrange(start, slash);
        let at = last_index_of_char(auth, '@', auth.len() as int);
        let host = lower_seq(auth.subrange(at + 1, auth.len() as int));
        let path = trim_char_seq(u.subrange(slash + 1, u.len() as int), '/');
        if host.len() == 0 || path.len() == 0 {
            None
        } else {
            Some((host, path))
        }
    }
}

/// `https://[user@]host/path` → `(host, path)`; `None` for any other form
/// (SSH remotes, local paths, a host without a path).
pub open spec fn https_remote(u: Seq<char>) -> Option<(Seq<char>, Seq<char>)> {
    if starts_with_seq(u, "https://"@) {
        authority_and_path(u, "https://"@.len() as int)
    } else {
        None
    }
}

/// The view of a parsed `(host, path)` pair.
pub open spec fn pair_view(o: Option<(String, String)>) -> Option<(Seq<char>, Seq<char>)> {
    match o {
        Some((a, b)) => Some((a@, b@)),
        None => None,
    }
}

fn authority_and_path_exec(u: &str, start: usize) -> (r: Option<(String, String)>)
    requires
        start <= u@.len(),
    ensures
        pair_view(r) == authority_and_path(u@, start as int),
{
    let n = u.unicode_len();
    proof {
        lemma_index_of_char(u@, '/', start as int);
    }
    let slash = match find_char(u, '/', start) {
        Some(k) => k,
        None => {
            return None;
        },
    };
    let auth = substring(u, start, slash);
    let an = auth.as_str().unicode_len();
    proof {
        lemma_last_index_of_char(auth@, '@', an as int);
    }
    let host_from = match rfind_char(auth.as_str(), '@', an) {
        Some(a) => a + 1,
        None => 0,
    };
    let host_raw = substring(auth.as_str(), host_from, an);
    let host = to_ascii_lowercase(host_raw.as_str());
    let path = trim_char_range(u, '/', slash + 1, n);
    if host.as_str().unicode_len() == 0 || path.as_str().unicode_len() == 0 {
        None
    } else {
        Some((host, path))
    }
}

/// Split an HTTPS remote URL into its lowercased host and its repository
/// path, e.g. `https://user@GitHub.com/owner/repo.git/` →
/// `("github.com", "owner/repo.git")`.
pub fn parse_https_remote(url: &str) -> (r: Option<(String, String)>)
    ensures
        pair_view(r) == https_remote(url@),
{
    let prefix = "https://";
    if starts_with(url, prefix) {
        let plen = prefix.unicode_len();
        authority_and_path_exec(url, plen)
    } else {
        None
    }
}

/// Any remote form the rule engine understands: `https://`, `http://` and
/// `ssh://` URLs, or the scp-like `[user@]host:path`.
pub open spec fn any_remote(u: Seq<char>) -> Option<(Seq<char>, Seq<char>)> {
    if starts_with_seq(u, "https://"@) {
        authority_and_path(u, "https://"@.len() as int)
    } else if starts_with_seq(u, "http://"@) {
        authority_and_path(u, "http://"@.len() as int)
    } else if starts_with_seq(u, "ssh://"@) {
        authority_and_path(u, "ssh://"@.len() as int)
    } else if contains_seq(u, "://"@) {
        None
    } else {
        let colon = index_of_char(u, ':', 0);
        if colon < 0 {
            None
        } else {
            let auth = u.subrange(0, colon);
            if index_of_char(auth, '/', 0) >= 0 {
                None
            } else {
                let at = last_index_of_char(auth, '@', auth.len() as int);
                let host = lower_seq(auth.subrange(at + 1, auth.len() as int));
                let path = trim_char_seq(u.subrange(colon + 1, u.len() as int), '/');
                if host.len() == 0 || path.len() == 0 {
                    None
                } else {
                    Some((host, path))
                }
            }
        }
    }
}

/// A host as written in a URL: not empty, with no `/` and no `@`.
pub open spec fn plain_host(h: Seq<char>) -> bool {
    h.len() > 0 && forall|i: int| 0 <= i < h.len() ==> #[trigger] h[i] != '/' && h[i] != '@'
}

/// One segment of a repository path: not empty, with no `/`.
pub open spec fn plain_segment(x: Seq<char>) -> bool {
    x.len() > 0 && forall|i: int| 0 <= i < x.len() ==> #[trigger] x[i] != '/'
}

/// After any prefix, `host/owner/name` parses to the lowercased host and
/// the path `owner/name`.
proof fn lemma_authority_parts(p: Seq<char>, h: Seq<char>, owner: Seq<char>, name: Seq<char>)
    requires
        plain_host(h),
        plain_segment(owner),
        plain_segment(name),
    ensures
        authority_and_path(p + h + seq!['/'] + owner + seq!['/'] + name, p.len() as int) == Some(
            (lower_seq(h), owner + seq!['/'] + name),
        ),
{
    let rest = owner + seq!['/'] + name;
    let u = p + h + seq!['/'] + rest;
    assert(p + h + seq!['/'] + owner + seq!['/'] + name =~= u);
    let s0 = p.len() as int;
    let k = s0 + h.len();
    assert(u[k] == '/');
    assert forall|j: int| s0 <= j < k implies u[j] != '/' by {
        assert(u[j] == h[j - s0]);
    }
    lemma_index_of_char(u, '/', s0);
    let r = index_of_char(u, '/', s0);
    if r != k {
        if r >= 0 && r < k {
            assert(u[r] != '/');
        }
    }
    assert(r == k);
    let auth = u.subrange(s0, k);
    assert(auth =~= h);
    lemma_last_index_of_char(auth, '@', auth.len() as int);
    let at = last_index_of_char(auth, '@', auth.len() as int);
    if at != -1 {
        assert(auth[at] == '@');
    }
    assert(auth.subrange(at + 1, auth.len() as int) =~= h);
    let tail = u.subrange(k + 1, u.len() as int);
    assert(tail =~= rest);
    assert(rest[0] == owner[0]);
    assert(skip_char_from(rest, '/', 0) == 0);
    assert(rest[rest.len() - 1] == name[name.len() - 1]);
    assert(back_char_to(rest, '/', 0, rest.len() as int) == rest.len());
    assert(rest.subrange(0, rest.len() as int) =~= rest);
}

/// The owner of `owner/name` is `owner`.
proof fn lemma_path_owner_parts(owner: Seq<char>, name: Seq<char>)
    requires
        plain_segment(owner),
    ensures
        path_owner(owner + seq!['/'] + name) == Some(owner),
{
    let rest = owner + seq!['/'] + name;
    lemma_index_of_char(rest, '/', 0);
    let r = index_of_char(rest, '/', 0);
    let k = owner.len() as int;
    assert(rest[k] == '/');
    assert forall|j: int| 0 <= j < k implies rest[j] != '/' by {
        assert(rest[j] == owner[j]);
    }
    if r != k {
        if r >= 0 && r < k {
            assert(rest[r] != '/');
        }
    }
    assert(rest.subrange(0, k) =~= owner);
}

/// An HTTPS remote `https://host/owner/name` is understood by the rule
/// engine and by the credential side alike: both give the lowercased host
/// and the path `owner/name`, whose owner is `owner`. (The same holds for
/// `http://` and `ssh://` remotes in the rule engine.)
pub proof fn lemma_https_remote_parts(h: Seq<char>, owner: Seq<char>, name: Seq<char>)
    requires
        plain_host(h),
        plain_segment(owner),
        plain_segment(name),
    ensures
        any_remote("https://"@ + h + seq!['/'] + owner + seq!['/'] + name) == Some(
            (lower_seq(h), owner + seq!['/'] + name),
        ),
        https_remote("https://"@ + h + seq!['/'] + owner + seq!['/'] + name) == Some(
            (lower_seq(h), owner + seq!['/'] + name),
        ),
        any_remote("http://"@ + h + seq!['/'] + owner + seq!['/'] + name) == Some(
            (lower_seq(h), owner + seq!['/'] + name),
        ),
        any_remote("ssh://"@ + h + seq!['/'] + owner + seq!['/'] + name) == Some(
            (lower_seq(h), owner + seq!['/'] + name),
        ),
        path_owner(owner + seq!['/'] + name) == Some(owner),
{
    reveal_strlit("https://");
    reveal_strlit("http://");
    reveal_strlit("ssh://");
    let hs = "https://"@;
    let ht = "http://"@;
    let sh = "ssh://"@;
    lemma_authority_parts(hs, h, owner, name);
    lemma_authority_parts(ht, h, owner, name);
    lemma_authority_parts(sh, h, owner, name);
    lemma_path_owner_parts(owner, name);
    let u1 = hs + h + seq!['/'] + owner + seq!['/'] + name;
    let u2 = ht + h + seq!['/'] + owner + seq!['/'] + name;
    let u3 = sh + h + seq!['/'] + owner + seq!['/'] + name;
    assert(u1.subrange(0, hs.len() as int) =~= hs);
    assert(u2.subrange(0, ht.len() as int) =~= ht);
    assert(u2[4] == ':');
    assert(u2.subrange(0, hs.len() as int) != hs) by {
        assert(u2.subrange(0, hs.len() as int)[4] != hs[4]);
    }
    assert(u3.subrange(0, sh.len() as int) =~= sh);
    assert(u3.subrange(0, hs.len() as int) != hs) by {
        assert(u3.subrange(0, hs.len() as int)[0] != hs[0]);
    }
    assert(u3.subrange(0, ht.len() as int) != ht) by {
        assert(u3.subrange(0, ht.len() as int)[0] != ht[0]);
    }
}

/// Parse any supported remote form into `(host, path)`.
pub fn parse_remote(url: &str) -> (r: Option<(String, String)>)
    ensures
        pair_view(r) == any_remote(url@),
{
    let https = "https://";
    let http = "http://";
    let ssh = "ssh://";
    if starts_with(url, https) {
        return authority_and_path_exec(url, https.unicode_len());
    }
    if starts_with(url, http) {
        return authority_and_path_exec(url, http.unicode_len());
    }
    if starts_with(url, ssh) {
        return authority_and_path_exec(url, ssh.unicode_len());
    }
    if contains(url, "://") {
        return None;
    }
    let n = url.unicode_len();
    proof {
        lemma_index_of_char(url@, ':', 0);
    }
    let colon = match find_char(url, ':', 0) {
        Some(k) => k,
        None => {
            return None;
        },
    };
    let auth = substring(url, 0, colon);
    let an = auth.as_str().unicode_len();
    if find_char(auth.as_str(), '/', 0).is_some() {
        return None;
    }
    proof {
        lemma_last_index_of_char(auth@, '@', an as int);
    }
    let host_from = match rfind_char(auth.as_str(), '@', an) {
        Some(a) => a + 1,
        None => 0,
    };
    let host_raw = substring(auth.as_str(), host_from, an);
    let host = to_ascii_lowercase(host_raw.as_str());
    let path = trim_char_range(url, '/', colon + 1, n);
    if host.as_str().unicode_len() == 0 || path.as_str().unicode_len() == 0 {
        None
    } else {
        Some((host, path))
    }
}

/// The owner of a repository path: its first `/`-separated segment, when
/// the path has at least two segments.
pub open spec fn path_owner(path: Seq<char>) -> Option<Seq<char>> {
    let k = index_of_char(path, '/', 0);
    if k <= 0 {
        None
    } else {
        Some(path.subrange(0, k))
    }
}

pub fn owner_of(path: &str) -> (r: Option<String>)
    ensures
        crate::audit::opt_view(r) == path_owner(path@),
{
    proof {
        lemma_index_of_char(path@, '/', 0);
    }
    match find_char(path, '/', 0) {
        Some(k) => {
            if k == 0 {
                None
            } else {
                Some(substring(path, 0, k))
            }
        },
        None => None,
    }
}

} // verus!

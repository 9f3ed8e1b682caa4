//! SSH keys tracked by the application and the entries of the managed
//! block of `~/.ssh/config`.
use vstd::prelude::*;
use crate::error::AppError;
use crate::table::{Record, Table, find_spec, has_id, upsert, without_id};
use crate::audit::opt_view;
use crate::fields::{join_spaced, join_spaced_from, split_whitespace, words};
use crate::text::{
    clone_opt_string, file_name_or_path, lower_char, name_or_path, push_char, starts_with, starts_with_seq,
    str_eq, to_lower_char,
};

verus! {

/// Key algorithms the application can generate and read.
#[derive(Debug, Clone, Copy, PartialEq, Eq, Structural)]
pub enum SshAlgorithm {
    Ed25519,
    Rsa,
    Ecdsa,
}

/// The algorithm that a public key's type field names.
pub open spec fn algorithm_for_tag(t: Seq<char>) -> Option<SshAlgorithm> {
    if t == "ssh-ed25519"@ {
        Some(SshAlgorithm::Ed25519)
    } else if t == "ssh-rsa"@ {
        Some(SshAlgorithm::Rsa)
    } else if starts_with_seq(t, "ecdsa-sha2-"@) {
        Some(SshAlgorithm::Ecdsa)
    } else {
        None
    }
}

/// The comment of a public key line: its fields after the type and the key
/// material, joined by single spaces, or none when there are no such fields.
pub open spec fn key_comment(fields: Seq<Seq<char>>) -> Option<Seq<char>> {
    if fields.len() > 2 {
        Some(join_spaced(fields.subrange(2, fields.len() as int)))
    } else {
        None
    }
}

/// The algorithm and comment of the public key in `text` (an OpenSSH
/// `.pub` file): none when its first field names no supported algorithm.
pub fn parse_public_key(text: &str) -> (r: Option<(SshAlgorithm, Option<String>)>)
    ensures
        match r {
            Some((a, c)) => {
                &&& words(text@).len() > 0
                &&& algorithm_for_tag(words(text@)[0]) == Some(a)
                &&& opt_view(c) == key_comment(words(text@))
            },
            None => words(text@).len() == 0 || algorithm_for_tag(words(text@)[0]) is None,
        },
{
    let fields = split_whitespace(text);
    let ghost ws = fields@.map_values(|w: String| w@);
    if fields.len() == 0 {
        return None;
    }
    assert(ws[0] == fields@[0]@);
    let tag = fields[0].as_str();
    let algorithm = if str_eq(tag, "ssh-ed25519") {
        SshAlgorithm::Ed25519
    } else if str_eq(tag, "ssh-rsa") {
        SshAlgorithm::Rsa
    } else if starts_with(tag, "ecdsa-sha2-") {
        SshAlgorithm::Ecdsa
    } else {
        return None;
    };
    let comment = if fields.len() > 2 {
        Some(join_spaced_from(&fields, 2))
    } else {
        None
    };
    Some((algorithm, comment))
}

/// The fingerprint in the output of `ssh-keygen -l`: its second field.
pub fn fingerprint_from_listing(listing: &str) -> (r: Option<String>)
    ensures
        opt_view(r) == (if words(listing@).len() > 1 {
            Some(words(listing@)[1])
        } else {
            None::<Seq<char>>
        }),
{
    let fields = split_whitespace(listing);
    if fields.len() > 1 {
        let ghost ws = fields@.map_values(|w: String| w@);
        assert(ws[1] == fields@[1]@);
        Some(fields[1].clone())
    } else {
        None
    }
}

/// What reading a private key yields.
#[derive(Debug, Clone)]
pub struct SshKeyMetadata {
    pub algorithm: SshAlgorithm,
    pub fingerprint: String,
    pub comment: Option<String>,
    pub public_key_path: Option<String>,
}

impl SshKeyMetadata {
    pub fn duplicate(&self) -> (r: Self)
        ensures
            r == *self,
    {
        SshKeyMetadata {
            algorithm: self.algorithm,
            fingerprint: self.fingerprint.clone(),
            comment: clone_opt_string(&self.comment),
            public_key_path: clone_opt_string(&self.public_key_path),
        }
    }
}

/// A key file found by a scan, with its metadata when it could be read.
#[derive(Debug, Clone)]
pub struct SshCandidate {
    pub path: String,
    pub metadata: Option<SshKeyMetadata>,
}

/// A tracked key. The application only references key files; it never
/// deletes them.
#[derive(Debug, Clone)]
pub struct SshKey {
    pub id: u128,
    pub label: String,
    pub algorithm: SshAlgorithm,
    pub fingerprint: String,
    pub private_key_path: String,
    pub public_key_path: Option<String>,
    pub comment: Option<String>,
    pub assigned_profile_id: Option<u128>,
    pub host_alias: Option<String>,
    pub host_name: Option<String>,
    /// Milliseconds since the Unix epoch.
    pub created_at: i64,
    /// Imported explicitly rather than found by a scan or generated.
    pub imported: bool,
    pub last_used: Option<i64>,
}

impl Record for SshKey {
    open spec fn id_of(&self) -> u128 {
        self.id
    }

    fn id(&self) -> (r: u128) {
        self.id
    }

    fn duplicate(&self) -> (r: Self) {
        SshKey {
            id: self.id,
            label: self.label.clone(),
            algorithm: self.algorithm,
            fingerprint: self.fingerprint.clone(),
            private_key_path: self.private_key_path.clone(),
            public_key_path: clone_opt_string(&self.public_key_path),
            comment: clone_opt_string(&self.comment),
            assigned_profile_id: self.assigned_profile_id,
            host_alias: clone_opt_string(&self.host_alias),
            host_name: clone_opt_string(&self.host_name),
            created_at: self.created_at,
            imported: self.imported,
            last_used: self.last_used,
        }
    }
}

/// A key pair written by the key generator.
#[derive(Debug, Clone)]
pub struct GeneratedKey {
    pub private_key_path: String,
    pub public_key_path: String,
    pub fingerprint: String,
    pub comment: Option<String>,
}

/// What the user asks the generator for.
#[derive(Debug, Clone)]
pub struct GenerateParams {
    pub label: String,
    pub algorithm: SshAlgorithm,
    pub comment: Option<String>,
    pub output_dir: String,
    pub file_name: String,
    pub host_alias: Option<String>,
    pub host_name: Option<String>,
}

/// One `Host` entry of the managed block.
#[derive(Debug, Clone)]
pub struct SshConfigEntry {
    pub host_alias: String,
    pub host_name: String,
    pub user: String,
    pub identity_file: String,
}

/// The managed block of `~/.ssh/config` as last written, and the raw text of
/// the file as last read.
pub struct SshConfig {
    pub managed: Vec<SshConfigEntry>,
    pub raw: String,
}

impl SshConfig {
    pub fn new(raw: String) -> (c: Self)
        ensures
            c.managed@.len() == 0,
            c.raw == raw,
    {
        SshConfig { managed: Vec::new(), raw }
    }
}

/// Index of the first key at or after `i` whose private key is `path`, or -1.
pub open spec fn path_index_from(s: Seq<SshKey>, path: Seq<char>, i: int) -> int
    decreases s.len() - i,
{
    if i < 0 || i >= s.len() {
        -1
    } else if s[i].private_key_path@ == path {
        i
    } else {
        path_index_from(s, path, i + 1)
    }
}

/// The first key whose private key is `path`.
pub open spec fn find_by_path_spec(s: Seq<SshKey>, path: Seq<char>) -> Option<SshKey> {
    let k = path_index_from(s, path, 0);
    if k >= 0 {
        Some(s[k])
    } else {
        None
    }
}

pub proof fn lemma_path_index_from(s: Seq<SshKey>, path: Seq<char>, i: int)
    requires
        0 <= i <= s.len(),
    ensures
        -1 <= path_index_from(s, path, i) < s.len(),
        path_index_from(s, path, i) >= 0 ==> i <= path_index_from(s, path, i),
        path_index_from(s, path, i) >= 0 ==> s[path_index_from(s, path, i)].private_key_path@ == path,
    decreases s.len() - i,
{
    if i < s.len() && s[i].private_key_path@ != path {
        lemma_path_index_from(s, path, i + 1);
    }
}

/// The tracked keys.
pub struct SshStore {
    pub keys: Table<SshKey>,
}

impl SshStore {
    pub fn new() -> (s: Self)
        ensures
            s.keys@ == Seq::<SshKey>::empty(),
    {
        SshStore { keys: Table::new() }
    }

    pub fn load_all(&self) -> (v: Vec<SshKey>)
        ensures
            v@ == self.keys@,
    {
        self.keys.load_all()
    }

    pub fn find(&self, id: u128) -> (r: Option<SshKey>)
        ensures
            r == find_spec(self.keys@, id),
    {
        self.keys.find(id)
    }

    /// The key whose private key file is `path`.
    pub fn find_by_path(&self, path: &str) -> (r: Option<SshKey>)
        ensures
            r == find_by_path_spec(self.keys@, path@),
    {
        let mut i: usize = 0;
        while i < self.keys.len()
            invariant
                i <= self.keys@.len(),
                path_index_from(self.keys@, path@, 0) == path_index_from(self.keys@, path@, i as int),
            decreases self.keys@.len() - i,
        {
            if str_eq(self.keys.at(i).private_key_path.as_str(), path) {
                return Some(self.keys.at(i).duplicate());
            }
            i = i + 1;
        }
        None
    }

    pub fn save(&mut self, key: SshKey)
        ensures
            final(self).keys@ == upsert(old(self).keys@, key),
    {
        self.keys.save(key);
    }

    pub fn delete(&mut self, id: u128) -> (r: Result<(), AppError>)
        ensures
            r is Ok <==> has_id(old(self).keys@, id),
            r is Ok ==> final(self).keys@ == without_id(old(self).keys@, id),
            r is Err ==> final(self).keys@ == old(self).keys@ && r->Err_0 is NotFound,
    {
        self.keys.delete(id)
    }
}

/// A key's default label: its file name, or the whole path.
pub fn label_from_path(path: &str) -> (r: String)
    ensures
        r@ == name_or_path(path@),
{
    file_name_or_path(path)
}

/// `char::is_ascii_alphanumeric`.
pub open spec fn is_ascii_alnum(c: char) -> bool {
    ('0' <= c && c <= '9') || ('a' <= c && c <= 'z') || ('A' <= c && c <= 'Z')
}

/// The alias characters before trailing dashes are trimmed: ASCII
/// alphanumerics lowercased; any run of other characters after the first
/// alphanumeric becomes one `-`.
pub open spec fn slug_chars(s: Seq<char>) -> Seq<char>
    decreases s.len(),
{
    if s.len() == 0 {
        Seq::empty()
    } else {
        let o = slug_chars(s.drop_last());
        let c = s.last();
        if is_ascii_alnum(c) {
            o.push(lower_char(c))
        } else if o.len() > 0 && o.last() != '-' {
            o.push('-')
        } else {
            o
        }
    }
}

/// `s` with every trailing `-` removed.
pub open spec fn trim_end_dashes(s: Seq<char>) -> Seq<char>
    decreases s.len(),
{
    if s.len() > 0 && s.last() == '-' {
        trim_end_dashes(s.drop_last())
    } else {
        s
    }
}

/// A safe `Host` alias for a label; `profile` when nothing is left.
pub open spec fn slug_spec(s: Seq<char>) -> Seq<char> {
    let t = trim_end_dashes(slug_chars(s));
    if t.len() == 0 {
        "profile"@
    } else {
        t
    }
}

/// A character a slug may hold: a lowercase ASCII alphanumeric or `-`.
pub open spec fn alias_char(c: char) -> bool {
    ('0' <= c && c <= '9') || ('a' <= c && c <= 'z') || c == '-'
}

/// A well-formed `Host` alias: non-empty, only lowercase ASCII
/// alphanumerics and `-`, no `-` at either end and never two in a row.
pub open spec fn safe_alias(r: Seq<char>) -> bool {
    &&& r.len() > 0
    &&& forall|i: int| 0 <= i < r.len() ==> alias_char(#[trigger] r[i])
    &&& r[0] != '-'
    &&& r.last() != '-'
    &&& forall|i: int| 0 <= i < r.len() - 1 ==> !(#[trigger] r[i] == '-' && r[i + 1] == '-')
}

proof fn lemma_slug_chars(s: Seq<char>)
    ensures
        forall|i: int| 0 <= i < slug_chars(s).len() ==> alias_char(#[trigger] slug_chars(s)[i]),
        slug_chars(s).len() > 0 ==> slug_chars(s)[0] != '-',
        forall|i: int|
            0 <= i < slug_chars(s).len() - 1 ==> !(#[trigger] slug_chars(s)[i] == '-' && slug_chars(s)[i
                + 1] == '-'),
    decreases s.len(),
{
    if s.len() > 0 {
        let o = slug_chars(s.drop_last());
        lemma_slug_chars(s.drop_last());
        let c = s.last();
        let r = slug_chars(s);
        if is_ascii_alnum(c) {
            let l = lower_char(c);
            if 'A' <= c && c <= 'Z' {
                assert(65 <= c as u32 <= 90);
                assert('a' <= l && l <= 'z');
            }
            assert(r == o.push(l));
            assert forall|i: int| 0 <= i < r.len() implies alias_char(#[trigger] r[i]) by {
                if i < o.len() {
                    assert(r[i] == o[i]);
                }
            }
            assert forall|i: int| 0 <= i < r.len() - 1 implies !(#[trigger] r[i] == '-' && r[i + 1] == '-') by {
                if i < o.len() - 1 {
                    assert(r[i] == o[i] && r[i + 1] == o[i + 1]);
                }
            }
        } else if o.len() > 0 && o.last() != '-' {
            assert(r == o.push('-'));
            assert forall|i: int| 0 <= i < r.len() implies alias_char(#[trigger] r[i]) by {
                if i < o.len() {
                    assert(r[i] == o[i]);
                }
            }
            assert forall|i: int| 0 <= i < r.len() - 1 implies !(#[trigger] r[i] == '-' && r[i + 1] == '-') by {
                if i < o.len() - 1 {
                    assert(r[i] == o[i] && r[i + 1] == o[i + 1]);
                } else {
                    assert(r[i] == o.last());
                }
            }
        }
    }
}

proof fn lemma_trim_end_dashes(s: Seq<char>)
    ensures
        trim_end_dashes(s).len() <= s.len(),
        trim_end_dashes(s) == s.subrange(0, trim_end_dashes(s).len() as int),
        trim_end_dashes(s).len() > 0 ==> trim_end_dashes(s).last() != '-',
    decreases s.len(),
{
    if s.len() > 0 && s.last() == '-' {
        lemma_trim_end_dashes(s.drop_last());
        let t = trim_end_dashes(s.drop_last());
        assert(s.drop_last().subrange(0, t.len() as int) =~= s.subrange(0, t.len() as int));
    } else {
        assert(s.subrange(0, s.len() as int) =~= s);
    }
}

/// Every slug is a safe `Host` alias: lowercase alphanumerics with single
/// `-` between runs, none at either end, never empty.
pub proof fn lemma_slug_is_safe_alias(s: Seq<char>)
    ensures
        safe_alias(slug_spec(s)),
{
    let o = slug_chars(s);
    lemma_slug_chars(s);
    lemma_trim_end_dashes(o);
    let t = trim_end_dashes(o);
    if t.len() == 0 {
        reveal_strlit("profile");
        let p = "profile"@;
        assert forall|i: int| 0 <= i < p.len() implies alias_char(#[trigger] p[i]) by {}
    } else {
        assert forall|i: int| 0 <= i < t.len() implies alias_char(#[trigger] t[i]) by {
            assert(t[i] == o[i]);
        }
        assert(t[0] == o[0]);
        assert forall|i: int| 0 <= i < t.len() - 1 implies !(#[trigger] t[i] == '-' && t[i + 1] == '-') by {
            assert(t[i] == o[i] && t[i + 1] == o[i + 1]);
        }
    }
}

/// The ASCII alphanumerics of `s`, lowercased, in order.
pub open spec fn lower_alnums(s: Seq<char>) -> Seq<char>
    decreases s.len(),
{
    if s.len() == 0 {
        Seq::empty()
    } else if is_ascii_alnum(s.last()) {
        lower_alnums(s.drop_last()).push(lower_char(s.last()))
    } else {
        lower_alnums(s.drop_last())
    }
}

/// `s` with every `-` removed.
pub open spec fn drop_dashes(s: Seq<char>) -> Seq<char>
    decreases s.len(),
{
    if s.len() == 0 {
        Seq::empty()
    } else if s.last() == '-' {
        drop_dashes(s.drop_last())
    } else {
        drop_dashes(s.drop_last()).push(s.last())
    }
}

proof fn lemma_slug_chars_letters(s: Seq<char>)
    ensures
        drop_dashes(slug_chars(s)) == lower_alnums(s),
        lower_alnums(s).len() == 0 ==> slug_chars(s).len() == 0,
    decreases s.len(),
{
    if s.len() > 0 {
        lemma_slug_chars_letters(s.drop_last());
        let o = slug_chars(s.drop_last());
        let c = s.last();
        if is_ascii_alnum(c) {
            let l = lower_char(c);
            assert(l != '-');
            assert(o.push(l).drop_last() =~= o);
        } else if o.len() > 0 && o.last() != '-' {
            assert(o.push('-').drop_last() =~= o);
        }
    }
}

proof fn lemma_drop_dashes_trim(s: Seq<char>)
    ensures
        drop_dashes(trim_end_dashes(s)) == drop_dashes(s),
    decreases s.len(),
{
    if s.len() > 0 && s.last() == '-' {
        lemma_drop_dashes_trim(s.drop_last());
    }
}

/// The letters of a slug are the input's: with its dashes removed, a slug
/// is the input's ASCII alphanumerics lowercased, in order; an input with
/// none gives `profile`.
pub proof fn lemma_slug_letters(s: Seq<char>)
    ensures
        lower_alnums(s).len() == 0 ==> slug_spec(s) == "profile"@,
        lower_alnums(s).len() > 0 ==> drop_dashes(slug_spec(s)) == lower_alnums(s),
{
    lemma_slug_chars_letters(s);
    let o = slug_chars(s);
    lemma_drop_dashes_trim(o);
    let t = trim_end_dashes(o);
    if lower_alnums(s).len() == 0 {
        assert(o.len() == 0);
    } else if t.len() == 0 {
        assert(drop_dashes(t).len() == 0);
    }
}

/// Slugging a slug changes nothing.
pub proof fn lemma_slug_idempotent(s: Seq<char>)
    ensures
        slug_spec(slug_spec(s)) == slug_spec(s),
{
    lemma_slug_is_safe_alias(s);
    lemma_slug_of_safe_alias(slug_spec(s));
}

proof fn lemma_slug_of_safe_alias(r: Seq<char>)
    requires
        safe_alias(r),
    ensures
        slug_spec(r) == r,
{
    assert forall|k: int| 0 <= k <= r.len() implies #[trigger] slug_chars(r.subrange(0, k)) == r.subrange(0, k) by {
        lemma_slug_chars_prefix(r, k);
    }
    assert(r.subrange(0, r.len() as int) =~= r);
    assert(slug_chars(r) == r);
}

proof fn lemma_slug_chars_prefix(r: Seq<char>, k: int)
    requires
        safe_alias(r),
        0 <= k <= r.len(),
    ensures
        slug_chars(r.subrange(0, k)) == r.subrange(0, k),
    decreases k,
{
    if k > 0 {
        lemma_slug_chars_prefix(r, k - 1);
        let pre = r.subrange(0, k);
        let o = r.subrange(0, k - 1);
        assert(pre.drop_last() =~= o);
        let c = r[k - 1];
        assert(pre.last() == c);
        assert(alias_char(c));
        if c == '-' {
            assert(k - 1 > 0);
            assert(!(r[k - 2] == '-' && r[k - 1] == '-'));
            assert(o.last() == r[k - 2]);
            assert(o.push('-') =~= pre);
        } else {
            assert(is_ascii_alnum(c));
            assert(lower_char(c) == c);
            assert(o.push(c) =~= pre);
        }
    } else {
        assert(r.subrange(0, 0) =~= Seq::<char>::empty());
    }
}

/// Slugify a label into a safe `Host` alias: lowercase ASCII alphanumerics,
/// with each run of other characters collapsed to one `-`, no trailing `-`,
/// and `profile` when nothing is left.
pub fn slug(input: &str) -> (r: String)
    ensures
        r@ == slug_spec(input@),
{
    let n = input.unicode_len();
    let mut out: Vec<char> = Vec::new();
    let mut i: usize = 0;
    while i < n
        invariant
            n == input@.len(),
            i <= n,
            out@ == slug_chars(input@.subrange(0, i as int)),
        decreases n - i,
    {
        let c = input.get_char(i);
        proof {
            assert(input@.subrange(0, i + 1).drop_last() =~= input@.subrange(0, i as int));
        }
        if ('0' <= c && c <= '9') || ('a' <= c && c <= 'z') || ('A' <= c && c <= 'Z') {
            out.push(to_lower_char(c));
        } else if out.len() > 0 && out[out.len() - 1] != '-' {
            out.push('-');
        }
        i = i + 1;
    }
    assert(input@.subrange(0, n as int) =~= input@);
    let ghost full = out@;
    let mut end: usize = out.len();
    assert(full.subrange(0, end as int) =~= full);
    while end > 0 && out[end - 1] == '-'
        invariant
            end <= out@.len(),
            out@ == full,
            trim_end_dashes(full) == trim_end_dashes(full.subrange(0, end as int)),
        decreases end,
    {
        assert(full.subrange(0, end as int).drop_last() =~= full.subrange(0, end - 1));
        end = end - 1;
    }
    assert(trim_end_dashes(full.subrange(0, end as int)) == full.subrange(0, end as int));
    if end == 0 {
        return String::from_str("profile");
    }
    let mut s = String::new();
    let mut k: usize = 0;
    while k < end
        invariant
            end <= out@.len(),
            out@ == full,
            k <= end,
            s@ == full.subrange(0, k as int),
        decreases end - k,
    {
        push_char(&mut s, out[k]);
        k = k + 1;
        assert(s@ =~= full.subrange(0, k as int));
    }
    s
}

} // verus!

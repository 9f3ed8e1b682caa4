//! Tracked repositories and repository groups ("ecosystems").
use vstd::prelude::*;
use crate::audit::{AuditLog, appended, opt_view};
use crate::error::{AppError, ErrorKind, err_kind};
use crate::ids::now_millis;
use crate::table::{Record, Table, find_spec, first_index, has_id, lemma_first_index, upsert, without_id};
use crate::text::{clone_opt_string, eq_ignore_ascii_case, eq_ignore_case_seq, file_name_or_path, name_or_path, starts_with, starts_with_seq, str_eq, substring, trim, trim_seq};

verus! {

/// A tracked Git repository.
#[derive(Debug, Clone)]
pub struct Repo {
    pub id: u128,
    pub name: String,
    pub path: String,
    pub git_root: String,
    pub active_branch: Option<String>,
    /// The manually assigned profile.
    pub active_profile_id: Option<u128>,
    pub remote_origin: Option<String>,
    pub last_opened: Option<i64>,
    pub favorite: bool,
    pub detected_at: i64,
    pub group_id: Option<u128>,
    /// Whether the path existed when last checked (refreshed by the host).
    pub path_exists: bool,
}

impl Record for Repo {
    open spec fn id_of(&self) -> u128 {
        self.id
    }

    fn id(&self) -> (r: u128) {
        self.id
    }

    fn duplicate(&self) -> (r: Self) {
        Repo {
            id: self.id,
            name: self.name.clone(),
            path: self.path.clone(),
            git_root: self.git_root.clone(),
            active_branch: clone_opt_string(&self.active_branch),
            active_profile_id: self.active_profile_id,
            remote_origin: clone_opt_string(&self.remote_origin),
            last_opened: self.last_opened,
            favorite: self.favorite,
            detected_at: self.detected_at,
            group_id: self.group_id,
            path_exists: self.path_exists,
        }
    }
}

/// A named group of repositories.
#[derive(Debug, Clone)]
pub struct RepoGroup {
    pub id: u128,
    pub name: String,
    pub color: Option<String>,
    pub created_at: i64,
}

impl Record for RepoGroup {
    open spec fn id_of(&self) -> u128 {
        self.id
    }

    fn id(&self) -> (r: u128) {
        self.id
    }

    fn duplicate(&self) -> (r: Self) {
        RepoGroup {
            id: self.id,
            name: self.name.clone(),
            color: clone_opt_string(&self.color),
            created_at: self.created_at,
        }
    }
}

/// What Git reports about a repository.
#[derive(Debug, Clone, Default)]
pub struct RepoMetadata {
    pub active_branch: Option<String>,
    pub remote_origin: Option<String>,
}

/// Progress of a filesystem scan (reported by the host's scanner).
#[derive(Debug, Clone, Copy)]
pub struct ScanProgress {
    pub scanned_dirs: u32,
    pub found_repos: u32,
}

/// Index of the first repository at `root` from position `i` on, or -1.
pub open spec fn root_index_from(s: Seq<Repo>, root: Seq<char>, i: int) -> int
    decreases s.len() - i,
{
    if i < 0 || i >= s.len() {
        -1
    } else if s[i].git_root@ == root {
        i
    } else {
        root_index_from(s, root, i + 1)
    }
}

/// The first repository whose Git root is `root`.
pub open spec fn find_by_root_spec(s: Seq<Repo>, root: Seq<char>) -> Option<Repo> {
    let k = root_index_from(s, root, 0);
    if k >= 0 {
        Some(s[k])
    } else {
        None
    }
}

pub proof fn lemma_root_index_from(s: Seq<Repo>, root: Seq<char>, i: int)
    requires
        0 <= i <= s.len(),
    ensures
        -1 <= root_index_from(s, root, i) < s.len(),
        root_index_from(s, root, i) >= 0 ==> s[root_index_from(s, root, i)].git_root@ == root,
    decreases s.len() - i,
{
    if i < s.len() && s[i].git_root@ != root {
        lemma_root_index_from(s, root, i + 1);
    }
}

/// `s` with every reference to group `gid` cleared.
pub open spec fn detached(s: Seq<Repo>, gid: u128) -> Seq<Repo> {
    Seq::new(
        s.len(),
        |i: int|
            if s[i].group_id == Some(gid) {
                Repo { group_id: None, ..s[i] }
            } else {
                s[i]
            },
    )
}

/// The persisted repositories and groups.
pub struct RepoStore {
    pub repos: Table<Repo>,
    pub groups: Table<RepoGroup>,
}

impl RepoStore {
    pub fn new() -> (s: Self)
        ensures
            s.repos@ == Seq::<Repo>::empty(),
            s.groups@ == Seq::<RepoGroup>::empty(),
    {
        RepoStore { repos: Table::new(), groups: Table::new() }
    }

    pub fn load_all(&self) -> (v: Vec<Repo>)
        ensures
            v@ == self.repos@,
    {
        self.repos.load_all()
    }

    pub fn find(&self, id: u128) -> (r: Option<Repo>)
        ensures
            r == find_spec(self.repos@, id),
    {
        self.repos.find(id)
    }

    /// The repository rooted at `git_root`.
    pub fn find_by_git_root(&self, git_root: &str) -> (r: Option<Repo>)
        ensures
            r == find_by_root_spec(self.repos@, git_root@),
    {
        let mut i: usize = 0;
        while i < self.repos.len()
            invariant
                i <= self.repos@.len(),
                root_index_from(self.repos@, git_root@, 0) == root_index_from(
                    self.repos@,
                    git_root@,
                    i as int,
                ),
            decreases self.repos@.len() - i,
        {
            if str_eq(self.repos.at(i).git_root.as_str(), git_root) {
                return Some(self.repos.at(i).duplicate());
            }
            i = i + 1;
        }
        None
    }

    pub fn save(&mut self, repo: Repo)
        ensures
            final(self).repos@ == upsert(old(self).repos@, repo),
            final(self).groups@ == old(self).groups@,
    {
        self.repos.save(repo);
    }

    pub fn delete(&mut self, id: u128) -> (r: Result<(), AppError>)
        ensures
            r is Ok <==> has_id(old(self).repos@, id),
            r is Ok ==> final(self).repos@ == without_id(old(self).repos@, id),
            r is Err ==> final(self).repos@ == old(self).repos@ && r->Err_0 is NotFound,
            final(self).groups@ == old(self).groups@,
    {
        self.repos.delete(id)
    }

    pub fn load_groups(&self) -> (v: Vec<RepoGroup>)
        ensures
            v@ == self.groups@,
    {
        self.groups.load_all()
    }

    pub fn save_group(&mut self, group: RepoGroup)
        ensures
            final(self).groups@ == upsert(old(self).groups@, group),
            final(self).repos@ == old(self).repos@,
    {
        self.groups.save(group);
    }

    /// Delete a group and detach every repository that referenced it.
    pub fn delete_group(&mut self, id: u128) -> (r: Result<(), AppError>)
        ensures
            r is Ok <==> has_id(old(self).groups@, id),
            r is Ok ==> final(self).groups@ == without_id(old(self).groups@, id) && final(self).repos@ == detached(old(self).repos@, id),
            r is Err ==> final(self).groups@ == old(self).groups@ && final(self).repos@ == old(self).repos@ && r->Err_0 is NotFound,
    {
        let r = self.groups.delete(id);
        if r.is_err() {
            return r;
        }
        let repos = self.repos.load_all();
        let mut out: Vec<Repo> = Vec::new();
        let mut i: usize = 0;
        while i < repos.len()
            invariant
                i <= repos@.len(),
                out@ == detached(repos@, id).subrange(0, i as int),
            decreases repos@.len() - i,
        {
            let mut x = repos[i].duplicate();
            if x.group_id == Some(id) {
                x.group_id = None;
            }
            out.push(x);
            i = i + 1;
            assert(out@ =~= detached(repos@, id).subrange(0, i as int));
        }
        assert(out@ =~= detached(repos@, id));
        self.repos.save_all(out);
        Ok(())
    }
}

/// A repository's display name: the last component of its root.
pub fn repo_name(git_root: &str) -> (r: String)
    ensures
        r@ == name_or_path(git_root@),
{
    file_name_or_path(git_root)
}

/// The branch a `.git/HEAD` file names: its trimmed text after
/// `ref: refs/heads/`, or none for a detached head or any other content.
pub open spec fn branch_of_head(head: Seq<char>) -> Option<Seq<char>> {
    let t = trim_seq(head);
    let p = "ref: refs/heads/"@;
    if starts_with_seq(t, p) {
        Some(t.subrange(p.len() as int, t.len() as int))
    } else {
        None
    }
}

/// The checked-out branch, read from the text of `.git/HEAD`.
pub fn branch_from_head(head: &str) -> (r: Option<String>)
    ensures
        opt_view(r) == branch_of_head(head@),
{
    let t = trim(head);
    let p = "ref: refs/heads/";
    if starts_with(t.as_str(), p) {
        let from = p.unicode_len();
        let to = t.as_str().unicode_len();
        Some(substring(t.as_str(), from, to))
    } else {
        None
    }
}

/// Refresh the derived `path_exists` flag (the host checks the filesystem).
pub fn annotate_path(repo: Repo, exists: bool) -> (r: Repo)
    ensures
        r == (Repo { path_exists: exists, ..repo }),
{
    let mut repo = repo;
    repo.path_exists = exists;
    repo
}

/// `r` is `e` with refreshed Git metadata.
pub open spec fn refreshed(r: Repo, e: Repo, meta: RepoMetadata) -> bool {
    r == (Repo { active_branch: meta.active_branch, remote_origin: meta.remote_origin, ..e })
}

/// `r` is a newly discovered repository at `root`.
pub open spec fn discovered(r: Repo, root: Seq<char>, meta: RepoMetadata) -> bool {
    &&& r.name@ == name_or_path(root)
    &&& r.path@ == root
    &&& r.git_root@ == root
    &&& r.active_branch == meta.active_branch
    &&& r.remote_origin == meta.remote_origin
    &&& r.active_profile_id is None
    &&& r.last_opened is None
    &&& !r.favorite
    &&& r.group_id is None
    &&& r.path_exists
}

/// One scan step for `root`: refresh the tracked repository, or add a new one.
pub open spec fn scan_step(prev: Seq<Repo>, next: Seq<Repo>, root: Seq<char>, meta: RepoMetadata) -> bool {
    match find_by_root_spec(prev, root) {
        Some(e) => next == upsert(prev, Repo { active_branch: meta.active_branch, remote_origin: meta.remote_origin, ..e }),
        None => exists|r: Repo|
            discovered(r, root, meta) && !has_id(prev, r.id) && next == #[trigger] upsert(prev, r),
    }
}

/// `trace` runs the scan steps for `roots` from `trace[0]` to `trace.last()`.
pub open spec fn scan_trace(trace: Seq<Seq<Repo>>, roots: Seq<String>, metas: Seq<RepoMetadata>) -> bool {
    &&& trace.len() == roots.len() + 1
    &&& forall|k: int|
        0 <= k < roots.len() ==> scan_step(#[trigger] trace[k], trace[k + 1], roots[k]@, metas[k])
}

/// No two repositories share an id.
pub open spec fn ids_distinct(s: Seq<Repo>) -> bool {
    forall|i: int, j: int| 0 <= i < j < s.len() ==> #[trigger] s[i].id != #[trigger] s[j].id
}

/// Every step of the trace that added a repository appended it: the ids the
/// scan drew were fresh.
pub open spec fn repo_adds_fresh(t: Seq<Seq<Repo>>, roots: Seq<String>) -> bool {
    forall|k: int|
        0 <= k < roots.len() && find_by_root_spec(#[trigger] t[k], roots[k]@) is None ==> t[k + 1].len()
            == t[k].len() + 1
}

/// A scan adds one repository for each root it does not track yet.
proof fn lemma_scan_adds_fresh(t: Seq<Seq<Repo>>, roots: Seq<String>, metas: Seq<RepoMetadata>)
    requires
        scan_trace(t, roots, metas),
    ensures
        repo_adds_fresh(t, roots),
{
    assert forall|k: int|
        0 <= k < roots.len() && find_by_root_spec(#[trigger] t[k], roots[k]@) is None implies t[k + 1].len()
            == t[k].len() + 1 by {
        assert(scan_step(t[k], t[k + 1], roots[k]@, metas[k]));
        let r = choose|r: Repo|
            discovered(r, roots[k]@, metas[k]) && !has_id(t[k], r.id) && t[k + 1] == #[trigger] upsert(t[k], r);
        lemma_first_index(t[k], r.id);
    }
}

/// `a` is `b` with at most its branch and remote changed.
pub open spec fn same_but_metadata(a: Repo, b: Repo) -> bool {
    a == (Repo { active_branch: a.active_branch, remote_origin: a.remote_origin, ..b })
}

/// `a` holds the repositories of `b`, in order, each with at most its branch
/// and remote changed.
pub open spec fn same_repos(a: Seq<Repo>, b: Seq<Repo>) -> bool {
    a.len() == b.len() && forall|i: int| 0 <= i < a.len() ==> same_but_metadata(#[trigger] a[i], b[i])
}

proof fn lemma_root_index_same(s: Seq<Repo>, t: Seq<Repo>, r: Seq<char>, i: int)
    requires
        s.len() == t.len(),
        forall|j: int| 0 <= j < s.len() ==> (#[trigger] s[j]).git_root@ == t[j].git_root@,
    ensures
        root_index_from(s, r, i) == root_index_from(t, r, i),
    decreases s.len() - i,
{
    if 0 <= i < s.len() {
        lemma_root_index_same(s, t, r, i + 1);
    }
}

proof fn lemma_root_index_push(s: Seq<Repo>, x: Repo, r: Seq<char>, i: int)
    requires
        0 <= i <= s.len(),
    ensures
        root_index_from(s, r, i) >= 0 ==> root_index_from(s.push(x), r, i) == root_index_from(s, r, i),
        root_index_from(s, r, i) < 0 && x.git_root@ == r ==> root_index_from(s.push(x), r, i) == s.len(),
    decreases s.len() - i,
{
    if i < s.len() {
        assert(s.push(x)[i] == s[i]);
        lemma_root_index_push(s, x, r, i + 1);
    } else {
        assert(s.push(x)[i] == x);
    }
}

proof fn lemma_first_index_distinct(s: Seq<Repo>, k: int)
    requires
        ids_distinct(s),
        0 <= k < s.len(),
    ensures
        first_index(s, s[k].id) == k,
{
    lemma_first_index(s, s[k].id);
    assert(s[k].id_of() == s[k].id);
    assert(has_id(s, s[k].id));
    let f = first_index(s, s[k].id);
    if f < k {
        assert(s[f].id == s[k].id);
    } else if f > k {
        assert(s[k].id_of() != s[k].id);
    }
}

/// A scan step on a tracked root refreshes that repository in place.
proof fn lemma_refresh_step(prev: Seq<Repo>, next: Seq<Repo>, root: Seq<char>, meta: RepoMetadata)
    requires
        ids_distinct(prev),
        find_by_root_spec(prev, root) is Some,
        scan_step(prev, next, root, meta),
    ensures
        same_repos(next, prev),
        ids_distinct(next),
        forall|r: Seq<char>| #[trigger] root_index_from(next, r, 0) == root_index_from(prev, r, 0),
        0 <= root_index_from(prev, root, 0) < prev.len(),
        has_meta(next[root_index_from(prev, root, 0)], meta),
        forall|i: int|
            0 <= i < next.len() && i != root_index_from(prev, root, 0) ==> #[trigger] next[i] == prev[i],
{
    lemma_root_index_from(prev, root, 0);
    let k = root_index_from(prev, root, 0);
    let e = prev[k];
    let e2 = Repo { active_branch: meta.active_branch, remote_origin: meta.remote_origin, ..e };
    lemma_first_index_distinct(prev, k);
    assert(next == prev.update(k, e2));
    assert forall|i: int| 0 <= i < next.len() implies same_but_metadata(#[trigger] next[i], prev[i]) by {
        if i == k {
            assert(next[i] == e2);
        } else {
            assert(next[i] == prev[i]);
        }
    }
    assert forall|i: int, j: int| 0 <= i < j < next.len() implies #[trigger] next[i].id != #[trigger] next[j].id by {
        assert(next[i].id == prev[i].id && next[j].id == prev[j].id);
    }
    assert forall|r: Seq<char>| #[trigger] root_index_from(next, r, 0) == root_index_from(prev, r, 0) by {
        assert forall|j: int| 0 <= j < next.len() implies (#[trigger] next[j]).git_root@ == prev[j].git_root@ by {
            assert(same_but_metadata(next[j], prev[j]));
        }
        lemma_root_index_same(next, prev, r, 0);
    }
}

/// A scan step on an untracked root that grows the store appends the new
/// repository under an unused id.
proof fn lemma_new_step(prev: Seq<Repo>, next: Seq<Repo>, root: Seq<char>, meta: RepoMetadata)
    requires
        ids_distinct(prev),
        find_by_root_spec(prev, root) is None,
        scan_step(prev, next, root, meta),
        next.len() == prev.len() + 1,
    ensures
        ids_distinct(next),
        next == prev.push(next.last()),
        next.last().git_root@ == root,
        has_meta(next.last(), meta),
{
    let r = choose|r: Repo| discovered(r, root, meta) && next == #[trigger] upsert(prev, r);
    lemma_first_index(prev, r.id_of());
    assert(first_index(prev, r.id_of()) < 0);
    assert(next == prev.push(r));
    assert forall|i: int, j: int| 0 <= i < j < next.len() implies #[trigger] next[i].id != #[trigger] next[j].id by {
        if j == prev.len() {
            assert(next[i] == prev[i]);
            assert(prev[i].id_of() != r.id_of());
        } else {
            assert(next[i] == prev[i] && next[j] == prev[j]);
        }
    }
}

/// After the first `n` steps of a scan that added repositories under fresh
/// ids, ids are still distinct and every root among those steps is tracked.
proof fn lemma_scan_tracks(t: Seq<Seq<Repo>>, roots: Seq<String>, metas: Seq<RepoMetadata>, n: int)
    requires
        scan_trace(t, roots, metas),
        repo_adds_fresh(t, roots),
        ids_distinct(t[0]),
        0 <= n <= roots.len(),
    ensures
        ids_distinct(t[n]),
        forall|k: int| 0 <= k < n ==> find_by_root_spec(t[n], #[trigger] roots[k]@) is Some,
    decreases n,
{
    if n > 0 {
        let j = n - 1;
        lemma_scan_tracks(t, roots, metas, j);
        let prev = t[j];
        let next = t[n];
        assert(scan_step(prev, next, roots[j]@, metas[j]));
        if find_by_root_spec(prev, roots[j]@) is Some {
            lemma_refresh_step(prev, next, roots[j]@, metas[j]);
            assert forall|k: int| 0 <= k < n implies find_by_root_spec(next, #[trigger] roots[k]@) is Some by {
                assert(root_index_from(next, roots[k]@, 0) == root_index_from(prev, roots[k]@, 0));
            }
        } else {
            lemma_new_step(prev, next, roots[j]@, metas[j]);
            assert forall|k: int| 0 <= k < n implies find_by_root_spec(next, #[trigger] roots[k]@) is Some by {
                lemma_root_index_push(prev, next.last(), roots[k]@, 0);
            }
        }
    }
}

/// Scanning again from a state that tracks every root refreshes in place.
proof fn lemma_rescan(t: Seq<Seq<Repo>>, roots: Seq<String>, metas: Seq<RepoMetadata>, k: int)
    requires
        scan_trace(t, roots, metas),
        ids_distinct(t[0]),
        forall|j: int| 0 <= j < roots.len() ==> find_by_root_spec(t[0], #[trigger] roots[j]@) is Some,
        0 <= k <= roots.len(),
    ensures
        same_repos(t[k], t[0]),
        ids_distinct(t[k]),
        forall|r: Seq<char>| #[trigger] root_index_from(t[k], r, 0) == root_index_from(t[0], r, 0),
    decreases k,
{
    if k > 0 {
        let j = k - 1;
        lemma_rescan(t, roots, metas, j);
        assert(root_index_from(t[j], roots[j]@, 0) == root_index_from(t[0], roots[j]@, 0));
        assert(find_by_root_spec(t[0], roots[j]@) is Some);
        assert(scan_step(t[j], t[k], roots[j]@, metas[j]));
        lemma_refresh_step(t[j], t[k], roots[j]@, metas[j]);
        assert forall|i: int| 0 <= i < t[k].len() implies same_but_metadata(#[trigger] t[k][i], t[0][i]) by {
            assert(same_but_metadata(t[k][i], t[j][i]));
            assert(same_but_metadata(t[j][i], t[0][i]));
        }
        assert forall|r: Seq<char>| #[trigger] root_index_from(t[k], r, 0) == root_index_from(t[0], r, 0) by {
            assert(root_index_from(t[k], r, 0) == root_index_from(t[j], r, 0));
            assert(root_index_from(t[j], r, 0) == root_index_from(t[0], r, 0));
        }
    }
}

/// The repository carries the branch and remote of `m`.
pub open spec fn has_meta(x: Repo, m: RepoMetadata) -> bool {
    x.active_branch == m.active_branch && x.remote_origin == m.remote_origin
}

/// The metadata of the last of the first `k` scan steps for root `r`.
pub open spec fn last_meta(roots: Seq<String>, metas: Seq<RepoMetadata>, k: int, r: Seq<char>) -> Option<
    RepoMetadata,
>
    decreases k,
{
    if k <= 0 {
        None
    } else if roots[k - 1]@ == r {
        Some(metas[k - 1])
    } else {
        last_meta(roots, metas, k - 1, r)
    }
}

proof fn lemma_last_meta_some(roots: Seq<String>, metas: Seq<RepoMetadata>, k: int, j: int)
    requires
        0 <= j < k,
    ensures
        last_meta(roots, metas, k, roots[j]@) is Some,
    decreases k,
{
    if roots[k - 1]@ != roots[j]@ {
        lemma_last_meta_some(roots, metas, k - 1, j);
    }
}

/// After the first `n` steps of a scan that added repositories under fresh
/// ids, each root's repository carries the metadata of the root's last step.
proof fn lemma_scan_metas(t: Seq<Seq<Repo>>, roots: Seq<String>, metas: Seq<RepoMetadata>, n: int)
    requires
        scan_trace(t, roots, metas),
        repo_adds_fresh(t, roots),
        ids_distinct(t[0]),
        0 <= n <= roots.len(),
    ensures
        forall|j: int|
            0 <= j < n ==> {
                let i = root_index_from(t[n], #[trigger] roots[j]@, 0);
                &&& 0 <= i < t[n].len()
                &&& last_meta(roots, metas, n, roots[j]@) is Some
                &&& has_meta(t[n][i], last_meta(roots, metas, n, roots[j]@)->Some_0)
            },
    decreases n,
{
    if n > 0 {
        let k = n - 1;
        lemma_scan_metas(t, roots, metas, k);
        lemma_scan_tracks(t, roots, metas, k);
        let prev = t[k];
        let next = t[n];
        let q = roots[k]@;
        assert(scan_step(prev, next, q, metas[k]));
        if find_by_root_spec(prev, q) is Some {
            lemma_refresh_step(prev, next, q, metas[k]);
            assert forall|j: int| 0 <= j < n implies {
                let i = root_index_from(next, #[trigger] roots[j]@, 0);
                &&& 0 <= i < next.len()
                &&& last_meta(roots, metas, n, roots[j]@) is Some
                &&& has_meta(next[i], last_meta(roots, metas, n, roots[j]@)->Some_0)
            } by {
                let r = roots[j]@;
                assert(root_index_from(next, r, 0) == root_index_from(prev, r, 0));
                if r != q {
                    lemma_root_index_from(prev, r, 0);
                    lemma_root_index_from(prev, q, 0);
                    let i = root_index_from(prev, r, 0);
                    assert(i != root_index_from(prev, q, 0));
                    assert(next[i] == prev[i]);
                }
            }
        } else {
            lemma_new_step(prev, next, q, metas[k]);
            assert forall|j: int| 0 <= j < n implies {
                let i = root_index_from(next, #[trigger] roots[j]@, 0);
                &&& 0 <= i < next.len()
                &&& last_meta(roots, metas, n, roots[j]@) is Some
                &&& has_meta(next[i], last_meta(roots, metas, n, roots[j]@)->Some_0)
            } by {
                let r = roots[j]@;
                lemma_root_index_push(prev, next.last(), r, 0);
                lemma_root_index_from(prev, r, 0);
                if r != q {
                    let i = root_index_from(prev, r, 0);
                    assert(next[i] == prev[i]);
                } else {
                    assert(next[prev.len() as int] == next.last());
                }
            }
        }
    }
}

/// Index `i` is the repository of one of the first `k` roots.
pub open spec fn touched(s: Seq<Repo>, roots: Seq<String>, k: int, i: int) -> bool {
    exists|j: int| 0 <= j < k && #[trigger] root_index_from(s, roots[j]@, 0) == i
}

/// Scanning again from a state that tracks every root: each root's
/// repository takes the metadata of the root's last step so far, the others
/// are unchanged.
proof fn lemma_rescan_metas(t: Seq<Seq<Repo>>, roots: Seq<String>, metas: Seq<RepoMetadata>, k: int)
    requires
        scan_trace(t, roots, metas),
        ids_distinct(t[0]),
        forall|j: int| 0 <= j < roots.len() ==> find_by_root_spec(t[0], #[trigger] roots[j]@) is Some,
        0 <= k <= roots.len(),
    ensures
        forall|j: int|
            0 <= j < k ==> has_meta(
                t[k][root_index_from(t[0], #[trigger] roots[j]@, 0)],
                last_meta(roots, metas, k, roots[j]@)->Some_0,
            ),
        forall|i: int| 0 <= i < t[0].len() && !touched(t[0], roots, k, i) ==> #[trigger] t[k][i] == t[0][i],
    decreases k,
{
    if k > 0 {
        let p = k - 1;
        lemma_rescan_metas(t, roots, metas, p);
        lemma_rescan(t, roots, metas, p);
        let q = roots[p]@;
        assert(root_index_from(t[p], q, 0) == root_index_from(t[0], q, 0));
        assert(find_by_root_spec(t[0], q) is Some);
        assert(scan_step(t[p], t[k], q, metas[p]));
        lemma_refresh_step(t[p], t[k], q, metas[p]);
        let iq = root_index_from(t[0], q, 0);
        assert forall|j: int| 0 <= j < k implies has_meta(
            t[k][root_index_from(t[0], #[trigger] roots[j]@, 0)],
            last_meta(roots, metas, k, roots[j]@)->Some_0,
        ) by {
            let r = roots[j]@;
            let i = root_index_from(t[0], r, 0);
            if r != q {
                lemma_root_index_from(t[0], r, 0);
                lemma_root_index_from(t[0], q, 0);
                assert(find_by_root_spec(t[0], r) is Some);
                assert(i != iq);
                assert(t[k][i] == t[p][i]);
            }
        }
        assert forall|i: int| 0 <= i < t[0].len() && !touched(t[0], roots, k, i) implies #[trigger] t[k][i]
            == t[0][i] by {
            assert(!touched(t[0], roots, p, i)) by {
                if touched(t[0], roots, p, i) {
                    let j = choose|j: int| 0 <= j < p && #[trigger] root_index_from(t[0], roots[j]@, 0) == i;
                    assert(root_index_from(t[0], roots[j]@, 0) == i);
                }
            }
            assert(i != iq) by {
                if i == iq {
                    assert(root_index_from(t[0], roots[p]@, 0) == i);
                }
            }
            assert(t[k][i] == t[p][i]);
        }
    }
}

/// No two repositories share a Git root.
pub open spec fn roots_distinct(s: Seq<Repo>) -> bool {
    forall|i: int, j: int| 0 <= i < j < s.len() ==> #[trigger] s[i].git_root@ != #[trigger] s[j].git_root@
}

proof fn lemma_root_absent(s: Seq<Repo>, r: Seq<char>, i: int)
    requires
        0 <= i <= s.len(),
        root_index_from(s, r, i) == -1,
    ensures
        forall|j: int| i <= j < s.len() ==> #[trigger] s[j].git_root@ != r,
    decreases s.len() - i,
{
    if i < s.len() {
        lemma_root_absent(s, r, i + 1);
    }
}

proof fn lemma_scan_keeps_upto(t: Seq<Seq<Repo>>, roots: Seq<String>, metas: Seq<RepoMetadata>, n: int)
    requires
        scan_trace(t, roots, metas),
        ids_distinct(t[0]),
        roots_distinct(t[0]),
        0 <= n <= roots.len(),
    ensures
        roots_distinct(t[n]),
        t[0].len() <= t[n].len(),
        forall|i: int| 0 <= i < t[0].len() ==> same_but_metadata(#[trigger] t[n][i], t[0][i]),
    decreases n,
{
    if n > 0 {
        let j = n - 1;
        lemma_scan_keeps_upto(t, roots, metas, j);
        lemma_scan_adds_fresh(t, roots, metas);
        lemma_scan_tracks(t, roots, metas, j);
        let prev = t[j];
        let next = t[n];
        let s0 = t[0];
        assert(scan_step(prev, next, roots[j]@, metas[j]));
        if find_by_root_spec(prev, roots[j]@) is Some {
            lemma_refresh_step(prev, next, roots[j]@, metas[j]);
            assert forall|a: int, b: int| 0 <= a < b < next.len() implies #[trigger] next[a].git_root@
                != #[trigger] next[b].git_root@ by {
                assert(same_but_metadata(next[a], prev[a]));
                assert(same_but_metadata(next[b], prev[b]));
            }
            assert forall|i: int| 0 <= i < s0.len() implies same_but_metadata(#[trigger] next[i], s0[i]) by {
                assert(same_but_metadata(next[i], prev[i]));
                assert(same_but_metadata(prev[i], s0[i]));
            }
        } else {
            assert(next.len() == prev.len() + 1);
            lemma_new_step(prev, next, roots[j]@, metas[j]);
            lemma_root_index_from(prev, roots[j]@, 0);
            lemma_root_absent(prev, roots[j]@, 0);
            assert forall|a: int, b: int| 0 <= a < b < next.len() implies #[trigger] next[a].git_root@
                != #[trigger] next[b].git_root@ by {
                assert(next[a] == prev[a]);
                if b < prev.len() {
                    assert(next[b] == prev[b]);
                }
            }
            assert forall|i: int| 0 <= i < s0.len() implies same_but_metadata(#[trigger] next[i], s0[i]) by {
                assert(next[i] == prev[i]);
            }
        }
    }
}

/// One scan leaves exactly one repository per root: when the store's ids
/// and Git roots are distinct, after a scan every scanned root is tracked,
/// by one repository only, holding the metadata last read for it; ids and
/// roots stay distinct, and every repository the store held is still in
/// place, changed at most in its branch and remote.
pub proof fn lemma_scan_one_repo_per_root(t: Seq<Seq<Repo>>, roots: Seq<String>, metas: Seq<RepoMetadata>)
    requires
        scan_trace(t, roots, metas),
        ids_distinct(t[0]),
        roots_distinct(t[0]),
    ensures
        ids_distinct(t.last()),
        roots_distinct(t.last()),
        t[0].len() <= t.last().len(),
        forall|i: int| 0 <= i < t[0].len() ==> same_but_metadata(#[trigger] t.last()[i], t[0][i]),
        forall|k: int|
            0 <= k < roots.len() ==> {
                let i = root_index_from(t.last(), #[trigger] roots[k]@, 0);
                &&& 0 <= i < t.last().len()
                &&& has_meta(t.last()[i], last_meta(roots, metas, roots.len() as int, roots[k]@)->Some_0)
                &&& forall|q: int| 0 <= q < t.last().len() && t.last()[q].git_root@ == roots[k]@ ==> q == i
            },
{
    let n = roots.len() as int;
    lemma_scan_adds_fresh(t, roots, metas);
    lemma_scan_tracks(t, roots, metas, n);
    lemma_scan_metas(t, roots, metas, n);
    lemma_scan_keeps_upto(t, roots, metas, n);
    assert(t.last() == t[n]);
    let last = t[n];
    assert forall|k: int| 0 <= k < roots.len() implies {
        let i = root_index_from(last, #[trigger] roots[k]@, 0);
        &&& 0 <= i < last.len()
        &&& has_meta(last[i], last_meta(roots, metas, n, roots[k]@)->Some_0)
        &&& forall|q: int| 0 <= q < last.len() && last[q].git_root@ == roots[k]@ ==> q == i
    } by {
        let i = root_index_from(last, roots[k]@, 0);
        lemma_root_index_from(last, roots[k]@, 0);
        assert forall|q: int| 0 <= q < last.len() && last[q].git_root@ == roots[k]@ implies q == i by {
            if q < i {
                assert(last[q].git_root@ != last[i].git_root@);
            } else if q > i {
                assert(last[i].git_root@ != last[q].git_root@);
            }
        }
    }
}

/// Scanning is idempotent: when the store's ids are distinct, a second scan
/// with the same roots and metadata leaves the store exactly as the first
/// left it.
pub proof fn lemma_rescan_idempotent(
    t1: Seq<Seq<Repo>>,
    t2: Seq<Seq<Repo>>,
    roots: Seq<String>,
    metas: Seq<RepoMetadata>,
)
    requires
        scan_trace(t1, roots, metas),
        ids_distinct(t1[0]),
        scan_trace(t2, roots, metas),
        t2[0] == t1.last(),
    ensures
        t2.last() == t2[0],
{
    lemma_scan_adds_fresh(t1, roots, metas);
    let n = roots.len() as int;
    lemma_scan_tracks(t1, roots, metas, n);
    lemma_scan_metas(t1, roots, metas, n);
    assert(t1.last() == t1[n]);
    lemma_rescan(t2, roots, metas, n);
    lemma_rescan_metas(t2, roots, metas, n);
    assert(t2.last() == t2[n]);
    let a = t2[n];
    let b = t2[0];
    assert forall|i: int| 0 <= i < a.len() implies #[trigger] a[i] == b[i] by {
        assert(same_but_metadata(a[i], b[i]));
        if touched(b, roots, n, i) {
            let j = choose|j: int| 0 <= j < n && #[trigger] root_index_from(b, roots[j]@, 0) == i;
            assert(has_meta(a[i], last_meta(roots, metas, n, roots[j]@)->Some_0));
            assert(has_meta(b[i], last_meta(roots, metas, n, roots[j]@)->Some_0));
        }
    }
    assert(a =~= b);
}

/// The error `validate_group_name` reports: blank, over 60 characters once
/// trimmed, or (ignoring ASCII case) the name of another group.
pub open spec fn group_name_error(groups: Seq<RepoGroup>, name: Seq<char>, exclude: Option<u128>) -> Option<
    ErrorKind,
> {
    let t = trim_seq(name);
    if t.len() == 0 {
        Some(ErrorKind::Validation)
    } else if t.len() > 60 {
        Some(ErrorKind::Validation)
    } else if exists|i: int|
        0 <= i < groups.len() && Some(groups[i].id) != exclude && eq_ignore_case_seq(
            #[trigger] groups[i].name@,
            t,
        ) {
        Some(ErrorKind::Conflict)
    } else {
        None
    }
}

/// Repository management.
pub struct RepoService {}

impl RepoService {
    pub fn new() -> (s: Self) {
        RepoService {  }
    }

    /// Every tracked repository (as stored; `annotate_path` refreshes the
    /// existence flag).
    pub fn list(&self, store: &RepoStore) -> (v: Vec<Repo>)
        ensures
            v@ == store.repos@,
    {
        store.load_all()
    }

    /// The repository with that id.
    pub fn get(&self, store: &RepoStore, id: u128) -> (r: Result<Repo, AppError>)
        ensures
            r is Ok <==> find_spec(store.repos@, id) is Some,
            r matches Ok(x) ==> Some(x) == find_spec(store.repos@, id),
            r is Err ==> err_kind(r) == Some(ErrorKind::NotFound),
    {
        match store.find(id) {
            Some(r) => Ok(r),
            None => Err(AppError::NotFound(String::from_str("repo not found"))),
        }
    }

    /// Merge the repositories a scan found (their roots, with the metadata
    /// read for each) into the store: tracked repositories get their branch
    /// and remote refreshed, keeping every user-owned field; new ones are
    /// added. Records `repo.scan` and returns every repository.
    pub fn scan(
        &self,
        store: &mut RepoStore,
        audit: &mut AuditLog,
        git_roots: &Vec<String>,
        metas: Vec<RepoMetadata>,
    ) -> (v: Vec<Repo>)
        requires
            metas@.len() == git_roots@.len(),
        ensures
            exists|trace: Seq<Seq<Repo>>|
                scan_trace(trace, git_roots@, metas@) && trace[0] == old(store).repos@
                    && #[trigger] trace.last() == final(store).repos@,
            final(store).groups@ == old(store).groups@,
            appended(old(audit).view(), final(audit).view(), "repo.scan"@, None, None),
            v@ == final(store).repos@,
    {
        let ghost metas0 = metas@;
        let mut metas = metas;
        let mut rev: Vec<RepoMetadata> = Vec::new();
        while metas.len() > 0
            invariant
                metas@ == metas0.subrange(0, metas@.len() as int),
                rev@.len() + metas@.len() == metas0.len(),
                forall|t: int|
                    0 <= t < rev@.len() ==> #[trigger] rev@[t] == metas0[metas0.len() - 1 - t],
            decreases metas@.len(),
        {
            let m = metas.pop().unwrap();
            rev.push(m);
        }
        let ghost mut trace: Seq<Seq<Repo>> = seq![store.repos@];
        let mut i: usize = 0;
        let n = git_roots.len();
        while i < n
            invariant
                n == git_roots@.len() == metas0.len(),
                i <= n,
                rev@.len() == n - i,
                forall|t: int| 0 <= t < rev@.len() ==> #[trigger] rev@[t] == metas0[n - 1 - t],
                trace.len() == i + 1,
                trace[0] == old(store).repos@,
                trace.last() == store.repos@,
                store.groups@ == old(store).groups@,
                forall|k: int|
                    0 <= k < i ==> scan_step(#[trigger] trace[k], trace[k + 1], git_roots@[k]@, metas0[k]),
            decreases n - i,
        {
            let meta = rev.pop().unwrap();
            assert(meta == metas0[i as int]);
            let root = &git_roots[i];
            let ghost prev = store.repos@;
            proof {
                lemma_root_index_from(prev, root@, 0);
            }
            match store.find_by_git_root(root.as_str()) {
                Some(existing) => {
                    let mut existing = existing;
                    existing.active_branch = meta.active_branch;
                    existing.remote_origin = meta.remote_origin;
                    store.save(existing);
                },
                None => {
                    let id = store.repos.fresh_id();
                    let repo = Repo {
                        id,
                        name: repo_name(root.as_str()),
                        path: root.clone(),
                        git_root: root.clone(),
                        active_branch: meta.active_branch,
                        active_profile_id: None,
                        remote_origin: meta.remote_origin,
                        last_opened: None,
                        favorite: false,
                        detected_at: now_millis(),
                        group_id: None,
                        path_exists: true,
                    };
                    let ghost r = repo;
                    store.save(repo);
                    assert(discovered(r, root@, metas0[i as int]));
                },
            }
            proof {
                let next = store.repos@;
                assert(scan_step(prev, next, git_roots@[i as int]@, metas0[i as int]));
                let t2 = trace.push(next);
                assert forall|k: int| 0 <= k < i + 1 implies scan_step(
                    #[trigger] t2[k],
                    t2[k + 1],
                    git_roots@[k]@,
                    metas0[k],
                ) by {
                    if k < i {
                        assert(t2[k] == trace[k] && t2[k + 1] == trace[k + 1]);
                    }
                }
                trace = t2;
            }
            i = i + 1;
        }
        audit.record("repo.scan", None, None);
        assert(scan_trace(trace, git_roots@, metas0));
        store.load_all()
    }

    /// Re-read a repository's Git metadata (read by the host and passed in).
    pub fn refresh(&self, store: &mut RepoStore, audit: &mut AuditLog, id: u128, meta: RepoMetadata) -> (r:
        Result<Repo, AppError>)
        ensures
            r is Ok <==> find_spec(old(store).repos@, id) is Some,
            r is Err ==> err_kind(r) == Some(ErrorKind::NotFound) && final(store).repos@ == old(store).repos@ && final(audit).view() == old(audit).view(),
            r matches Ok(x) ==> {
                &&& refreshed(x, find_spec(old(store).repos@, id)->Some_0, meta)
                &&& final(store).repos@ == upsert(old(store).repos@, x)
                &&& appended(old(audit).view(), final(audit).view(), "repo.refresh"@, None, Some(x.path@))
            },
            final(store).groups@ == old(store).groups@,
    {
        let mut repo = self.get(store, id)?;
        repo.active_branch = meta.active_branch;
        repo.remote_origin = meta.remote_origin;
        store.save(repo.duplicate());
        audit.record("repo.refresh", None, Some(repo.path.clone()));
        Ok(repo)
    }

    /// Stop tracking a repository (never touches the files).
    pub fn remove(&self, store: &mut RepoStore, audit: &mut AuditLog, id: u128) -> (r: Result<
        (),
        AppError,
    >)
        ensures
            r is Ok <==> find_spec(old(store).repos@, id) is Some,
            r is Err ==> err_kind(r) == Some(ErrorKind::NotFound) && final(store).repos@ == old(store).repos@ && final(audit).view() == old(audit).view(),
            r is Ok ==> final(store).repos@ == without_id(old(store).repos@, id) && appended(
                old(audit).view(),
                final(audit).view(),
                "repo.remove"@,
                None,
                Some(find_spec(old(store).repos@, id)->Some_0.path@),
            ),
            final(store).groups@ == old(store).groups@,
    {
        let repo = self.get(store, id)?;
        proof {
            lemma_first_index(store.repos@, id);
        }
        let deleted = store.delete(id);
        if deleted.is_err() {
            return Err(AppError::NotFound(String::from_str("repo not found")));
        }
        audit.record("repo.remove", None, Some(repo.path));
        Ok(())
    }

    /// Assign (or clear) the repository's profile.
    pub fn assign_profile(
        &self,
        store: &mut RepoStore,
        audit: &mut AuditLog,
        id: u128,
        profile_id: Option<u128>,
    ) -> (r: Result<Repo, AppError>)
        ensures
            r is Ok <==> find_spec(old(store).repos@, id) is Some,
            r is Err ==> err_kind(r) == Some(ErrorKind::NotFound) && final(store).repos@ == old(store).repos@ && final(audit).view() == old(audit).view(),
            r matches Ok(x) ==> {
                &&& x == (Repo { active_profile_id: profile_id, ..find_spec(old(store).repos@, id)->Some_0 })
                &&& final(store).repos@ == upsert(old(store).repos@, x)
                &&& appended(
                    old(audit).view(),
                    final(audit).view(),
                    "repo.assign"@,
                    profile_id,
                    Some(x.path@),
                )
            },
            final(store).groups@ == old(store).groups@,
    {
        let mut repo = self.get(store, id)?;
        repo.active_profile_id = profile_id;
        store.save(repo.duplicate());
        audit.record("repo.assign", profile_id, Some(repo.path.clone()));
        Ok(repo)
    }

    /// Flip the favorite flag.
    pub fn toggle_favorite(&self, store: &mut RepoStore, id: u128) -> (r: Result<Repo, AppError>)
        ensures
            r is Ok <==> find_spec(old(store).repos@, id) is Some,
            r is Err ==> err_kind(r) == Some(ErrorKind::NotFound) && final(store).repos@ == old(store).repos@,
            r matches Ok(x) ==> {
                let e = find_spec(old(store).repos@, id)->Some_0;
                &&& x == (Repo { favorite: !e.favorite, ..e })
                &&& final(store).repos@ == upsert(old(store).repos@, x)
            },
            final(store).groups@ == old(store).groups@,
    {
        let mut repo = self.get(store, id)?;
        repo.favorite = !repo.favorite;
        store.save(repo.duplicate());
        Ok(repo)
    }

    /// Record that the repository was opened.
    pub fn mark_opened(&self, store: &mut RepoStore, id: u128) -> (r: Result<Repo, AppError>)
        ensures
            r is Ok <==> find_spec(old(store).repos@, id) is Some,
            r is Err ==> err_kind(r) == Some(ErrorKind::NotFound) && final(store).repos@ == old(store).repos@,
            r matches Ok(x) ==> {
                let e = find_spec(old(store).repos@, id)->Some_0;
                &&& x.last_opened is Some
                &&& x == (Repo { last_opened: x.last_opened, ..e })
                &&& final(store).repos@ == upsert(old(store).repos@, x)
            },
            final(store).groups@ == old(store).groups@,
    {
        let mut repo = self.get(store, id)?;
        repo.last_opened = Some(now_millis());
        store.save(repo.duplicate());
        Ok(repo)
    }

    /// Every group.
    pub fn list_groups(&self, store: &RepoStore) -> (v: Vec<RepoGroup>)
        ensures
            v@ == store.groups@,
    {
        store.load_groups()
    }

    /// The group with that id.
    pub fn find_group(&self, store: &RepoStore, id: u128) -> (r: Result<RepoGroup, AppError>)
        ensures
            r is Ok <==> find_spec(store.groups@, id) is Some,
            r matches Ok(g) ==> Some(g) == find_spec(store.groups@, id),
            r is Err ==> err_kind(r) == Some(ErrorKind::NotFound),
    {
        match store.groups.find(id) {
            Some(g) => Ok(g),
            None => Err(AppError::NotFound(String::from_str("repo group not found"))),
        }
    }

    /// Trim a group name and reject blanks, names over 60 characters and
    /// (case-insensitive) duplicates other than `exclude`.
    pub fn validate_group_name(&self, store: &RepoStore, name: &str, exclude: Option<u128>) -> (r:
        Result<String, AppError>)
        ensures
            err_kind(r) == group_name_error(store.groups@, name@, exclude),
            r matches Ok(t) ==> t@ == trim_seq(name@),
    {
        let trimmed = trim(name);
        let n = trimmed.as_str().unicode_len();
        if n == 0 {
            return Err(AppError::Validation(String::from_str("group name is required")));
        }
        if n > 60 {
            return Err(AppError::Validation(String::from_str("group name is too long")));
        }
        let groups = store.load_groups();
        let mut i: usize = 0;
        while i < groups.len()
            invariant
                i <= groups@.len(),
                groups@ == store.groups@,
                trimmed@ == trim_seq(name@),
                0 < trimmed@.len() <= 60,
                forall|k: int|
                    0 <= k < i ==> !(Some(groups@[k].id) != exclude && eq_ignore_case_seq(
                        #[trigger] groups@[k].name@,
                        trimmed@,
                    )),
            decreases groups@.len() - i,
        {
            if Some(groups[i].id) != exclude && eq_ignore_ascii_case(
                groups[i].name.as_str(),
                trimmed.as_str(),
            ) {
                assert(eq_ignore_case_seq(store.groups@[i as int].name@, trimmed@));
                let mut msg = String::from_str("a group named \"");
                msg.append(trimmed.as_str());
                msg.append("\" already exists");
                return Err(AppError::Conflict(msg));
            }
            i = i + 1;
        }
        Ok(trimmed)
    }

    /// Create a group.
    pub fn create_group(
        &self,
        store: &mut RepoStore,
        audit: &mut AuditLog,
        name: &str,
        color: Option<String>,
    ) -> (r: Result<RepoGroup, AppError>)
        ensures
            err_kind(r) == group_name_error(old(store).groups@, name@, None),
            r is Err ==> final(store).groups@ == old(store).groups@ && final(audit).view() == old(audit).view(),
            r matches Ok(g) ==> {
                &&& g.name@ == trim_seq(name@)
                &&& g.color == color
                &&& !has_id(old(store).groups@, g.id)
                &&& final(store).groups@ == old(store).groups@.push(g)
                &&& appended(old(audit).view(), final(audit).view(), "repo.group.create"@, None, None)
            },
            final(store).repos@ == old(store).repos@,
    {
        let name = self.validate_group_name(store, name, None)?;
        let id = store.groups.fresh_id();
        proof {
            lemma_first_index(store.groups@, id);
        }
        let group = RepoGroup { id, name, color, created_at: now_millis() };
        store.save_group(group.duplicate());
        audit.record("repo.group.create", None, None);
        Ok(group)
    }

    /// Rename and recolor a group.
    pub fn update_group(&self, store: &mut RepoStore, id: u128, name: &str, color: Option<String>) -> (r:
        Result<RepoGroup, AppError>)
        ensures
            err_kind(r) == match find_spec(old(store).groups@, id) {
                None => Some(ErrorKind::NotFound),
                Some(_) => group_name_error(old(store).groups@, name@, Some(id)),
            },
            r is Err ==> final(store).groups@ == old(store).groups@,
            r matches Ok(g) ==> {
                let before = find_spec(old(store).groups@, id)->Some_0;
                &&& g.id == id
                &&& g.name@ == trim_seq(name@)
                &&& g.color == color
                &&& g.created_at == before.created_at
                &&& final(store).groups@ == upsert(old(store).groups@, g)
            },
            final(store).repos@ == old(store).repos@,
    {
        let mut group = self.find_group(store, id)?;
        proof {
            lemma_first_index(store.groups@, id);
        }
        group.name = self.validate_group_name(store, name, Some(id))?;
        group.color = color;
        store.save_group(group.duplicate());
        Ok(group)
    }

    /// Delete a group; its repositories become ungrouped.
    pub fn delete_group(&self, store: &mut RepoStore, audit: &mut AuditLog, id: u128) -> (r: Result<
        (),
        AppError,
    >)
        ensures
            r is Ok <==> find_spec(old(store).groups@, id) is Some,
            r is Err ==> err_kind(r) == Some(ErrorKind::NotFound) && final(store).groups@ == old(store).groups@ && final(store).repos@ == old(store).repos@ && final(audit).view() == old(audit).view(),
            r is Ok ==> {
                &&& final(store).groups@ == without_id(old(store).groups@, id)
                &&& final(store).repos@ == detached(old(store).repos@, id)
                &&& appended(old(audit).view(), final(audit).view(), "repo.group.delete"@, None, None)
            },
    {
        self.find_group(store, id)?;
        proof {
            lemma_first_index(store.groups@, id);
        }
        let deleted = store.delete_group(id);
        if deleted.is_err() {
            return Err(AppError::NotFound(String::from_str("repo group not found")));
        }
        audit.record("repo.group.delete", None, None);
        Ok(())
    }

    /// Move a repository into a group, or out of any group with `None`.
    pub fn set_group(
        &self,
        store: &mut RepoStore,
        audit: &mut AuditLog,
        id: u128,
        group_id: Option<u128>,
    ) -> (r: Result<Repo, AppError>)
        ensures
            err_kind(r) == if group_id matches Some(g) && find_spec(old(store).groups@, g) is None {
                Some(ErrorKind::NotFound)
            } else if find_spec(old(store).repos@, id) is None {
                Some(ErrorKind::NotFound)
            } else {
                None
            },
            r is Err ==> final(store).repos@ == old(store).repos@ && final(audit).view() == old(audit).view(),
            r matches Ok(x) ==> {
                &&& x == (Repo { group_id, ..find_spec(old(store).repos@, id)->Some_0 })
                &&& final(store).repos@ == upsert(old(store).repos@, x)
                &&& appended(
                    old(audit).view(),
                    final(audit).view(),
                    "repo.group.assign"@,
                    None,
                    Some(x.path@),
                )
            },
            final(store).groups@ == old(store).groups@,
    {
        match group_id {
            Some(gid) => {
                self.find_group(store, gid)?;
            },
            None => {},
        }
        let mut repo = self.get(store, id)?;
        repo.group_id = group_id;
        store.save(repo.duplicate());
        audit.record("repo.group.assign", None, Some(repo.path.clone()));
        Ok(repo)
    }
}

} // verus!

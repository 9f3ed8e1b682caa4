//! Commit guard: a managed `pre-commit` hook that checks each commit's author
//! against the identity the repository is expected to use (a matching rule's
//! profile, else the manual assignment). The hook registry models what is
//! installed in each repository and queues the file changes the host must
//! make; installing never destroys a foreign hook, it chains it.
use vstd::prelude::*;
use crate::audit::{AuditLog, appended, opt_view};
use crate::error::{AppError, ErrorKind, err_kind};
use crate::git_config::{GitConfig, LocalIdentity, local_identity_of};
use crate::identity_switch::{chosen_profile, repo_context, resolved_of, rule_result};
use crate::ids::uuid_string;
use crate::profile::{AppSettings, CommitGuardSettings, GuardMode, Identity, Profile, ProfileStore};
use crate::repo::{Repo, RepoStore, find_by_root_spec, lemma_root_index_from};
use crate::rule::{EvaluationContext, Rule, RuleMatch};
use crate::rule_service::{RuleService, RuleStore};
use crate::table::{find_spec, lemma_first_index};
use crate::text::{concat2, str_eq};

verus! {

/// What a repository's `pre-commit` hook is.
#[derive(Debug, Clone, Copy, PartialEq, Eq, Structural)]
pub enum HookState {
    /// No hook.
    NotInstalled,
    /// The managed hook.
    Managed,
    /// The managed hook, running a backed-up foreign hook first.
    ManagedChained,
    /// A hook the application did not write.
    Foreign,
}

/// The identity marker the managed hook checks commits against (empty
/// name and email: allow every commit).
#[derive(Debug, Clone)]
pub struct ExpectedIdentity {
    pub name: String,
    pub email: String,
    pub mode: GuardMode,
}

impl ExpectedIdentity {
    pub fn duplicate(&self) -> (r: Self)
        ensures
            r == *self,
    {
        ExpectedIdentity { name: self.name.clone(), email: self.email.clone(), mode: self.mode }
    }
}

/// A hook change the host makes on disk.
#[derive(Debug, Clone)]
pub enum HookAction {
    /// Write the managed hook and marker (chaining a foreign hook).
    Install { git_root: String, identity: ExpectedIdentity },
    /// Remove the managed hook and marker (restoring a chained hook).
    Uninstall { git_root: String },
}

/// The hook state recorded for one repository.
#[derive(Debug, Clone)]
pub struct HookEntry {
    pub git_root: String,
    pub state: HookState,
    pub marker: Option<ExpectedIdentity>,
}

/// The latest entry recorded for `root`.
pub open spec fn entry_for(s: Seq<HookEntry>, root: Seq<char>) -> Option<HookEntry>
    decreases s.len(),
{
    if s.len() == 0 {
        None
    } else if s.last().git_root@ == root {
        Some(s.last())
    } else {
        entry_for(s.drop_last(), root)
    }
}

/// The hook state of `root`.
pub open spec fn state_of(s: Seq<HookEntry>, root: Seq<char>) -> HookState {
    match entry_for(s, root) {
        Some(e) => e.state,
        None => HookState::NotInstalled,
    }
}

/// The marker of `root`.
pub open spec fn marker_of(s: Seq<HookEntry>, root: Seq<char>) -> Option<ExpectedIdentity> {
    match entry_for(s, root) {
        Some(e) => e.marker,
        None => None,
    }
}

/// Whether the managed hook is in place.
pub open spec fn is_managed(st: HookState) -> bool {
    st == HookState::Managed || st == HookState::ManagedChained
}

/// The state after installing the managed hook.
pub open spec fn installed_state(st: HookState) -> HookState {
    match st {
        HookState::NotInstalled => HookState::Managed,
        HookState::Foreign => HookState::ManagedChained,
        _ => st,
    }
}

/// The state after removing the managed hook.
pub open spec fn uninstalled_state(st: HookState) -> HookState {
    match st {
        HookState::Managed => HookState::NotInstalled,
        HookState::ManagedChained => HookState::Foreign,
        _ => st,
    }
}

/// The managed hooks and the changes queued for the host.
pub struct HookRegistry {
    pub history: Vec<HookEntry>,
    pub pending: Vec<HookAction>,
}

/// `next` is `prev` with the managed hook installed in `root` under `identity`.
pub open spec fn installed(prev: HookRegistry, next: HookRegistry, root: Seq<char>, identity: ExpectedIdentity) -> bool {
    &&& next.history@.len() == prev.history@.len() + 1
    &&& next.history@.drop_last() == prev.history@
    &&& next.history@.last().git_root@ == root
    &&& next.history@.last().state == installed_state(state_of(prev.history@, root))
    &&& next.history@.last().marker == Some(identity)
    &&& next.pending@.len() == prev.pending@.len() + 1
    &&& next.pending@.drop_last() == prev.pending@
    &&& next.pending@.last() matches HookAction::Install { git_root, identity: i } && git_root@ == root
        && i == identity
}

/// `next` is `prev` with the managed hook removed from `root`.
pub open spec fn uninstalled(prev: HookRegistry, next: HookRegistry, root: Seq<char>) -> bool {
    &&& next.history@.len() == prev.history@.len() + 1
    &&& next.history@.drop_last() == prev.history@
    &&& next.history@.last().git_root@ == root
    &&& next.history@.last().state == uninstalled_state(state_of(prev.history@, root))
    &&& next.history@.last().marker is None
    &&& next.pending@.len() == prev.pending@.len() + 1
    &&& next.pending@.drop_last() == prev.pending@
    &&& next.pending@.last() matches HookAction::Uninstall { git_root } && git_root@ == root
}

/// The two registries hold the same history and queue.
pub open spec fn same_hooks(a: HookRegistry, b: HookRegistry) -> bool {
    a.history@ == b.history@ && a.pending@ == b.pending@
}

impl HookRegistry {
    pub fn new() -> (h: Self)
        ensures
            h.history@.len() == 0,
            h.pending@.len() == 0,
    {
        HookRegistry { history: Vec::new(), pending: Vec::new() }
    }

    /// Record the hook state found on disk for a repository.
    pub fn observe(&mut self, git_root: &str, state: HookState, marker: Option<ExpectedIdentity>)
        ensures
            final(self).history@.drop_last() == old(self).history@,
            final(self).history@.len() == old(self).history@.len() + 1,
            final(self).history@.last().git_root@ == git_root@,
            final(self).history@.last().state == state,
            final(self).history@.last().marker == marker,
            final(self).pending@ == old(self).pending@,
    {
        self.history.push(HookEntry { git_root: String::from_str(git_root), state, marker });
        assert(self.history@.drop_last() =~= old(self).history@);
    }

    fn index_of(&self, git_root: &str) -> (r: Option<usize>)
        ensures
            match r {
                Some(k) => k < self.history@.len() && entry_for(self.history@, git_root@) == Some(
                    self.history@[k as int],
                ),
                None => entry_for(self.history@, git_root@) is None,
            },
    {
        let mut i: usize = self.history.len();
        assert(self.history@.subrange(0, i as int) =~= self.history@);
        while i > 0
            invariant
                i <= self.history@.len(),
                entry_for(self.history@, git_root@) == entry_for(
                    self.history@.subrange(0, i as int),
                    git_root@,
                ),
            decreases i,
        {
            assert(self.history@.subrange(0, i as int).drop_last() =~= self.history@.subrange(
                0,
                i - 1,
            ));
            if str_eq(self.history[i - 1].git_root.as_str(), git_root) {
                return Some(i - 1);
            }
            i = i - 1;
        }
        None
    }

    /// The hook state of a repository.
    pub fn hook_state(&self, git_root: &str) -> (r: HookState)
        ensures
            r == state_of(self.history@, git_root@),
    {
        match self.index_of(git_root) {
            Some(k) => self.history[k].state,
            None => HookState::NotInstalled,
        }
    }

    /// The identity marker of a repository.
    pub fn read_marker(&self, git_root: &str) -> (r: Option<ExpectedIdentity>)
        ensures
            r == marker_of(self.history@, git_root@),
    {
        match self.index_of(git_root) {
            Some(k) => match &self.history[k].marker {
                Some(m) => Some(m.duplicate()),
                None => None,
            },
            None => None,
        }
    }

    /// Install (or rewrite) the managed hook and marker.
    pub fn install(&mut self, git_root: &str, identity: &ExpectedIdentity)
        ensures
            installed(*old(self), *final(self), git_root@, *identity),
    {
        let state = self.hook_state(git_root);
        let next = match state {
            HookState::NotInstalled => HookState::Managed,
            HookState::Foreign => HookState::ManagedChained,
            other => other,
        };
        self.history.push(
            HookEntry {
                git_root: String::from_str(git_root),
                state: next,
                marker: Some(identity.duplicate()),
            },
        );
        self.pending.push(
            HookAction::Install { git_root: String::from_str(git_root), identity: identity.duplicate() },
        );
        assert(self.history@.drop_last() =~= old(self).history@);
        assert(self.pending@.drop_last() =~= old(self).pending@);
    }

    /// Remove the managed hook and marker.
    pub fn uninstall(&mut self, git_root: &str)
        ensures
            uninstalled(*old(self), *final(self), git_root@),
    {
        let state = self.hook_state(git_root);
        let next = match state {
            HookState::Managed => HookState::NotInstalled,
            HookState::ManagedChained => HookState::Foreign,
            other => other,
        };
        self.history.push(HookEntry { git_root: String::from_str(git_root), state: next, marker: None });
        self.pending.push(HookAction::Uninstall { git_root: String::from_str(git_root) });
        assert(self.history@.drop_last() =~= old(self).history@);
        assert(self.pending@.drop_last() =~= old(self).pending@);
    }

    /// Hand the queued changes to the host and clear the queue.
    pub fn take_pending(&mut self) -> (v: Vec<HookAction>)
        ensures
            v@ == old(self).pending@,
            final(self).pending@.len() == 0,
            final(self).history@ == old(self).history@,
    {
        let mut v: Vec<HookAction> = Vec::new();
        std::mem::swap(&mut v, &mut self.pending);
        v
    }
}

/// Guard status of one repository.
#[derive(Debug, Clone)]
pub struct RepoGuardStatus {
    pub repo_id: u128,
    pub git_root: String,
    pub repo_name: String,
    pub hook_state: HookState,
    pub protected: bool,
    pub mode: Option<GuardMode>,
    pub expected_profile_id: Option<u128>,
    pub expected_label: Option<String>,
    pub current_email: Option<String>,
    pub identity_matches: Option<bool>,
}

/// Guard status of every repository.
#[derive(Debug, Clone)]
pub struct CommitGuardStatus {
    pub enabled: bool,
    pub mode: GuardMode,
    pub auto_protect: bool,
    pub protected_count: u32,
    pub repos: Vec<RepoGuardStatus>,
}

/// The profile a repository is expected to commit as: its id, identity and label.
pub open spec fn expected_for(pid: Option<u128>, profiles: Seq<Profile>) -> Option<(u128, Identity, String)> {
    match pid {
        Some(id) => match find_spec(profiles, id) {
            Some(p) => Some((id, p.identity, p.label)),
            None => None,
        },
        None => None,
    }
}

/// The expected profile of `repo` when the rules give `m`.
pub open spec fn expected_of(m: Option<RuleMatch>, repo: Repo, profiles: Seq<Profile>) -> Option<(u128, Identity, String)> {
    expected_for(chosen_profile(m, resolved_of(repo)), profiles)
}

/// The marker for an expected profile (empty when there is none).
pub open spec fn marker_for(e: Option<(u128, Identity, String)>, mode: GuardMode) -> (Seq<char>, Seq<char>, GuardMode) {
    match e {
        Some((_, id, _)) => (id.name@, id.email@, mode),
        None => (Seq::empty(), Seq::empty(), mode),
    }
}

pub open spec fn marker_view(m: ExpectedIdentity) -> (Seq<char>, Seq<char>, GuardMode) {
    (m.name@, m.email@, m.mode)
}

/// The local `user.email` of `root`.
pub open spec fn local_email(local: Seq<LocalIdentity>, root: Seq<char>) -> Option<Seq<char>> {
    match local_identity_of(local, root) {
        Some(id) => Some(id.email@),
        None => None,
    }
}

/// `st` is the guard status of `repo`, whose expected profile is `e`.
pub open spec fn reports(
    st: RepoGuardStatus,
    repo: Repo,
    e: Option<(u128, Identity, String)>,
    hooks: Seq<HookEntry>,
    local: Seq<LocalIdentity>,
) -> bool {
    let root = repo.git_root@;
    let hs = state_of(hooks, root);
    let email = local_email(local, root);
    &&& st.repo_id == repo.id
    &&& st.git_root@ == root
    &&& st.repo_name@ == repo.name@
    &&& st.hook_state == hs
    &&& st.protected == is_managed(hs)
    &&& st.mode == match marker_of(hooks, root) {
        Some(m) => Some(m.mode),
        None => None,
    }
    &&& st.expected_profile_id == match e {
        Some((id, _, _)) => Some(id),
        None => None,
    }
    &&& opt_view(st.expected_label) == match e {
        Some((_, _, label)) => Some(label@),
        None => None,
    }
    &&& opt_view(st.current_email) == email
    &&& st.identity_matches == match e {
        Some((_, id, _)) => Some(email == Some(id.email@)),
        None => None,
    }
}

/// `st` is the guard status of `repo` for what the rules give.
pub open spec fn status_of(
    st: RepoGuardStatus,
    repo: Repo,
    rules: Seq<Rule>,
    profiles: Seq<Profile>,
    hooks: Seq<HookEntry>,
    local: Seq<LocalIdentity>,
) -> bool {
    exists|m: Option<RuleMatch>|
        #[trigger] rule_result(rules, repo.git_root@, resolved_of(repo), m) && reports(
            st,
            repo,
            expected_of(m, repo, profiles),
            hooks,
            local,
        )
}

/// How many of `repos` have the managed hook.
pub open spec fn protected_count_of(repos: Seq<Repo>, hooks: Seq<HookEntry>) -> nat
    decreases repos.len(),
{
    if repos.len() == 0 {
        0
    } else {
        protected_count_of(repos.drop_last(), hooks) + if is_managed(
            state_of(hooks, repos.last().git_root@),
        ) {
            1nat
        } else {
            0nat
        }
    }
}

proof fn lemma_protected_count_bound(repos: Seq<Repo>, hooks: Seq<HookEntry>)
    ensures
        protected_count_of(repos, hooks) <= repos.len(),
    decreases repos.len(),
{
    if repos.len() > 0 {
        lemma_protected_count_bound(repos.drop_last(), hooks);
    }
}

/// One reconcile step for `repo`.
pub open spec fn reconcile_step(
    prev: HookRegistry,
    next: HookRegistry,
    repo: Repo,
    cg: CommitGuardSettings,
    rules: Seq<Rule>,
    profiles: Seq<Profile>,
) -> bool {
    let root = repo.git_root@;
    if !cg.enabled {
        if is_managed(state_of(prev.history@, root)) {
            uninstalled(prev, next, root)
        } else {
            same_hooks(next, prev)
        }
    } else {
        exists|m: Option<RuleMatch>|
            {
                &&& #[trigger] rule_result(rules, root, resolved_of(repo), m)
                &&& if is_managed(state_of(prev.history@, root)) || (cg.auto_protect && expected_of(
                    m,
                    repo,
                    profiles,
                ) is Some) {
                    installed_with_marker(prev, next, root, marker_for(expected_of(m, repo, profiles), cg.mode))
                } else {
                    same_hooks(next, prev)
                }
            }
    }
}

/// `next` is `prev` with the managed hook installed in `root` under a marker
/// with that view.
pub open spec fn installed_with_marker(
    prev: HookRegistry,
    next: HookRegistry,
    root: Seq<char>,
    marker: (Seq<char>, Seq<char>, GuardMode),
) -> bool {
    exists|i: ExpectedIdentity| marker_view(i) == marker && #[trigger] installed(prev, next, root, i)
}

/// `trace` runs the reconcile steps over `repos`.
pub open spec fn reconcile_trace(
    trace: Seq<HookRegistry>,
    repos: Seq<Repo>,
    cg: CommitGuardSettings,
    rules: Seq<Rule>,
    profiles: Seq<Profile>,
) -> bool {
    &&& trace.len() == repos.len() + 1
    &&& forall|k: int|
        0 <= k < repos.len() ==> reconcile_step(#[trigger] trace[k], trace[k + 1], repos[k], cg, rules, profiles)
}

/// `new` is `old` after reconciling `repos` under `cg`.
pub open spec fn reconciled(
    old: HookRegistry,
    new: HookRegistry,
    repos: Seq<Repo>,
    cg: CommitGuardSettings,
    rules: Seq<Rule>,
    profiles: Seq<Profile>,
) -> bool {
    exists|trace: Seq<HookRegistry>|
        {
            &&& reconcile_trace(trace, repos, cg, rules, profiles)
            &&& same_hooks(trace[0], old)
            &&& same_hooks(#[trigger] trace.last(), new)
        }
}

/// `s` reports the guard status of `repos` under `cg`.
pub open spec fn reports_status(
    s: CommitGuardStatus,
    cg: CommitGuardSettings,
    repos: Seq<Repo>,
    rules: Seq<Rule>,
    profiles: Seq<Profile>,
    hooks: Seq<HookEntry>,
    local: Seq<LocalIdentity>,
) -> bool {
    &&& s.enabled == cg.enabled
    &&& s.mode == cg.mode
    &&& s.auto_protect == cg.auto_protect
    &&& s.protected_count == protected_count_of(repos, hooks)
    &&& s.repos@.len() == repos.len()
    &&& forall|k: int|
        0 <= k < s.repos@.len() ==> #[trigger] status_of(s.repos@[k], repos[k], rules, profiles, hooks, local)
}

/// Installing the managed hook and removing it again gives back what was
/// there before: nothing, or the user's own hook (installing chains a
/// foreign hook instead of destroying it).
pub proof fn lemma_uninstall_undoes_install(st: HookState)
    requires
        !is_managed(st),
    ensures
        is_managed(installed_state(st)),
        uninstalled_state(installed_state(st)) == st,
        st == HookState::Foreign ==> installed_state(st) == HookState::ManagedChained,
{
}

/// Installing is idempotent: installing over the managed hook (a repair, or
/// a reinstall after a mode change) keeps its state, so a chained foreign
/// hook stays chained; installing twice is installing once; and removing
/// the hook after any number of installs gives back what was there before
/// the first.
pub proof fn lemma_install_idempotent(st: HookState)
    ensures
        is_managed(st) ==> installed_state(st) == st,
        installed_state(installed_state(st)) == installed_state(st),
        !is_managed(st) ==> uninstalled_state(installed_state(installed_state(st))) == st,
        is_managed(st) ==> uninstalled_state(installed_state(st)) == uninstalled_state(st),
{
}

/// In the registry: installing the managed hook in `root`, installing it
/// again (a repair), then removing it, leaves `root` as it was before the
/// first install, the user's own hook included.
pub proof fn lemma_repair_then_uninstall_restores(
    r0: HookRegistry,
    r1: HookRegistry,
    r2: HookRegistry,
    r3: HookRegistry,
    root: Seq<char>,
    first: ExpectedIdentity,
    second: ExpectedIdentity,
)
    requires
        !is_managed(state_of(r0.history@, root)),
        installed(r0, r1, root, first),
        installed(r1, r2, root, second),
        uninstalled(r2, r3, root),
    ensures
        state_of(r2.history@, root) == state_of(r1.history@, root),
        state_of(r3.history@, root) == state_of(r0.history@, root),
{
    assert(r1.history@ == r0.history@.push(r1.history@.last()));
    assert(r2.history@ == r1.history@.push(r2.history@.last()));
    assert(r3.history@ == r2.history@.push(r3.history@.last()));
    lemma_entry_for_push(r0.history@, r1.history@.last(), root);
    lemma_entry_for_push(r1.history@, r2.history@.last(), root);
    lemma_entry_for_push(r2.history@, r3.history@.last(), root);
}

proof fn lemma_entry_for_push(s: Seq<HookEntry>, e: HookEntry, r: Seq<char>)
    ensures
        e.git_root@ == r ==> entry_for(s.push(e), r) == Some(e),
        e.git_root@ != r ==> entry_for(s.push(e), r) == entry_for(s, r),
{
    assert(s.push(e).drop_last() =~= s);
}

/// With the guard turned off, reconciling leaves no managed hook in any
/// tracked repository.
pub proof fn lemma_disabled_guard_removes_hooks(
    trace: Seq<HookRegistry>,
    repos: Seq<Repo>,
    cg: CommitGuardSettings,
    rules: Seq<Rule>,
    profiles: Seq<Profile>,
)
    requires
        reconcile_trace(trace, repos, cg, rules, profiles),
        !cg.enabled,
    ensures
        forall|i: int|
            0 <= i < repos.len() ==> !is_managed(state_of(trace.last().history@, #[trigger] repos[i].git_root@)),
{
    lemma_disabled_prefix(trace, repos, cg, rules, profiles, repos.len() as int);
    assert(trace.last() == trace[repos.len() as int]);
}

proof fn lemma_disabled_prefix(
    trace: Seq<HookRegistry>,
    repos: Seq<Repo>,
    cg: CommitGuardSettings,
    rules: Seq<Rule>,
    profiles: Seq<Profile>,
    n: int,
)
    requires
        reconcile_trace(trace, repos, cg, rules, profiles),
        !cg.enabled,
        0 <= n <= repos.len(),
    ensures
        forall|i: int| 0 <= i < n ==> !is_managed(state_of(trace[n].history@, #[trigger] repos[i].git_root@)),
    decreases n,
{
    if n > 0 {
        let j = n - 1;
        lemma_disabled_prefix(trace, repos, cg, rules, profiles, j);
        assert(reconcile_step(trace[j], trace[j + 1], repos[j], cg, rules, profiles));
        let prev = trace[j].history@;
        let next = trace[j + 1].history@;
        let root = repos[j].git_root@;
        if is_managed(state_of(prev, root)) {
            assert(next == prev.push(next.last()));
            assert forall|i: int| 0 <= i < n implies !is_managed(
                state_of(next, #[trigger] repos[i].git_root@),
            ) by {
                lemma_entry_for_push(prev, next.last(), repos[i].git_root@);
            }
        }
    }
}

/// Commit guard operations. The stores they act on are passed in.
pub struct CommitGuardService {}

impl CommitGuardService {
    pub fn new() -> (s: Self) {
        CommitGuardService {  }
    }

    /// The commit guard settings.
    pub fn settings(&self, store: &ProfileStore) -> (s: CommitGuardSettings)
        ensures
            s == store.settings.commit_guard,
    {
        store.load_settings().commit_guard
    }

    /// Persist new commit guard settings.
    pub fn save(&self, store: &mut ProfileStore, commit_guard: CommitGuardSettings)
        ensures
            final(store).settings == (AppSettings { commit_guard, ..old(store).settings }),
            final(store).profiles@ == old(store).profiles@,
            final(store).active_id == old(store).active_id,
    {
        let mut settings = store.load_settings();
        settings.commit_guard = commit_guard;
        store.save_settings(settings);
    }

    /// The profile a repository should commit as: a matching rule's, else the
    /// manual assignment; `None` when neither applies or the profile is gone.
    pub fn resolve_expected(
        &self,
        rules: &mut RuleService,
        rule_store: &RuleStore,
        profiles: &ProfileStore,
        repo: &Repo,
    ) -> (r: Option<(u128, Identity, String)>)
        ensures
            exists|m: Option<RuleMatch>|
                {
                    &&& #[trigger] rule_result(rule_store@, repo.git_root@, resolved_of(*repo), m)
                    &&& r == expected_of(m, *repo, profiles.profiles@)
                    &&& final(rules).last_match == match m {
                        Some(x) => Some(x),
                        None => old(rules).last_match,
                    }
                },
    {
        let remote = match &repo.remote_origin {
            Some(u) => Some(u.as_str()),
            None => None,
        };
        let ctx = EvaluationContext::from_parts(repo.git_root.as_str(), repo.name.as_str(), remote);
        let m = rules.resolve(rule_store, &ctx);
        assert(repo_context(ctx, repo.git_root@, resolved_of(*repo)));
        assert(rule_result(rule_store@, repo.git_root@, resolved_of(*repo), m));
        let profile_id = match &m {
            Some(mm) => Some(mm.profile_id),
            None => repo.active_profile_id,
        };
        match profile_id {
            Some(id) => {
                proof {
                    lemma_first_index(profiles.profiles@, id);
                }
                match profiles.find(id) {
                    Some(p) => Some((id, p.identity, p.label)),
                    None => None,
                }
            },
            None => None,
        }
    }

    /// The marker for an expected profile; empty (allow every commit) when
    /// there is none.
    pub fn expected_identity(expected: &Option<(u128, Identity, String)>, mode: GuardMode) -> (m:
        ExpectedIdentity)
        ensures
            marker_view(m) == marker_for(*expected, mode),
    {
        match expected {
            Some((_, identity, _)) => ExpectedIdentity {
                name: identity.name.clone(),
                email: identity.email.clone(),
                mode,
            },
            None => ExpectedIdentity { name: String::new(), email: String::new(), mode },
        }
    }

    /// Whether the managed hook is installed in a repository.
    pub fn is_installed(&self, hooks: &HookRegistry, git_root: &str) -> (r: bool)
        ensures
            r == is_managed(state_of(hooks.history@, git_root@)),
    {
        match hooks.hook_state(git_root) {
            HookState::Managed => true,
            HookState::ManagedChained => true,
            _ => false,
        }
    }

    /// The guard status of every repository.
    pub fn status(
        &self,
        store: &ProfileStore,
        repos: &RepoStore,
        rules: &mut RuleService,
        rule_store: &RuleStore,
        hooks: &HookRegistry,
        git: &GitConfig,
    ) -> (s: CommitGuardStatus)
        requires
            repos.repos@.len() <= u32::MAX,
        ensures
            reports_status(
                s,
                store.settings.commit_guard,
                repos.repos@,
                rule_store@,
                store.profiles@,
                hooks.history@,
                git.local@,
            ),
    {
        let cg = self.settings(store);
        let all = repos.load_all();
        let mut protected_count: u32 = 0;
        let mut out: Vec<RepoGuardStatus> = Vec::new();
        let mut i: usize = 0;
        while i < all.len()
            invariant
                i <= all@.len(),
                all@ == repos.repos@,
                all@.len() <= u32::MAX,
                protected_count == protected_count_of(all@.subrange(0, i as int), hooks.history@),
                out@.len() == i,
                forall|k: int|
                    0 <= k < i ==> #[trigger] status_of(
                        out@[k],
                        all@[k],
                        rule_store@,
                        store.profiles@,
                        hooks.history@,
                        git.local@,
                    ),
            decreases all@.len() - i,
        {
            let repo = &all[i];
            proof {
                assert(all@.subrange(0, i + 1).drop_last() =~= all@.subrange(0, i as int));
                lemma_protected_count_bound(all@.subrange(0, i as int), hooks.history@);
            }
            let hook_state = hooks.hook_state(repo.git_root.as_str());
            let protected = match hook_state {
                HookState::Managed => true,
                HookState::ManagedChained => true,
                _ => false,
            };
            if protected {
                protected_count = protected_count + 1;
            }
            let mode = match hooks.read_marker(repo.git_root.as_str()) {
                Some(m) => Some(m.mode),
                None => None,
            };
            let expected = self.resolve_expected(rules, rule_store, store, repo);
            let current_email = git.get_local_email(repo.git_root.as_str());
            let identity_matches = match &expected {
                Some((_, id, _)) => Some(
                    match &current_email {
                        Some(e) => str_eq(e.as_str(), id.email.as_str()),
                        None => false,
                    },
                ),
                None => None,
            };
            let st = RepoGuardStatus {
                repo_id: repo.id,
                git_root: repo.git_root.clone(),
                repo_name: repo.name.clone(),
                hook_state,
                protected,
                mode,
                expected_profile_id: match &expected {
                    Some((id, _, _)) => Some(*id),
                    None => None,
                },
                expected_label: match &expected {
                    Some((_, _, label)) => Some(label.clone()),
                    None => None,
                },
                current_email,
                identity_matches,
            };
            let ghost e = expected;
            let ghost old_out = out@;
            out.push(st);
            proof {
                let m = choose|m: Option<RuleMatch>|
                    #[trigger] rule_result(rule_store@, repo.git_root@, resolved_of(*repo), m) && e
                        == expected_of(m, *repo, store.profiles@);
                assert(reports(out@[i as int], all@[i as int], expected_of(m, all@[i as int], store.profiles@), hooks.history@, git.local@));
                assert(rule_result(rule_store@, all@[i as int].git_root@, resolved_of(all@[i as int]), m));
                assert(status_of(out@[i as int], all@[i as int], rule_store@, store.profiles@, hooks.history@, git.local@));
                assert forall|k: int| 0 <= k < i + 1 implies #[trigger] status_of(
                    out@[k],
                    all@[k],
                    rule_store@,
                    store.profiles@,
                    hooks.history@,
                    git.local@,
                ) by {
                    if k < i {
                        assert(out@[k] == old_out[k]);
                    }
                }
            }
            i = i + 1;
        }
        assert(all@.subrange(0, i as int) =~= all@);
        CommitGuardStatus {
            enabled: cg.enabled,
            mode: cg.mode,
            auto_protect: cg.auto_protect,
            protected_count,
            repos: out,
        }
    }

    /// Bring the installed hooks in line with the settings. Disabled: every
    /// managed hook is removed (restoring a chained foreign hook). Enabled:
    /// protected repositories get a fresh marker (current mode and expected
    /// identity), and with auto-protect every repository with an expected
    /// profile is protected.
    pub fn reconcile(
        &self,
        store: &ProfileStore,
        repos: &RepoStore,
        rules: &mut RuleService,
        rule_store: &RuleStore,
        hooks: &mut HookRegistry,
    )
        ensures
            reconciled(
                *old(hooks),
                *final(hooks),
                repos.repos@,
                store.settings.commit_guard,
                rule_store@,
                store.profiles@,
            ),
    {
        let cg = self.settings(store);
        let all = repos.load_all();
        let ghost mut trace: Seq<HookRegistry> = seq![*hooks];
        let mut i: usize = 0;
        while i < all.len()
            invariant
                i <= all@.len(),
                all@ == repos.repos@,
                cg == store.settings.commit_guard,
                trace.len() == i + 1,
                trace[0] == *old(hooks),
                trace.last() == *hooks,
                forall|k: int|
                    0 <= k < i ==> reconcile_step(
                        #[trigger] trace[k],
                        trace[k + 1],
                        all@[k],
                        cg,
                        rule_store@,
                        store.profiles@,
                    ),
            decreases all@.len() - i,
        {
            let repo = &all[i];
            let ghost prev = *hooks;
            if !cg.enabled {
                if self.is_installed(hooks, repo.git_root.as_str()) {
                    hooks.uninstall(repo.git_root.as_str());
                }
            } else {
                let expected = self.resolve_expected(rules, rule_store, store, repo);
                let want = self.is_installed(hooks, repo.git_root.as_str()) || (cg.auto_protect
                    && expected.is_some());
                let ghost e = expected;
                if want {
                    let identity = Self::expected_identity(&expected, cg.mode);
                    hooks.install(repo.git_root.as_str(), &identity);
                }
                proof {
                    let m = choose|m: Option<RuleMatch>|
                        #[trigger] rule_result(rule_store@, repo.git_root@, resolved_of(*repo), m) && e
                            == expected_of(m, *repo, store.profiles@);
                    assert(rule_result(rule_store@, repo.git_root@, resolved_of(*repo), m));
                }
            }
            proof {
                let next = *hooks;
                assert(reconcile_step(prev, next, all@[i as int], cg, rule_store@, store.profiles@));
                let t2 = trace.push(next);
                assert forall|k: int| 0 <= k < i + 1 implies reconcile_step(
                    #[trigger] t2[k],
                    t2[k + 1],
                    all@[k],
                    cg,
                    rule_store@,
                    store.profiles@,
                ) by {
                    if k < i {
                        assert(t2[k] == trace[k] && t2[k + 1] == trace[k + 1]);
                    }
                }
                trace = t2;
            }
            i = i + 1;
        }
    }

    /// Turn the guard on or off: persist, reconcile the hooks, record it and
    /// report the new status.
    pub fn set_enabled(
        &self,
        store: &mut ProfileStore,
        repos: &RepoStore,
        rules: &mut RuleService,
        rule_store: &RuleStore,
        hooks: &mut HookRegistry,
        git: &GitConfig,
        audit: &mut AuditLog,
        enabled: bool,
    ) -> (s: CommitGuardStatus)
        requires
            repos.repos@.len() <= u32::MAX,
        ensures
            final(store).settings == (AppSettings {
                commit_guard: CommitGuardSettings { enabled, ..old(store).settings.commit_guard },
                ..old(store).settings
            }),
            final(store).profiles@ == old(store).profiles@,
            final(store).active_id == old(store).active_id,
            reconciled(
                *old(hooks),
                *final(hooks),
                repos.repos@,
                final(store).settings.commit_guard,
                rule_store@,
                old(store).profiles@,
            ),
            appended(
                old(audit).view(),
                final(audit).view(),
                if enabled {
                    "commit_guard.enabled"@
                } else {
                    "commit_guard.disabled"@
                },
                None,
                None,
            ),
            reports_status(
                s,
                final(store).settings.commit_guard,
                repos.repos@,
                rule_store@,
                old(store).profiles@,
                final(hooks).history@,
                git.local@,
            ),
    {
        let mut cg = self.settings(store);
        cg.enabled = enabled;
        self.save(store, cg);
        self.reconcile(store, repos, rules, rule_store, hooks);
        if enabled {
            audit.record("commit_guard.enabled", None, None);
        } else {
            audit.record("commit_guard.disabled", None, None);
        }
        self.status(store, repos, rules, rule_store, hooks, git)
    }

    /// Change the guard mode; reconciling rewrites every protected marker.
    pub fn set_mode(
        &self,
        store: &mut ProfileStore,
        repos: &RepoStore,
        rules: &mut RuleService,
        rule_store: &RuleStore,
        hooks: &mut HookRegistry,
        git: &GitConfig,
        mode: GuardMode,
    ) -> (s: CommitGuardStatus)
        requires
            repos.repos@.len() <= u32::MAX,
        ensures
            final(store).settings == (AppSettings {
                commit_guard: CommitGuardSettings { mode, ..old(store).settings.commit_guard },
                ..old(store).settings
            }),
            final(store).profiles@ == old(store).profiles@,
            final(store).active_id == old(store).active_id,
            reconciled(
                *old(hooks),
                *final(hooks),
                repos.repos@,
                final(store).settings.commit_guard,
                rule_store@,
                old(store).profiles@,
            ),
            reports_status(
                s,
                final(store).settings.commit_guard,
                repos.repos@,
                rule_store@,
                old(store).profiles@,
                final(hooks).history@,
                git.local@,
            ),
    {
        let mut cg = self.settings(store);
        cg.mode = mode;
        self.save(store, cg);
        self.reconcile(store, repos, rules, rule_store, hooks);
        self.status(store, repos, rules, rule_store, hooks, git)
    }

    /// Turn auto-protection on or off, then reconcile.
    pub fn set_auto_protect(
        &self,
        store: &mut ProfileStore,
        repos: &RepoStore,
        rules: &mut RuleService,
        rule_store: &RuleStore,
        hooks: &mut HookRegistry,
        git: &GitConfig,
        enabled: bool,
    ) -> (s: CommitGuardStatus)
        requires
            repos.repos@.len() <= u32::MAX,
        ensures
            final(store).settings == (AppSettings {
                commit_guard: CommitGuardSettings { auto_protect: enabled, ..old(store).settings.commit_guard },
                ..old(store).settings
            }),
            final(store).profiles@ == old(store).profiles@,
            final(store).active_id == old(store).active_id,
            reconciled(
                *old(hooks),
                *final(hooks),
                repos.repos@,
                final(store).settings.commit_guard,
                rule_store@,
                old(store).profiles@,
            ),
            reports_status(
                s,
                final(store).settings.commit_guard,
                repos.repos@,
                rule_store@,
                old(store).profiles@,
                final(hooks).history@,
                git.local@,
            ),
    {
        let mut cg = self.settings(store);
        cg.auto_protect = enabled;
        self.save(store, cg);
        self.reconcile(store, repos, rules, rule_store, hooks);
        self.status(store, repos, rules, rule_store, hooks, git)
    }

    /// Protect one repository: install the managed hook with its expected
    /// identity. `NotFound` for an unknown repository.
    pub fn install(
        &self,
        store: &ProfileStore,
        repos: &RepoStore,
        rules: &mut RuleService,
        rule_store: &RuleStore,
        hooks: &mut HookRegistry,
        git: &GitConfig,
        audit: &mut AuditLog,
        repo_id: u128,
    ) -> (r: Result<CommitGuardStatus, AppError>)
        requires
            repos.repos@.len() <= u32::MAX,
        ensures
            match find_spec(repos.repos@, repo_id) {
                None => {
                    &&& err_kind(r) == Some(ErrorKind::NotFound)
                    &&& same_hooks(*final(hooks), *old(hooks))
                    &&& final(audit).view() == old(audit).view()
                },
                Some(repo) => exists|m: Option<RuleMatch>|
                    {
                        &&& #[trigger] rule_result(rule_store@, repo.git_root@, resolved_of(repo), m)
                        &&& installed_with_marker(
                            *old(hooks),
                            *final(hooks),
                            repo.git_root@,
                            marker_for(expected_of(m, repo, store.profiles@), store.settings.commit_guard.mode),
                        )
                        &&& appended(
                            old(audit).view(),
                            final(audit).view(),
                            "commit_guard.installed"@,
                            match expected_of(m, repo, store.profiles@) {
                                Some((id, _, _)) => Some(id),
                                None => None,
                            },
                            Some(repo.git_root@),
                        )
                        &&& r matches Ok(s) && reports_status(
                            s,
                            store.settings.commit_guard,
                            repos.repos@,
                            rule_store@,
                            store.profiles@,
                            final(hooks).history@,
                            git.local@,
                        )
                    },
            },
    {
        proof {
            lemma_first_index(repos.repos@, repo_id);
        }
        let repo = match repos.find(repo_id) {
            Some(r) => r,
            None => {
                return Err(AppError::NotFound(concat2("repository ", uuid_string(repo_id).as_str())));
            },
        };
        let mode = self.settings(store).mode;
        let expected = self.resolve_expected(rules, rule_store, store, &repo);
        let identity = Self::expected_identity(&expected, mode);
        hooks.install(repo.git_root.as_str(), &identity);
        let pid = match &expected {
            Some((id, _, _)) => Some(*id),
            None => None,
        };
        audit.record("commit_guard.installed", pid, Some(repo.git_root.clone()));
        proof {
            let m = choose|m: Option<RuleMatch>|
                #[trigger] rule_result(rule_store@, repo.git_root@, resolved_of(repo), m) && expected
                    == expected_of(m, repo, store.profiles@);
            assert(installed(*old(hooks), *hooks, repo.git_root@, identity));
            assert(rule_result(rule_store@, repo.git_root@, resolved_of(repo), m));
        }
        Ok(self.status(store, repos, rules, rule_store, hooks, git))
    }

    /// Repair is a re-install: the managed hook and marker are rewritten and
    /// a backed-up foreign hook stays chained.
    pub fn repair(
        &self,
        store: &ProfileStore,
        repos: &RepoStore,
        rules: &mut RuleService,
        rule_store: &RuleStore,
        hooks: &mut HookRegistry,
        git: &GitConfig,
        audit: &mut AuditLog,
        repo_id: u128,
    ) -> (r: Result<CommitGuardStatus, AppError>)
        requires
            repos.repos@.len() <= u32::MAX,
        ensures
            match find_spec(repos.repos@, repo_id) {
                None => err_kind(r) == Some(ErrorKind::NotFound) && same_hooks(*final(hooks), *old(hooks)),
                Some(repo) => r is Ok && exists|m: Option<RuleMatch>|
                    {
                        &&& #[trigger] rule_result(rule_store@, repo.git_root@, resolved_of(repo), m)
                        &&& installed_with_marker(
                            *old(hooks),
                            *final(hooks),
                            repo.git_root@,
                            marker_for(expected_of(m, repo, store.profiles@), store.settings.commit_guard.mode),
                        )
                    },
            },
    {
        self.install(store, repos, rules, rule_store, hooks, git, audit, repo_id)
    }

    /// Unprotect one repository (a chained foreign hook is restored).
    /// `NotFound` for an unknown repository.
    pub fn uninstall(
        &self,
        store: &ProfileStore,
        repos: &RepoStore,
        rules: &mut RuleService,
        rule_store: &RuleStore,
        hooks: &mut HookRegistry,
        git: &GitConfig,
        audit: &mut AuditLog,
        repo_id: u128,
    ) -> (r: Result<CommitGuardStatus, AppError>)
        requires
            repos.repos@.len() <= u32::MAX,
        ensures
            match find_spec(repos.repos@, repo_id) {
                None => {
                    &&& err_kind(r) == Some(ErrorKind::NotFound)
                    &&& same_hooks(*final(hooks), *old(hooks))
                    &&& final(audit).view() == old(audit).view()
                },
                Some(repo) => {
                    &&& uninstalled(*old(hooks), *final(hooks), repo.git_root@)
                    &&& appended(
                        old(audit).view(),
                        final(audit).view(),
                        "commit_guard.uninstalled"@,
                        None,
                        Some(repo.git_root@),
                    )
                    &&& r matches Ok(s) && reports_status(
                        s,
                        store.settings.commit_guard,
                        repos.repos@,
                        rule_store@,
                        store.profiles@,
                        final(hooks).history@,
                        git.local@,
                    )
                },
            },
    {
        proof {
            lemma_first_index(repos.repos@, repo_id);
        }
        let repo = match repos.find(repo_id) {
            Some(r) => r,
            None => {
                return Err(AppError::NotFound(concat2("repository ", uuid_string(repo_id).as_str())));
            },
        };
        hooks.uninstall(repo.git_root.as_str());
        audit.record("commit_guard.uninstalled", None, Some(repo.git_root.clone()));
        Ok(self.status(store, repos, rules, rule_store, hooks, git))
    }

    /// After a repository's assignment changed, rewrite its marker when it is
    /// protected, or protect it when auto-protect is on and it now has an
    /// expected profile. Nothing happens while the guard is off or for an
    /// untracked repository.
    pub fn refresh_after_assignment(
        &self,
        store: &ProfileStore,
        repos: &RepoStore,
        rules: &mut RuleService,
        rule_store: &RuleStore,
        hooks: &mut HookRegistry,
        git_root: &str,
    )
        ensures
            ({
                let cg = store.settings.commit_guard;
                let was = is_managed(state_of(old(hooks).history@, git_root@));
                match find_by_root_spec(repos.repos@, git_root@) {
                    Some(repo) if cg.enabled && (was || cg.auto_protect) => exists|m: Option<
                        RuleMatch,
                    >|
                        {
                            &&& #[trigger] rule_result(rule_store@, repo.git_root@, resolved_of(repo), m)
                            &&& if !was && expected_of(m, repo, store.profiles@) is None {
                                same_hooks(*final(hooks), *old(hooks))
                            } else {
                                installed_with_marker(
                                    *old(hooks),
                                    *final(hooks),
                                    git_root@,
                                    marker_for(expected_of(m, repo, store.profiles@), cg.mode),
                                )
                            }
                        },
                    _ => same_hooks(*final(hooks), *old(hooks)),
                }
            }),
    {
        let cg = self.settings(store);
        if !cg.enabled {
            return;
        }
        proof {
            lemma_root_index_from(repos.repos@, git_root@, 0);
        }
        let repo = match repos.find_by_git_root(git_root) {
            Some(r) => r,
            None => {
                return;
            },
        };
        let was = self.is_installed(hooks, git_root);
        if !was && !cg.auto_protect {
            return;
        }
        let expected = self.resolve_expected(rules, rule_store, store, &repo);
        let ghost m = choose|m: Option<RuleMatch>|
            #[trigger] rule_result(rule_store@, repo.git_root@, resolved_of(repo), m) && expected
                == expected_of(m, repo, store.profiles@);
        assert(rule_result(rule_store@, repo.git_root@, resolved_of(repo), m));
        if !was && expected.is_none() {
            return;
        }
        let identity = Self::expected_identity(&expected, cg.mode);
        hooks.install(git_root, &identity);
        assert(installed(*old(hooks), *hooks, git_root@, identity));
    }
}

} // verus!

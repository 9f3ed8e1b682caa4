//! Smart identity switching: when the watcher reports activity in a tracked
//! repository, decide which profile the repository should use (the rule
//! engine first, the manual assignment as fallback) and switch to it, ask
//! for confirmation, or record why nothing happened. Watching the
//! filesystem and showing events are the host's work, behind
//! `WorkspaceWatcher` and `SwitchObserver`; the host runs the watch loop and
//! calls `handle_activity` for each event.
use vstd::prelude::*;
use crate::audit::{AuditEntry, AuditLog, appended, grew, lemma_appended_grew, lemma_grew_trans, opt_view};
use crate::error::{AppError, ErrorKind, err_kind};
use crate::git_config::GitConfig;
use crate::ids::now_millis;
use crate::profile::{Profile, ProfileStore, SmartSwitchingSettings};
use crate::profile_service::{CredentialSync, ProfileService};
use crate::repo::{Repo, RepoStore, find_by_root_spec, lemma_root_index_from};
use crate::rule::{EvaluationContext, Rule, RuleMatch, evaluation};
use crate::rule_service::{RuleService, RuleStore};
use crate::table::{find_spec, lemma_first_index};
use crate::text::{clone_opt_string, concat2};

verus! {

/// What the resolver knows of a tracked repository.
#[derive(Debug, Clone)]
pub struct ResolvedRepo {
    pub repo_id: u128,
    pub repo_name: String,
    pub profile_id: Option<u128>,
    pub remote_origin: Option<String>,
}

/// The outcome reported for an activity event.
#[derive(Debug, Clone, Copy, PartialEq, Eq, Structural)]
pub enum SwitchStatus {
    Switched,
    NoAssignment,
    PendingConfirmation,
}

/// An outcome shown to the user.
#[derive(Debug, Clone)]
pub struct SwitchEvent {
    pub status: SwitchStatus,
    pub git_root: String,
    pub repo_id: Option<u128>,
    pub repo_name: Option<String>,
    pub profile_id: Option<u128>,
    pub profile_label: Option<String>,
    /// Milliseconds since the Unix epoch.
    pub at: i64,
}

impl SwitchEvent {
    pub fn duplicate(&self) -> (r: Self)
        ensures
            r == *self,
    {
        SwitchEvent {
            status: self.status,
            git_root: self.git_root.clone(),
            repo_id: self.repo_id,
            repo_name: clone_opt_string(&self.repo_name),
            profile_id: self.profile_id,
            profile_label: clone_opt_string(&self.profile_label),
            at: self.at,
        }
    }
}

/// The dashboard view of smart switching.
#[derive(Debug, Clone)]
pub struct SmartSwitchStatus {
    pub enabled: bool,
    pub watching: bool,
    pub paused: bool,
    pub repos_monitored: u32,
    pub last_switch: Option<SwitchEvent>,
    pub started_at: Option<i64>,
}

/// A request the service makes of its watcher, or a report it hands to its
/// observer.
#[derive(Debug, Clone)]
pub enum PortCall {
    /// The switcher applied a profile globally; whether it succeeded.
    SwitcherApply(u128, bool),
    /// The switcher was asked to pin a profile into a repository.
    SwitcherApplyLocal(String, u128),
    /// The watcher was asked to watch these repositories; whether it started.
    WatchStart(Vec<String>, bool),
    WatchStop,
    WatchPause,
    WatchResume,
    StatusReported(SmartSwitchStatus),
    SwitchReported(SwitchEvent),
}

/// `s` reports the smart switching settings and the service's own state
/// (what the watcher says of itself is the watcher's).
pub open spec fn reports_state(
    s: SmartSwitchStatus,
    settings: SmartSwitchingSettings,
    last_switch: Option<SwitchEvent>,
    started_at: Option<i64>,
) -> bool {
    &&& s.enabled == settings.enabled
    &&& s.last_switch == last_switch
    &&& s.started_at == started_at
}

/// Applies profiles for the orchestrator: globally, and pinned into one
/// repository's local config. `ProfileIdentitySwitcher` is the
/// implementation over the profile service.
pub trait IdentitySwitcher {
    /// Apply a profile globally.
    fn apply(&mut self, profiles: &mut ProfileStore, audit: &mut AuditLog, profile_id: u128) -> (r:
        Result<(), AppError>)
        ensures
            final(profiles).profiles@ == old(profiles).profiles@,
            final(profiles).settings == old(profiles).settings,
            r is Ok ==> final(profiles).active_id == Some(profile_id),
            r is Err ==> final(profiles).active_id == old(profiles).active_id,
            grew(old(audit).view(), final(audit).view()),
    ;

    /// Pin a profile into one repository's local config.
    fn apply_local(
        &mut self,
        profiles: &ProfileStore,
        repos: &RepoStore,
        audit: &mut AuditLog,
        git_root: &str,
        profile_id: u128,
    ) -> (r: Result<(), AppError>)
        ensures
            grew(old(audit).view(), final(audit).view()),
    ;
}

/// Watches the tracked repositories for Git activity.
pub trait WorkspaceWatcher {
    fn start(&mut self, git_roots: &Vec<String>) -> Result<(), AppError>;

    fn stop(&mut self);

    fn pause(&mut self);

    fn resume(&mut self);

    fn is_watching(&self) -> bool;

    fn is_paused(&self) -> bool;

    fn watched_count(&self) -> usize;
}

/// Receives the events and status changes shown to the user.
pub trait SwitchObserver {
    fn switched(&mut self, event: &SwitchEvent);

    fn status_changed(&mut self, status: &SmartSwitchStatus);
}

/// The repository store as the orchestrator's resolver.
pub struct RepoIdentityResolver {}

/// What the resolver reports for a tracked repository.
pub open spec fn resolved_of(r: Repo) -> ResolvedRepo {
    ResolvedRepo {
        repo_id: r.id,
        repo_name: r.name,
        profile_id: r.active_profile_id,
        remote_origin: r.remote_origin,
    }
}

/// The resolution of `root`.
pub open spec fn resolve_spec(repos: Seq<Repo>, root: Seq<char>) -> Option<ResolvedRepo> {
    match find_by_root_spec(repos, root) {
        Some(r) => Some(resolved_of(r)),
        None => None,
    }
}

impl RepoIdentityResolver {
    pub fn new() -> (s: Self) {
        RepoIdentityResolver {  }
    }

    /// The tracked repository rooted at `git_root`.
    pub fn resolve(&self, repos: &RepoStore, git_root: &str) -> (r: Option<ResolvedRepo>)
        ensures
            r == resolve_spec(repos.repos@, git_root@),
    {
        match repos.find_by_git_root(git_root) {
            Some(r) => Some(
                ResolvedRepo {
                    repo_id: r.id,
                    repo_name: r.name,
                    profile_id: r.active_profile_id,
                    remote_origin: r.remote_origin,
                },
            ),
            None => None,
        }
    }

    /// The root of every tracked repository, in order.
    pub fn watchable_roots(&self, repos: &RepoStore) -> (v: Vec<String>)
        ensures
            v@ == repos.repos@.map_values(|r: Repo| r.git_root),
    {
        let all = repos.load_all();
        let mut v: Vec<String> = Vec::new();
        let mut i: usize = 0;
        while i < all.len()
            invariant
                i <= all@.len(),
                all@ == repos.repos@,
                v@ == all@.map_values(|r: Repo| r.git_root).subrange(0, i as int),
            decreases all@.len() - i,
        {
            v.push(all[i].git_root.clone());
            i = i + 1;
            assert(v@ =~= all@.map_values(|r: Repo| r.git_root).subrange(0, i as int));
        }
        assert(v@ =~= all@.map_values(|r: Repo| r.git_root));
        v
    }
}

/// The profile-apply pipeline as the orchestrator's switcher.
pub struct ProfileIdentitySwitcher {
    pub git: GitConfig,
    pub credentials: CredentialSync,
}

impl ProfileIdentitySwitcher {
    pub fn new(git: GitConfig, credentials: CredentialSync) -> (s: Self)
        ensures
            s.git == git,
            s.credentials == credentials,
    {
        ProfileIdentitySwitcher { git, credentials }
    }
}

impl ProfileIdentitySwitcher {
    /// The globally active profile.
    pub fn active_profile_id(&self, profiles: &ProfileStore) -> (r: Option<u128>)
        ensures
            r == profiles.active_id,
    {
        profiles.get_active_id()
    }

    /// The label of a profile, if it exists.
    pub fn profile_label(&self, profiles: &ProfileStore, id: u128) -> (r: Option<String>)
        ensures
            opt_view(r) == label_of(profiles.profiles@, id),
    {
        proof {
            lemma_first_index(profiles.profiles@, id);
        }
        match profiles.find(id) {
            Some(p) => Some(p.label),
            None => None,
        }
    }
}

impl IdentitySwitcher for ProfileIdentitySwitcher {
    fn apply(&mut self, profiles: &mut ProfileStore, audit: &mut AuditLog, profile_id: u128) -> (r:
        Result<(), AppError>) {
        ProfileService::new().apply(profiles, &mut self.git, &mut self.credentials, audit, profile_id)
    }

    fn apply_local(
        &mut self,
        profiles: &ProfileStore,
        repos: &RepoStore,
        audit: &mut AuditLog,
        git_root: &str,
        profile_id: u128,
    ) -> (r: Result<(), AppError>) {
        ProfileService::new().apply_local(
            profiles,
            repos,
            &mut self.git,
            &mut self.credentials,
            audit,
            git_root,
            profile_id,
        )
    }
}

/// `c` is the rule-evaluation context of the repository at `root`.
pub open spec fn repo_context(c: EvaluationContext, root: Seq<char>, res: ResolvedRepo) -> bool {
    &&& c.path@ == root
    &&& c.name@ == res.repo_name@
    &&& opt_view(c.remote_url) == opt_view(res.remote_origin)
    &&& c.wf()
}

/// `m` is what the rules give for the repository at `root`.
pub open spec fn rule_result(rules: Seq<Rule>, root: Seq<char>, res: ResolvedRepo, m: Option<RuleMatch>) -> bool {
    exists|c: EvaluationContext| #[trigger] repo_context(c, root, res) && evaluation(rules, c, m)
}

/// The profile a repository should use: the matching rule's, else the
/// manual assignment.
pub open spec fn chosen_profile(m: Option<RuleMatch>, res: ResolvedRepo) -> Option<u128> {
    match m {
        Some(mm) => Some(mm.profile_id),
        None => res.profile_id,
    }
}

/// `mid` is `old` with `rule.matched` recorded when a rule matched.
pub open spec fn rule_logged(old: Seq<AuditEntry>, mid: Seq<AuditEntry>, m: Option<RuleMatch>, root: Seq<char>) -> bool {
    match m {
        Some(mm) => appended(old, mid, "rule.matched"@, Some(mm.profile_id), Some(root)),
        None => mid == old,
    }
}

/// The label of the profile with `id`.
pub open spec fn label_of(profiles: Seq<Profile>, id: u128) -> Option<Seq<char>> {
    match find_spec(profiles, id) {
        Some(p) => Some(p.label@),
        None => None,
    }
}

/// `e` reports `status` for the repository at `root`.
pub open spec fn describes_switch(
    e: SwitchEvent,
    status: SwitchStatus,
    res: ResolvedRepo,
    pid: Option<u128>,
    root: Seq<char>,
    profiles: Seq<Profile>,
) -> bool {
    &&& e.status == status
    &&& e.git_root@ == root
    &&& e.repo_id == Some(res.repo_id)
    &&& e.repo_name == Some(res.repo_name)
    &&& e.profile_id == pid
    &&& opt_view(e.profile_label) == match pid {
        Some(p) => label_of(profiles, p),
        None => None,
    }
}

/// What an activity event in `root` does once the repository resolved to
/// `res` and the rules gave `m`, from audit log `mid` (after the rule record)
/// to `fin`.
pub open spec fn activity_effect(
    settings: SmartSwitchingSettings,
    res: ResolvedRepo,
    m: Option<RuleMatch>,
    root: Seq<char>,
    profiles: Seq<Profile>,
    active_before: Option<u128>,
    active_after: Option<u128>,
    mid: Seq<AuditEntry>,
    fin: Seq<AuditEntry>,
    last_before: Option<SwitchEvent>,
    last_after: Option<SwitchEvent>,
    ok: bool,
) -> bool {
    match chosen_profile(m, res) {
        None => {
            &&& ok
            &&& appended(mid, fin, "identity.no_assignment"@, None, Some(root))
            &&& active_after == active_before
            &&& last_after == last_before
        },
        Some(p) => if active_before == Some(p) {
            &&& ok
            &&& appended(mid, fin, "identity.same_profile"@, Some(p), Some(root))
            &&& active_after == active_before
            &&& last_after == last_before
        } else if settings.confirm_before_switch {
            &&& ok
            &&& fin == mid
            &&& active_after == active_before
            &&& last_after == last_before
        } else {
            switch_effect(res, p, root, profiles, active_before, active_after, mid, fin, last_before, last_after, ok)
        },
    }
}

/// What switching the repository at `root` to profile `p` does.
pub open spec fn switch_effect(
    res: ResolvedRepo,
    p: u128,
    root: Seq<char>,
    profiles: Seq<Profile>,
    active_before: Option<u128>,
    active_after: Option<u128>,
    mid: Seq<AuditEntry>,
    fin: Seq<AuditEntry>,
    last_before: Option<SwitchEvent>,
    last_after: Option<SwitchEvent>,
    ok: bool,
) -> bool {
    &&& grew(mid, fin)
    &&& ok ==> {
        &&& active_after == Some(p)
        &&& fin.last().records("identity.auto_switch"@, Some(p), Some(root))
        &&& last_after matches Some(e) && describes_switch(e, SwitchStatus::Switched, res, Some(p), root, profiles)
    }
    &&& !ok ==> active_after == active_before && last_after == last_before
}

/// `c` reports an event with `status` for the repository at `root`.
pub open spec fn is_switch_report(
    c: PortCall,
    status: SwitchStatus,
    res: ResolvedRepo,
    pid: Option<u128>,
    root: Seq<char>,
    profiles: Seq<Profile>,
) -> bool {
    c matches PortCall::SwitchReported(e) && describes_switch(e, status, res, pid, root, profiles)
}

/// `c1` is `c0` with one report of an event with `status` appended.
pub open spec fn reported_once(
    c0: Seq<PortCall>,
    c1: Seq<PortCall>,
    status: SwitchStatus,
    res: ResolvedRepo,
    pid: Option<u128>,
    root: Seq<char>,
    profiles: Seq<Profile>,
) -> bool {
    &&& c1.len() == c0.len() + 1
    &&& c1.drop_last() == c0
    &&& is_switch_report(c1.last(), status, res, pid, root, profiles)
}

/// The calls a switch of the repository at `root` to profile `p` makes:
/// the switcher applies `p` (`ok` is whether that succeeded); on success the
/// switcher is asked to pin `p` locally, the switch is reported, then the
/// status.
pub open spec fn switch_calls(
    res: ResolvedRepo,
    p: u128,
    root: Seq<char>,
    profiles: Seq<Profile>,
    c0: Seq<PortCall>,
    c1: Seq<PortCall>,
    ok: bool,
) -> bool {
    let n = c0.len() as int;
    if ok {
        &&& c1.len() == n + 4
        &&& c1.subrange(0, n) == c0
        &&& c1[n] == PortCall::SwitcherApply(p, true)
        &&& c1[n + 1] matches PortCall::SwitcherApplyLocal(r, q) && r@ == root && q == p
        &&& is_switch_report(c1[n + 2], SwitchStatus::Switched, res, Some(p), root, profiles)
        &&& c1[n + 3] is StatusReported
    } else {
        c1 == c0.push(PortCall::SwitcherApply(p, false))
    }
}

/// The calls an activity event makes once the repository resolved to `res`
/// and the rules gave `m`: a `NoAssignment` report, nothing for the active
/// profile, a `PendingConfirmation` report, or a switch.
pub open spec fn activity_calls(
    settings: SmartSwitchingSettings,
    res: ResolvedRepo,
    m: Option<RuleMatch>,
    root: Seq<char>,
    profiles: Seq<Profile>,
    active_before: Option<u128>,
    c0: Seq<PortCall>,
    c1: Seq<PortCall>,
    ok: bool,
) -> bool {
    match chosen_profile(m, res) {
        None => reported_once(c0, c1, SwitchStatus::NoAssignment, res, None, root, profiles),
        Some(p) => if active_before == Some(p) {
            c1 == c0
        } else if settings.confirm_before_switch {
            reported_once(c0, c1, SwitchStatus::PendingConfirmation, res, Some(p), root, profiles)
        } else {
            switch_calls(res, p, root, profiles, c0, c1, ok)
        },
    }
}

/// `c` asks the switcher to pin profile `p` into the repository at `root`.
pub open spec fn is_local_pin(c: PortCall, root: Seq<char>, p: u128) -> bool {
    c matches PortCall::SwitcherApplyLocal(r, q) && r@ == root && q == p
}

/// `pick` is the profile the repository at `root` resolves to (none for an
/// untracked repository or one with neither a matching rule nor an assignment).
pub open spec fn root_pick(repos: Seq<Repo>, rules: Seq<Rule>, root: Seq<char>, pick: Option<u128>) -> bool {
    match resolve_spec(repos, root) {
        None => pick is None,
        Some(res) => exists|m: Option<RuleMatch>| #[trigger] rule_result(rules, root, res, m) && pick == chosen_profile(m, res),
    }
}

/// `c` is one local pin for each of `roots` that has a profile in `picks`, in order.
pub open spec fn local_pins(c: Seq<PortCall>, roots: Seq<Seq<char>>, picks: Seq<Option<u128>>) -> bool
    decreases roots.len(),
{
    if roots.len() == 0 || picks.len() == 0 {
        c.len() == 0
    } else {
        match picks.last() {
            None => local_pins(c, roots.drop_last(), picks.drop_last()),
            Some(p) => {
                &&& c.len() > 0
                &&& is_local_pin(c.last(), roots.last(), p)
                &&& local_pins(c.drop_last(), roots.drop_last(), picks.drop_last())
            },
        }
    }
}

/// The calls pinning every tracked repository makes: `c1` is `c0` followed
/// by a local pin for each repository that resolves to a profile.
pub open spec fn pins_all(repos: Seq<Repo>, rules: Seq<Rule>, c0: Seq<PortCall>, c1: Seq<PortCall>) -> bool {
    let roots = repos.map_values(|r: Repo| r.git_root@);
    exists|picks: Seq<Option<u128>>|
        {
            &&& picks.len() == roots.len()
            &&& forall|i: int| 0 <= i < roots.len() ==> root_pick(repos, rules, roots[i], #[trigger] picks[i])
            &&& c0.len() <= c1.len()
            &&& c1.subrange(0, c0.len() as int) == c0
            &&& #[trigger] local_pins(c1.subrange(c0.len() as int, c1.len() as int), roots, picks)
        }
}

/// `c` asks the watcher to watch the repositories at `roots`; `ok` is whether it started.
pub open spec fn is_watch_start(c: PortCall, roots: Seq<Seq<char>>, ok: bool) -> bool {
    c matches PortCall::WatchStart(v, b) && v@.map_values(|s: String| s@) == roots && b == ok
}

/// The orchestrator. It holds the switcher, the watcher and the observer,
/// the time watching started and the last switch made.
pub struct IdentitySwitchService<S, W, O> {
    pub resolver: RepoIdentityResolver,
    pub switcher: S,
    pub watcher: W,
    pub observer: O,
    pub started_at: Option<i64>,
    pub last_switch: Option<SwitchEvent>,
    /// Every request made of the watcher and report made to the observer, in order.
    pub port_calls: Ghost<Seq<PortCall>>,
}

impl<S: IdentitySwitcher, W: WorkspaceWatcher, O: SwitchObserver> IdentitySwitchService<S, W, O> {
    pub fn new(switcher: S, watcher: W, observer: O) -> (s: Self)
        ensures
            s.switcher == switcher,
            s.watcher == watcher,
            s.observer == observer,
            s.started_at is None,
            s.last_switch is None,
            s.port_calls@ == Seq::<PortCall>::empty(),
    {
        IdentitySwitchService {
            resolver: RepoIdentityResolver::new(),
            switcher,
            watcher,
            observer,
            started_at: None,
            last_switch: None,
            port_calls: Ghost(Seq::empty()),
        }
    }

    /// The smart switching settings.
    pub fn config(&self, profiles: &ProfileStore) -> (s: SmartSwitchingSettings)
        ensures
            s == profiles.settings.smart_switching,
    {
        profiles.load_settings().smart_switching
    }

    /// The profile the repository should use: the rule engine decides first
    /// (recording `rule.matched`), the manual assignment is the fallback.
    pub fn resolve_profile(
        &self,
        rules: &mut RuleService,
        rule_store: &RuleStore,
        audit: &mut AuditLog,
        resolved: &ResolvedRepo,
        git_root: &str,
    ) -> (r: Option<u128>)
        ensures
            exists|m: Option<RuleMatch>|
                {
                    &&& #[trigger] rule_result(rule_store@, git_root@, *resolved, m)
                    &&& r == chosen_profile(m, *resolved)
                    &&& rule_logged(old(audit).view(), final(audit).view(), m, git_root@)
                },
    {
        let remote = match &resolved.remote_origin {
            Some(u) => Some(u.as_str()),
            None => None,
        };
        let ctx = EvaluationContext::from_parts(git_root, resolved.repo_name.as_str(), remote);
        let m = rules.resolve(rule_store, &ctx);
        assert(repo_context(ctx, git_root@, *resolved));
        match m {
            Some(mm) => {
                audit.record("rule.matched", Some(mm.profile_id), Some(String::from_str(git_root)));
                assert(rule_result(rule_store@, git_root@, *resolved, Some(mm)));
                Some(mm.profile_id)
            },
            None => {
                assert(rule_result(rule_store@, git_root@, *resolved, None));
                resolved.profile_id
            },
        }
    }

    /// The dashboard status.
    pub fn status(&self, profiles: &ProfileStore) -> (s: SmartSwitchStatus)
        ensures
            s.enabled == profiles.settings.smart_switching.enabled,
            s.last_switch == self.last_switch,
            s.started_at == self.started_at,
    {
        let settings = profiles.load_settings().smart_switching;
        let count = self.watcher.watched_count();
        let repos_monitored: u32 = if count > 4294967295 {
            u32::MAX
        } else {
            count as u32
        };
        let last_switch = match &self.last_switch {
            Some(e) => Some(e.duplicate()),
            None => None,
        };
        SmartSwitchStatus {
            enabled: settings.enabled,
            watching: self.watcher.is_watching(),
            paused: self.watcher.is_paused(),
            repos_monitored,
            last_switch,
            started_at: self.started_at,
        }
    }

    fn emit_status(&mut self, profiles: &ProfileStore)
        ensures
            final(self).started_at == old(self).started_at,
            final(self).last_switch == old(self).last_switch,
            exists|s: SmartSwitchStatus|
                #[trigger] reports_state(
                    s,
                    profiles.settings.smart_switching,
                    old(self).last_switch,
                    old(self).started_at,
                ) && final(self).port_calls@ == old(self).port_calls@.push(PortCall::StatusReported(s)),
    {
        let status = self.status(profiles);
        self.observer.status_changed(&status);
        self.port_calls = Ghost(self.port_calls@.push(PortCall::StatusReported(status)));
        assert(reports_state(status, profiles.settings.smart_switching, self.last_switch, self.started_at));
    }

    /// The event reporting `status` for the repository at `git_root`.
    pub fn build_event(
        &self,
        profiles: &ProfileStore,
        status: SwitchStatus,
        resolved: &ResolvedRepo,
        profile_id: Option<u128>,
        git_root: &str,
    ) -> (e: SwitchEvent)
        ensures
            describes_switch(e, status, *resolved, profile_id, git_root@, profiles.profiles@),
    {
        let profile_label = match profile_id {
            Some(id) => {
                proof {
                    lemma_first_index(profiles.profiles@, id);
                }
                match profiles.find(id) {
                    Some(p) => Some(p.label),
                    None => None,
                }
            },
            None => None,
        };
        SwitchEvent {
            status,
            git_root: String::from_str(git_root),
            repo_id: Some(resolved.repo_id),
            repo_name: Some(resolved.repo_name.clone()),
            profile_id,
            profile_label,
            at: now_millis(),
        }
    }

    fn emit_switch(
        &mut self,
        profiles: &ProfileStore,
        status: SwitchStatus,
        resolved: &ResolvedRepo,
        profile_id: Option<u128>,
        git_root: &str,
    )
        ensures
            final(self).started_at == old(self).started_at,
            final(self).last_switch == old(self).last_switch,
            exists|e: SwitchEvent|
                #[trigger] describes_switch(e, status, *resolved, profile_id, git_root@, profiles.profiles@)
                    && final(self).port_calls@ == old(self).port_calls@.push(PortCall::SwitchReported(e)),
    {
        let event = self.build_event(profiles, status, resolved, profile_id, git_root);
        self.observer.switched(&event);
        self.port_calls = Ghost(self.port_calls@.push(PortCall::SwitchReported(event)));
        assert(describes_switch(event, status, *resolved, profile_id, git_root@, profiles.profiles@));
    }

    /// Switch to `profile_id` through the apply pipeline, pin the repository
    /// locally (best effort: a failure there never undoes or hides the
    /// switch), record it and report it.
    fn apply_switch(
        &mut self,
        profiles: &mut ProfileStore,
        repos: &RepoStore,
        audit: &mut AuditLog,
        resolved: &ResolvedRepo,
        profile_id: u128,
        git_root: &str,
    ) -> (r: Result<(), AppError>)
        ensures
            final(profiles).profiles@ == old(profiles).profiles@,
            final(profiles).settings == old(profiles).settings,
            final(self).started_at == old(self).started_at,
            switch_effect(
                *resolved,
                profile_id,
                git_root@,
                old(profiles).profiles@,
                old(profiles).active_id,
                final(profiles).active_id,
                old(audit).view(),
                final(audit).view(),
                old(self).last_switch,
                final(self).last_switch,
                r is Ok,
            ),
            switch_calls(
                *resolved,
                profile_id,
                git_root@,
                old(profiles).profiles@,
                old(self).port_calls@,
                final(self).port_calls@,
                r is Ok,
            ),
    {
        let applied = self.switcher.apply(profiles, audit, profile_id);
        self.port_calls = Ghost(self.port_calls@.push(PortCall::SwitcherApply(profile_id, applied is Ok)));
        match applied {
            Ok(()) => {},
            Err(e) => {
                return Err(e);
            },
        }
        let ghost c1 = self.port_calls@;
        let ghost a1 = audit.view();
        let _ = self.switcher.apply_local(profiles, repos, audit, git_root, profile_id);
        let root_text = String::from_str(git_root);
        self.port_calls = Ghost(self.port_calls@.push(PortCall::SwitcherApplyLocal(root_text, profile_id)));
        let ghost a2 = audit.view();
        audit.record("identity.auto_switch", Some(profile_id), Some(String::from_str(git_root)));
        proof {
            lemma_appended_grew(a2, audit.view(), "identity.auto_switch"@, Some(profile_id), Some(git_root@));
            lemma_grew_trans(a1, a2, audit.view());
            lemma_grew_trans(old(audit).view(), a1, audit.view());
        }
        let event = self.build_event(profiles, SwitchStatus::Switched, resolved, Some(profile_id), git_root);
        self.last_switch = Some(event.duplicate());
        self.observer.switched(&event);
        self.port_calls = Ghost(self.port_calls@.push(PortCall::SwitchReported(event)));
        let ghost c3 = self.port_calls@;
        assert(is_switch_report(c3.last(), SwitchStatus::Switched, *resolved, Some(profile_id), git_root@, old(profiles).profiles@));
        self.emit_status(profiles);
        proof {
            let n = old(self).port_calls@.len() as int;
            assert(self.port_calls@.subrange(0, n) =~= old(self).port_calls@);
            assert(self.port_calls@[n + 2] == c3.last());
        }
        Ok(())
    }

    /// React to activity in a repository: nothing when switching is off or
    /// the repository is untracked; otherwise record why no switch is needed,
    /// ask for confirmation, or switch.
    pub fn process(
        &mut self,
        profiles: &mut ProfileStore,
        repos: &RepoStore,
        rules: &mut RuleService,
        rule_store: &RuleStore,
        audit: &mut AuditLog,
        git_root: &str,
    ) -> (r: Result<(), AppError>)
        ensures
            final(profiles).profiles@ == old(profiles).profiles@,
            final(profiles).settings == old(profiles).settings,
            final(self).started_at == old(self).started_at,
            grew(old(audit).view(), final(audit).view()),
            !old(profiles).settings.smart_switching.enabled || resolve_spec(repos.repos@, git_root@)
                is None ==> {
                &&& r is Ok
                &&& final(audit).view() == old(audit).view()
                &&& final(profiles).active_id == old(profiles).active_id
                &&& final(self).last_switch == old(self).last_switch
                &&& final(self).port_calls@ == old(self).port_calls@
            },
            old(profiles).settings.smart_switching.enabled ==> match resolve_spec(repos.repos@, git_root@) {
                None => true,
                Some(res) => exists|m: Option<RuleMatch>, mid: Seq<AuditEntry>|
                    {
                        &&& #[trigger] rule_result(rule_store@, git_root@, res, m)
                        &&& #[trigger] rule_logged(old(audit).view(), mid, m, git_root@)
                        &&& activity_effect(
                            old(profiles).settings.smart_switching,
                            res,
                            m,
                            git_root@,
                            old(profiles).profiles@,
                            old(profiles).active_id,
                            final(profiles).active_id,
                            mid,
                            final(audit).view(),
                            old(self).last_switch,
                            final(self).last_switch,
                            r is Ok,
                        )
                        &&& activity_calls(
                            old(profiles).settings.smart_switching,
                            res,
                            m,
                            git_root@,
                            old(profiles).profiles@,
                            old(profiles).active_id,
                            old(self).port_calls@,
                            final(self).port_calls@,
                            r is Ok,
                        )
                    },
            },
    {
        proof {
            assert(audit.view().subrange(0, audit.view().len() as int) =~= audit.view());
        }
        let settings = profiles.load_settings().smart_switching;
        if !settings.enabled {
            return Ok(());
        }
        proof {
            lemma_root_index_from(repos.repos@, git_root@, 0);
        }
        let resolved = match self.resolver.resolve(repos, git_root) {
            Some(r) => r,
            None => {
                return Ok(());
            },
        };
        let ghost a0 = audit.view();
        let chosen = self.resolve_profile(rules, rule_store, audit, &resolved, git_root);
        let ghost mid = audit.view();
        let ghost m = choose|m: Option<RuleMatch>|
            {
                &&& #[trigger] rule_result(rule_store@, git_root@, resolved, m)
                &&& chosen == chosen_profile(m, resolved)
                &&& rule_logged(a0, mid, m, git_root@)
            };
        proof {
            if m is Some {
                lemma_appended_grew(a0, mid, "rule.matched"@, Some(m->Some_0.profile_id), Some(git_root@));
            }
        }
        let profile_id = match chosen {
            Some(p) => p,
            None => {
                audit.record("identity.no_assignment", None, Some(String::from_str(git_root)));
                proof {
                    lemma_appended_grew(mid, audit.view(), "identity.no_assignment"@, None, Some(git_root@));
                    lemma_grew_trans(a0, mid, audit.view());
                }
                let ghost c0 = self.port_calls@;
                self.emit_switch(profiles, SwitchStatus::NoAssignment, &resolved, None, git_root);
                proof {
                    let e = choose|e: SwitchEvent|
                        #[trigger] describes_switch(e, SwitchStatus::NoAssignment, resolved, None, git_root@, profiles.profiles@)
                            && self.port_calls@ == c0.push(PortCall::SwitchReported(e));
                    assert(self.port_calls@.drop_last() =~= c0);
                }
                return Ok(());
            },
        };
        if profiles.get_active_id() == Some(profile_id) {
            audit.record("identity.same_profile", Some(profile_id), Some(String::from_str(git_root)));
            proof {
                lemma_appended_grew(mid, audit.view(), "identity.same_profile"@, Some(profile_id), Some(git_root@));
                lemma_grew_trans(a0, mid, audit.view());
            }
            return Ok(());
        }
        if settings.confirm_before_switch {
            let ghost c0 = self.port_calls@;
            self.emit_switch(
                profiles,
                SwitchStatus::PendingConfirmation,
                &resolved,
                Some(profile_id),
                git_root,
            );
            proof {
                let e = choose|e: SwitchEvent|
                    #[trigger] describes_switch(
                        e,
                        SwitchStatus::PendingConfirmation,
                        resolved,
                        Some(profile_id),
                        git_root@,
                        profiles.profiles@,
                    ) && self.port_calls@ == c0.push(PortCall::SwitchReported(e));
                assert(self.port_calls@.drop_last() =~= c0);
            }
            return Ok(());
        }
        let r = self.apply_switch(profiles, repos, audit, &resolved, profile_id, git_root);
        proof {
            lemma_grew_trans(a0, mid, audit.view());
        }
        r
    }

    /// Entry point for the watcher: errors are swallowed so a transient
    /// failure never stops the watcher.
    pub fn handle_activity(
        &mut self,
        profiles: &mut ProfileStore,
        repos: &RepoStore,
        rules: &mut RuleService,
        rule_store: &RuleStore,
        audit: &mut AuditLog,
        git_root: &str,
    )
        ensures
            final(profiles).profiles@ == old(profiles).profiles@,
            final(profiles).settings == old(profiles).settings,
            final(self).started_at == old(self).started_at,
            grew(old(audit).view(), final(audit).view()),
            !old(profiles).settings.smart_switching.enabled || resolve_spec(repos.repos@, git_root@)
                is None ==> {
                &&& final(audit).view() == old(audit).view()
                &&& final(profiles).active_id == old(profiles).active_id
                &&& final(self).last_switch == old(self).last_switch
                &&& final(self).port_calls@ == old(self).port_calls@
            },
            old(profiles).settings.smart_switching.enabled ==> match resolve_spec(repos.repos@, git_root@) {
                None => true,
                Some(res) => exists|m: Option<RuleMatch>, mid: Seq<AuditEntry>|
                    {
                        &&& #[trigger] rule_result(rule_store@, git_root@, res, m)
                        &&& #[trigger] rule_logged(old(audit).view(), mid, m, git_root@)
                        &&& (activity_effect(
                            old(profiles).settings.smart_switching,
                            res,
                            m,
                            git_root@,
                            old(profiles).profiles@,
                            old(profiles).active_id,
                            final(profiles).active_id,
                            mid,
                            final(audit).view(),
                            old(self).last_switch,
                            final(self).last_switch,
                            true,
                        ) && activity_calls(
                            old(profiles).settings.smart_switching,
                            res,
                            m,
                            git_root@,
                            old(profiles).profiles@,
                            old(profiles).active_id,
                            old(self).port_calls@,
                            final(self).port_calls@,
                            true,
                        ) || activity_effect(
                            old(profiles).settings.smart_switching,
                            res,
                            m,
                            git_root@,
                            old(profiles).profiles@,
                            old(profiles).active_id,
                            final(profiles).active_id,
                            mid,
                            final(audit).view(),
                            old(self).last_switch,
                            final(self).last_switch,
                            false,
                        ) && activity_calls(
                            old(profiles).settings.smart_switching,
                            res,
                            m,
                            git_root@,
                            old(profiles).profiles@,
                            old(profiles).active_id,
                            old(self).port_calls@,
                            final(self).port_calls@,
                            false,
                        ))
                    },
            },
    {
        let _ = self.process(profiles, repos, rules, rule_store, audit, git_root);
    }

    /// Apply the pending switch for a repository (confirm-before-switch),
    /// re-resolving so a stale assignment cannot be applied. `NotFound` for
    /// an untracked repository, `Validation` when nothing is assigned.
    pub fn confirm(
        &mut self,
        profiles: &mut ProfileStore,
        repos: &RepoStore,
        rules: &mut RuleService,
        rule_store: &RuleStore,
        audit: &mut AuditLog,
        git_root: &str,
    ) -> (r: Result<(), AppError>)
        ensures
            final(profiles).profiles@ == old(profiles).profiles@,
            final(profiles).settings == old(profiles).settings,
            grew(old(audit).view(), final(audit).view()),
            match resolve_spec(repos.repos@, git_root@) {
                None => err_kind(r) == Some(ErrorKind::NotFound) && final(audit).view() == old(
                    audit,
                ).view() && final(profiles).active_id == old(profiles).active_id
                    && final(self).port_calls@ == old(self).port_calls@,
                Some(res) => exists|m: Option<RuleMatch>, mid: Seq<AuditEntry>|
                    {
                        &&& #[trigger] rule_result(rule_store@, git_root@, res, m)
                        &&& #[trigger] rule_logged(old(audit).view(), mid, m, git_root@)
                        &&& match chosen_profile(m, res) {
                            None => err_kind(r) == Some(ErrorKind::Validation) && final(audit).view()
                                == mid && final(profiles).active_id == old(profiles).active_id
                                && final(self).port_calls@ == old(self).port_calls@,
                            Some(p) => switch_calls(
                                res,
                                p,
                                git_root@,
                                old(profiles).profiles@,
                                old(self).port_calls@,
                                final(self).port_calls@,
                                r is Ok,
                            ) && switch_effect(
                                res,
                                p,
                                git_root@,
                                old(profiles).profiles@,
                                old(profiles).active_id,
                                final(profiles).active_id,
                                mid,
                                final(audit).view(),
                                old(self).last_switch,
                                final(self).last_switch,
                                r is Ok,
                            ),
                        }
                    },
            },
    {
        proof {
            lemma_root_index_from(repos.repos@, git_root@, 0);
            assert(audit.view().subrange(0, audit.view().len() as int) =~= audit.view());
        }
        let resolved = match self.resolver.resolve(repos, git_root) {
            Some(r) => r,
            None => {
                return Err(AppError::NotFound(concat2("repository ", git_root)));
            },
        };
        let ghost a0 = audit.view();
        let chosen = self.resolve_profile(rules, rule_store, audit, &resolved, git_root);
        let ghost mid = audit.view();
        let ghost m = choose|m: Option<RuleMatch>|
            {
                &&& #[trigger] rule_result(rule_store@, git_root@, resolved, m)
                &&& chosen == chosen_profile(m, resolved)
                &&& rule_logged(a0, mid, m, git_root@)
            };
        proof {
            if m is Some {
                lemma_appended_grew(a0, mid, "rule.matched"@, Some(m->Some_0.profile_id), Some(git_root@));
            }
        }
        let profile_id = match chosen {
            Some(p) => p,
            None => {
                return Err(AppError::Validation(String::from_str("repository has no assigned profile")));
            },
        };
        let r = self.apply_switch(profiles, repos, audit, &resolved, profile_id, git_root);
        proof {
            lemma_grew_trans(a0, mid, audit.view());
        }
        r
    }

    /// Record that the user dismissed a pending switch.
    pub fn cancel(&self, audit: &mut AuditLog, git_root: &str) -> (r: Result<(), AppError>)
        ensures
            r is Ok,
            appended(
                old(audit).view(),
                final(audit).view(),
                "identity.switch_cancelled"@,
                None,
                Some(git_root@),
            ),
    {
        audit.record("identity.switch_cancelled", None, Some(String::from_str(git_root)));
        Ok(())
    }

    /// Pin the resolved profile into one repository's local config, before
    /// the next commit. Nothing happens for an untracked repository or one
    /// that resolves to no profile; global config and the active marker are
    /// never touched.
    pub fn pin_repo(
        &mut self,
        profiles: &ProfileStore,
        repos: &RepoStore,
        rules: &mut RuleService,
        rule_store: &RuleStore,
        audit: &mut AuditLog,
        git_root: &str,
    ) -> (r: Result<(), AppError>)
        ensures
            grew(old(audit).view(), final(audit).view()),
            final(self).started_at == old(self).started_at,
            final(self).last_switch == old(self).last_switch,
            match resolve_spec(repos.repos@, git_root@) {
                None => r is Ok && final(audit).view() == old(audit).view(),
                Some(res) => exists|m: Option<RuleMatch>, mid: Seq<AuditEntry>|
                    {
                        &&& #[trigger] rule_result(rule_store@, git_root@, res, m)
                        &&& #[trigger] rule_logged(old(audit).view(), mid, m, git_root@)
                        &&& chosen_profile(m, res) is None ==> r is Ok && final(audit).view() == mid
                        &&& match chosen_profile(m, res) {
                            None => final(self).port_calls@ == old(self).port_calls@,
                            Some(p) => {
                                &&& final(self).port_calls@.len() == old(self).port_calls@.len() + 1
                                &&& final(self).port_calls@.drop_last() == old(self).port_calls@
                                &&& is_local_pin(final(self).port_calls@.last(), git_root@, p)
                            },
                        }
                    },
            },
            resolve_spec(repos.repos@, git_root@) is None ==> final(self).port_calls@ == old(self).port_calls@,
    {
        proof {
            lemma_root_index_from(repos.repos@, git_root@, 0);
            assert(audit.view().subrange(0, audit.view().len() as int) =~= audit.view());
        }
        let resolved = match self.resolver.resolve(repos, git_root) {
            Some(r) => r,
            None => {
                return Ok(());
            },
        };
        let ghost a0 = audit.view();
        let chosen = self.resolve_profile(rules, rule_store, audit, &resolved, git_root);
        let ghost mid = audit.view();
        let ghost m = choose|m: Option<RuleMatch>|
            {
                &&& #[trigger] rule_result(rule_store@, git_root@, resolved, m)
                &&& chosen == chosen_profile(m, resolved)
                &&& rule_logged(a0, mid, m, git_root@)
            };
        proof {
            if m is Some {
                lemma_appended_grew(a0, mid, "rule.matched"@, Some(m->Some_0.profile_id), Some(git_root@));
            }
        }
        let profile_id = match chosen {
            Some(p) => p,
            None => {
                return Ok(());
            },
        };
        let r = self.switcher.apply_local(profiles, repos, audit, git_root, profile_id);
        let root_text = String::from_str(git_root);
        self.port_calls = Ghost(self.port_calls@.push(PortCall::SwitcherApplyLocal(root_text, profile_id)));
        proof {
            lemma_grew_trans(a0, mid, audit.view());
            assert(self.port_calls@.drop_last() =~= old(self).port_calls@);
        }
        r
    }

    /// Pin every tracked repository (best effort: a failure on one does not
    /// stop the others).
    pub fn pin_all(
        &mut self,
        profiles: &ProfileStore,
        repos: &RepoStore,
        rules: &mut RuleService,
        rule_store: &RuleStore,
        audit: &mut AuditLog,
    )
        ensures
            grew(old(audit).view(), final(audit).view()),
            final(self).started_at == old(self).started_at,
            final(self).last_switch == old(self).last_switch,
            pins_all(repos.repos@, rule_store@, old(self).port_calls@, final(self).port_calls@),
    {
        let roots = self.resolver.watchable_roots(repos);
        let ghost rv = repos.repos@.map_values(|r: Repo| r.git_root@);
        let ghost c0 = self.port_calls@;
        let ghost n0 = c0.len() as int;
        let ghost mut picks: Seq<Option<u128>> = Seq::empty();
        let mut i: usize = 0;
        assert(audit.view().subrange(0, audit.view().len() as int) =~= audit.view());
        assert(self.port_calls@.subrange(n0, n0) =~= Seq::<PortCall>::empty());
        assert(self.port_calls@.subrange(0, n0) =~= c0);
        while i < roots.len()
            invariant
                i <= roots@.len(),
                roots@ == repos.repos@.map_values(|r: Repo| r.git_root),
                rv == repos.repos@.map_values(|r: Repo| r.git_root@),
                grew(old(audit).view(), audit.view()),
                self.started_at == old(self).started_at,
                self.last_switch == old(self).last_switch,
                c0 == old(self).port_calls@,
                n0 == c0.len(),
                picks.len() == i,
                forall|k: int| 0 <= k < i ==> root_pick(repos.repos@, rule_store@, rv[k], #[trigger] picks[k]),
                n0 <= self.port_calls@.len(),
                self.port_calls@.subrange(0, n0) == c0,
                local_pins(
                    self.port_calls@.subrange(n0, self.port_calls@.len() as int),
                    rv.subrange(0, i as int),
                    picks,
                ),
            decreases roots@.len() - i,
        {
            let ghost a0 = audit.view();
            let ghost cb = self.port_calls@;
            let ghost root = rv[i as int];
            assert(roots@[i as int]@ == root);
            let _ = self.pin_repo(profiles, repos, rules, rule_store, audit, roots[i].as_str());
            let ghost ca = self.port_calls@;
            proof {
                lemma_grew_trans(old(audit).view(), a0, audit.view());
                let pick: Option<u128> = match resolve_spec(repos.repos@, root) {
                    None => None,
                    Some(res) => {
                        let (m, mid) = choose|m: Option<RuleMatch>, mid: Seq<AuditEntry>|
                            {
                                &&& #[trigger] rule_result(rule_store@, root, res, m)
                                &&& #[trigger] rule_logged(a0, mid, m, root)
                                &&& chosen_profile(m, res) is None ==> audit.view() == mid
                                &&& match chosen_profile(m, res) {
                                    None => ca == cb,
                                    Some(p) => {
                                        &&& ca.len() == cb.len() + 1
                                        &&& ca.drop_last() == cb
                                        &&& is_local_pin(ca.last(), root, p)
                                    },
                                }
                            };
                        assert(rule_result(rule_store@, root, res, m));
                        chosen_profile(m, res)
                    },
                };
                assert(root_pick(repos.repos@, rule_store@, root, pick));
                let seg = cb.subrange(n0, cb.len() as int);
                let seg2 = ca.subrange(n0, ca.len() as int);
                let rs = rv.subrange(0, i + 1);
                let ps = picks.push(pick);
                assert(rs.drop_last() =~= rv.subrange(0, i as int));
                assert(ps.drop_last() =~= picks);
                assert(rs.last() == root);
                match pick {
                    None => {
                        assert(ca == cb);
                        assert(seg2 == seg);
                    },
                    Some(p) => {
                        assert(seg2.drop_last() =~= seg);
                        assert(seg2.last() == ca.last());
                        assert(ca.subrange(0, n0) =~= cb.subrange(0, n0));
                    },
                }
                assert(local_pins(seg2, rs, ps));
                picks = ps;
            }
            i = i + 1;
        }
        proof {
            assert(rv.subrange(0, i as int) =~= rv);
            assert(pins_all(repos.repos@, rule_store@, c0, self.port_calls@));
        }
    }

    /// Bring the watcher in line with the settings: watching every tracked
    /// repository (each pinned up front) when switching is on, stopped
    /// otherwise. Safe to call repeatedly.
    pub fn reconcile(
        &mut self,
        profiles: &ProfileStore,
        repos: &RepoStore,
        rules: &mut RuleService,
        rule_store: &RuleStore,
        audit: &mut AuditLog,
    ) -> (r: Result<(), AppError>)
        ensures
            grew(old(audit).view(), final(audit).view()),
            final(self).last_switch == old(self).last_switch,
            !profiles.settings.smart_switching.enabled ==> r is Ok && final(self).started_at is None
                && final(audit).view() == old(audit).view(),
            profiles.settings.smart_switching.enabled && r is Ok ==> final(self).started_at is Some
                && (old(self).started_at is Some ==> final(self).started_at == old(self).started_at),
            r is Err ==> final(self).started_at == old(self).started_at,
            ({
                let c0 = old(self).port_calls@;
                let c1 = final(self).port_calls@;
                let n = c0.len() as int;
                if profiles.settings.smart_switching.enabled {
                    &&& c1.len() > n
                    &&& c1.subrange(0, n) == c0
                    &&& is_watch_start(c1[n], repos.repos@.map_values(|x: Repo| x.git_root@), r is Ok)
                    &&& r is Err ==> c1.len() == n + 1
                    &&& r is Ok ==> {
                        &&& pins_all(repos.repos@, rule_store@, c1.subrange(0, n + 1), c1.drop_last())
                        &&& c1.last() is StatusReported
                    }
                } else {
                    &&& c1.len() == n + 2
                    &&& c1.subrange(0, n) == c0
                    &&& c1[n] == PortCall::WatchStop
                    &&& c1[n + 1] is StatusReported
                }
            }),
    {
        assert(audit.view().subrange(0, audit.view().len() as int) =~= audit.view());
        if profiles.load_settings().smart_switching.enabled {
            let roots = self.resolver.watchable_roots(repos);
            let started = self.watcher.start(&roots);
            proof {
                assert(roots@.map_values(|s: String| s@) =~= repos.repos@.map_values(|x: Repo| x.git_root@));
            }
            self.port_calls = Ghost(self.port_calls@.push(PortCall::WatchStart(roots, started is Ok)));
            proof {
                assert(self.port_calls@.subrange(0, old(self).port_calls@.len() as int) =~= old(self).port_calls@);
            }
            match started {
                Ok(()) => {},
                Err(e) => {
                    return Err(e);
                },
            }
            let ghost c1 = self.port_calls@;
            self.pin_all(profiles, repos, rules, rule_store, audit);
            let ghost c2 = self.port_calls@;
            if self.started_at.is_none() {
                self.started_at = Some(now_millis());
            }
        } else {
            self.watcher.stop();
            self.port_calls = Ghost(self.port_calls@.push(PortCall::WatchStop));
            self.started_at = None;
        }
        let ghost cb = self.port_calls@;
        self.emit_status(profiles);
        proof {
            let n = old(self).port_calls@.len() as int;
            assert(self.port_calls@.drop_last() =~= cb);
            assert(self.port_calls@.subrange(0, n) =~= cb.subrange(0, n));
            if profiles.settings.smart_switching.enabled {
                assert(self.port_calls@[n] == cb[n]);
                assert(self.port_calls@.subrange(0, n + 1) =~= cb.subrange(0, n + 1));
            } else {
                assert(self.port_calls@[n] == cb[n]);
            }
        }
        Ok(())
    }

    /// Rebuild the watch set (e.g. after a scan).
    pub fn restart(
        &mut self,
        profiles: &ProfileStore,
        repos: &RepoStore,
        rules: &mut RuleService,
        rule_store: &RuleStore,
        audit: &mut AuditLog,
    ) -> (r: Result<(), AppError>)
        ensures
            grew(old(audit).view(), final(audit).view()),
            final(self).last_switch == old(self).last_switch,
            !profiles.settings.smart_switching.enabled ==> r is Ok && final(self).started_at is None,
            profiles.settings.smart_switching.enabled && r is Ok ==> final(self).started_at is Some,
    {
        self.reconcile(profiles, repos, rules, rule_store, audit)
    }

    /// Persist the master switch, then reconcile the watcher.
    pub fn set_enabled(
        &mut self,
        profiles: &mut ProfileStore,
        repos: &RepoStore,
        rules: &mut RuleService,
        rule_store: &RuleStore,
        audit: &mut AuditLog,
        enabled: bool,
    ) -> (r: Result<(), AppError>)
        ensures
            final(profiles).settings == (crate::profile::AppSettings {
                smart_switching: SmartSwitchingSettings { enabled, ..old(profiles).settings.smart_switching },
                ..old(profiles).settings
            }),
            final(profiles).profiles@ == old(profiles).profiles@,
            final(profiles).active_id == old(profiles).active_id,
            grew(old(audit).view(), final(audit).view()),
            !enabled ==> r is Ok && final(self).started_at is None,
            enabled && r is Ok ==> final(self).started_at is Some,
    {
        let mut settings = profiles.load_settings();
        settings.smart_switching.enabled = enabled;
        profiles.save_settings(settings);
        self.reconcile(profiles, repos, rules, rule_store, audit)
    }

    /// On launch, start watching when the user opted in.
    pub fn maybe_start_on_launch(
        &mut self,
        profiles: &ProfileStore,
        repos: &RepoStore,
        rules: &mut RuleService,
        rule_store: &RuleStore,
        audit: &mut AuditLog,
    ) -> (r: Result<(), AppError>)
        ensures
            grew(old(audit).view(), final(audit).view()),
            !profiles.settings.smart_switching.start_on_launch ==> r is Ok && final(self).started_at
                == old(self).started_at && final(audit).view() == old(audit).view(),
    {
        if profiles.load_settings().smart_switching.start_on_launch {
            self.reconcile(profiles, repos, rules, rule_store, audit)?;
        } else {
            assert(audit.view().subrange(0, audit.view().len() as int) =~= audit.view());
        }
        Ok(())
    }

    /// Pause the watcher.
    pub fn pause(&mut self, profiles: &ProfileStore)
        ensures
            final(self).started_at == old(self).started_at,
            final(self).last_switch == old(self).last_switch,
            exists|s: SmartSwitchStatus|
                #[trigger] reports_state(
                    s,
                    profiles.settings.smart_switching,
                    old(self).last_switch,
                    old(self).started_at,
                ) && final(self).port_calls@ == old(self).port_calls@.push(PortCall::WatchPause).push(
                    PortCall::StatusReported(s),
                ),
    {
        self.watcher.pause();
        self.port_calls = Ghost(self.port_calls@.push(PortCall::WatchPause));
        self.emit_status(profiles);
    }

    /// Resume the watcher.
    pub fn resume(&mut self, profiles: &ProfileStore)
        ensures
            final(self).started_at == old(self).started_at,
            final(self).last_switch == old(self).last_switch,
            exists|s: SmartSwitchStatus|
                #[trigger] reports_state(
                    s,
                    profiles.settings.smart_switching,
                    old(self).last_switch,
                    old(self).started_at,
                ) && final(self).port_calls@ == old(self).port_calls@.push(PortCall::WatchResume).push(
                    PortCall::StatusReported(s),
                ),
    {
        self.watcher.resume();
        self.port_calls = Ghost(self.port_calls@.push(PortCall::WatchResume));
        self.emit_status(profiles);
    }
}

} // verus!

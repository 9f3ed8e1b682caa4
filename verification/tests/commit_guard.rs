use gitpersona::audit::AuditLog;
use gitpersona::commit_guard::{CommitGuardService, ExpectedIdentity, HookAction, HookRegistry, HookState};
use gitpersona::error::AppError;
use gitpersona::git_config::GitConfig;
use gitpersona::profile::{GuardMode, Identity, Profile, ProfileStore};
use gitpersona::repo::{Repo, RepoStore};
use gitpersona::rule_service::{RuleService, RuleStore};
use gitpersona::table::Table;

fn new_id() -> u128 {
    uuid::Uuid::new_v4().as_u128()
}

struct Harness {
    svc: CommitGuardService,
    store: ProfileStore,
    repos: RepoStore,
    rules: RuleService,
    rule_store: RuleStore,
    hooks: HookRegistry,
    git: GitConfig,
    audit: AuditLog,
}

fn harness() -> Harness {
    Harness {
        svc: CommitGuardService::new(),
        store: ProfileStore::new(),
        repos: RepoStore::new(),
        rules: RuleService::new(),
        rule_store: Table::new(),
        hooks: HookRegistry::new(),
        git: GitConfig::new(),
        audit: AuditLog::new(),
    }
}

fn add_profile(h: &mut Harness, label: &str, email: &str) -> u128 {
    let id = new_id();
    h.store.save(Profile {
        id,
        label: label.into(),
        identity: Identity { name: "Dev".into(), email: email.into(), signing_key: None },
        color: None,
    });
    id
}

fn add_repo(h: &mut Harness, root: &str, profile: Option<u128>) -> u128 {
    let id = new_id();
    h.repos.save(Repo {
        id,
        name: root.rsplit('/').next().unwrap().into(),
        path: root.into(),
        git_root: root.into(),
        active_branch: None,
        active_profile_id: profile,
        remote_origin: None,
        last_opened: None,
        favorite: false,
        detected_at: 0,
        group_id: None,
        path_exists: true,
    });
    id
}

#[test]
fn install_writes_expected_identity_marker() {
    let mut h = harness();
    let pid = add_profile(&mut h, "Work", "work@acme.io");
    let rid = add_repo(&mut h, "/code/api", Some(pid));
    let status = h
        .svc
        .install(&h.store, &h.repos, &mut h.rules, &h.rule_store, &mut h.hooks, &h.git, &mut h.audit, rid)
        .unwrap();
    assert_eq!(h.hooks.hook_state("/code/api"), HookState::Managed);
    let marker = h.hooks.read_marker("/code/api").unwrap();
    assert_eq!(marker.email, "work@acme.io");
    assert_eq!(marker.mode, GuardMode::Warn);
    assert_eq!(status.protected_count, 1);
    assert_eq!(status.repos[0].expected_profile_id, Some(pid));
    assert_eq!(status.repos[0].expected_label.as_deref(), Some("Work"));
    assert!(h.audit.has_action("commit_guard.installed"));
    let actions = h.hooks.take_pending();
    assert_eq!(actions.len(), 1);
    assert!(matches!(&actions[0], HookAction::Install { git_root, .. } if git_root == "/code/api"));
}

#[test]
fn install_unknown_repository_is_not_found() {
    let mut h = harness();
    let err = h
        .svc
        .install(&h.store, &h.repos, &mut h.rules, &h.rule_store, &mut h.hooks, &h.git, &mut h.audit, new_id())
        .unwrap_err();
    assert!(matches!(err, AppError::NotFound(_)));
}

#[test]
fn install_chains_foreign_hook_and_uninstall_restores_it() {
    let mut h = harness();
    let rid = add_repo(&mut h, "/code/web", None);
    h.hooks.observe("/code/web", HookState::Foreign, None);
    h.svc
        .install(&h.store, &h.repos, &mut h.rules, &h.rule_store, &mut h.hooks, &h.git, &mut h.audit, rid)
        .unwrap();
    assert_eq!(h.hooks.hook_state("/code/web"), HookState::ManagedChained);
    let marker = h.hooks.read_marker("/code/web").unwrap();
    assert_eq!(marker.email, "");
    h.svc
        .uninstall(&h.store, &h.repos, &mut h.rules, &h.rule_store, &mut h.hooks, &h.git, &mut h.audit, rid)
        .unwrap();
    assert_eq!(h.hooks.hook_state("/code/web"), HookState::Foreign);
    assert!(h.audit.has_action("commit_guard.uninstalled"));
}

#[test]
fn disabling_guard_removes_managed_hooks() {
    let mut h = harness();
    let pid = add_profile(&mut h, "Work", "w@x");
    let a = add_repo(&mut h, "/code/a", Some(pid));
    add_repo(&mut h, "/code/b", None);
    h.svc
        .set_enabled(&mut h.store, &h.repos, &mut h.rules, &h.rule_store, &mut h.hooks, &h.git, &mut h.audit, true);
    h.svc
        .install(&h.store, &h.repos, &mut h.rules, &h.rule_store, &mut h.hooks, &h.git, &mut h.audit, a)
        .unwrap();
    let status = h
        .svc
        .set_enabled(&mut h.store, &h.repos, &mut h.rules, &h.rule_store, &mut h.hooks, &h.git, &mut h.audit, false);
    assert!(!status.enabled);
    assert_eq!(status.protected_count, 0);
    assert_eq!(h.hooks.hook_state("/code/a"), HookState::NotInstalled);
    assert!(h.audit.has_action("commit_guard.disabled"));
}

#[test]
fn auto_protect_installs_repos_with_expected_profile() {
    let mut h = harness();
    let pid = add_profile(&mut h, "Work", "w@x");
    add_repo(&mut h, "/code/a", Some(pid));
    add_repo(&mut h, "/code/b", None);
    h.svc
        .set_enabled(&mut h.store, &h.repos, &mut h.rules, &h.rule_store, &mut h.hooks, &h.git, &mut h.audit, true);
    let status = h
        .svc
        .set_auto_protect(&mut h.store, &h.repos, &mut h.rules, &h.rule_store, &mut h.hooks, &h.git, true);
    assert_eq!(status.protected_count, 1);
    assert_eq!(h.hooks.hook_state("/code/a"), HookState::Managed);
    assert_eq!(h.hooks.hook_state("/code/b"), HookState::NotInstalled);
}

#[test]
fn set_mode_rewrites_markers_of_protected_repos() {
    let mut h = harness();
    let pid = add_profile(&mut h, "Work", "w@x");
    let a = add_repo(&mut h, "/code/a", Some(pid));
    h.svc
        .set_enabled(&mut h.store, &h.repos, &mut h.rules, &h.rule_store, &mut h.hooks, &h.git, &mut h.audit, true);
    h.svc
        .install(&h.store, &h.repos, &mut h.rules, &h.rule_store, &mut h.hooks, &h.git, &mut h.audit, a)
        .unwrap();
    let status = h
        .svc
        .set_mode(&mut h.store, &h.repos, &mut h.rules, &h.rule_store, &mut h.hooks, &h.git, GuardMode::Block);
    assert_eq!(status.mode, GuardMode::Block);
    assert_eq!(status.repos[0].mode, Some(GuardMode::Block));
}

#[test]
fn status_reports_identity_match() {
    let mut h = harness();
    let pid = add_profile(&mut h, "Work", "w@x");
    add_repo(&mut h, "/code/a", Some(pid));
    h.git.set_local_identity("/code/a", &Identity { name: "Dev".into(), email: "other@x".into(), signing_key: None });
    let s = h.svc.status(&h.store, &h.repos, &mut h.rules, &h.rule_store, &h.hooks, &h.git);
    assert_eq!(s.repos[0].current_email.as_deref(), Some("other@x"));
    assert_eq!(s.repos[0].identity_matches, Some(false));
    h.git.set_local_identity("/code/a", &Identity { name: "Dev".into(), email: "w@x".into(), signing_key: None });
    let s = h.svc.status(&h.store, &h.repos, &mut h.rules, &h.rule_store, &h.hooks, &h.git);
    assert_eq!(s.repos[0].identity_matches, Some(true));
    assert!(!s.repos[0].protected);
}

#[test]
fn refresh_after_assignment_rewrites_protected_marker() {
    let mut h = harness();
    let p1 = add_profile(&mut h, "Work", "w@x");
    let p2 = add_profile(&mut h, "Home", "h@x");
    let a = add_repo(&mut h, "/code/a", Some(p1));
    h.svc
        .set_enabled(&mut h.store, &h.repos, &mut h.rules, &h.rule_store, &mut h.hooks, &h.git, &mut h.audit, true);
    h.svc
        .install(&h.store, &h.repos, &mut h.rules, &h.rule_store, &mut h.hooks, &h.git, &mut h.audit, a)
        .unwrap();
    let mut repo = h.repos.find(a).unwrap();
    repo.active_profile_id = Some(p2);
    h.repos.save(repo);
    h.svc.refresh_after_assignment(&h.store, &h.repos, &mut h.rules, &h.rule_store, &mut h.hooks, "/code/a");
    assert_eq!(h.hooks.read_marker("/code/a").unwrap().email, "h@x");
}

#[test]
fn refresh_after_assignment_does_nothing_when_guard_off() {
    let mut h = harness();
    let p1 = add_profile(&mut h, "Work", "w@x");
    add_repo(&mut h, "/code/a", Some(p1));
    h.svc.refresh_after_assignment(&h.store, &h.repos, &mut h.rules, &h.rule_store, &mut h.hooks, "/code/a");
    assert_eq!(h.hooks.hook_state("/code/a"), HookState::NotInstalled);
    assert!(h.hooks.take_pending().is_empty());
}

#[test]
fn expected_identity_is_empty_without_profile() {
    let m: ExpectedIdentity = CommitGuardService::expected_identity(&None, GuardMode::Block);
    assert_eq!(m.name, "");
    assert_eq!(m.email, "");
    assert_eq!(m.mode, GuardMode::Block);
}

#[test]
fn repair_reinstalls_managed_hook() {
    let mut h = harness();
    let rid = add_repo(&mut h, "/code/a", None);
    h.svc
        .repair(&h.store, &h.repos, &mut h.rules, &h.rule_store, &mut h.hooks, &h.git, &mut h.audit, rid)
        .unwrap();
    assert_eq!(h.hooks.hook_state("/code/a"), HookState::Managed);
    h.svc
        .repair(&h.store, &h.repos, &mut h.rules, &h.rule_store, &mut h.hooks, &h.git, &mut h.audit, rid)
        .unwrap();
    assert_eq!(h.hooks.hook_state("/code/a"), HookState::Managed);
    assert_eq!(h.hooks.take_pending().len(), 2);
}

#[test]
fn local_identity_lookup_uses_latest_setting() {
    let mut g = GitConfig::new();
    assert!(g.get_local_name("/r").is_none());
    g.set_local_identity("/r", &Identity { name: "A".into(), email: "a@x".into(), signing_key: None });
    g.set_local_identity("/other", &Identity { name: "O".into(), email: "o@x".into(), signing_key: None });
    g.set_local_identity("/r", &Identity { name: "B".into(), email: "b@x".into(), signing_key: None });
    assert_eq!(g.get_local_name("/r").as_deref(), Some("B"));
    assert_eq!(g.get_local_email("/r").as_deref(), Some("b@x"));
    assert_eq!(g.get_local_email("/other").as_deref(), Some("o@x"));
}

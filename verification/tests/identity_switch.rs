use gitpersona::audit::AuditLog;
use gitpersona::error::AppError;
use gitpersona::identity_switch::{
    IdentitySwitchService, IdentitySwitcher, SmartSwitchStatus, SwitchEvent, SwitchObserver, SwitchStatus,
    WorkspaceWatcher,
};
use gitpersona::profile::{Identity, Profile, ProfileStore, SmartSwitchingSettings};
use gitpersona::repo::{Repo, RepoStore};
use gitpersona::rule::{RuleCondition, RuleOperator, RuleSubject};
use gitpersona::rule_service::{RuleService, RuleStore};
use gitpersona::table::Table;

fn new_id() -> u128 {
    uuid::Uuid::new_v4().as_u128()
}

#[derive(Default)]
struct MockSwitcher {
    applied: Vec<u128>,
    pinned: Vec<(String, u128)>,
    fail_local: bool,
}

impl IdentitySwitcher for MockSwitcher {
    fn apply(&mut self, profiles: &mut ProfileStore, _audit: &mut AuditLog, profile_id: u128) -> Result<(), AppError> {
        self.applied.push(profile_id);
        profiles.set_active_id(Some(profile_id));
        Ok(())
    }
    fn apply_local(
        &mut self,
        _profiles: &ProfileStore,
        _repos: &RepoStore,
        _audit: &mut AuditLog,
        git_root: &str,
        profile_id: u128,
    ) -> Result<(), AppError> {
        if self.fail_local {
            return Err(AppError::Internal("local pin failed".into()));
        }
        self.pinned.push((git_root.to_string(), profile_id));
        Ok(())
    }
}

#[derive(Default)]
struct MockWatcher {
    watching: bool,
    paused: bool,
    count: usize,
    starts: u32,
}

impl WorkspaceWatcher for MockWatcher {
    fn start(&mut self, git_roots: &Vec<String>) -> Result<(), AppError> {
        self.watching = true;
        self.paused = false;
        self.count = git_roots.len();
        self.starts += 1;
        Ok(())
    }
    fn stop(&mut self) {
        self.watching = false;
        self.count = 0;
    }
    fn pause(&mut self) {
        self.paused = true;
    }
    fn resume(&mut self) {
        self.paused = false;
    }
    fn is_watching(&self) -> bool {
        self.watching
    }
    fn is_paused(&self) -> bool {
        self.paused
    }
    fn watched_count(&self) -> usize {
        self.count
    }
}

#[derive(Default)]
struct MockObserver {
    events: Vec<SwitchEvent>,
    statuses: Vec<SmartSwitchStatus>,
}

impl SwitchObserver for MockObserver {
    fn switched(&mut self, event: &SwitchEvent) {
        self.events.push(event.clone());
    }
    fn status_changed(&mut self, status: &SmartSwitchStatus) {
        self.statuses.push(status.clone());
    }
}

struct Harness {
    svc: IdentitySwitchService<MockSwitcher, MockWatcher, MockObserver>,
    profiles: ProfileStore,
    repos: RepoStore,
    rules: RuleService,
    rule_store: RuleStore,
    audit: AuditLog,
}

fn harness(smart: SmartSwitchingSettings) -> Harness {
    let mut profiles = ProfileStore::new();
    let mut settings = profiles.load_settings();
    settings.smart_switching = smart;
    profiles.save_settings(settings);
    Harness {
        svc: IdentitySwitchService::new(MockSwitcher::default(), MockWatcher::default(), MockObserver::default()),
        profiles,
        repos: RepoStore::new(),
        rules: RuleService::new(),
        rule_store: Table::new(),
        audit: AuditLog::new(),
    }
}

fn enabled() -> SmartSwitchingSettings {
    SmartSwitchingSettings { enabled: true, ..SmartSwitchingSettings::default() }
}

fn add_label(h: &mut Harness, id: u128, label: &str) {
    h.profiles.save(Profile {
        id,
        label: label.into(),
        identity: Identity { name: "N".into(), email: format!("{label}@x"), signing_key: None },
        color: None,
    });
}

fn add_repo(h: &mut Harness, root: &str, name: &str, profile_id: Option<u128>) {
    h.repos.save(Repo {
        id: new_id(),
        name: name.into(),
        path: root.into(),
        git_root: root.into(),
        active_branch: None,
        active_profile_id: profile_id,
        remote_origin: None,
        last_opened: None,
        favorite: false,
        detected_at: 0,
        group_id: None,
        path_exists: true,
    });
}

/// A rule matching every repository under `/repo/`, pointing at `profile_id`.
fn force_rule(h: &mut Harness, profile_id: u128) {
    if h.profiles.find(profile_id).is_none() {
        add_label(h, profile_id, "forced");
    }
    h.rules
        .create(
            &mut h.rule_store,
            &h.profiles,
            &mut h.audit,
            "forced",
            RuleCondition { subject: RuleSubject::RepoPath, operator: RuleOperator::StartsWith, value: "/repo/".into() },
            profile_id,
        )
        .unwrap();
}

fn handle(h: &mut Harness, root: &str) {
    h.svc.handle_activity(&mut h.profiles, &h.repos, &mut h.rules, &h.rule_store, &mut h.audit, root);
}

fn actions(h: &Harness) -> Vec<String> {
    h.audit.read_all().into_iter().map(|e| e.action).collect()
}

#[test]
fn switches_when_assigned_profile_differs() {
    let mut h = harness(enabled());
    let pid = new_id();
    add_label(&mut h, pid, "Work");
    add_repo(&mut h, "/repo/a", "a", Some(pid));
    handle(&mut h, "/repo/a");
    assert_eq!(h.svc.switcher.applied.as_slice(), &[pid]);
    assert_eq!(h.svc.switcher.pinned.as_slice(), &[("/repo/a".to_string(), pid)]);
    assert!(actions(&h).contains(&"identity.auto_switch".to_string()));
    let last = h.svc.observer.events.last().unwrap();
    assert_eq!(last.status, SwitchStatus::Switched);
    assert_eq!(last.profile_label.as_deref(), Some("Work"));
}

#[test]
fn local_pin_failure_does_not_suppress_switch() {
    let mut h = harness(enabled());
    let pid = new_id();
    add_label(&mut h, pid, "Work");
    add_repo(&mut h, "/repo/a", "a", Some(pid));
    h.svc.switcher.fail_local = true;
    handle(&mut h, "/repo/a");
    assert_eq!(h.svc.switcher.applied.as_slice(), &[pid]);
    assert!(actions(&h).contains(&"identity.auto_switch".to_string()));
    assert_eq!(h.svc.observer.events.last().unwrap().status, SwitchStatus::Switched);
}

#[test]
fn rule_match_overrides_manual_assignment() {
    let mut h = harness(enabled());
    let manual = new_id();
    let rule_profile = new_id();
    add_label(&mut h, rule_profile, "Rule");
    add_repo(&mut h, "/repo/a", "a", Some(manual));
    force_rule(&mut h, rule_profile);
    handle(&mut h, "/repo/a");
    assert_eq!(h.svc.switcher.applied.as_slice(), &[rule_profile]);
    assert!(actions(&h).contains(&"rule.matched".to_string()));
}

#[test]
fn rule_match_applies_without_manual_assignment() {
    let mut h = harness(enabled());
    let rule_profile = new_id();
    add_repo(&mut h, "/repo/a", "a", None);
    force_rule(&mut h, rule_profile);
    handle(&mut h, "/repo/a");
    assert_eq!(h.svc.switcher.applied.as_slice(), &[rule_profile]);
    assert!(actions(&h).contains(&"rule.matched".to_string()));
}

#[test]
fn falls_back_to_manual_assignment_when_no_rule_matches() {
    let mut h = harness(enabled());
    let manual = new_id();
    add_label(&mut h, manual, "Work");
    add_repo(&mut h, "/repo/a", "a", Some(manual));
    handle(&mut h, "/repo/a");
    assert_eq!(h.svc.switcher.applied.as_slice(), &[manual]);
    assert!(!actions(&h).contains(&"rule.matched".to_string()));
}

#[test]
fn no_switch_when_already_active() {
    let mut h = harness(enabled());
    let pid = new_id();
    h.profiles.set_active_id(Some(pid));
    add_repo(&mut h, "/repo/a", "a", Some(pid));
    handle(&mut h, "/repo/a");
    assert!(h.svc.switcher.applied.is_empty());
    assert!(actions(&h).contains(&"identity.same_profile".to_string()));
}

#[test]
fn records_no_assignment() {
    let mut h = harness(enabled());
    add_repo(&mut h, "/repo/a", "a", None);
    handle(&mut h, "/repo/a");
    assert!(h.svc.switcher.applied.is_empty());
    assert!(actions(&h).contains(&"identity.no_assignment".to_string()));
    assert_eq!(h.svc.observer.events.last().unwrap().status, SwitchStatus::NoAssignment);
}

#[test]
fn confirm_before_switch_defers_apply() {
    let mut h = harness(SmartSwitchingSettings {
        enabled: true,
        confirm_before_switch: true,
        ..SmartSwitchingSettings::default()
    });
    let pid = new_id();
    add_repo(&mut h, "/repo/a", "a", Some(pid));
    handle(&mut h, "/repo/a");
    assert!(h.svc.switcher.applied.is_empty());
    assert_eq!(h.svc.observer.events.last().unwrap().status, SwitchStatus::PendingConfirmation);
    h.svc.confirm(&mut h.profiles, &h.repos, &mut h.rules, &h.rule_store, &mut h.audit, "/repo/a").unwrap();
    assert_eq!(h.svc.switcher.applied.as_slice(), &[pid]);
    assert!(actions(&h).contains(&"identity.auto_switch".to_string()));
}

#[test]
fn cancel_records_activity() {
    let mut h = harness(enabled());
    h.svc.cancel(&mut h.audit, "/repo/a").unwrap();
    assert!(actions(&h).contains(&"identity.switch_cancelled".to_string()));
}

#[test]
fn disabled_ignores_activity() {
    let mut h = harness(SmartSwitchingSettings::default());
    let pid = new_id();
    add_repo(&mut h, "/repo/a", "a", Some(pid));
    handle(&mut h, "/repo/a");
    assert!(h.svc.switcher.applied.is_empty());
    assert!(actions(&h).is_empty());
}

#[test]
fn reconcile_starts_when_enabled_and_stops_when_disabled() {
    let mut h = harness(enabled());
    add_repo(&mut h, "/repo/a", "a", None);
    add_repo(&mut h, "/repo/b", "b", None);
    h.svc.reconcile(&h.profiles, &h.repos, &mut h.rules, &h.rule_store, &mut h.audit).unwrap();
    assert!(h.svc.watcher.is_watching());
    assert_eq!(h.svc.status(&h.profiles).repos_monitored, 2);
    h.svc.set_enabled(&mut h.profiles, &h.repos, &mut h.rules, &h.rule_store, &mut h.audit, false).unwrap();
    assert!(!h.svc.watcher.is_watching());
    assert!(!h.svc.status(&h.profiles).enabled);
}

#[test]
fn reconcile_pins_tracked_repos_up_front() {
    let mut h = harness(enabled());
    let pid = new_id();
    add_repo(&mut h, "/repo/a", "a", Some(pid));
    add_repo(&mut h, "/repo/b", "b", None);
    h.svc.reconcile(&h.profiles, &h.repos, &mut h.rules, &h.rule_store, &mut h.audit).unwrap();
    assert_eq!(h.svc.switcher.pinned.as_slice(), &[("/repo/a".to_string(), pid)]);
}

#[test]
fn pin_repo_uses_rule_over_manual_assignment() {
    let mut h = harness(enabled());
    let manual = new_id();
    let rule_profile = new_id();
    add_repo(&mut h, "/repo/a", "a", Some(manual));
    force_rule(&mut h, rule_profile);
    h.svc.pin_repo(&h.profiles, &h.repos, &mut h.rules, &h.rule_store, &mut h.audit, "/repo/a").unwrap();
    assert_eq!(h.svc.switcher.pinned.as_slice(), &[("/repo/a".to_string(), rule_profile)]);
}

#[test]
fn pause_and_resume_toggle_status() {
    let mut h = harness(enabled());
    h.svc.reconcile(&h.profiles, &h.repos, &mut h.rules, &h.rule_store, &mut h.audit).unwrap();
    h.svc.pause(&h.profiles);
    assert!(h.svc.status(&h.profiles).paused);
    h.svc.resume(&h.profiles);
    assert!(!h.svc.status(&h.profiles).paused);
}

#[test]
fn confirm_unknown_repository_is_not_found() {
    let mut h = harness(enabled());
    let err = h
        .svc
        .confirm(&mut h.profiles, &h.repos, &mut h.rules, &h.rule_store, &mut h.audit, "/nowhere")
        .unwrap_err();
    assert!(matches!(err, AppError::NotFound(_)));
}

#[test]
fn confirm_without_assignment_is_validation_error() {
    let mut h = harness(enabled());
    add_repo(&mut h, "/repo/a", "a", None);
    let err = h
        .svc
        .confirm(&mut h.profiles, &h.repos, &mut h.rules, &h.rule_store, &mut h.audit, "/repo/a")
        .unwrap_err();
    assert!(matches!(err, AppError::Validation(_)));
}

#[test]
fn reconcile_records_start_time_once() {
    let mut h = harness(enabled());
    h.svc.reconcile(&h.profiles, &h.repos, &mut h.rules, &h.rule_store, &mut h.audit).unwrap();
    let started = h.svc.status(&h.profiles).started_at;
    assert!(started.is_some());
    h.svc.restart(&h.profiles, &h.repos, &mut h.rules, &h.rule_store, &mut h.audit).unwrap();
    assert_eq!(h.svc.status(&h.profiles).started_at, started);
}

#[test]
fn maybe_start_on_launch_respects_setting() {
    let mut h = harness(enabled());
    h.svc.maybe_start_on_launch(&h.profiles, &h.repos, &mut h.rules, &h.rule_store, &mut h.audit).unwrap();
    assert!(!h.svc.watcher.is_watching());
    let mut h2 = harness(SmartSwitchingSettings { enabled: true, start_on_launch: true, ..SmartSwitchingSettings::default() });
    h2.svc.maybe_start_on_launch(&h2.profiles, &h2.repos, &mut h2.rules, &h2.rule_store, &mut h2.audit).unwrap();
    assert!(h2.svc.watcher.is_watching());
}

use gitpersona::audit::AuditLog;
use gitpersona::error::AppError;
use gitpersona::profile::{Identity, Profile, ProfileStore};
use gitpersona::rule::{EvaluationContext, RuleCondition, RuleOperator, RulePreviewInput, RuleSubject};
use gitpersona::rule_service::{RuleService, RuleStore};
use gitpersona::table::Table;

fn new_id() -> u128 {
    uuid::Uuid::new_v4().as_u128()
}

struct Harness {
    svc: RuleService,
    store: RuleStore,
    profiles: ProfileStore,
    audit: AuditLog,
}

fn harness() -> Harness {
    Harness { svc: RuleService::new(), store: Table::new(), profiles: ProfileStore::new(), audit: AuditLog::new() }
}

fn add_profile(h: &mut Harness, label: &str) -> u128 {
    let id = new_id();
    h.profiles.save(Profile {
        id,
        label: label.into(),
        identity: Identity { name: "N".into(), email: "e@x".into(), signing_key: None },
        color: None,
    });
    id
}

fn cond(subject: RuleSubject, operator: RuleOperator, value: &str) -> RuleCondition {
    RuleCondition { subject, operator, value: value.into() }
}

fn ctx(path: &str, name: &str, remote: Option<&str>) -> EvaluationContext {
    EvaluationContext::from_parts(path, name, remote)
}

fn create(h: &mut Harness, name: &str, c: RuleCondition, pid: u128) -> Result<gitpersona::rule::Rule, AppError> {
    h.svc.create(&mut h.store, &h.profiles, &mut h.audit, name, c, pid)
}

#[test]
fn create_persists_rule_and_logs() {
    let mut h = harness();
    let pid = add_profile(&mut h, "Work");
    let rule = create(&mut h, "Company", cond(RuleSubject::RepoPath, RuleOperator::Contains, "/company/"), pid).unwrap();
    assert!(rule.enabled);
    assert_eq!(h.store.load_all().len(), 1);
    assert!(h.audit.has_action("rule.created"));
}

#[test]
fn create_rejects_unknown_profile() {
    let mut h = harness();
    let err = create(&mut h, "X", cond(RuleSubject::RepoName, RuleOperator::Equals, "api"), new_id()).unwrap_err();
    assert!(matches!(err, AppError::NotFound(_)));
}

#[test]
fn create_rejects_illegal_operator_for_host() {
    let mut h = harness();
    let pid = add_profile(&mut h, "Work");
    let err = create(&mut h, "X", cond(RuleSubject::RemoteHost, RuleOperator::Contains, "github.com"), pid).unwrap_err();
    assert!(matches!(err, AppError::Validation(_)));
}

#[test]
fn create_rejects_empty_value() {
    let mut h = harness();
    let pid = add_profile(&mut h, "Work");
    let err = create(&mut h, "X", cond(RuleSubject::RepoPath, RuleOperator::Contains, "  "), pid).unwrap_err();
    assert!(matches!(err, AppError::Validation(_)));
}

#[test]
fn update_changes_fields() {
    let mut h = harness();
    let pid = add_profile(&mut h, "Work");
    let rule = create(&mut h, "A", cond(RuleSubject::RepoName, RuleOperator::Equals, "api"), pid).unwrap();
    let updated = h
        .svc
        .update(&mut h.store, &h.profiles, &mut h.audit, rule.id, "B", cond(RuleSubject::RepoName, RuleOperator::StartsWith, "api-"), pid)
        .unwrap();
    assert_eq!(updated.name, "B");
    assert_eq!(updated.condition.operator, RuleOperator::StartsWith);
    assert!(h.audit.has_action("rule.updated"));
}

#[test]
fn delete_removes_rule() {
    let mut h = harness();
    let pid = add_profile(&mut h, "Work");
    let rule = create(&mut h, "A", cond(RuleSubject::RepoName, RuleOperator::Equals, "api"), pid).unwrap();
    h.svc.delete(&mut h.store, &mut h.audit, rule.id).unwrap();
    assert!(h.store.load_all().is_empty());
    assert!(h.audit.has_action("rule.deleted"));
}

#[test]
fn duplicate_copies_with_new_identity() {
    let mut h = harness();
    let pid = add_profile(&mut h, "Work");
    let rule = create(&mut h, "A", cond(RuleSubject::RepoName, RuleOperator::Equals, "api"), pid).unwrap();
    let dup = h.svc.duplicate(&mut h.store, &mut h.audit, rule.id).unwrap();
    assert_ne!(dup.id, rule.id);
    assert_eq!(dup.name, "Copy of A");
    assert!(dup.priority > rule.priority);
    assert_eq!(h.store.load_all().len(), 2);
}

#[test]
fn enable_disable_toggles_and_logs() {
    let mut h = harness();
    let pid = add_profile(&mut h, "Work");
    let rule = create(&mut h, "A", cond(RuleSubject::RepoName, RuleOperator::Equals, "api"), pid).unwrap();
    let off = h.svc.set_enabled(&mut h.store, &mut h.audit, rule.id, false).unwrap();
    assert!(!off.enabled);
    assert!(h.audit.has_action("rule.disabled"));
    let on = h.svc.set_enabled(&mut h.store, &mut h.audit, rule.id, true).unwrap();
    assert!(on.enabled);
    assert!(h.audit.has_action("rule.enabled"));
}

#[test]
fn priority_ordering_first_match_wins() {
    let mut h = harness();
    let work = add_profile(&mut h, "Work");
    let oss = add_profile(&mut h, "OSS");
    let first = create(&mut h, "First", cond(RuleSubject::RepoPath, RuleOperator::Contains, "/code/"), work).unwrap();
    create(&mut h, "Second", cond(RuleSubject::RepoPath, RuleOperator::Contains, "/code/"), oss).unwrap();
    let m = h.svc.evaluate(&h.store, &ctx("/home/code/x", "x", None)).unwrap();
    assert_eq!(m.profile_id, work);
    assert_eq!(m.rule_id, first.id);
}

#[test]
fn disabled_rules_are_ignored() {
    let mut h = harness();
    let pid = add_profile(&mut h, "Work");
    let rule = create(&mut h, "A", cond(RuleSubject::RepoPath, RuleOperator::Contains, "/code/"), pid).unwrap();
    h.svc.set_enabled(&mut h.store, &mut h.audit, rule.id, false).unwrap();
    assert!(h.svc.evaluate(&h.store, &ctx("/home/code/x", "x", None)).is_none());
}

#[test]
fn no_rule_matched_returns_none() {
    let mut h = harness();
    let pid = add_profile(&mut h, "Work");
    create(&mut h, "A", cond(RuleSubject::RepoPath, RuleOperator::Contains, "/company/"), pid).unwrap();
    assert!(h.svc.evaluate(&h.store, &ctx("/home/oss/x", "x", None)).is_none());
}

#[test]
fn reorder_changes_first_match() {
    let mut h = harness();
    let work = add_profile(&mut h, "Work");
    let oss = add_profile(&mut h, "OSS");
    let a = create(&mut h, "A", cond(RuleSubject::RepoPath, RuleOperator::Contains, "/code/"), work).unwrap();
    let b = create(&mut h, "B", cond(RuleSubject::RepoPath, RuleOperator::Contains, "/code/"), oss).unwrap();
    h.svc.reorder(&mut h.store, &vec![b.id, a.id]);
    let m = h.svc.evaluate(&h.store, &ctx("/home/code/x", "x", None)).unwrap();
    assert_eq!(m.profile_id, oss);
}

#[test]
fn preview_never_updates_last_match() {
    let mut h = harness();
    let pid = add_profile(&mut h, "Work");
    create(&mut h, "A", cond(RuleSubject::RepoPath, RuleOperator::Contains, "/company/"), pid).unwrap();
    let result = h.svc.preview(
        &h.store,
        &RulePreviewInput { path: "/home/company/api".into(), name: "api".into(), remote_url: None },
    );
    assert!(result.matched.is_some());
    assert!(h.svc.summary(&h.store).last_match.is_none());
}

#[test]
fn resolve_updates_last_match() {
    let mut h = harness();
    let pid = add_profile(&mut h, "Work");
    create(&mut h, "A", cond(RuleSubject::RepoPath, RuleOperator::Contains, "/company/"), pid).unwrap();
    let m = h.svc.resolve(&h.store, &ctx("/home/company/api", "api", None));
    assert!(m.is_some());
    assert!(h.svc.summary(&h.store).last_match.is_some());
}

#[test]
fn summary_counts_active_and_disabled() {
    let mut h = harness();
    let pid = add_profile(&mut h, "Work");
    let a = create(&mut h, "A", cond(RuleSubject::RepoName, RuleOperator::Equals, "api"), pid).unwrap();
    create(&mut h, "B", cond(RuleSubject::RepoName, RuleOperator::Equals, "web"), pid).unwrap();
    h.svc.set_enabled(&mut h.store, &mut h.audit, a.id, false).unwrap();
    let summary = h.svc.summary(&h.store);
    assert_eq!(summary.active, 1);
    assert_eq!(summary.disabled, 1);
}

#[test]
fn export_import_round_trip() {
    let mut h = harness();
    let pid = add_profile(&mut h, "Work");
    create(&mut h, "A", cond(RuleSubject::RepoPath, RuleOperator::Contains, "/company/"), pid).unwrap();
    let exported = h.svc.export(&h.store, &mut h.audit);
    let svc2 = RuleService::new();
    let mut store2: RuleStore = Table::new();
    let mut audit2 = AuditLog::new();
    let imported = svc2.import(&mut store2, &h.profiles, &mut audit2, exported, true).unwrap();
    assert_eq!(imported.len(), 1);
    assert_eq!(imported[0].name, "A");
    assert!(h.audit.has_action("rule.exported"));
}

#[test]
fn import_merge_appends() {
    let mut h = harness();
    let pid = add_profile(&mut h, "Work");
    create(&mut h, "A", cond(RuleSubject::RepoName, RuleOperator::Equals, "api"), pid).unwrap();
    let exported = h.svc.export(&h.store, &mut h.audit);
    let merged = h.svc.import(&mut h.store, &h.profiles, &mut h.audit, exported, false).unwrap();
    assert_eq!(merged.len(), 2);
    assert_ne!(merged[0].priority, merged[1].priority);
}

#[test]
fn import_rejects_dangling_profile() {
    let mut h = harness();
    let pid = add_profile(&mut h, "Work");
    create(&mut h, "A", cond(RuleSubject::RepoName, RuleOperator::Equals, "api"), pid).unwrap();
    let exported = h.svc.export(&h.store, &mut h.audit);
    let svc2 = RuleService::new();
    let mut store2: RuleStore = Table::new();
    let empty_profiles = ProfileStore::new();
    let mut audit2 = AuditLog::new();
    let err = svc2.import(&mut store2, &empty_profiles, &mut audit2, exported, true).unwrap_err();
    assert!(matches!(err, AppError::NotFound(_)));
}

#[test]
fn host_and_owner_rules_match_parsed_remote() {
    let mut h = harness();
    let work = add_profile(&mut h, "Work");
    create(&mut h, "Acme", cond(RuleSubject::RemoteOwner, RuleOperator::Equals, "acme"), work).unwrap();
    let m = h.svc.evaluate(&h.store, &ctx("/p", "repo", Some("git@github.com:acme/repo.git")));
    assert_eq!(m.unwrap().profile_id, work);
    let none = h.svc.evaluate(&h.store, &ctx("/p", "repo", Some("https://github.com/other/repo.git")));
    assert!(none.is_none());
}

#[test]
fn next_priority_is_one_past_highest() {
    let mut h = harness();
    assert_eq!(h.svc.next_priority(&h.store), 0);
    let pid = add_profile(&mut h, "Work");
    create(&mut h, "A", cond(RuleSubject::RepoName, RuleOperator::Equals, "api"), pid).unwrap();
    create(&mut h, "B", cond(RuleSubject::RepoName, RuleOperator::Equals, "web"), pid).unwrap();
    assert_eq!(h.svc.next_priority(&h.store), 2);
}

#[test]
fn reorder_lists_named_rules_first() {
    let mut h = harness();
    let pid = add_profile(&mut h, "Work");
    let a = create(&mut h, "A", cond(RuleSubject::RepoName, RuleOperator::Equals, "a"), pid).unwrap();
    let b = create(&mut h, "B", cond(RuleSubject::RepoName, RuleOperator::Equals, "b"), pid).unwrap();
    let c = create(&mut h, "C", cond(RuleSubject::RepoName, RuleOperator::Equals, "c"), pid).unwrap();
    let v = h.svc.reorder(&mut h.store, &vec![c.id]);
    assert_eq!(v[0].id, c.id);
    assert_eq!(v[1].id, a.id);
    assert_eq!(v[2].id, b.id);
    assert_eq!(v[0].priority, 0);
    assert_eq!(v[2].priority, 2);
}

#[test]
fn set_all_enabled_switches_every_rule() {
    let mut h = harness();
    let pid = add_profile(&mut h, "Work");
    create(&mut h, "A", cond(RuleSubject::RepoName, RuleOperator::Equals, "a"), pid).unwrap();
    create(&mut h, "B", cond(RuleSubject::RepoName, RuleOperator::Equals, "b"), pid).unwrap();
    let all = h.svc.set_all_enabled(&mut h.store, &mut h.audit, false);
    assert_eq!(all.len(), 2);
    assert!(all.iter().all(|r| !r.enabled));
    assert_eq!(h.svc.summary(&h.store).disabled, 2);
}

#[test]
fn preview_agrees_with_resolve() {
    let mut h = harness();
    let work = add_profile(&mut h, "Work");
    let oss = add_profile(&mut h, "OSS");
    create(&mut h, "Host", cond(RuleSubject::RemoteHost, RuleOperator::Equals, "gitlab.company.com"), work).unwrap();
    create(&mut h, "Owner", cond(RuleSubject::RemoteOwner, RuleOperator::Equals, "rust-lang"), oss).unwrap();
    for (path, name, remote) in [
        ("/src/api", "api", Some("git@gitlab.company.com:team/api.git")),
        ("/src/rust", "rust", Some("https://github.com/rust-lang/rust.git")),
        ("/src/other", "other", None),
    ] {
        let previewed = h
            .svc
            .preview(&h.store, &RulePreviewInput { path: path.into(), name: name.into(), remote_url: remote.map(String::from) })
            .matched;
        let resolved = h.svc.resolve(&h.store, &ctx(path, name, remote));
        assert_eq!(previewed.map(|m| (m.rule_id, m.profile_id, m.reason)), resolved.map(|m| (m.rule_id, m.profile_id, m.reason)));
    }
}

#[test]
fn import_merge_gives_fresh_ids_and_next_priorities() {
    let mut h = harness();
    let pid = add_profile(&mut h, "Work");
    let a = create(&mut h, "A", cond(RuleSubject::RepoName, RuleOperator::Equals, "api"), pid).unwrap();
    let exported = h.svc.export(&h.store, &mut h.audit);
    let v = h.svc.import(&mut h.store, &h.profiles, &mut h.audit, exported, false).unwrap();
    assert_eq!(v.len(), 2);
    assert_eq!(v[0].id, a.id);
    assert_eq!(v[0].priority, 0);
    assert_eq!(v[1].priority, 1);
    assert_ne!(v[1].id, a.id);
    assert_eq!(v[1].name, "A");
    assert_eq!(v[1].target_profile_id, pid);
    assert_eq!(v[1].condition.value, a.condition.value);
}

#[test]
fn export_then_replace_import_keeps_rules_and_order() {
    let mut h = harness();
    let pid = add_profile(&mut h, "Work");
    create(&mut h, "A", cond(RuleSubject::RepoName, RuleOperator::Equals, "api"), pid).unwrap();
    create(&mut h, "B", cond(RuleSubject::RepoPath, RuleOperator::Contains, "/work/"), pid).unwrap();
    let exported = h.svc.export(&h.store, &mut h.audit);
    let names: Vec<String> = exported.iter().map(|r| r.name.clone()).collect();
    let v = h.svc.import(&mut h.store, &h.profiles, &mut h.audit, exported, true).unwrap();
    assert_eq!(v.iter().map(|r| r.name.clone()).collect::<Vec<_>>(), names);
    assert_eq!(v[0].priority, 0);
    assert_eq!(v[1].priority, 1);
}

#[test]
fn import_with_dangling_profile_fails_even_at_top_priority() {
    let mut h = harness();
    let pid = add_profile(&mut h, "Work");
    let mut a = create(&mut h, "A", cond(RuleSubject::RepoName, RuleOperator::Equals, "api"), pid).unwrap();
    a.priority = i32::MAX;
    h.store.save(a);
    let exported = h.svc.export(&h.store, &mut h.audit);
    let before = h.store.load_all().len();
    let empty_profiles = ProfileStore::new();
    let entries = h.audit.read_all().len();
    let err = h.svc.import(&mut h.store, &empty_profiles, &mut h.audit, exported, false).unwrap_err();
    assert!(matches!(err, AppError::NotFound(_)));
    assert_eq!(h.store.load_all().len(), before);
    assert_eq!(h.audit.read_all().len(), entries);
}

use gitpersona::audit::AuditLog;
use gitpersona::error::AppError;
use gitpersona::repo::{annotate_path, repo_name, RepoMetadata, RepoService, RepoStore};

fn new_id() -> u128 {
    uuid::Uuid::new_v4().as_u128()
}

struct Harness {
    svc: RepoService,
    store: RepoStore,
    audit: AuditLog,
    found: Vec<String>,
    meta: RepoMetadata,
}

fn make(found: Vec<&str>, meta: RepoMetadata) -> Harness {
    Harness {
        svc: RepoService::new(),
        store: RepoStore::new(),
        audit: AuditLog::new(),
        found: found.into_iter().map(String::from).collect(),
        meta,
    }
}

fn meta(branch: &str) -> RepoMetadata {
    RepoMetadata {
        active_branch: Some(branch.into()),
        remote_origin: Some("git@example.com:x/y.git".into()),
    }
}

fn scan(h: &mut Harness) -> Vec<gitpersona::repo::Repo> {
    let metas: Vec<RepoMetadata> = h.found.iter().map(|_| h.meta.clone()).collect();
    h.svc.scan(&mut h.store, &mut h.audit, &h.found, metas)
}

#[test]
fn scan_adds_discovered_repos() {
    let mut h = make(vec!["/x/alpha", "/x/beta"], meta("main"));
    let repos = scan(&mut h);
    assert_eq!(repos.len(), 2);
    assert!(repos.iter().any(|r| r.name == "alpha"));
    assert_eq!(repos[0].active_branch.as_deref(), Some("main"));
    assert!(h.audit.has_action("repo.scan"));
}

#[test]
fn scan_is_idempotent_and_preserves_assignment() {
    let mut h = make(vec!["/x/alpha"], meta("main"));
    scan(&mut h);
    let id = h.store.load_all()[0].id;
    h.svc.assign_profile(&mut h.store, &mut h.audit, id, Some(new_id())).unwrap();
    let assigned = h.store.load_all()[0].active_profile_id;
    let repos = scan(&mut h);
    assert_eq!(repos.len(), 1);
    assert_eq!(repos[0].active_profile_id, assigned);
    assert_eq!(repos[0].id, id);
}

#[test]
fn assign_and_unassign_profile() {
    let mut h = make(vec!["/x/alpha"], meta("main"));
    scan(&mut h);
    let id = h.store.load_all()[0].id;
    let pid = new_id();
    assert_eq!(
        h.svc.assign_profile(&mut h.store, &mut h.audit, id, Some(pid)).unwrap().active_profile_id,
        Some(pid)
    );
    assert_eq!(h.svc.assign_profile(&mut h.store, &mut h.audit, id, None).unwrap().active_profile_id, None);
}

#[test]
fn toggle_favorite_flips() {
    let mut h = make(vec!["/x/alpha"], meta("main"));
    scan(&mut h);
    let id = h.store.load_all()[0].id;
    assert!(h.svc.toggle_favorite(&mut h.store, id).unwrap().favorite);
    assert!(!h.svc.toggle_favorite(&mut h.store, id).unwrap().favorite);
}

#[test]
fn refresh_updates_branch() {
    let mut h = make(vec!["/x/alpha"], meta("main"));
    scan(&mut h);
    let id = h.store.load_all()[0].id;
    let m = h.meta.clone();
    let refreshed = h.svc.refresh(&mut h.store, &mut h.audit, id, m).unwrap();
    assert_eq!(refreshed.active_branch.as_deref(), Some("main"));
}

#[test]
fn remove_deletes_repo() {
    let mut h = make(vec!["/x/alpha"], meta("main"));
    scan(&mut h);
    let id = h.store.load_all()[0].id;
    h.svc.remove(&mut h.store, &mut h.audit, id).unwrap();
    assert!(h.store.load_all().is_empty());
    assert!(h.audit.has_action("repo.remove"));
}

#[test]
fn create_group_and_assign_repo() {
    let mut h = make(vec!["/x/alpha"], meta("main"));
    scan(&mut h);
    let repo_id = h.store.load_all()[0].id;
    let group = h
        .svc
        .create_group(&mut h.store, &mut h.audit, "Dolphin Modules", Some("#10b981".into()))
        .unwrap();
    assert_eq!(group.name, "Dolphin Modules");
    let repo = h.svc.set_group(&mut h.store, &mut h.audit, repo_id, Some(group.id)).unwrap();
    assert_eq!(repo.group_id, Some(group.id));
    assert_eq!(h.svc.set_group(&mut h.store, &mut h.audit, repo_id, None).unwrap().group_id, None);
}

#[test]
fn create_group_rejects_blank_and_duplicate() {
    let mut h = make(vec![], meta("main"));
    assert!(matches!(
        h.svc.create_group(&mut h.store, &mut h.audit, "  ", None).unwrap_err(),
        AppError::Validation(_)
    ));
    h.svc.create_group(&mut h.store, &mut h.audit, "Dolphin", None).unwrap();
    assert!(matches!(
        h.svc.create_group(&mut h.store, &mut h.audit, "dolphin", None).unwrap_err(),
        AppError::Conflict(_)
    ));
}

#[test]
fn set_group_rejects_unknown_group() {
    let mut h = make(vec!["/x/alpha"], meta("main"));
    scan(&mut h);
    let repo_id = h.store.load_all()[0].id;
    let err = h.svc.set_group(&mut h.store, &mut h.audit, repo_id, Some(new_id())).unwrap_err();
    assert!(matches!(err, AppError::NotFound(_)));
}

#[test]
fn delete_group_detaches_repos() {
    let mut h = make(vec!["/x/alpha"], meta("main"));
    scan(&mut h);
    let repo_id = h.store.load_all()[0].id;
    let group = h.svc.create_group(&mut h.store, &mut h.audit, "Dolphin", None).unwrap();
    h.svc.set_group(&mut h.store, &mut h.audit, repo_id, Some(group.id)).unwrap();
    h.svc.delete_group(&mut h.store, &mut h.audit, group.id).unwrap();
    assert!(h.svc.list_groups(&h.store).is_empty());
    assert_eq!(h.store.load_all()[0].group_id, None);
}

#[test]
fn update_group_renames_and_recolors() {
    let mut h = make(vec![], meta("main"));
    let group = h.svc.create_group(&mut h.store, &mut h.audit, "Old", Some("#111111".into())).unwrap();
    let updated = h.svc.update_group(&mut h.store, group.id, "New", Some("#222222".into())).unwrap();
    assert_eq!(updated.name, "New");
    assert_eq!(updated.color.as_deref(), Some("#222222"));
}

#[test]
fn get_missing_repo_errors() {
    let h = make(vec![], meta("main"));
    let err = h.svc.get(&h.store, new_id()).unwrap_err();
    assert!(matches!(err, AppError::NotFound(_)));
}

#[test]
fn repo_name_is_last_path_component() {
    assert_eq!(repo_name("/home/me/code/alpha"), "alpha");
    assert_eq!(repo_name("/home/me/code/alpha/"), "alpha");
    assert_eq!(repo_name("/"), "/");
    assert_eq!(repo_name("/home/me/code/alpha/."), "alpha");
    assert_eq!(repo_name("/home/me/code/alpha/./"), "alpha");
    assert_eq!(repo_name("./"), "./");
    assert_eq!(repo_name("/a/.."), "/a/..");
    assert_eq!(repo_name("/a/.hidden"), ".hidden");
}

#[test]
fn annotate_path_sets_existence_flag() {
    let mut h = make(vec!["/x/alpha"], meta("main"));
    scan(&mut h);
    let repo = h.store.load_all()[0].clone();
    assert!(!annotate_path(repo.clone(), false).path_exists);
    assert!(annotate_path(repo, true).path_exists);
}

#[test]
fn scan_refreshes_metadata_of_tracked_repo() {
    let mut h = make(vec!["/x/alpha"], meta("main"));
    scan(&mut h);
    h.meta = meta("dev");
    let repos = scan(&mut h);
    assert_eq!(repos.len(), 1);
    assert_eq!(repos[0].active_branch.as_deref(), Some("dev"));
}

#[test]
fn mark_opened_records_time() {
    let mut h = make(vec!["/x/alpha"], meta("main"));
    scan(&mut h);
    let id = h.store.load_all()[0].id;
    assert!(h.store.load_all()[0].last_opened.is_none());
    let opened = h.svc.mark_opened(&mut h.store, id).unwrap();
    assert!(opened.last_opened.is_some());
    assert!(h.svc.mark_opened(&mut h.store, new_id()).is_err());
}

use gitpersona::audit::AuditLog;
use gitpersona::credential::{backing_target, path_scoped_target, Credential, CredentialStore, Protocol, Vault};
use gitpersona::credential_service::CredentialService;
use gitpersona::error::AppError;
use gitpersona::git_config::GitConfig;
use gitpersona::profile::{Identity, Profile, ProfileStore};
use gitpersona::profile_service::{CredentialSync, ProfileService};
use gitpersona::repo::{Repo, RepoStore};

fn new_id() -> u128 {
    uuid::Uuid::new_v4().as_u128()
}

fn empty_sync() -> CredentialSync {
    CredentialSync { store: CredentialStore::new(), vault: Vault::new() }
}

/// Give profile `pid` an HTTPS credential for `host` whose secret is parked in the vault.
fn add_credential(h: &mut Harness, pid: u128, host: &str, user: &str, secret: &str) -> Credential {
    CredentialService::new()
        .create(&mut h.creds.store, &mut h.creds.vault, &h.store, &mut h.audit, Some(pid), host, user.into(), secret)
        .unwrap()
}

struct Harness {
    svc: ProfileService,
    store: ProfileStore,
    repos: RepoStore,
    git: GitConfig,
    creds: CredentialSync,
    audit: AuditLog,
}

fn make_service_full(profiles: Vec<Profile>, repos: Vec<Repo>) -> Harness {
    let mut store = ProfileStore::new();
    for p in profiles {
        store.save(p);
    }
    let mut repo_store = RepoStore::new();
    for r in repos {
        repo_store.save(r);
    }
    Harness {
        svc: ProfileService::new(),
        store,
        repos: repo_store,
        git: GitConfig::new(),
        creds: empty_sync(),
        audit: AuditLog::new(),
    }
}

fn make_service(profiles: Vec<Profile>) -> Harness {
    make_service_full(profiles, vec![])
}

fn repo(root: &str, name: &str, profile: Option<u128>, remote: Option<&str>) -> Repo {
    Repo {
        id: new_id(),
        name: name.into(),
        path: root.into(),
        git_root: root.into(),
        active_branch: None,
        active_profile_id: profile,
        remote_origin: remote.map(String::from),
        last_opened: None,
        favorite: false,
        detected_at: 0,
        group_id: None,
        path_exists: true,
    }
}

fn identity(email: &str) -> Identity {
    Identity { name: "Test User".into(), email: email.into(), signing_key: None }
}

fn create(h: &mut Harness, label: &str, email: &str) -> Result<Profile, AppError> {
    h.svc.create(&mut h.store, &mut h.audit, label.into(), identity(email), None)
}

fn apply(h: &mut Harness, id: u128) -> Result<(), AppError> {
    h.svc.apply(&mut h.store, &mut h.git, &mut h.creds, &mut h.audit, id)
}

fn apply_local(h: &mut Harness, root: &str, id: u128) -> Result<(), AppError> {
    h.svc.apply_local(&h.store, &h.repos, &mut h.git, &mut h.creds, &mut h.audit, root, id)
}

#[test]
fn create_assigns_new_uuid() {
    let mut h = make_service(vec![]);
    let p = create(&mut h, "Work", "a@example.com").unwrap();
    assert!(p.id != 0);
    assert_eq!(p.label, "Work");
}

#[test]
fn create_rejects_duplicate_email() {
    let mut h = make_service(vec![]);
    create(&mut h, "Work", "a@example.com").unwrap();
    let err = create(&mut h, "Work2", "a@example.com").unwrap_err();
    assert!(matches!(err, AppError::Conflict(_)));
}

#[test]
fn delete_active_is_rejected() {
    let mut h = make_service(vec![]);
    let p = create(&mut h, "Work", "a@example.com").unwrap();
    apply(&mut h, p.id).unwrap();
    let err = h.svc.delete(&mut h.store, &h.repos, &mut h.audit, p.id).unwrap_err();
    assert!(matches!(err, AppError::Validation(_)));
}

#[test]
fn delete_rejected_when_assigned_to_repositories() {
    let profile_id = new_id();
    let profile = Profile { id: profile_id, label: "Work".into(), identity: identity("work@example.com"), color: None };
    let mut h = make_service_full(
        vec![profile],
        vec![repo("/tmp/demo", "demo", Some(profile_id), None), repo("/tmp/demo", "demo", Some(profile_id), None)],
    );
    let err = h.svc.delete(&mut h.store, &h.repos, &mut h.audit, profile_id).unwrap_err();
    match err {
        AppError::Conflict(msg) => assert!(msg.contains('2')),
        other => panic!("expected Conflict, got {other:?}"),
    }
}

#[test]
fn delete_allowed_when_not_assigned() {
    let mut h = make_service(vec![]);
    let p = create(&mut h, "Work", "a@example.com").unwrap();
    assert!(h.svc.delete(&mut h.store, &h.repos, &mut h.audit, p.id).is_ok());
}

#[test]
fn apply_writes_git_config_and_sets_active_id() {
    let mut h = make_service(vec![]);
    let p = create(&mut h, "Work", "work@example.com").unwrap();
    apply(&mut h, p.id).unwrap();
    assert_eq!(h.git.global_email, Some("work@example.com".into()));
    assert_eq!(h.git.global_name, Some("Test User".into()));
    assert_eq!(h.svc.get_active(&h.store).unwrap().id, p.id);
}

#[test]
fn apply_switches_credentials_for_profile() {
    let mut h = make_service(vec![]);
    let p = create(&mut h, "Work", "work@example.com").unwrap();
    let other = create(&mut h, "Home", "home@example.com").unwrap();
    add_credential(&mut h, p.id, "github.com", "alice", "gh");
    add_credential(&mut h, other.id, "gitlab.com", "bob", "gl");
    apply(&mut h, p.id).unwrap();
    assert_eq!(h.creds.vault.reveal_secret("git:https://github.com"), Some("gh".to_string()));
    assert_eq!(h.creds.vault.username("git:https://github.com"), Some("alice".to_string()));
    assert_eq!(h.creds.vault.username("git:https://gitlab.com"), None);
    let stored = h.creds.store.load_all();
    assert!(stored.iter().find(|c| c.host == "github.com").unwrap().last_used.is_some());
    assert!(stored.iter().find(|c| c.host == "gitlab.com").unwrap().last_used.is_none());
}

#[test]
fn apply_local_pins_repo_config_without_touching_global() {
    let mut h = make_service(vec![]);
    let p = create(&mut h, "Work", "work@example.com").unwrap();
    apply_local(&mut h, "/tmp/repo", p.id).unwrap();
    assert_eq!(h.git.local.len(), 1);
    assert_eq!(h.git.local[0].git_root, "/tmp/repo");
    assert_eq!(h.git.local[0].identity.email, "work@example.com");
    assert!(h.git.global_email.is_none());
    assert!(h.svc.get_active(&h.store).is_none());
    assert!(h.audit.has_action("identity.pin_local"));
}

#[test]
fn apply_local_pins_path_credential_for_https_remote() {
    let pid = new_id();
    let profile = Profile { id: pid, label: "Joshtri".into(), identity: identity("joshtri@users.noreply.github.com"), color: None };
    let r = repo(
        "/tmp/laundry",
        "laundry",
        Some(pid),
        Some("https://github.com/Joshtri/landing-page-dolphin-laundry.git/"),
    );
    let mut h = make_service_full(vec![profile], vec![r]);
    add_credential(&mut h, pid, "github.com", "joshtri", "tok");
    apply_local(&mut h, "/tmp/laundry", pid).unwrap();
    let target = path_scoped_target("github.com", Protocol::Https, "Joshtri/landing-page-dolphin-laundry.git");
    assert_eq!(h.creds.vault.reveal_secret(&target), Some("tok".to_string()));
    assert_eq!(h.creds.vault.username("git:https://github.com"), None);
    assert!(h.audit.has_action("credential.pin_path"));
    assert_eq!(h.git.use_http_path.len(), 1);
    assert_eq!(h.git.use_http_path[0].git_root, "/tmp/laundry");
    assert_eq!(h.git.use_http_path[0].host, "github.com");
    assert!(h.git.use_http_path[0].enabled);
}

#[test]
fn apply_local_skips_credential_pin_for_ssh_remote() {
    let pid = new_id();
    let profile = Profile { id: pid, label: "Work".into(), identity: identity("work@example.com"), color: None };
    let r = repo("/tmp/repo", "repo", Some(pid), Some("git@github.com:acme/repo.git"));
    let mut h = make_service_full(vec![profile], vec![r]);
    add_credential(&mut h, pid, "github.com", "work", "tok");
    apply_local(&mut h, "/tmp/repo", pid).unwrap();
    assert!(!h.audit.has_action("credential.pin_path"));
    assert!(h.git.use_http_path.is_empty());
}

#[test]
fn unpin_local_disables_use_http_path_and_removes_credential() {
    let r = repo("/tmp/laundry", "laundry", None, Some("https://github.com/Joshtri/landing-page-dolphin-laundry.git"));
    let mut h = make_service_full(vec![], vec![r]);
    let target = path_scoped_target("github.com", Protocol::Https, "Joshtri/landing-page-dolphin-laundry.git");
    h.creds.vault.store(&target, "joshtri", "tok");
    h.svc.unpin_local(&h.repos, &mut h.git, &mut h.creds, &mut h.audit, "/tmp/laundry").unwrap();
    assert_eq!(h.git.use_http_path.len(), 1);
    assert_eq!(h.git.use_http_path[0].git_root, "/tmp/laundry");
    assert_eq!(h.git.use_http_path[0].host, "github.com");
    assert!(!h.git.use_http_path[0].enabled);
    assert_eq!(h.creds.vault.username(&target), None);
    assert!(h.audit.has_action("credential.unpin_path"));
}

#[test]
fn apply_logs_audit_entry() {
    let mut h = make_service(vec![]);
    let p = create(&mut h, "Work", "a@example.com").unwrap();
    apply(&mut h, p.id).unwrap();
    assert!(h.audit.has_action("profile.apply"));
}

#[test]
fn apply_rolls_back_git_config_when_credentials_fail() {
    let mut h = make_service(vec![]);
    let p = create(&mut h, "Work", "work@example.com").unwrap();
    h.git.set_global_name("Before");
    h.git.set_global_email("before@example.com");
    h.git.set_global_signing_key(Some("OLDKEY"));
    let c = add_credential(&mut h, p.id, "github.com", "alice", "gh");
    h.creds.vault.delete(&backing_target(c.id, "github.com", Protocol::Https));
    let err = apply(&mut h, p.id).unwrap_err();
    assert!(matches!(err, AppError::Credential(_)));
    assert_eq!(h.git.global_name, Some("Before".into()));
    assert_eq!(h.git.global_email, Some("before@example.com".into()));
    assert_eq!(h.git.global_signing_key, Some("OLDKEY".into()));
    assert!(h.store.get_active_id().is_none());
    assert!(!h.audit.has_action("profile.apply"));
    assert_eq!(h.creds.vault.username("git:https://github.com"), None);
}

#[test]
fn apply_unknown_profile_is_not_found() {
    let mut h = make_service(vec![]);
    let err = apply(&mut h, new_id()).unwrap_err();
    assert!(matches!(err, AppError::NotFound(_)));
    assert!(h.git.global_email.is_none());
}

#[test]
fn update_rejects_email_of_other_profile() {
    let mut h = make_service(vec![]);
    create(&mut h, "Work", "a@example.com").unwrap();
    let b = create(&mut h, "Home", "b@example.com").unwrap();
    let err = h
        .svc
        .update(&mut h.store, &mut h.audit, b.id, "Home".into(), identity("a@example.com"), None)
        .unwrap_err();
    assert!(matches!(err, AppError::Conflict(_)));
    let same = h
        .svc
        .update(&mut h.store, &mut h.audit, b.id, "Home2".into(), identity("b@example.com"), Some("#fff".into()))
        .unwrap();
    assert_eq!(same.label, "Home2");
}

#[test]
fn delete_message_uses_singular_for_one_repository() {
    let profile_id = new_id();
    let profile = Profile { id: profile_id, label: "Work".into(), identity: identity("w@example.com"), color: None };
    let mut h = make_service_full(vec![profile], vec![repo("/tmp/one", "one", Some(profile_id), None)]);
    match h.svc.delete(&mut h.store, &h.repos, &mut h.audit, profile_id).unwrap_err() {
        AppError::Conflict(msg) => {
            assert_eq!(msg, "this profile is assigned to 1 repository \u{2014} reassign or remove them first")
        }
        other => panic!("expected Conflict, got {other:?}"),
    }
}

use gitpersona::audit::AuditLog;
use gitpersona::credential::{
    backing_target, canonical_target, parse_https_remote, path_scoped_target, CredentialStore, Protocol, Vault,
};
use gitpersona::credential_service::CredentialService;
use gitpersona::error::AppError;
use gitpersona::profile::{Identity, Profile, ProfileStore};

fn new_id() -> u128 {
    uuid::Uuid::new_v4().as_u128()
}

struct Harness {
    svc: CredentialService,
    store: CredentialStore,
    vault: Vault,
    profiles: ProfileStore,
    audit: AuditLog,
}

fn harness() -> Harness {
    Harness {
        svc: CredentialService::new(),
        store: CredentialStore::new(),
        vault: Vault::new(),
        profiles: ProfileStore::new(),
        audit: AuditLog::new(),
    }
}

fn add_profile(h: &mut Harness) -> u128 {
    let id = new_id();
    h.profiles.save(Profile {
        id,
        label: "Work".into(),
        identity: Identity { name: "N".into(), email: "e@x".into(), signing_key: None },
        color: None,
    });
    id
}

fn create(h: &mut Harness, pid: Option<u128>, host: &str, user: &str, secret: &str) -> Result<gitpersona::credential::Credential, AppError> {
    h.svc.create(&mut h.store, &mut h.vault, &h.profiles, &mut h.audit, pid, host, user.to_string(), secret)
}

fn raw(v: &Vault, target: &str) -> Option<(String, String)> {
    match (v.username(target), v.reveal_secret(target)) {
        (Some(u), Some(s)) => Some((u, s)),
        _ => None,
    }
}

fn audit_has(h: &Harness, action: &str) -> bool {
    h.audit.has_action(action)
}

#[test]
fn create_stores_metadata_and_parks_secret() {
    let mut h = harness();
    let c = create(&mut h, None, "github.com", "alice", "tok_123").unwrap();
    assert_eq!(c.host, "github.com");
    assert_eq!(c.username, "alice");
    let backing = backing_target(c.id, "github.com", Protocol::Https);
    assert_eq!(raw(&h.vault, &backing).unwrap().1, "tok_123");
    assert!(raw(&h.vault, "git:https://github.com").is_none());
    assert!(audit_has(&h, "credential.create"));
}

#[test]
fn create_normalizes_host() {
    let mut h = harness();
    let c = create(&mut h, None, "  GitHub.com  ", "alice", "t").unwrap();
    assert_eq!(c.host, "github.com");
}

#[test]
fn create_rejects_unsupported_host() {
    let mut h = harness();
    let err = create(&mut h, None, "evil.example.com", "alice", "t").unwrap_err();
    assert!(matches!(err, AppError::Validation(_)));
}

#[test]
fn create_rejects_empty_username() {
    let mut h = harness();
    let err = create(&mut h, None, "github.com", "   ", "t").unwrap_err();
    assert!(matches!(err, AppError::Validation(_)));
}

#[test]
fn create_rejects_empty_token() {
    let mut h = harness();
    let err = create(&mut h, None, "github.com", "alice", "  ").unwrap_err();
    assert!(matches!(err, AppError::Validation(_)));
}

#[test]
fn create_rejects_duplicate_host_for_profile() {
    let mut h = harness();
    let pid = add_profile(&mut h);
    create(&mut h, Some(pid), "github.com", "alice", "t").unwrap();
    let err = create(&mut h, Some(pid), "github.com", "bob", "t").unwrap_err();
    assert!(matches!(err, AppError::Conflict(_)));
}

#[test]
fn create_same_host_different_profiles_is_allowed() {
    let mut h = harness();
    let p1 = add_profile(&mut h);
    let p2 = add_profile(&mut h);
    create(&mut h, Some(p1), "github.com", "alice", "t").unwrap();
    assert!(create(&mut h, Some(p2), "github.com", "bob", "t").is_ok());
}

#[test]
fn credential_service_assign_unknown_profile_errors() {
    let mut h = harness();
    let c = create(&mut h, None, "github.com", "alice", "t").unwrap();
    let err = h
        .svc
        .assign_profile(&mut h.store, &h.profiles, &mut h.audit, c.id, Some(new_id()))
        .unwrap_err();
    assert!(matches!(err, AppError::NotFound(_)));
}

#[test]
fn assign_rejects_duplicate_host_for_profile() {
    let mut h = harness();
    let pid = add_profile(&mut h);
    create(&mut h, Some(pid), "github.com", "alice", "t").unwrap();
    let other = create(&mut h, None, "github.com", "bob", "t").unwrap();
    let err = h
        .svc
        .assign_profile(&mut h.store, &h.profiles, &mut h.audit, other.id, Some(pid))
        .unwrap_err();
    assert!(matches!(err, AppError::Conflict(_)));
}

#[test]
fn delete_refuses_when_assigned() {
    let mut h = harness();
    let pid = add_profile(&mut h);
    let c = create(&mut h, Some(pid), "github.com", "alice", "t").unwrap();
    let err = h.svc.delete(&mut h.store, &mut h.vault, &mut h.audit, c.id).unwrap_err();
    assert!(matches!(err, AppError::Conflict(_)));
}

#[test]
fn delete_removes_backing_secret() {
    let mut h = harness();
    let c = create(&mut h, None, "github.com", "alice", "t").unwrap();
    let backing = backing_target(c.id, "github.com", Protocol::Https);
    h.svc.delete(&mut h.store, &mut h.vault, &mut h.audit, c.id).unwrap();
    assert!(raw(&h.vault, &backing).is_none());
    assert!(h.store.load_all().is_empty());
    assert!(audit_has(&h, "credential.delete"));
}

#[test]
fn switch_promotes_backing_to_canonical() {
    let mut h = harness();
    let c = create(&mut h, None, "github.com", "alice", "tok_switch").unwrap();
    h.svc.switch(&mut h.store, &mut h.vault, &mut h.audit, c.id).unwrap();
    let canonical = raw(&h.vault, "git:https://github.com").unwrap();
    assert_eq!(canonical.0, "alice");
    assert_eq!(canonical.1, "tok_switch");
    assert!(h.svc.get(&h.store, c.id).unwrap().last_used.is_some());
    assert!(audit_has(&h, "credential.switch"));
}

#[test]
fn update_rotates_token_in_backing() {
    let mut h = harness();
    let c = create(&mut h, None, "github.com", "alice", "old").unwrap();
    h.svc
        .update(&mut h.store, &mut h.vault, &mut h.audit, c.id, "alice2".into(), Some("new"))
        .unwrap();
    let backing = backing_target(c.id, "github.com", Protocol::Https);
    let r = raw(&h.vault, &backing).unwrap();
    assert_eq!(r.0, "alice2");
    assert_eq!(r.1, "new");
    assert_eq!(h.svc.get(&h.store, c.id).unwrap().username, "alice2");
}

#[test]
fn switch_profile_promotes_all_owned_credentials() {
    let mut h = harness();
    let pid = add_profile(&mut h);
    create(&mut h, Some(pid), "github.com", "alice", "gh").unwrap();
    create(&mut h, Some(pid), "gitlab.com", "alice", "gl").unwrap();
    let txn = h.svc.switch_profile(&mut h.store, &mut h.vault, &mut h.audit, pid).unwrap();
    assert_eq!(txn.snapshots.len(), 2);
    assert_eq!(raw(&h.vault, "git:https://github.com").unwrap().1, "gh");
    assert_eq!(raw(&h.vault, "git:https://gitlab.com").unwrap().1, "gl");
}

#[test]
fn switch_profile_with_no_credentials_is_empty_ok() {
    let mut h = harness();
    let pid = add_profile(&mut h);
    let txn = h.svc.switch_profile(&mut h.store, &mut h.vault, &mut h.audit, pid).unwrap();
    assert!(txn.snapshots.is_empty());
}

#[test]
fn rollback_restores_prior_canonical_credential() {
    let mut h = harness();
    let pa = add_profile(&mut h);
    create(&mut h, Some(pa), "github.com", "alice", "A_tok").unwrap();
    h.svc.switch_profile(&mut h.store, &mut h.vault, &mut h.audit, pa).unwrap();
    assert_eq!(raw(&h.vault, "git:https://github.com").unwrap().1, "A_tok");

    let pb = add_profile(&mut h);
    create(&mut h, Some(pb), "github.com", "bob", "B_tok").unwrap();
    let txn = h.svc.switch_profile(&mut h.store, &mut h.vault, &mut h.audit, pb).unwrap();
    assert_eq!(raw(&h.vault, "git:https://github.com").unwrap().1, "B_tok");

    h.svc.rollback(&mut h.vault, txn).unwrap();
    let restored = raw(&h.vault, "git:https://github.com").unwrap();
    assert_eq!(restored.0, "alice");
    assert_eq!(restored.1, "A_tok");
}

#[test]
fn set_pin_enables_reveal_of_stored_token() {
    let mut h = harness();
    let c = create(&mut h, None, "github.com", "alice", "ghp_reveal_me").unwrap();
    assert!(!c.has_pin);
    let updated = h.svc.set_pin(&mut h.store, &mut h.audit, c.id, "1234").unwrap();
    assert!(updated.has_pin);
    let revealed = h.svc.reveal_token(&h.store, &h.vault, &mut h.audit, c.id, "1234").unwrap();
    assert_eq!(revealed.as_str(), "ghp_reveal_me");
    assert!(audit_has(&h, "credential.reveal"));
}

#[test]
fn reveal_rejects_wrong_pin() {
    let mut h = harness();
    let c = create(&mut h, None, "github.com", "alice", "tok").unwrap();
    h.svc.set_pin(&mut h.store, &mut h.audit, c.id, "1234").unwrap();
    let err = h.svc.reveal_token(&h.store, &h.vault, &mut h.audit, c.id, "9999").unwrap_err();
    assert!(matches!(err, AppError::Validation(_)));
}

#[test]
fn reveal_without_pin_set_errors() {
    let mut h = harness();
    let c = create(&mut h, None, "github.com", "alice", "tok").unwrap();
    let err = h.svc.reveal_token(&h.store, &h.vault, &mut h.audit, c.id, "1234").unwrap_err();
    assert!(matches!(err, AppError::Validation(_)));
}

#[test]
fn set_pin_rejects_too_short() {
    let mut h = harness();
    let c = create(&mut h, None, "github.com", "alice", "tok").unwrap();
    let err = h.svc.set_pin(&mut h.store, &mut h.audit, c.id, "12").unwrap_err();
    assert!(matches!(err, AppError::Validation(_)));
}

#[test]
fn delete_removes_pin() {
    let mut h = harness();
    let c = create(&mut h, None, "github.com", "alice", "tok").unwrap();
    h.svc.set_pin(&mut h.store, &mut h.audit, c.id, "1234").unwrap();
    h.svc.delete(&mut h.store, &mut h.vault, &mut h.audit, c.id).unwrap();
    assert!(h.store.load_pin(c.id).is_none());
}

#[test]
fn credential_service_get_missing_errors() {
    let h = harness();
    let err = h.svc.get(&h.store, new_id()).unwrap_err();
    assert!(matches!(err, AppError::NotFound(_)));
}

#[test]
fn pin_path_promotes_backing_to_path_scoped_target() {
    let mut h = harness();
    let pid = add_profile(&mut h);
    create(&mut h, Some(pid), "github.com", "joshtri", "ghp_pin").unwrap();
    h.svc
        .pin_path(&mut h.store, &mut h.vault, &mut h.audit, pid, "github.com", "Joshtri/landing-page-dolphin-laundry.git")
        .unwrap();
    let scoped = raw(&h.vault, "git:https://github.com/Joshtri/landing-page-dolphin-laundry.git").unwrap();
    assert_eq!(scoped.0, "joshtri");
    assert_eq!(scoped.1, "ghp_pin");
    assert!(raw(&h.vault, "git:https://github.com").is_none());
    assert!(audit_has(&h, "credential.pin_path"));
}

#[test]
fn pin_path_is_noop_without_profile_credential() {
    let mut h = harness();
    let pid = add_profile(&mut h);
    assert!(!h
        .svc
        .pin_path(&mut h.store, &mut h.vault, &mut h.audit, pid, "github.com", "Joshtri/repo.git")
        .unwrap());
    assert!(raw(&h.vault, "git:https://github.com/Joshtri/repo.git").is_none());
}

#[test]
fn unpin_path_removes_scoped_target() {
    let mut h = harness();
    let pid = add_profile(&mut h);
    create(&mut h, Some(pid), "github.com", "joshtri", "t").unwrap();
    h.svc
        .pin_path(&mut h.store, &mut h.vault, &mut h.audit, pid, "github.com", "Joshtri/repo.git")
        .unwrap();
    assert!(raw(&h.vault, "git:https://github.com/Joshtri/repo.git").is_some());
    h.svc.unpin_path(&mut h.vault, &mut h.audit, "github.com", "Joshtri/repo.git").unwrap();
    assert!(raw(&h.vault, "git:https://github.com/Joshtri/repo.git").is_none());
}

#[test]
fn parse_https_remote_extracts_host_and_path() {
    let (host, path) = parse_https_remote("https://github.com/Joshtri/landing-page-dolphin-laundry.git").unwrap();
    assert_eq!(host, "github.com");
    assert_eq!(path, "Joshtri/landing-page-dolphin-laundry.git");
}

#[test]
fn parse_https_remote_strips_trailing_slash_and_userinfo() {
    let (host, path) =
        parse_https_remote("https://joshtri@GitHub.com/Joshtri/landing-page-dolphin-laundry.git/").unwrap();
    assert_eq!(host, "github.com");
    assert_eq!(path, "Joshtri/landing-page-dolphin-laundry.git");
}

#[test]
fn parse_https_remote_rejects_ssh_and_host_only() {
    assert!(parse_https_remote("git@github.com:Joshtri/repo.git").is_none());
    assert!(parse_https_remote("https://github.com").is_none());
    assert!(parse_https_remote("file:///tmp/repo").is_none());
}

#[test]
fn switch_then_rollback_restores_empty_canonical_slot() {
    let mut h = harness();
    let pid = add_profile(&mut h);
    create(&mut h, Some(pid), "github.com", "alice", "t1").unwrap();
    let txn = h.svc.switch_profile(&mut h.store, &mut h.vault, &mut h.audit, pid).unwrap();
    assert!(raw(&h.vault, "git:https://github.com").is_some());
    h.svc.rollback(&mut h.vault, txn).unwrap();
    assert!(raw(&h.vault, "git:https://github.com").is_none());
}

#[test]
fn switch_fails_without_backing_secret() {
    let mut h = harness();
    let c = create(&mut h, None, "github.com", "alice", "t").unwrap();
    let backing = backing_target(c.id, "github.com", Protocol::Https);
    h.vault.delete(&backing);
    let err = h.svc.switch(&mut h.store, &mut h.vault, &mut h.audit, c.id).unwrap_err();
    assert!(matches!(err, AppError::Credential(_)));
    assert!(raw(&h.vault, "git:https://github.com").is_none());
}

#[test]
fn canonical_and_scoped_targets_have_git_format() {
    assert_eq!(canonical_target("github.com", Protocol::Https), "git:https://github.com");
    assert_eq!(
        path_scoped_target("github.com", Protocol::Https, "/owner/repo.git/"),
        "git:https://github.com/owner/repo.git"
    );
}

#[test]
fn switch_profile_marks_each_credential_used() {
    let mut h = harness();
    let pid = add_profile(&mut h);
    let a = create(&mut h, Some(pid), "github.com", "alice", "gh").unwrap();
    let b = create(&mut h, Some(pid), "gitlab.com", "alice", "gl").unwrap();
    h.svc.switch_profile(&mut h.store, &mut h.vault, &mut h.audit, pid).unwrap();
    assert!(h.svc.get(&h.store, a.id).unwrap().last_used.is_some());
    assert!(h.svc.get(&h.store, b.id).unwrap().last_used.is_some());
    assert_eq!(h.store.load_all().len(), 2);
}

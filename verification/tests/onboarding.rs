use gitpersona::audit::AuditLog;
use gitpersona::credential::Vault;
use gitpersona::error::AppError;
use gitpersona::git_config::GitConfig;
use gitpersona::onboarding::{scan_system, ApplyParams, OnboardingService, SystemScan};
use gitpersona::profile::ProfileStore;
use gitpersona::ssh::{SshAlgorithm, SshCandidate, SshKeyMetadata, SshStore};

fn meta() -> SshKeyMetadata {
    SshKeyMetadata {
        algorithm: SshAlgorithm::Ed25519,
        fingerprint: "SHA256:abc".into(),
        comment: Some("me@host".into()),
        public_key_path: None,
    }
}

fn git(name: Option<&str>, email: Option<&str>, key: Option<&str>) -> GitConfig {
    let mut g = GitConfig::new();
    if let Some(n) = name {
        g.set_global_name(n);
    }
    if let Some(e) = email {
        g.set_global_email(e);
    }
    g.set_global_signing_key(key);
    g
}

fn run_scan(git: GitConfig, vault: Vault, found: Vec<&str>, known: Vec<&str>, already: bool) -> SystemScan {
    let candidates: Vec<SshCandidate> = found
        .into_iter()
        .map(|p| SshCandidate {
            path: p.to_string(),
            metadata: if known.contains(&p) { Some(meta()) } else { None },
        })
        .collect();
    scan_system(&git, &vault, &candidates, already)
}

#[test]
fn detects_global_identity() {
    let g = git(Some("Alice"), Some("alice@example.com"), Some("KEY1"));
    let scan = run_scan(g, Vault::new(), vec![], vec![], false);
    let id = scan.identity.unwrap();
    assert_eq!(id.name.as_deref(), Some("Alice"));
    assert_eq!(id.email.as_deref(), Some("alice@example.com"));
    assert_eq!(id.signing_key.as_deref(), Some("KEY1"));
}

#[test]
fn identity_none_when_name_and_email_blank() {
    let g = git(Some("  "), None, None);
    let scan = run_scan(g, Vault::new(), vec![], vec![], false);
    assert!(scan.identity.is_none());
}

#[test]
fn detects_parseable_ssh_and_skips_the_rest() {
    let scan = run_scan(GitConfig::new(), Vault::new(), vec!["/ssh/id_ed25519", "/ssh/garbage"], vec!["/ssh/id_ed25519"], false);
    assert_eq!(scan.ssh_keys.len(), 1);
    assert_eq!(scan.ssh_keys[0].private_key_path, "/ssh/id_ed25519");
    assert_eq!(scan.ssh_keys[0].algorithm, SshAlgorithm::Ed25519);
}

#[test]
fn detects_credential_usernames_for_supported_hosts() {
    let mut vault = Vault::new();
    vault.store("git:https://github.com", "octocat", "secret");
    vault.store("git:https://gitlab.com", "  ", "secret");
    let scan = run_scan(GitConfig::new(), vault, vec![], vec![], false);
    assert_eq!(scan.credentials.len(), 1);
    assert_eq!(scan.credentials[0].host, "github.com");
    assert_eq!(scan.credentials[0].username, "octocat");
}

#[test]
fn already_onboarded_flag_is_passed_through() {
    let scan = run_scan(GitConfig::new(), Vault::new(), vec![], vec![], true);
    assert!(scan.already_onboarded);
}

fn params(paths: Vec<&str>) -> ApplyParams {
    ApplyParams {
        create_profile: true,
        label: "Work".into(),
        name: "Alice".into(),
        email: "alice@example.com".into(),
        signing_key: Some("   ".into()),
        color: None,
        ssh_paths: paths.into_iter().map(String::from).collect(),
    }
}

#[test]
fn apply_imports_selection_and_is_idempotent() {
    let svc = OnboardingService::new();
    let mut store = ProfileStore::new();
    let mut ssh = SshStore::new();
    let mut audit = AuditLog::new();
    assert!(!svc.already_onboarded(&store));
    svc.apply(&mut store, &mut ssh, &mut audit, params(vec!["/ssh/a"]), vec![Ok(meta())]).unwrap();
    assert_eq!(store.load_all().len(), 1);
    assert!(store.load_all()[0].identity.signing_key.is_none());
    assert_eq!(ssh.load_all().len(), 1);
    assert!(store.load_settings().onboarded);
    assert!(svc.already_onboarded(&store));
    svc.apply(&mut store, &mut ssh, &mut audit, params(vec!["/ssh/a"]), vec![Ok(meta())]).unwrap();
    assert_eq!(store.load_all().len(), 1);
    assert_eq!(ssh.load_all().len(), 1);
}

#[test]
fn apply_stops_at_unreadable_key() {
    let svc = OnboardingService::new();
    let mut store = ProfileStore::new();
    let mut ssh = SshStore::new();
    let mut audit = AuditLog::new();
    let err = svc
        .apply(
            &mut store,
            &mut ssh,
            &mut audit,
            params(vec!["/ssh/bad", "/ssh/a"]),
            vec![Err(AppError::Crypto("unparseable".into())), Ok(meta())],
        )
        .unwrap_err();
    assert!(matches!(err, AppError::Crypto(_)));
    assert!(ssh.load_all().is_empty());
    assert!(!store.load_settings().onboarded);
}

#[test]
fn skip_marks_onboarded() {
    let svc = OnboardingService::new();
    let mut store = ProfileStore::new();
    svc.skip(&mut store);
    assert!(store.load_settings().onboarded);
    assert!(store.load_all().is_empty());
}

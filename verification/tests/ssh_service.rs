use gitpersona::audit::AuditLog;
use gitpersona::error::AppError;
use gitpersona::profile::{Identity, Profile, ProfileStore};
use gitpersona::ssh::{
    label_from_path, slug, GenerateParams, GeneratedKey, SshAlgorithm, SshCandidate, SshConfig, SshKey, SshKeyMetadata,
    SshStore,
};
use gitpersona::ssh_service::SshService;

fn new_id() -> u128 {
    uuid::Uuid::new_v4().as_u128()
}

struct Harness {
    svc: SshService,
    store: SshStore,
    profiles: ProfileStore,
    config: SshConfig,
    audit: AuditLog,
    found: Vec<String>,
    known: Vec<String>,
}

fn meta() -> SshKeyMetadata {
    SshKeyMetadata {
        algorithm: SshAlgorithm::Ed25519,
        fingerprint: "SHA256:abc".into(),
        comment: Some("me@host".into()),
        public_key_path: None,
    }
}

fn harness(found: Vec<&str>) -> Harness {
    let found: Vec<String> = found.into_iter().map(String::from).collect();
    Harness {
        svc: SshService::new(),
        store: SshStore::new(),
        profiles: ProfileStore::new(),
        config: SshConfig::new(String::new()),
        audit: AuditLog::new(),
        known: found.clone(),
        found,
    }
}

fn read(h: &Harness, path: &str) -> Result<SshKeyMetadata, AppError> {
    if h.known.iter().any(|p| p == path) {
        Ok(meta())
    } else {
        Err(AppError::Crypto("unparseable".into()))
    }
}

fn candidates(h: &Harness) -> Vec<SshCandidate> {
    h.found
        .iter()
        .map(|p| SshCandidate { path: p.clone(), metadata: read(h, p).ok() })
        .collect()
}

fn scan(h: &mut Harness) -> Vec<SshKey> {
    let c = candidates(h);
    h.svc.scan(&mut h.store, c)
}

fn import(h: &mut Harness, path: &str, alias: Option<String>, name: Option<String>) -> Result<SshKey, AppError> {
    let m = read(h, path);
    h.svc.import(&mut h.store, &mut h.audit, path.into(), alias, name, m)
}

fn generate(h: &mut Harness, params: GenerateParams) -> Result<SshKey, AppError> {
    h.svc.check_generate_params(&params)?;
    let private = format!("{}/{}", params.output_dir, params.file_name);
    let generated = GeneratedKey {
        public_key_path: format!("{private}.pub"),
        private_key_path: private,
        fingerprint: "SHA256:generated".into(),
        comment: params.comment.clone(),
    };
    h.svc.generate(&mut h.store, &mut h.audit, params, Ok(generated))
}

fn assign(h: &mut Harness, id: u128, pid: Option<u128>) -> Result<SshKey, AppError> {
    h.svc.assign_profile(&mut h.store, &h.profiles, &mut h.config, &mut h.audit, id, pid)
}

fn add_profile(h: &mut Harness, label: &str) -> u128 {
    let id = new_id();
    h.profiles.save(Profile {
        id,
        label: label.into(),
        identity: Identity { name: "N".into(), email: "e@x".into(), signing_key: None },
        color: None,
    });
    id
}

#[test]
fn scan_discovers_and_is_idempotent() {
    let mut h = harness(vec!["/ssh/id_ed25519", "/ssh/id_rsa"]);
    let keys = scan(&mut h);
    assert_eq!(keys.len(), 2);
    assert!(keys.iter().all(|k| !k.imported));
    let again = scan(&mut h);
    assert_eq!(again.len(), 2);
}

#[test]
fn scan_skips_unparseable() {
    let mut h = harness(vec!["/ssh/id_ed25519"]);
    h.found = vec!["/ssh/id_ed25519".into(), "/ssh/garbage".into()];
    h.known = vec!["/ssh/id_ed25519".into()];
    let keys = scan(&mut h);
    assert_eq!(keys.len(), 1);
}

#[test]
fn import_adds_and_audits() {
    let mut h = harness(vec!["/ssh/id_ed25519"]);
    let key = import(&mut h, "/ssh/id_ed25519", None, None).unwrap();
    assert!(key.imported);
    assert_eq!(key.fingerprint, "SHA256:abc");
    assert!(h.audit.has_action("ssh.import"));
}

#[test]
fn import_rejects_duplicate() {
    let mut h = harness(vec!["/ssh/id_ed25519"]);
    import(&mut h, "/ssh/id_ed25519", None, None).unwrap();
    let err = import(&mut h, "/ssh/id_ed25519", None, None).unwrap_err();
    assert!(matches!(err, AppError::Conflict(_)));
}

#[test]
fn import_rejects_unparseable_path() {
    let mut h = harness(vec![]);
    let err = import(&mut h, "/ssh/missing", None, None).unwrap_err();
    assert!(matches!(err, AppError::Crypto(_)));
}

#[test]
fn generate_creates_and_audits() {
    let mut h = harness(vec![]);
    let params = GenerateParams {
        label: "Work".into(),
        algorithm: SshAlgorithm::Ed25519,
        comment: Some("me@host".into()),
        output_dir: "/keys".into(),
        file_name: "work_ed25519".into(),
        host_alias: None,
        host_name: None,
    };
    let key = generate(&mut h, params).unwrap();
    assert_eq!(key.label, "Work");
    assert!(key.private_key_path.contains("work_ed25519"));
    assert!(key.public_key_path.is_some());
    assert!(h.audit.has_action("ssh.generate"));
}

#[test]
fn assign_enforces_one_to_one_and_writes_config() {
    let mut h = harness(vec!["/ssh/a", "/ssh/b"]);
    let a = import(&mut h, "/ssh/a", None, None).unwrap();
    let b = import(&mut h, "/ssh/b", None, None).unwrap();
    let pid = add_profile(&mut h, "Work");
    assign(&mut h, a.id, Some(pid)).unwrap();
    assign(&mut h, b.id, Some(pid)).unwrap();
    let keys = h.store.load_all();
    let a_now = keys.iter().find(|k| k.id == a.id).unwrap();
    let b_now = keys.iter().find(|k| k.id == b.id).unwrap();
    assert_eq!(a_now.assigned_profile_id, None);
    assert_eq!(b_now.assigned_profile_id, Some(pid));
    assert_eq!(h.config.managed.len(), 1);
    assert_eq!(h.config.managed[0].host_alias, "work");
    assert_eq!(h.config.managed[0].host_name, "github.com");
    assert!(h.audit.has_action("ssh.assign"));
    assert!(h.audit.has_action("ssh.config.updated"));
}

#[test]
fn assign_uses_custom_host_fields() {
    let mut h = harness(vec!["/ssh/a"]);
    let a = import(&mut h, "/ssh/a", Some("github-work".into()), Some("git.acme.io".into())).unwrap();
    let pid = add_profile(&mut h, "Work");
    assign(&mut h, a.id, Some(pid)).unwrap();
    assert_eq!(h.config.managed[0].host_alias, "github-work");
    assert_eq!(h.config.managed[0].host_name, "git.acme.io");
}

#[test]
fn ssh_service_assign_unknown_profile_errors() {
    let mut h = harness(vec!["/ssh/a"]);
    let a = import(&mut h, "/ssh/a", None, None).unwrap();
    let err = assign(&mut h, a.id, Some(new_id())).unwrap_err();
    assert!(matches!(err, AppError::NotFound(_)));
}

#[test]
fn unassign_clears_config_entry() {
    let mut h = harness(vec!["/ssh/a"]);
    let a = import(&mut h, "/ssh/a", None, None).unwrap();
    let pid = add_profile(&mut h, "Work");
    assign(&mut h, a.id, Some(pid)).unwrap();
    assign(&mut h, a.id, None).unwrap();
    assert!(h.config.managed.is_empty());
}

#[test]
fn remove_refuses_when_assigned() {
    let mut h = harness(vec!["/ssh/a"]);
    let a = import(&mut h, "/ssh/a", None, None).unwrap();
    let pid = add_profile(&mut h, "Work");
    assign(&mut h, a.id, Some(pid)).unwrap();
    let err = h.svc.remove(&mut h.store, &h.profiles, &mut h.config, &mut h.audit, a.id).unwrap_err();
    assert!(matches!(err, AppError::Conflict(_)));
}

#[test]
fn remove_deletes_unassigned_reference() {
    let mut h = harness(vec!["/ssh/a"]);
    let a = import(&mut h, "/ssh/a", None, None).unwrap();
    h.svc.remove(&mut h.store, &h.profiles, &mut h.config, &mut h.audit, a.id).unwrap();
    assert!(h.store.load_all().is_empty());
    assert!(h.audit.has_action("ssh.remove"));
}

#[test]
fn mark_used_sets_last_used() {
    let mut h = harness(vec!["/ssh/a"]);
    let a = import(&mut h, "/ssh/a", None, None).unwrap();
    assert!(a.last_used.is_none());
    let used = h.svc.mark_used(&mut h.store, a.id).unwrap();
    assert!(used.last_used.is_some());
}

#[test]
fn ssh_service_get_missing_errors() {
    let h = harness(vec![]);
    let err = h.svc.get(&h.store, new_id()).unwrap_err();
    assert!(matches!(err, AppError::NotFound(_)));
}

#[test]
fn slug_lowercases_and_collapses_separators() {
    assert_eq!(slug("Work Account"), "work-account");
    assert_eq!(slug("  ACME -- Corp!! "), "acme-corp");
    assert_eq!(slug("***"), "profile");
    assert_eq!(slug(""), "profile");
    assert_eq!(slug("Dev2"), "dev2");
}

#[test]
fn label_is_file_name_of_key_path() {
    assert_eq!(label_from_path("/home/me/.ssh/id_ed25519"), "id_ed25519");
    assert_eq!(label_from_path("id_rsa"), "id_rsa");
}

#[test]
fn generate_rejects_blank_label_and_file_name() {
    let svc = SshService::new();
    let mut params = GenerateParams {
        label: "  ".into(),
        algorithm: SshAlgorithm::Rsa,
        comment: None,
        output_dir: "/keys".into(),
        file_name: "k".into(),
        host_alias: None,
        host_name: None,
    };
    assert!(matches!(svc.check_generate_params(&params).unwrap_err(), AppError::Validation(_)));
    params.label = "Work".into();
    params.file_name = " ".into();
    assert!(matches!(svc.check_generate_params(&params).unwrap_err(), AppError::Validation(_)));
}

#[test]
fn config_alias_falls_back_to_profile_label_slug() {
    let mut h = harness(vec!["/ssh/a"]);
    let a = import(&mut h, "/ssh/a", Some("   ".into()), Some("".into())).unwrap();
    let pid = add_profile(&mut h, "Open Source");
    assign(&mut h, a.id, Some(pid)).unwrap();
    assert_eq!(h.config.managed[0].host_alias, "open-source");
    assert_eq!(h.config.managed[0].host_name, "github.com");
    assert_eq!(h.config.managed[0].user, "git");
    assert_eq!(h.config.managed[0].identity_file, "/ssh/a");
}

#[test]
fn config_preview_returns_raw_text() {
    let h = harness(vec![]);
    let mut c = SshConfig::new("Host x\n".into());
    assert_eq!(h.svc.config_preview(&c), "Host x\n");
    c.raw = String::new();
    assert_eq!(h.svc.config_preview(&c), "");
}

#[test]
fn slug_keeps_the_letters_and_is_idempotent() {
    for input in ["Work Account", "  ACME -- Corp!! ", "***", "", "a1-B2_c3", "Ünïcode Team 7"] {
        let s = slug(input);
        let letters: String = input.chars().filter(|c| c.is_ascii_alphanumeric()).map(|c| c.to_ascii_lowercase()).collect();
        if letters.is_empty() {
            assert_eq!(s, "profile");
        } else {
            assert_eq!(s.replace('-', ""), letters);
        }
        assert_eq!(slug(&s), s);
        assert!(!s.starts_with('-') && !s.ends_with('-') && !s.contains("--"));
    }
}

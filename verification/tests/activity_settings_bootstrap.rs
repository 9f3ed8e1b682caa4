use gitpersona::activity::{purge_cutoff, ActivityService};
use gitpersona::audit::{AuditEntry, AuditLog};
use gitpersona::bootstrap::{from_wire, WireAction, WireAnnouncement, WireBootstrapData, WireUpdateData};
use gitpersona::error::AppError;
use gitpersona::profile::{AppSettings, GuardMode, ProfileStore};
use gitpersona::profile_service::ProfileService;
use gitpersona::settings_service::SettingsService;
use std::collections::HashMap;

fn new_id() -> u128 {
    uuid::Uuid::new_v4().as_u128()
}

fn now_millis() -> i64 {
    chrono::Utc::now().timestamp_millis()
}

fn entry(ts: i64, action: &str) -> AuditEntry {
    AuditEntry { id: new_id(), timestamp: ts, action: action.into(), profile_id: None, repo_path: None }
}

#[test]
fn purge_cutoff_values() {
    assert_eq!(purge_cutoff(1_000_000, 0), 1_001_000);
    assert_eq!(purge_cutoff(1_000_000_000_000, 1), 1_000_000_000_000 - 86_400_000);
    assert_eq!(purge_cutoff(i64::MAX - 10, 0), i64::MAX);
    assert_eq!(purge_cutoff(i64::MIN + 10, 30), i64::MIN);
}

#[test]
fn purge_zero_clears_log() {
    let svc = ActivityService::new();
    let mut log = AuditLog::new();
    log.append(entry(now_millis() - 10, "a"));
    log.append(entry(now_millis() - 5, "b"));
    assert_eq!(svc.purge(&mut log, 0), 2);
    assert!(log.read_all().is_empty());
}

#[test]
fn list_drops_entries_older_than_thirty_days() {
    let svc = ActivityService::new();
    let mut log = AuditLog::new();
    let now = now_millis();
    log.append(entry(now - 31 * 86_400_000, "old"));
    log.append(entry(now - 1000, "recent"));
    let listed = svc.list(&mut log);
    assert_eq!(listed.len(), 1);
    assert_eq!(listed[0].action, "recent");
}

#[test]
fn purge_days_keeps_newer_entries() {
    let svc = ActivityService::new();
    let mut log = AuditLog::new();
    let now = now_millis();
    log.append(entry(now - 10 * 86_400_000, "old"));
    log.append(entry(now - 1000, "new"));
    assert_eq!(svc.purge(&mut log, 7), 1);
    assert_eq!(log.read_all()[0].action, "new");
}

#[test]
fn settings_set_then_get() {
    let svc = SettingsService::new();
    let mut store = ProfileStore::new();
    assert!(!svc.get(&store).onboarded);
    let mut s = AppSettings::default();
    s.onboarded = true;
    s.commit_guard.mode = GuardMode::Block;
    let stored = svc.set(&mut store, s);
    assert!(stored.onboarded);
    assert_eq!(svc.get(&store).commit_guard.mode, GuardMode::Block);
}

#[test]
fn from_wire_maps_every_field() {
    let mut flags = HashMap::new();
    flags.insert("rules".to_string(), true);
    let wire = WireBootstrapData {
        update: Some(WireUpdateData { force_update: true }),
        announcements: vec![
            WireAnnouncement {
                id: "a1".into(),
                title: "Hello".into(),
                message: "Welcome".into(),
                announcement_type: "info".into(),
                priority: "low".into(),
                dismissible: true,
                start_at: "2024-01-01".into(),
                end_at: "2024-12-31".into(),
                action: Some(WireAction { label: "Open".into(), url: "https://x".into() }),
            },
            WireAnnouncement {
                id: "a2".into(),
                title: "T".into(),
                message: "M".into(),
                announcement_type: "warning".into(),
                priority: "high".into(),
                dismissible: false,
                start_at: "s".into(),
                end_at: "e".into(),
                action: None,
            },
        ],
        feature_flags: flags,
    };
    let d = from_wire(wire);
    assert_eq!(d.force_update, Some(true));
    assert_eq!(d.announcements.len(), 2);
    assert_eq!(d.announcements[0].id, "a1");
    assert_eq!(d.announcements[0].action.as_ref().unwrap().url, "https://x");
    assert_eq!(d.announcements[1].id, "a2");
    assert!(d.announcements[1].action.is_none());
    assert_eq!(d.feature_flags.get("rules"), Some(&true));
}

#[test]
fn from_wire_without_update_has_no_force_flag() {
    let wire = WireBootstrapData { update: None, announcements: vec![], feature_flags: HashMap::new() };
    let d = from_wire(wire);
    assert_eq!(d.force_update, None);
    assert!(d.announcements.is_empty());
}

#[test]
fn missing_profile_is_named_by_hyphenated_lowercase_uuid() {
    let svc = ProfileService::new();
    let store = ProfileStore::new();
    match svc.find(&store, 0x0123456789abcdef0123456789abcdef) {
        Err(AppError::NotFound(m)) => assert_eq!(m, "profile 01234567-89ab-cdef-0123-456789abcdef"),
        _ => panic!("expected NotFound"),
    }
    match svc.find(&store, 0) {
        Err(AppError::NotFound(m)) => assert_eq!(m, "profile 00000000-0000-0000-0000-000000000000"),
        _ => panic!("expected NotFound"),
    }
}

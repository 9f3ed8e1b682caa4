use gitpersona::error::AppError;
use gitpersona::profile::{Identity, Profile};
use gitpersona::remote::{owner_of, parse_remote};
use gitpersona::table::Table;
use gitpersona::text::{eq_ignore_ascii_case, file_name_or_path, is_blank, to_ascii_lowercase, trim, u64_to_string};

fn new_id() -> u128 {
    uuid::Uuid::new_v4().as_u128()
}

fn profile(label: &str) -> Profile {
    Profile {
        id: new_id(),
        label: label.into(),
        identity: Identity { name: "n".into(), email: format!("{label}@x"), signing_key: None },
        color: None,
    }
}

#[test]
fn table_save_then_find_returns_record() {
    let mut t: Table<Profile> = Table::new();
    let a = profile("a");
    let b = profile("b");
    t.save(a.clone());
    t.save(b.clone());
    assert_eq!(t.find(a.id).unwrap().label, "a");
    let mut a2 = a.clone();
    a2.label = "a2".into();
    t.save(a2);
    assert_eq!(t.len(), 2);
    assert_eq!(t.find(a.id).unwrap().label, "a2");
    assert_eq!(t.find(b.id).unwrap().label, "b");
}

#[test]
fn table_delete_then_find_is_none() {
    let mut t: Table<Profile> = Table::new();
    let a = profile("a");
    t.save(a.clone());
    assert!(t.delete(a.id).is_ok());
    assert!(t.find(a.id).is_none());
    assert!(t.delete(a.id).is_err());
}

#[test]
fn text_helpers() {
    assert_eq!(trim("  a b \t"), "a b");
    assert!(is_blank(" \n\t"));
    assert!(!is_blank(" x "));
    assert_eq!(to_ascii_lowercase("GitHub.COM"), "github.com");
    assert!(eq_ignore_ascii_case("Dolphin", "dOLPHIN"));
    assert_eq!(u64_to_string(0), "0");
    assert_eq!(u64_to_string(1234567890), "1234567890");
    assert_eq!(file_name_or_path("/a/b/c.txt"), "c.txt");
}

#[test]
fn remote_forms_parse_to_host_and_path() {
    assert_eq!(
        parse_remote("git@GitHub.com:acme/repo.git"),
        Some(("github.com".to_string(), "acme/repo.git".to_string()))
    );
    assert_eq!(
        parse_remote("ssh://git@gitlab.com/group/sub/repo.git"),
        Some(("gitlab.com".to_string(), "group/sub/repo.git".to_string()))
    );
    assert_eq!(owner_of("acme/repo.git"), Some("acme".to_string()));
}

#[test]
fn error_kind_names_the_variant() {
    assert_eq!(AppError::NotFound("x".into()).kind(), "not found");
    assert_eq!(AppError::Validation("x".into()).kind(), "validation");
    assert_eq!(AppError::Conflict("x".into()).kind(), "conflict");
    assert_eq!(AppError::Internal("x".into()).kind(), "internal");
    assert_eq!(AppError::Crypto("x".into()).kind(), "crypto");
    assert_eq!(AppError::Credential("x".into()).kind(), "credential");
}

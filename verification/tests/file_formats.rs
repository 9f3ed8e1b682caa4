use gitpersona::commit_guard::{ExpectedIdentity, HookState};
use gitpersona::fields::{join_spaced_from, split_lines, split_whitespace};
use gitpersona::hook_files::{classify_hook, parse_marker, render_marker};
use gitpersona::profile::GuardMode;
use gitpersona::repo::branch_from_head;
use gitpersona::ssh::{fingerprint_from_listing, parse_public_key, SshAlgorithm, SshConfigEntry};
use gitpersona::ssh_config_file::rewrite_config;

#[test]
fn split_whitespace_skips_runs_of_blanks() {
    assert_eq!(split_whitespace("  a\tbb  \n c "), vec!["a".to_string(), "bb".to_string(), "c".to_string()]);
    assert!(split_whitespace(" \t\n").is_empty());
    assert!(split_whitespace("").is_empty());
}

#[test]
fn split_lines_behaves_like_str_lines() {
    assert_eq!(split_lines("a\r\nb\n\nc"), vec!["a".to_string(), "b".to_string(), String::new(), "c".to_string()]);
    assert_eq!(split_lines("one\n"), vec!["one".to_string()]);
    assert!(split_lines("").is_empty());
    assert_eq!(split_lines("\n"), vec![String::new()]);
}

#[test]
fn join_spaced_from_skips_the_first_fields() {
    let ws = vec!["t".to_string(), "k".to_string(), "me".to_string(), "@host".to_string()];
    assert_eq!(join_spaced_from(&ws, 2), "me @host");
    assert_eq!(join_spaced_from(&ws, 4), "");
}

#[test]
fn head_file_names_the_branch() {
    assert_eq!(branch_from_head("ref: refs/heads/feature/x\n"), Some("feature/x".to_string()));
    assert_eq!(branch_from_head("  ref: refs/heads/main  "), Some("main".to_string()));
    assert_eq!(branch_from_head("3f2a9c0d1e\n"), None);
    assert_eq!(branch_from_head(""), None);
}

#[test]
fn public_key_algorithm_and_comment() {
    let (a, c) = parse_public_key("ssh-ed25519 AAAAC3Nza me@laptop\n").unwrap();
    assert_eq!(a, SshAlgorithm::Ed25519);
    assert_eq!(c, Some("me@laptop".to_string()));
    let (a, c) = parse_public_key("ecdsa-sha2-nistp256 AAAAE2 work   key\n").unwrap();
    assert_eq!(a, SshAlgorithm::Ecdsa);
    assert_eq!(c, Some("work key".to_string()));
    let (a, c) = parse_public_key("ssh-rsa AAAAB3").unwrap();
    assert_eq!(a, SshAlgorithm::Rsa);
    assert_eq!(c, None);
    assert!(parse_public_key("ssh-dss AAAAB3 old").is_none());
    assert!(parse_public_key("   ").is_none());
}

#[test]
fn fingerprint_is_the_second_field_of_the_listing() {
    assert_eq!(
        fingerprint_from_listing("256 SHA256:Zk3f me@laptop (ED25519)\n"),
        Some("SHA256:Zk3f".to_string())
    );
    assert_eq!(fingerprint_from_listing("256"), None);
}

fn entry(alias: &str, file: &str) -> SshConfigEntry {
    SshConfigEntry {
        host_alias: alias.into(),
        host_name: "github.com".into(),
        user: "git".into(),
        identity_file: file.into(),
    }
}

#[test]
fn rewrite_config_replaces_only_the_managed_block() {
    let current = "Host a\n  User x\n# >>> gitpersona managed >>>\nHost old\n# <<< gitpersona managed <<<\nHost b\r\n";
    let text = rewrite_config(current, &vec![entry("work", "/k/work")]);
    assert_eq!(
        text,
        "Host a\n  User x\nHost b\n# >>> gitpersona managed >>>\nHost work\n  HostName github.com\n  User git\n  IdentityFile /k/work\n  IdentitiesOnly yes\n# <<< gitpersona managed <<<\n"
    );
}

#[test]
fn rewrite_config_of_an_empty_file_is_the_block_alone() {
    let text = rewrite_config("", &Vec::new());
    assert_eq!(text, "# >>> gitpersona managed >>>\n# <<< gitpersona managed <<<\n");
}

#[test]
fn hook_text_is_classified_by_its_tag() {
    assert_eq!(classify_hook(&None, false), HookState::NotInstalled);
    let managed = Some("#!/bin/sh\n# gitpersona-managed\nexit 0\n".to_string());
    assert_eq!(classify_hook(&managed, false), HookState::Managed);
    assert_eq!(classify_hook(&managed, true), HookState::ManagedChained);
    assert_eq!(classify_hook(&Some("#!/bin/sh\nlint\n".to_string()), true), HookState::Foreign);
}

#[test]
fn marker_round_trip() {
    let id = ExpectedIdentity { name: "Ada".into(), email: "ada@work.io".into(), mode: GuardMode::Block };
    let text = render_marker(&id);
    assert_eq!(text, "Ada\nada@work.io\nblock\n");
    let back = parse_marker(&text);
    assert_eq!(back.name, "Ada");
    assert_eq!(back.email, "ada@work.io");
    assert_eq!(back.mode, GuardMode::Block);
    let warn = ExpectedIdentity { name: String::new(), email: String::new(), mode: GuardMode::Warn };
    let back = parse_marker(&render_marker(&warn));
    assert_eq!((back.name.as_str(), back.email.as_str(), back.mode), ("", "", GuardMode::Warn));
}

#[test]
fn short_marker_defaults_to_warn() {
    let m = parse_marker("Ada\n");
    assert_eq!(m.name, "Ada");
    assert_eq!(m.email, "");
    assert_eq!(m.mode, GuardMode::Warn);
}

#[test]
fn rewriting_twice_is_rewriting_once() {
    let current = "Host a\n  User x\n# >>> gitpersona managed >>>\nHost stale\n# <<< gitpersona managed <<<\n";
    let entries = vec![entry("work", "/k/work"), entry("home", "/k/home")];
    let once = rewrite_config(current, &entries);
    let twice = rewrite_config(&once, &entries);
    assert_eq!(once, twice);
    assert!(once.starts_with("Host a\n  User x\n# >>> gitpersona managed >>>\nHost work\n"));
}

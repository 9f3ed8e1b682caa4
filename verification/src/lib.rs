//! GitPersona — the decision and bookkeeping core of a developer identity
//! manager: profiles, repositories, SSH keys, HTTPS credentials, the rule
//! engine, smart identity switching and the commit guard.
pub mod text;
pub mod fields;
pub mod error;
pub mod table;
pub mod ids;
pub mod audit;
pub mod profile;
pub mod remote;
pub mod order;
pub mod rule;
pub mod rule_service;
pub mod credential;
pub mod pin;
pub mod credential_service;
pub mod repo;
pub mod git_config;
pub mod profile_service;
pub mod ssh;
pub mod ssh_service;
pub mod ssh_config_file;
pub mod onboarding;
pub mod identity_switch;
pub mod commit_guard;
pub mod hook_files;
pub mod activity;
pub mod settings_service;
pub mod bootstrap;

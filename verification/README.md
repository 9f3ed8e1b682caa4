# GitPersona core

The decision and bookkeeping core of GitPersona, a developer identity
manager: Git profiles, tracked repositories and groups, SSH keys and the
managed `~/.ssh/config` block, HTTPS credentials parked in a vault and
promoted on switch, the rule engine that picks a profile for a repository,
smart identity switching, the commit guard hook, onboarding and the
activity log.

Everything under `src/` is verified with Verus: each public function states
in its contract what it returns and how it changes the stores it is given,
and the laws of the library (rollback restores the vault, rescans are
idempotent, one SSH key per profile, disabling the guard removes every
managed hook, rewriting `~/.ssh/config` keeps the user's lines and is
idempotent, a hook marker reads back as written, exporting and re-importing
rules keeps them and their order, one scan leaves one repository per root,
a second onboarding adds nothing, a slug keeps the input's letters, is a
safe `Host` alias and is idempotent, ...)
are proved as public proof functions next to the code they speak about.
Records are created under ids that no stored record has.

## Layout

- `src/` — the verified library. Stores (`ProfileStore`, `RepoStore`,
  `CredentialStore`, `Vault`, `SshStore`, `AuditLog`, `GitConfig`,
  `HookRegistry`) are in-memory models passed explicitly to the services.
  Filesystem, process and network work is left to the host, which hands the
  services plain values (scan results, key metadata, generator output) and
  carries out what they decide (Git config writes, hook file changes, the
  SSH config block). The small file formats the host reads and writes —
  `.git/HEAD`, OpenSSH public keys and `ssh-keygen -l` listings, the hook
  marker file and the managed block of `~/.ssh/config` — are parsed and
  rendered in `src/` too (`fields`, `hook_files`, `ssh_config_file`).
- `tests/` — behaviour tests of the services.
- `app/` — a command-line host: JSON state file, `git` and `ssh-keygen`
  invocations, polling watcher, hook files and the bootstrap request.

//! Profile management and the multi-stage identity switch: global Git
//! config, then HTTPS credentials, then the active marker, with completed
//! stages rolled back when a later one fails.
use vstd::prelude::*;
use crate::audit::{AuditEntry, AuditLog, appended, grew, lemma_appended_grew, lemma_grew_trans, opt_view};
use crate::credential::{
    Credential, CredentialStore, CredentialTxn, Protocol, Vault, find_by_host_spec, is_supported_host,
    is_supported_host_spec, path_scoped_target_spec,
};
use crate::credential_service::{
    CredentialService, all_backed, backing_of, owned_by, promote_all, restore_all, stamp_all, switch_logged, used,
};
use crate::error::{AppError, ErrorKind, err_kind};
use crate::git_config::{GitConfig, HttpPathSetting};
use crate::ids::uuid_string;
use crate::profile::{Identity, Profile, ProfileStore, email_taken};
use crate::remote::{https_remote, parse_https_remote};
use crate::repo::{Repo, RepoStore, find_by_root_spec};
use crate::table::{Record, find_spec, first_index, has_id, lemma_first_index, upsert, without_id};
use crate::text::{concat2, concat3, decimal, str_eq, u64_to_string};

verus! {

/// The credential store and vault, driven through the credential service
/// for the HTTPS-credential side of an identity switch.
pub struct CredentialSync {
    pub store: CredentialStore,
    pub vault: Vault,
}

/// What switching to `profile_id`'s credentials did: `ok` exactly when every
/// credential the profile owns had its backing secret. On success each was
/// promoted onto its canonical target, saved back marked as used and logged;
/// on failure the vault is as it was, and the credentials handled before the
/// failing one are marked as used and logged.
pub open spec fn credentials_switched(
    c0: CredentialSync,
    c1: CredentialSync,
    a0: Seq<AuditEntry>,
    a1: Seq<AuditEntry>,
    profile_id: u128,
    ok: bool,
) -> bool {
    let cs = owned_by(c0.store.items@, profile_id);
    &&& ok == all_backed(c0.vault@, cs)
    &&& c1.store.pins_view() == c0.store.pins_view()
    &&& ok ==> {
        &&& c1.vault@ == promote_all(c0.vault@, cs)
        &&& exists|times: Seq<i64>|
            times.len() == cs.len() && c1.store.items@ == #[trigger] stamp_all(c0.store.items@, cs, times)
        &&& switch_logged(a0, a1, profile_id, cs)
    }
    &&& !ok ==> {
        &&& c1.vault@ == c0.vault@
        &&& exists|j: int, times: Seq<i64>|
            {
                &&& 0 <= j < cs.len()
                &&& times.len() == j
                &&& c1.store.items@ == #[trigger] stamp_all(c0.store.items@, cs.subrange(0, j), times)
                &&& switch_logged(a0, a1, profile_id, cs.subrange(0, j))
            }
    }
}

/// What pinning `profile_id`'s credential for `host` onto the path-scoped
/// target for `path` did, with result `r`.
pub open spec fn path_pinned(
    c0: CredentialSync,
    c1: CredentialSync,
    a0: Seq<AuditEntry>,
    a1: Seq<AuditEntry>,
    profile_id: u128,
    host: Seq<char>,
    path: Seq<char>,
    r: Result<bool, AppError>,
) -> bool {
    &&& c1.store.pins_view() == c0.store.pins_view()
    &&& match find_by_host_spec(c0.store.items@, profile_id, host) {
        None => {
            &&& r == Ok::<bool, AppError>(false)
            &&& c1.store.items@ == c0.store.items@
            &&& c1.vault@ == c0.vault@
            &&& a1 == a0
        },
        Some(c) => if c0.vault@.contains_key(backing_of(c)) {
            let target = path_scoped_target_spec(c.host@, c.protocol, path);
            &&& r == Ok::<bool, AppError>(true)
            &&& c1.vault@ == c0.vault@.insert(target, (c.username@, c0.vault@[backing_of(c)].1))
            &&& exists|u: Credential| used(u, c) && c1.store.items@ == #[trigger] upsert(c0.store.items@, u)
            &&& appended(a0, a1, "credential.pin_path"@, Some(profile_id), Some(target))
        } else {
            &&& err_kind(r) == Some(ErrorKind::Credential)
            &&& c1.store.items@ == c0.store.items@
            &&& c1.vault@ == c0.vault@
            &&& a1 == a0
        },
    }
}

impl CredentialSync {
    /// Promote every credential of the profile onto its canonical target.
    pub fn switch_profile(&mut self, audit: &mut AuditLog, profile_id: u128) -> (r: Result<
        CredentialTxn,
        AppError,
    >)
        ensures
            credentials_switched(*old(self), *final(self), old(audit).view(), final(audit).view(), profile_id, r is Ok),
            r is Err ==> err_kind(r) == Some(ErrorKind::Credential),
            r matches Ok(txn) ==> restore_all(final(self).vault@, txn.snapshots@) == old(self).vault@,
    {
        CredentialService::new().switch_profile(&mut self.store, &mut self.vault, audit, profile_id)
    }

    /// Undo a `switch_profile`.
    pub fn rollback(&mut self, txn: CredentialTxn) -> (r: Result<(), AppError>)
        ensures
            r is Ok,
            final(self).store == old(self).store,
            final(self).vault@ == restore_all(old(self).vault@, txn.snapshots@),
    {
        CredentialService::new().rollback(&mut self.vault, txn)
    }

    /// Pin the profile's credential for `host` onto the path-scoped target;
    /// `Ok(false)` when the profile owns none.
    pub fn pin_path(&mut self, audit: &mut AuditLog, profile_id: u128, host: &str, path: &str) -> (r:
        Result<bool, AppError>)
        ensures
            path_pinned(*old(self), *final(self), old(audit).view(), final(audit).view(), profile_id, host@, path@, r),
    {
        CredentialService::new().pin_path(&mut self.store, &mut self.vault, audit, profile_id, host, path)
    }

    /// Remove the path-scoped credential for `host`/`path`.
    pub fn unpin_path(&mut self, audit: &mut AuditLog, host: &str, path: &str) -> (r: Result<
        (),
        AppError,
    >)
        ensures
            r is Ok,
            final(self).store == old(self).store,
            final(self).vault@ == old(self).vault@.remove(path_scoped_target_spec(host@, Protocol::Https, path@)),
            appended(
                old(audit).view(),
                final(audit).view(),
                "credential.unpin_path"@,
                None,
                Some(path_scoped_target_spec(host@, Protocol::Https, path@)),
            ),
    {
        CredentialService::new().unpin_path(&mut self.vault, audit, host, path)
    }
}

/// What pinning `profile_id`'s credential for the repository at `root` did:
/// for an HTTPS remote on a supported host, the pin of the credential for
/// its host and path (with outcome `r`); otherwise nothing.
pub open spec fn local_credential_pinned(
    repos: Seq<Repo>,
    root: Seq<char>,
    profile_id: u128,
    c0: CredentialSync,
    c1: CredentialSync,
    a0: Seq<AuditEntry>,
    a1: Seq<AuditEntry>,
    r: Result<bool, AppError>,
) -> bool {
    match repo_https_remote(repos, root) {
        Some((host, path)) => if is_supported_host_spec(host) {
            path_pinned(c0, c1, a0, a1, profile_id, host, path, r)
        } else {
            c1 == c0 && a1 == a0 && r == Ok::<bool, AppError>(false)
        },
        None => c1 == c0 && a1 == a0 && r == Ok::<bool, AppError>(false),
    }
}

/// The global Git identity captured before an apply.
pub struct GitSnapshot {
    pub name: Option<String>,
    pub email: Option<String>,
    pub signing_key: Option<String>,
}

/// The repositories assigned to a profile.
pub open spec fn assigned_to(repos: Seq<Repo>, id: u128) -> Seq<Repo> {
    repos.filter(|r: Repo| r.active_profile_id == Some(id))
}

/// "repository" or "repositories".
pub open spec fn repo_noun(n: nat) -> Seq<char> {
    if n == 1 {
        "repository"@
    } else {
        "repositories"@
    }
}

/// The refusal `delete` gives for a profile still assigned to `n` repositories.
pub open spec fn assigned_message(n: nat) -> Seq<char> {
    "this profile is assigned to "@ + decimal(n) + " "@ + repo_noun(n)
        + " \u{2014} reassign or remove them first"@
}

/// The error `delete` reports, checked in order.
pub open spec fn delete_error(store: ProfileStore, repos: Seq<Repo>, id: u128) -> Option<ErrorKind> {
    if store.active_id == Some(id) {
        Some(ErrorKind::Validation)
    } else if assigned_to(repos, id).len() > 0 {
        Some(ErrorKind::Conflict)
    } else if !has_id(store.profiles@, id) {
        Some(ErrorKind::NotFound)
    } else {
        None
    }
}

/// The global identity of `g` is the one of `identity`; nothing else changed
/// since `before`.
pub open spec fn has_global_identity(g: GitConfig, before: GitConfig, identity: Identity) -> bool {
    &&& opt_view(g.global_name) == Some(identity.name@)
    &&& opt_view(g.global_email) == Some(identity.email@)
    &&& opt_view(g.global_signing_key) == opt_view(identity.signing_key)
    &&& g.local@ == before.local@
    &&& g.use_http_path@ == before.use_http_path@
}

/// `g` is `mid` with the snapshot restored: name and email where they were
/// set, the signing key in any case.
pub open spec fn restored(g: GitConfig, mid: GitConfig, snap: GitSnapshot) -> bool {
    &&& opt_view(g.global_name) == (if snap.name is Some {
        opt_view(snap.name)
    } else {
        opt_view(mid.global_name)
    })
    &&& opt_view(g.global_email) == (if snap.email is Some {
        opt_view(snap.email)
    } else {
        opt_view(mid.global_email)
    })
    &&& opt_view(g.global_signing_key) == opt_view(snap.signing_key)
    &&& g.local@ == mid.local@
    &&& g.use_http_path@ == mid.use_http_path@
}

/// The global identity of `g` after a failed apply of `identity` over
/// `before`: what was set before is back, what was unset holds the new value.
pub open spec fn rolled_back(g: GitConfig, before: GitConfig, identity: Identity) -> bool {
    &&& opt_view(g.global_name) == (if before.global_name is Some {
        opt_view(before.global_name)
    } else {
        Some(identity.name@)
    })
    &&& opt_view(g.global_email) == (if before.global_email is Some {
        opt_view(before.global_email)
    } else {
        Some(identity.email@)
    })
    &&& opt_view(g.global_signing_key) == opt_view(before.global_signing_key)
    &&& g.local@ == before.local@
    &&& g.use_http_path@ == before.use_http_path@
}

/// The host and path of the HTTPS remote of the repository rooted at
/// `root`, when the repository is tracked and its remote is HTTPS.
pub open spec fn repo_https_remote(repos: Seq<Repo>, root: Seq<char>) -> Option<(Seq<char>, Seq<char>)> {
    match find_by_root_spec(repos, root) {
        Some(repo) => match repo.remote_origin {
            Some(remote) => https_remote(remote@),
            None => None,
        },
        None => None,
    }
}

/// `new` is `old` with one `useHttpPath` setting appended.
pub open spec fn http_path_pushed(
    old: Seq<HttpPathSetting>,
    new: Seq<HttpPathSetting>,
    root: Seq<char>,
    host: Seq<char>,
    enabled: bool,
) -> bool {
    &&& new.len() == old.len() + 1
    &&& new.drop_last() == old
    &&& new.last().git_root@ == root
    &&& new.last().host@ == host
    &&& new.last().enabled == enabled
}

/// No two profiles share an email.
pub open spec fn emails_unique(s: Seq<Profile>) -> bool {
    forall|i: int, j: int|
        0 <= i < j < s.len() ==> #[trigger] s[i].identity.email@ != #[trigger] s[j].identity.email@
}

/// Creating a profile keeps emails unique: `create` only saves a profile
/// whose email no profile uses.
pub proof fn lemma_create_keeps_emails_unique(s: Seq<Profile>, p: Profile)
    requires
        emails_unique(s),
        !email_taken(s, p.identity.email@, None),
    ensures
        emails_unique(upsert(s, p)),
{
    lemma_first_index(s, p.id_of());
    let u = upsert(s, p);
    let k = first_index(s, p.id_of());
    assert forall|i: int, j: int|
        0 <= i < j < u.len() implies #[trigger] u[i].identity.email@ != #[trigger] u[j].identity.email@ by {
        if k >= 0 {
            if i != k && j != k {
                assert(u[i] == s[i] && u[j] == s[j]);
            } else if i == k {
                assert(u[j] == s[j]);
                assert(s[j].identity.email@ != p.identity.email@ || Some(s[j].id) == None::<u128>);
            } else {
                assert(u[i] == s[i]);
                assert(s[i].identity.email@ != p.identity.email@ || Some(s[i].id) == None::<u128>);
            }
        } else {
            if j == s.len() {
                assert(u[i] == s[i]);
                assert(s[i].identity.email@ != p.identity.email@ || Some(s[i].id) == None::<u128>);
            } else {
                assert(u[i] == s[i] && u[j] == s[j]);
            }
        }
    }
}

/// Profile operations. The stores they act on are passed in.
pub struct ProfileService {}

impl ProfileService {
    pub fn new() -> (s: Self) {
        ProfileService {  }
    }

    pub fn list(&self, store: &ProfileStore) -> (v: Vec<Profile>)
        ensures
            v@ == store.profiles@,
    {
        store.load_all()
    }

    /// The profile with `id`; `NotFound` when there is none.
    pub fn find(&self, store: &ProfileStore, id: u128) -> (r: Result<Profile, AppError>)
        ensures
            match find_spec(store.profiles@, id) {
                Some(p) => r == Ok::<Profile, AppError>(p),
                None => err_kind(r) == Some(ErrorKind::NotFound),
            },
    {
        match store.find(id) {
            Some(p) => Ok(p),
            None => Err(AppError::NotFound(concat2("profile ", uuid_string(id).as_str()))),
        }
    }

    /// Whether a profile other than `except` uses `email`.
    fn email_in_use(&self, store: &ProfileStore, email: &str, except: Option<u128>) -> (r: bool)
        ensures
            r == email_taken(store.profiles@, email@, except),
    {
        let mut i: usize = 0;
        while i < store.profiles.len()
            invariant
                i <= store.profiles@.len(),
                forall|k: int|
                    0 <= k < i ==> !(#[trigger] store.profiles@[k].identity.email@ == email@ && Some(
                        store.profiles@[k].id,
                    ) != except),
            decreases store.profiles@.len() - i,
        {
            let p = store.profiles.at(i);
            if str_eq(p.identity.email.as_str(), email) && Some(p.id) != except {
                return true;
            }
            i = i + 1;
        }
        false
    }

    /// Create a profile under a fresh id; `Conflict` when its email is taken.
    pub fn create(
        &self,
        store: &mut ProfileStore,
        audit: &mut AuditLog,
        label: String,
        identity: Identity,
        color: Option<String>,
    ) -> (r: Result<Profile, AppError>)
        ensures
            r is Err <==> email_taken(old(store).profiles@, identity.email@, None),
            r is Err ==> err_kind(r) == Some(ErrorKind::Conflict) && *final(store) == *old(store)
                && final(audit).view() == old(audit).view(),
            r matches Ok(p) ==> {
                &&& !has_id(old(store).profiles@, p.id)
                &&& p.label == label
                &&& p.identity == identity
                &&& p.color == color
                &&& final(store).profiles@ == old(store).profiles@.push(p)
                &&& final(store).active_id == old(store).active_id
                &&& final(store).settings == old(store).settings
                &&& appended(old(audit).view(), final(audit).view(), "profile.create"@, Some(p.id), None)
            },
    {
        if self.email_in_use(store, identity.email.as_str(), None) {
            return Err(
                AppError::Conflict(
                    concat3("a profile with email \"", identity.email.as_str(), "\" already exists"),
                ),
            );
        }
        let id = store.profiles.fresh_id();
        let profile = Profile { id, label, identity, color };
        proof {
            lemma_first_index(store.profiles@, id);
        }
        store.save(profile.duplicate());
        audit.record("profile.create", Some(profile.id), None);
        Ok(profile)
    }

    /// Replace a profile's label, identity and color.
    pub fn update(
        &self,
        store: &mut ProfileStore,
        audit: &mut AuditLog,
        id: u128,
        label: String,
        identity: Identity,
        color: Option<String>,
    ) -> (r: Result<Profile, AppError>)
        ensures
            err_kind(r) == if !has_id(old(store).profiles@, id) {
                Some(ErrorKind::NotFound)
            } else if email_taken(old(store).profiles@, identity.email@, Some(id)) {
                Some(ErrorKind::Conflict)
            } else {
                None
            },
            r is Err ==> *final(store) == *old(store) && final(audit).view() == old(audit).view(),
            r matches Ok(p) ==> {
                &&& p == (Profile { id, label, identity, color })
                &&& final(store).profiles@ == upsert(old(store).profiles@, p)
                &&& final(store).active_id == old(store).active_id
                &&& final(store).settings == old(store).settings
                &&& appended(old(audit).view(), final(audit).view(), "profile.update"@, Some(id), None)
            },
    {
        proof {
            lemma_first_index(store.profiles@, id);
        }
        let mut profile = self.find(store, id)?;
        if self.email_in_use(store, identity.email.as_str(), Some(id)) {
            return Err(
                AppError::Conflict(
                    concat3("a profile with email \"", identity.email.as_str(), "\" already exists"),
                ),
            );
        }
        profile.label = label;
        profile.identity = identity;
        profile.color = color;
        store.save(profile.duplicate());
        audit.record("profile.update", Some(id), None);
        Ok(profile)
    }

    /// How many repositories are assigned to the profile.
    fn count_assigned(&self, repos: &RepoStore, id: u128) -> (n: u64)
        ensures
            n == assigned_to(repos.repos@, id).len(),
    {
        let all = repos.load_all();
        let mut n: u64 = 0;
        let mut i: usize = 0;
        while i < all.len()
            invariant
                i <= all@.len(),
                all@ == repos.repos@,
                n == assigned_to(all@.subrange(0, i as int), id).len(),
                n <= i,
            decreases all@.len() - i,
        {
            proof {
                assert(all@.subrange(0, i + 1).drop_last() =~= all@.subrange(0, i as int));
                reveal(Seq::filter);
            }
            if all[i].active_profile_id == Some(id) {
                n = n + 1;
            }
            i = i + 1;
        }
        assert(all@.subrange(0, i as int) =~= all@);
        n
    }

    /// Delete a profile. Refused for the active profile (`Validation`) and
    /// for one still assigned to repositories (`Conflict`).
    pub fn delete(&self, store: &mut ProfileStore, repos: &RepoStore, audit: &mut AuditLog, id: u128) -> (r:
        Result<(), AppError>)
        ensures
            err_kind(r) == delete_error(*old(store), repos.repos@, id),
            r matches Err(AppError::Conflict(m)) ==> m@ == assigned_message(
                assigned_to(repos.repos@, id).len(),
            ),
            r is Err ==> final(store).profiles@ == old(store).profiles@ && final(audit).view() == old(
                audit,
            ).view(),
            r is Ok ==> final(store).profiles@ == without_id(old(store).profiles@, id)
                && appended(old(audit).view(), final(audit).view(), "profile.delete"@, Some(id), None),
            final(store).active_id == old(store).active_id,
            final(store).settings == old(store).settings,
    {
        if let Some(active_id) = store.get_active_id() {
            if active_id == id {
                return Err(
                    AppError::Validation(
                        String::from_str(
                            "cannot delete the active profile \u{2014} apply another profile first",
                        ),
                    ),
                );
            }
        }
        let assigned = self.count_assigned(repos, id);
        if assigned > 0 {
            let noun = if assigned == 1 {
                "repository"
            } else {
                "repositories"
            };
            let head = concat3("this profile is assigned to ", u64_to_string(assigned).as_str(), " ");
            let msg = concat3(head.as_str(), noun, " \u{2014} reassign or remove them first");
            return Err(AppError::Conflict(msg));
        }
        store.delete(id)?;
        audit.record("profile.delete", Some(id), None);
        Ok(())
    }

    /// Write an identity into the global Git config.
    pub fn apply_git_config(&self, git: &mut GitConfig, identity: &Identity)
        ensures
            has_global_identity(*final(git), *old(git), *identity),
    {
        git.set_global_name(identity.name.as_str());
        git.set_global_email(identity.email.as_str());
        match &identity.signing_key {
            Some(k) => git.set_global_signing_key(Some(k.as_str())),
            None => git.set_global_signing_key(None),
        }
    }

    /// Restore a captured global identity. A value that was unset before
    /// cannot be cleared, so only the values that were set are rewritten;
    /// the signing key is always restored.
    pub fn restore_git_config(&self, git: &mut GitConfig, before: &GitSnapshot)
        ensures
            restored(*final(git), *old(git), *before),
    {
        if let Some(name) = &before.name {
            git.set_global_name(name.as_str());
        }
        if let Some(email) = &before.email {
            git.set_global_email(email.as_str());
        }
        match &before.signing_key {
            Some(k) => git.set_global_signing_key(Some(k.as_str())),
            None => git.set_global_signing_key(None),
        }
    }

    /// Apply a profile as one identity switch: global Git config, then the
    /// profile's HTTPS credentials, then the active marker. When the
    /// credential stage fails, the active marker and the vault are left
    /// untouched and the global identity is rolled back as far as Git
    /// allows: a name or email that was set before is restored and the
    /// signing key is restored, but a name or email that was unset before
    /// cannot be cleared again and keeps the new profile's value.
    pub fn apply(
        &self,
        store: &mut ProfileStore,
        git: &mut GitConfig,
        credentials: &mut CredentialSync,
        audit: &mut AuditLog,
        id: u128,
    ) -> (r: Result<(), AppError>)
        ensures
            final(store).profiles@ == old(store).profiles@,
            final(store).settings == old(store).settings,
            grew(old(audit).view(), final(audit).view()),
            match find_spec(old(store).profiles@, id) {
                None => {
                    &&& err_kind(r) == Some(ErrorKind::NotFound)
                    &&& *final(git) == *old(git)
                    &&& *final(credentials) == *old(credentials)
                    &&& final(store).active_id == old(store).active_id
                    &&& final(audit).view() == old(audit).view()
                },
                Some(p) => {
                    &&& r is Ok <==> all_backed(
                        old(credentials).vault@,
                        owned_by(old(credentials).store.items@, id),
                    )
                    &&& r is Ok ==> {
                        &&& has_global_identity(*final(git), *old(git), p.identity)
                        &&& final(store).active_id == Some(id)
                        &&& exists|mid: Seq<AuditEntry>|
                            #[trigger] credentials_switched(
                                *old(credentials),
                                *final(credentials),
                                old(audit).view(),
                                mid,
                                id,
                                true,
                            ) && appended(mid, final(audit).view(), "profile.apply"@, Some(id), None)
                    }
                    &&& r is Err ==> {
                        &&& err_kind(r) == Some(ErrorKind::Credential)
                        &&& rolled_back(*final(git), *old(git), p.identity)
                        &&& final(store).active_id == old(store).active_id
                        &&& credentials_switched(
                            *old(credentials),
                            *final(credentials),
                            old(audit).view(),
                            final(audit).view(),
                            id,
                            false,
                        )
                    }
                },
            },
    {
        proof {
            lemma_first_index(store.profiles@, id);
            assert(audit.view().subrange(0, audit.view().len() as int) =~= audit.view());
        }
        let profile = self.find(store, id)?;
        let git_before = GitSnapshot {
            name: git.get_global_name(),
            email: git.get_global_email(),
            signing_key: git.get_global_signing_key(),
        };
        self.apply_git_config(git, &profile.identity);
        let ghost a0 = audit.view();
        let txn = match credentials.switch_profile(audit, id) {
            Ok(txn) => txn,
            Err(e) => {
                self.restore_git_config(git, &git_before);
                return Err(e);
            },
        };
        store.set_active_id(Some(id));
        let ghost a1 = audit.view();
        audit.record("profile.apply", Some(id), None);
        proof {
            lemma_appended_grew(a1, audit.view(), "profile.apply"@, Some(id), None);
            lemma_grew_trans(a0, a1, audit.view());
            assert(credentials_switched(*old(credentials), *credentials, old(audit).view(), a1, id, true));
        }
        Ok(())
    }

    /// Pin the profile's credential for the repository's HTTPS remote onto the
    /// repository's path-scoped target and enable `useHttpPath` locally.
    /// Nothing happens for an untracked repository, a non-HTTPS remote or an
    /// unsupported host; `useHttpPath` is enabled only when a credential was
    /// pinned.
    fn pin_local_credential(
        &self,
        repos: &RepoStore,
        git: &mut GitConfig,
        credentials: &mut CredentialSync,
        audit: &mut AuditLog,
        git_root: &str,
        profile_id: u128,
    ) -> (r: Result<(), AppError>)
        ensures
            grew(old(audit).view(), final(audit).view()),
            final(git).local@ == old(git).local@,
            final(git).global_name == old(git).global_name,
            final(git).global_email == old(git).global_email,
            final(git).global_signing_key == old(git).global_signing_key,
            exists|pinned: Result<bool, AppError>|
                {
                    &&& #[trigger] local_credential_pinned(
                        repos.repos@,
                        git_root@,
                        profile_id,
                        *old(credentials),
                        *final(credentials),
                        old(audit).view(),
                        final(audit).view(),
                        pinned,
                    )
                    &&& (r is Ok <==> pinned is Ok)
                    &&& match (pinned, repo_https_remote(repos.repos@, git_root@)) {
                        (Ok(true), Some((host, _))) => http_path_pushed(
                            old(git).use_http_path@,
                            final(git).use_http_path@,
                            git_root@,
                            host,
                            true,
                        ),
                        _ => final(git).use_http_path@ == old(git).use_http_path@,
                    }
                },
    {
        assert(audit.view().subrange(0, audit.view().len() as int) =~= audit.view());
        let ghost c0 = *credentials;
        let ghost a0 = audit.view();
        let none: Result<bool, AppError> = Ok(false);
        let repo = match repos.find_by_git_root(git_root) {
            Some(repo) => repo,
            None => {
                assert(local_credential_pinned(repos.repos@, git_root@, profile_id, c0, *credentials, a0, audit.view(), none));
                return Ok(());
            },
        };
        let remote = match &repo.remote_origin {
            Some(remote) => remote,
            None => {
                assert(local_credential_pinned(repos.repos@, git_root@, profile_id, c0, *credentials, a0, audit.view(), none));
                return Ok(());
            },
        };
        let (host, path) = match parse_https_remote(remote.as_str()) {
            Some(hp) => hp,
            None => {
                assert(local_credential_pinned(repos.repos@, git_root@, profile_id, c0, *credentials, a0, audit.view(), none));
                return Ok(());
            },
        };
        if !is_supported_host(host.as_str()) {
            assert(local_credential_pinned(repos.repos@, git_root@, profile_id, c0, *credentials, a0, audit.view(), none));
            return Ok(());
        }
        let pinned = credentials.pin_path(audit, profile_id, host.as_str(), path.as_str());
        assert(local_credential_pinned(repos.repos@, git_root@, profile_id, c0, *credentials, a0, audit.view(), pinned));
        match pinned {
            Ok(true) => {
                git.set_local_use_http_path(git_root, host.as_str(), true);
                Ok(())
            },
            Ok(false) => Ok(()),
            Err(e) => Err(e),
        }
    }

    /// Pin a profile's identity into one repository's local Git config,
    /// without touching the global config or the active marker, and pin its
    /// HTTPS credential for the repository (best effort: a failure there does
    /// not fail the pin).
    pub fn apply_local(
        &self,
        store: &ProfileStore,
        repos: &RepoStore,
        git: &mut GitConfig,
        credentials: &mut CredentialSync,
        audit: &mut AuditLog,
        git_root: &str,
        profile_id: u128,
    ) -> (r: Result<(), AppError>)
        ensures
            grew(old(audit).view(), final(audit).view()),
            final(git).global_name == old(git).global_name,
            final(git).global_email == old(git).global_email,
            final(git).global_signing_key == old(git).global_signing_key,
            match find_spec(store.profiles@, profile_id) {
                None => {
                    &&& err_kind(r) == Some(ErrorKind::NotFound)
                    &&& *final(git) == *old(git)
                    &&& *final(credentials) == *old(credentials)
                    &&& final(audit).view() == old(audit).view()
                },
                Some(p) => {
                    &&& r is Ok
                    &&& final(git).local@ == old(git).local@.push(
                        final(git).local@.last(),
                    )
                    &&& final(git).local@.last().git_root@ == git_root@
                    &&& final(git).local@.last().identity == p.identity
                    &&& match repo_https_remote(repos.repos@, git_root@) {
                        Some((host, _)) => is_supported_host_spec(host) ==> (final(git).use_http_path@
                            == old(git).use_http_path@ || http_path_pushed(
                            old(git).use_http_path@,
                            final(git).use_http_path@,
                            git_root@,
                            host,
                            true,
                        )),
                        None => true,
                    }
                    &&& (match repo_https_remote(repos.repos@, git_root@) {
                        Some((host, _)) => is_supported_host_spec(host),
                        None => false,
                    }) || final(git).use_http_path@ == old(git).use_http_path@
                    &&& exists|mid: Seq<AuditEntry>, pinned: Result<bool, AppError>|
                        #[trigger] local_credential_pinned(
                            repos.repos@,
                            git_root@,
                            profile_id,
                            *old(credentials),
                            *final(credentials),
                            old(audit).view(),
                            mid,
                            pinned,
                        ) && appended(
                            mid,
                            final(audit).view(),
                            "identity.pin_local"@,
                            Some(profile_id),
                            Some(git_root@),
                        )
                },
            },
    {
        proof {
            lemma_first_index(store.profiles@, profile_id);
            assert(audit.view().subrange(0, audit.view().len() as int) =~= audit.view());
        }
        let profile = self.find(store, profile_id)?;
        git.set_local_identity(git_root, &profile.identity);
        let ghost g1 = *git;
        let ghost a0 = audit.view();
        let _ = self.pin_local_credential(repos, git, credentials, audit, git_root, profile_id);
        let ghost a1 = audit.view();
        audit.record("identity.pin_local", Some(profile_id), Some(String::from_str(git_root)));
        proof {
            lemma_appended_grew(a1, audit.view(), "identity.pin_local"@, Some(profile_id), Some(git_root@));
            lemma_grew_trans(a0, a1, audit.view());
            assert(git.local@ =~= old(git).local@.push(git.local@.last()));
        }
        Ok(())
    }

    /// Undo a per-repository credential pin: disable `useHttpPath` locally and
    /// drop the path-scoped credential. Nothing happens for an untracked
    /// repository or a non-HTTPS remote.
    pub fn unpin_local(
        &self,
        repos: &RepoStore,
        git: &mut GitConfig,
        credentials: &mut CredentialSync,
        audit: &mut AuditLog,
        git_root: &str,
    ) -> (r: Result<(), AppError>)
        ensures
            grew(old(audit).view(), final(audit).view()),
            final(git).local@ == old(git).local@,
            final(git).global_name == old(git).global_name,
            final(git).global_email == old(git).global_email,
            final(git).global_signing_key == old(git).global_signing_key,
            match repo_https_remote(repos.repos@, git_root@) {
                Some((host, path)) => {
                    &&& r is Ok
                    &&& http_path_pushed(
                        old(git).use_http_path@,
                        final(git).use_http_path@,
                        git_root@,
                        host,
                        false,
                    )
                    &&& final(credentials).store == old(credentials).store
                    &&& final(credentials).vault@ == old(credentials).vault@.remove(
                        path_scoped_target_spec(host, Protocol::Https, path),
                    )
                    &&& appended(
                        old(audit).view(),
                        final(audit).view(),
                        "credential.unpin_path"@,
                        None,
                        Some(path_scoped_target_spec(host, Protocol::Https, path)),
                    )
                },
                None => {
                    &&& r is Ok
                    &&& final(git).use_http_path@ == old(git).use_http_path@
                    &&& *final(credentials) == *old(credentials)
                    &&& final(audit).view() == old(audit).view()
                },
            },
    {
        assert(audit.view().subrange(0, audit.view().len() as int) =~= audit.view());
        let repo = match repos.find_by_git_root(git_root) {
            Some(repo) => repo,
            None => {
                return Ok(());
            },
        };
        let remote = match &repo.remote_origin {
            Some(remote) => remote,
            None => {
                return Ok(());
            },
        };
        let (host, path) = match parse_https_remote(remote.as_str()) {
            Some(hp) => hp,
            None => {
                return Ok(());
            },
        };
        git.set_local_use_http_path(git_root, host.as_str(), false);
        credentials.unpin_path(audit, host.as_str(), path.as_str())?;
        Ok(())
    }

    /// The globally active profile, if any.
    pub fn get_active(&self, store: &ProfileStore) -> (r: Option<Profile>)
        ensures
            r == match store.active_id {
                Some(id) => find_spec(store.profiles@, id),
                None => None,
            },
    {
        match store.get_active_id() {
            Some(id) => store.find(id),
            None => None,
        }
    }
}

} // verus!

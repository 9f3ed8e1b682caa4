//! First run: detect the existing Git setup (global identity, SSH keys,
//! HTTPS credential usernames) without writing anything, then import what
//! the user selected. Listing and reading key files is the host's work; the
//! candidates it found are passed in.
use vstd::prelude::*;
use crate::audit::{AuditLog, grew, lemma_appended_grew, lemma_grew_trans, opt_view};
use crate::credential::{Protocol, Vault, canonical_target, canonical_target_spec, supported_hosts, supported_hosts_spec};
use crate::error::AppError;
use crate::git_config::GitConfig;
use crate::profile::{Identity, Profile, ProfileStore, email_taken};
use crate::profile_service::ProfileService;
use crate::ssh::{SshAlgorithm, SshCandidate, SshKey, SshKeyMetadata, SshStore, find_by_path_spec, lemma_path_index_from};
use crate::ssh_service::{SshService, imported_key, lemma_path_found, lemma_tracks_push, tracks_path};
use crate::table::{Record, first_index, has_id, lemma_first_index, upsert};
use crate::text::{clone_opt_string, is_blank, is_blank_seq};

verus! {

/// The global identity found in Git's config (blank values count as unset).
#[derive(Debug, Clone)]
pub struct DetectedIdentity {
    pub name: Option<String>,
    pub email: Option<String>,
    pub signing_key: Option<String>,
}

/// A readable SSH key found in the SSH directory.
#[derive(Debug, Clone)]
pub struct DetectedSshKey {
    pub private_key_path: String,
    pub algorithm: SshAlgorithm,
    pub fingerprint: String,
    pub comment: Option<String>,
}

/// A stored HTTPS credential username for a supported host.
#[derive(Debug, Clone)]
pub struct DetectedCredential {
    pub host: String,
    pub username: String,
}

/// Everything the first-run scan found.
#[derive(Debug, Clone)]
pub struct SystemScan {
    pub identity: Option<DetectedIdentity>,
    pub ssh_keys: Vec<DetectedSshKey>,
    pub credentials: Vec<DetectedCredential>,
    pub already_onboarded: bool,
}

/// What the user chose in the onboarding wizard.
#[derive(Debug, Clone)]
pub struct ApplyParams {
    pub create_profile: bool,
    pub label: String,
    pub name: String,
    pub email: String,
    pub signing_key: Option<String>,
    pub color: Option<String>,
    /// The SSH private keys to import.
    pub ssh_paths: Vec<String>,
}

/// An optional value with blank strings treated as unset.
pub open spec fn non_blank(o: Option<String>) -> Option<Seq<char>> {
    match o {
        Some(s) => if is_blank_seq(s@) {
            None
        } else {
            Some(s@)
        },
        None => None,
    }
}

/// An optional string with blank strings treated as unset.
pub fn non_blank_string(o: &Option<String>) -> (r: Option<String>)
    ensures
        opt_view(r) == non_blank(*o),
        r is Some ==> r == *o,
{
    match o {
        Some(s) => if is_blank(s.as_str()) {
            None
        } else {
            Some(s.clone())
        },
        None => None,
    }
}

/// The detected key for each readable candidate, in order.
pub open spec fn detected_keys(cands: Seq<SshCandidate>) -> Seq<
    (Seq<char>, SshAlgorithm, Seq<char>, Option<Seq<char>>),
>
    decreases cands.len(),
{
    if cands.len() == 0 {
        Seq::empty()
    } else {
        let prev = detected_keys(cands.drop_last());
        let c = cands.last();
        match c.metadata {
            Some(m) => prev.push((c.path@, m.algorithm, m.fingerprint@, opt_view(m.comment))),
            None => prev,
        }
    }
}

pub open spec fn key_view(k: DetectedSshKey) -> (Seq<char>, SshAlgorithm, Seq<char>, Option<Seq<char>>) {
    (k.private_key_path@, k.algorithm, k.fingerprint@, opt_view(k.comment))
}

/// The (host, username) pairs found for `hosts`: those whose canonical
/// target holds a username that is not blank.
pub open spec fn detected_credentials(hosts: Seq<Seq<char>>, vault: Map<Seq<char>, (Seq<char>, Seq<char>)>) -> Seq<
    (Seq<char>, Seq<char>),
>
    decreases hosts.len(),
{
    if hosts.len() == 0 {
        Seq::empty()
    } else {
        let prev = detected_credentials(hosts.drop_last(), vault);
        let h = hosts.last();
        let t = canonical_target_spec(h, Protocol::Https);
        if vault.contains_key(t) && !is_blank_seq(vault[t].0) {
            prev.push((h, vault[t].0))
        } else {
            prev
        }
    }
}

/// A host whose canonical target in the vault holds a username that is not blank.
pub open spec fn has_stored_username(vault: Map<Seq<char>, (Seq<char>, Seq<char>)>, h: Seq<char>) -> bool {
    let t = canonical_target_spec(h, Protocol::Https);
    vault.contains_key(t) && !is_blank_seq(vault[t].0)
}

/// The credential scan reports every host that has one and nothing else:
/// each of `hosts` whose canonical target holds a username that is not
/// blank is reported with that username, and every report is such a host
/// with its stored username.
pub proof fn lemma_detected_credentials_exact(hosts: Seq<Seq<char>>, vault: Map<Seq<char>, (Seq<char>, Seq<char>)>)
    ensures
        forall|i: int|
            0 <= i < hosts.len() && has_stored_username(vault, #[trigger] hosts[i]) ==> exists|j: int|
                0 <= j < detected_credentials(hosts, vault).len() && #[trigger] detected_credentials(hosts, vault)[j]
                    == (hosts[i], vault[canonical_target_spec(hosts[i], Protocol::Https)].0),
        forall|j: int|
            0 <= j < detected_credentials(hosts, vault).len() ==> {
                let d = #[trigger] detected_credentials(hosts, vault)[j];
                &&& hosts.contains(d.0)
                &&& has_stored_username(vault, d.0)
                &&& d.1 == vault[canonical_target_spec(d.0, Protocol::Https)].0
            },
        detected_credentials(hosts, vault).len() <= hosts.len(),
    decreases hosts.len(),
{
    let ds = detected_credentials(hosts, vault);
    if hosts.len() > 0 {
        let p = hosts.drop_last();
        let h = hosts.last();
        lemma_detected_credentials_exact(p, vault);
        let prev = detected_credentials(p, vault);
        let t = canonical_target_spec(h, Protocol::Https);
        if has_stored_username(vault, h) {
            let e = (h, vault[t].0);
            assert(ds == prev.push(e));
            assert forall|i: int|
                0 <= i < hosts.len() && has_stored_username(vault, #[trigger] hosts[i]) implies exists|j: int|
                    0 <= j < ds.len() && #[trigger] ds[j] == (hosts[i], vault[canonical_target_spec(hosts[i], Protocol::Https)].0) by {
                if i < p.len() {
                    assert(p[i] == hosts[i]);
                    let j = choose|j: int|
                        0 <= j < prev.len() && #[trigger] prev[j] == (p[i], vault[canonical_target_spec(p[i], Protocol::Https)].0);
                    assert(ds[j] == prev[j]);
                } else {
                    assert(hosts[i] == h);
                    assert(ds[prev.len() as int] == e);
                }
            }
            assert forall|j: int| 0 <= j < ds.len() implies {
                let d = #[trigger] ds[j];
                &&& hosts.contains(d.0)
                &&& has_stored_username(vault, d.0)
                &&& d.1 == vault[canonical_target_spec(d.0, Protocol::Https)].0
            } by {
                if j < prev.len() {
                    assert(ds[j] == prev[j]);
                    let k = choose|k: int| 0 <= k < p.len() && p[k] == prev[j].0;
                    assert(hosts[k] == p[k]);
                } else {
                    assert(ds[j] == e);
                    assert(hosts[hosts.len() - 1] == h);
                }
            }
        } else {
            assert(ds == prev);
            assert forall|i: int|
                0 <= i < hosts.len() && has_stored_username(vault, #[trigger] hosts[i]) implies exists|j: int|
                    0 <= j < ds.len() && #[trigger] ds[j] == (hosts[i], vault[canonical_target_spec(hosts[i], Protocol::Https)].0) by {
                assert(i < p.len());
                assert(p[i] == hosts[i]);
            }
            assert forall|j: int| 0 <= j < ds.len() implies {
                let d = #[trigger] ds[j];
                &&& hosts.contains(d.0)
                &&& has_stored_username(vault, d.0)
                &&& d.1 == vault[canonical_target_spec(d.0, Protocol::Https)].0
            } by {
                let k = choose|k: int| 0 <= k < p.len() && p[k] == prev[j].0;
                assert(hosts[k] == p[k]);
            }
        }
    }
}

pub open spec fn credential_view(c: DetectedCredential) -> (Seq<char>, Seq<char>) {
    (c.host@, c.username@)
}

/// The global identity, when a name or an email is set (not blank).
pub fn detect_identity(git: &GitConfig) -> (r: Option<DetectedIdentity>)
    ensures
        r == detect_identity_spec(*git),
{
    let name = non_blank_string(&git.get_global_name());
    let email = non_blank_string(&git.get_global_email());
    if name.is_none() && email.is_none() {
        return None;
    }
    let signing_key = non_blank_string(&git.get_global_signing_key());
    Some(DetectedIdentity { name, email, signing_key })
}

/// The candidates whose metadata could be read; the rest are skipped.
pub fn detect_ssh_keys(candidates: &Vec<SshCandidate>) -> (v: Vec<DetectedSshKey>)
    ensures
        v@.map_values(|k: DetectedSshKey| key_view(k)) == detected_keys(candidates@),
{
    let mut keys: Vec<DetectedSshKey> = Vec::new();
    let mut i: usize = 0;
    while i < candidates.len()
        invariant
            i <= candidates@.len(),
            keys@.map_values(|k: DetectedSshKey| key_view(k)) == detected_keys(
                candidates@.subrange(0, i as int),
            ),
        decreases candidates@.len() - i,
    {
        let c = &candidates[i];
        proof {
            assert(candidates@.subrange(0, i + 1).drop_last() =~= candidates@.subrange(0, i as int));
        }
        match &c.metadata {
            Some(meta) => {
                let k = DetectedSshKey {
                    private_key_path: c.path.clone(),
                    algorithm: meta.algorithm,
                    fingerprint: meta.fingerprint.clone(),
                    comment: clone_opt_string(&meta.comment),
                };
                let ghost before = keys@;
                keys.push(k);
                proof {
                    assert(keys@.map_values(|k: DetectedSshKey| key_view(k)) =~= before.map_values(
                        |k: DetectedSshKey| key_view(k),
                    ).push(key_view(k)));
                }
            },
            None => {},
        }
        i = i + 1;
    }
    assert(candidates@.subrange(0, i as int) =~= candidates@);
    keys
}

/// The credential usernames stored for the supported hosts (blank ones are
/// ignored).
pub fn detect_credentials(vault: &Vault) -> (v: Vec<DetectedCredential>)
    ensures
        v@.map_values(|c: DetectedCredential| credential_view(c)) == detected_credentials(
            supported_hosts_spec(),
            vault@,
        ),
        forall|i: int|
            0 <= i < supported_hosts_spec().len() && has_stored_username(vault@, #[trigger] supported_hosts_spec()[i])
                ==> exists|j: int|
                0 <= j < v@.len() && #[trigger] credential_view(v@[j]) == (
                    supported_hosts_spec()[i],
                    vault@[canonical_target_spec(supported_hosts_spec()[i], Protocol::Https)].0,
                ),
        forall|j: int|
            0 <= j < v@.len() ==> supported_hosts_spec().contains(#[trigger] v@[j].host@) && has_stored_username(
                vault@,
                v@[j].host@,
            ) && v@[j].username@ == vault@[canonical_target_spec(v@[j].host@, Protocol::Https)].0,
{
    let hosts = supported_hosts();
    let mut found: Vec<DetectedCredential> = Vec::new();
    let mut i: usize = 0;
    while i < hosts.len()
        invariant
            i <= hosts@.len(),
            hosts@.len() == supported_hosts_spec().len(),
            forall|k: int| 0 <= k < hosts@.len() ==> #[trigger] hosts@[k]@ == supported_hosts_spec()[k],
            found@.map_values(|c: DetectedCredential| credential_view(c)) == detected_credentials(
                supported_hosts_spec().subrange(0, i as int),
                vault@,
            ),
        decreases hosts@.len() - i,
    {
        let host = hosts[i];
        proof {
            assert(supported_hosts_spec().subrange(0, i + 1).drop_last() =~= supported_hosts_spec().subrange(
                0,
                i as int,
            ));
            assert(supported_hosts_spec().subrange(0, i + 1).last() == host@);
        }
        let target = canonical_target(host, Protocol::Https);
        match vault.username(target.as_str()) {
            Some(username) => {
                if !is_blank(username.as_str()) {
                    let c = DetectedCredential { host: String::from_str(host), username };
                    let ghost before = found@;
                    found.push(c);
                    proof {
                        assert(found@.map_values(|c: DetectedCredential| credential_view(c))
                            =~= before.map_values(|c: DetectedCredential| credential_view(c)).push(
                            credential_view(c),
                        ));
                    }
                }
            },
            None => {},
        }
        i = i + 1;
    }
    assert(supported_hosts_spec().subrange(0, i as int) =~= supported_hosts_spec());
    proof {
        lemma_detected_credentials_exact(supported_hosts_spec(), vault@);
        let ds = detected_credentials(supported_hosts_spec(), vault@);
        assert forall|i: int|
            0 <= i < supported_hosts_spec().len() && has_stored_username(vault@, #[trigger] supported_hosts_spec()[i])
                implies exists|j: int|
                0 <= j < found@.len() && #[trigger] credential_view(found@[j]) == (
                    supported_hosts_spec()[i],
                    vault@[canonical_target_spec(supported_hosts_spec()[i], Protocol::Https)].0,
                ) by {
            let j = choose|j: int|
                0 <= j < ds.len() && #[trigger] ds[j] == (
                    supported_hosts_spec()[i],
                    vault@[canonical_target_spec(supported_hosts_spec()[i], Protocol::Https)].0,
                );
            assert(credential_view(found@[j]) == ds[j]);
        }
        assert forall|j: int| 0 <= j < found@.len() implies supported_hosts_spec().contains(#[trigger] found@[j].host@)
            && has_stored_username(vault@, found@[j].host@) && found@[j].username@ == vault@[canonical_target_spec(
            found@[j].host@,
            Protocol::Https,
        )].0 by {
            assert(credential_view(found@[j]) == ds[j]);
        }
    }
    found
}

/// The read-only first-run scan.
pub fn scan_system(git: &GitConfig, vault: &Vault, candidates: &Vec<SshCandidate>, already_onboarded: bool) -> (s:
    SystemScan)
    ensures
        s.identity == detect_identity_spec(*git),
        s.ssh_keys@.map_values(|k: DetectedSshKey| key_view(k)) == detected_keys(candidates@),
        s.credentials@.map_values(|c: DetectedCredential| credential_view(c)) == detected_credentials(
            supported_hosts_spec(),
            vault@,
        ),
        s.already_onboarded == already_onboarded,
{
    let identity = detect_identity(git);
    let ssh_keys = detect_ssh_keys(candidates);
    let credentials = detect_credentials(vault);
    SystemScan { identity, ssh_keys, credentials, already_onboarded }
}

/// The identity `detect_identity` returns, as a value.
pub open spec fn detect_identity_spec(git: GitConfig) -> Option<DetectedIdentity> {
    if non_blank(git.global_name) is None && non_blank(git.global_email) is None {
        None
    } else {
        Some(
            DetectedIdentity {
                name: if non_blank(git.global_name) is Some {
                    git.global_name
                } else {
                    None
                },
                email: if non_blank(git.global_email) is Some {
                    git.global_email
                } else {
                    None
                },
                signing_key: if non_blank(git.global_signing_key) is Some {
                    git.global_signing_key
                } else {
                    None
                },
            },
        )
    }
}

/// One import step of `apply`: a tracked key is skipped; an untracked one is
/// added when its metadata could be read.
pub open spec fn import_step(
    prev: Seq<SshKey>,
    next: Seq<SshKey>,
    path: Seq<char>,
    meta: Result<SshKeyMetadata, AppError>,
) -> bool {
    if find_by_path_spec(prev, path) is Some {
        next == prev
    } else {
        match meta {
            Ok(m) => exists|k: SshKey|
                imported_key(k, path, m, None, None) && !has_id(prev, k.id) && next == #[trigger] upsert(prev, k),
            Err(e) => e is Conflict && next == prev,
        }
    }
}

/// `trace` runs the import steps for a prefix of `paths`.
pub open spec fn import_trace(
    trace: Seq<Seq<SshKey>>,
    paths: Seq<String>,
    metas: Seq<Result<SshKeyMetadata, AppError>>,
) -> bool {
    &&& 1 <= trace.len() <= paths.len() + 1
    &&& forall|k: int| 0 <= k < trace.len() - 1 ==> import_step(#[trigger] trace[k], trace[k + 1], paths[k]@, metas[k])
}

/// What onboarding does to the profiles: with profile creation chosen and
/// the email free, it adds one profile made from the entered identity under
/// a fresh id; otherwise it leaves them as they are.
pub open spec fn onboarding_profile_step(s0: Seq<Profile>, s1: Seq<Profile>, params: ApplyParams) -> bool {
    if params.create_profile && !email_taken(s0, params.email@, None) {
        exists|p: Profile|
            {
                &&& p.label == params.label
                &&& p.identity.name == params.name
                &&& p.identity.email == params.email
                &&& opt_view(p.identity.signing_key) == non_blank(params.signing_key)
                &&& p.color == params.color
                &&& !has_id(s0, p.id)
                &&& s1 == #[trigger] s0.push(p)
            }
    } else {
        s1 == s0
    }
}

/// Onboarding twice with the same selections adds nothing the second time:
/// once an apply has gone through, a second apply with the same parameters
/// leaves the profiles and the SSH keys as the first left them.
pub proof fn lemma_apply_twice_adds_nothing(
    s0: Seq<Profile>,
    s1: Seq<Profile>,
    s2: Seq<Profile>,
    params: ApplyParams,
    t1: Seq<Seq<SshKey>>,
    t2: Seq<Seq<SshKey>>,
    metas: Seq<Result<SshKeyMetadata, AppError>>,
)
    requires
        onboarding_profile_step(s0, s1, params),
        onboarding_profile_step(s1, s2, params),
        import_trace(t1, params.ssh_paths@, metas),
        t1.len() == params.ssh_paths@.len() + 1,
        import_trace(t2, params.ssh_paths@, metas),
        t2[0] == t1.last(),
    ensures
        s2 == s1,
        t2.last() == t2[0],
{
    if params.create_profile {
        if !email_taken(s0, params.email@, None) {
            let p = choose|p: Profile|
                {
                    &&& p.label == params.label
                    &&& p.identity.name == params.name
                    &&& p.identity.email == params.email
                    &&& opt_view(p.identity.signing_key) == non_blank(params.signing_key)
                    &&& p.color == params.color
                    &&& !has_id(s0, p.id)
                    &&& s1 == #[trigger] s0.push(p)
                };
            assert(s1[s0.len() as int] == p);
            assert(email_taken(s1, params.email@, None));
        } else {
            let i = choose|i: int|
                0 <= i < s0.len() && #[trigger] s0[i].identity.email@ == params.email@ && Some(s0[i].id) != None::<u128>;
            assert(s1[i].identity.email@ == params.email@);
        }
    }
    lemma_apply_idempotent_keys(t1, t2, params.ssh_paths@, metas);
}

/// A profile that was just saved makes its email taken.
pub proof fn lemma_email_taken_after_save(s: Seq<Profile>, p: Profile)
    ensures
        email_taken(upsert(s, p), p.identity.email@, None),
{
    lemma_first_index(s, p.id_of());
    let u = upsert(s, p);
    let k = first_index(s, p.id_of());
    if k >= 0 {
        assert(u[k] == p);
    } else {
        assert(u[s.len() as int] == p);
    }
}

/// Every step of the trace keeps the keys or appends one: the ids the
/// imports drew were fresh.
pub open spec fn keys_fresh(t: Seq<Seq<SshKey>>) -> bool {
    forall|k: int| 0 <= k < t.len() - 1 ==> #[trigger] t[k + 1] == t[k] || t[k + 1].len() == t[k].len() + 1
}

/// Each import adds its key under an id the store did not have.
proof fn lemma_imports_fresh(
    t: Seq<Seq<SshKey>>,
    paths: Seq<String>,
    metas: Seq<Result<SshKeyMetadata, AppError>>,
)
    requires
        import_trace(t, paths, metas),
    ensures
        keys_fresh(t),
{
    assert forall|k: int| 0 <= k < t.len() - 1 implies #[trigger] t[k + 1] == t[k] || t[k + 1].len() == t[k].len()
        + 1 by {
        assert(import_step(t[k], t[k + 1], paths[k]@, metas[k]));
        if find_by_path_spec(t[k], paths[k]@) is None {
            if let Ok(m) = metas[k] {
                let x = choose|x: SshKey|
                    imported_key(x, paths[k]@, m, None, None) && !has_id(t[k], x.id) && t[k + 1] == #[trigger] upsert(t[k], x);
                lemma_first_index(t[k], x.id);
            }
        }
    }
}

/// During a run of imports with fresh ids, a tracked key file stays tracked.
proof fn lemma_import_keeps_tracked(
    t: Seq<Seq<SshKey>>,
    paths: Seq<String>,
    metas: Seq<Result<SshKeyMetadata, AppError>>,
    j: int,
    i: int,
    p: Seq<char>,
)
    requires
        import_trace(t, paths, metas),
        keys_fresh(t),
        0 <= j <= i < t.len(),
        tracks_path(t[j], p),
    ensures
        tracks_path(t[i], p),
    decreases i - j,
{
    if j < i {
        lemma_import_keeps_tracked(t, paths, metas, j, i - 1, p);
        let prev = t[i - 1];
        let next = t[i];
        assert(import_step(prev, next, paths[i - 1]@, metas[i - 1]));
        if next != prev {
            assert(next.len() == prev.len() + 1);
            let key = choose|key: SshKey|
                imported_key(key, paths[i - 1]@, metas[i - 1]->Ok_0, None, None) && next
                    == #[trigger] upsert(prev, key);
            lemma_first_index(prev, key.id_of());
            assert(next == prev.push(key));
            lemma_tracks_push(prev, key, p);
        }
    }
}

/// After a complete run of imports with fresh ids, a key file that was not
/// added was skipped as a conflict.
proof fn lemma_import_done(
    t: Seq<Seq<SshKey>>,
    paths: Seq<String>,
    metas: Seq<Result<SshKeyMetadata, AppError>>,
    j: int,
)
    requires
        import_trace(t, paths, metas),
        t.len() == paths.len() + 1,
        keys_fresh(t),
        0 <= j < paths.len(),
    ensures
        tracks_path(t.last(), paths[j]@) || (metas[j] matches Err(e) && e is Conflict),
{
    let prev = t[j];
    let next = t[j + 1];
    assert(import_step(prev, next, paths[j]@, metas[j]));
    if tracks_path(prev, paths[j]@) {
        lemma_import_keeps_tracked(t, paths, metas, j, paths.len() as int, paths[j]@);
    } else if metas[j] is Ok {
        let key = choose|key: SshKey|
            imported_key(key, paths[j]@, metas[j]->Ok_0, None, None) && next == #[trigger] upsert(
                prev,
                key,
            );
        lemma_first_index(prev, key.id_of());
        let k = first_index(prev, key.id_of());
        if k >= 0 {
            assert(next[k] == key);
            lemma_path_found(next, paths[j]@, k);
        } else {
            assert(next == prev.push(key));
            lemma_tracks_push(prev, key, paths[j]@);
        }
        lemma_import_keeps_tracked(t, paths, metas, j + 1, paths.len() as int, paths[j]@);
    }
}

/// Onboarding is idempotent for SSH keys: once an apply has gone through,
/// applying the same selections again changes no key.
pub proof fn lemma_apply_idempotent_keys(
    t1: Seq<Seq<SshKey>>,
    t2: Seq<Seq<SshKey>>,
    paths: Seq<String>,
    metas: Seq<Result<SshKeyMetadata, AppError>>,
)
    requires
        import_trace(t1, paths, metas),
        t1.len() == paths.len() + 1,
        import_trace(t2, paths, metas),
        t2[0] == t1.last(),
    ensures
        t2.last() == t2[0],
{
    lemma_imports_fresh(t1, paths, metas);
    assert forall|k: int| 0 <= k < t2.len() implies #[trigger] t2[k] == t2[0] by {
        lemma_second_apply(t1, t2, paths, metas, k);
    }
}

proof fn lemma_second_apply(
    t1: Seq<Seq<SshKey>>,
    t2: Seq<Seq<SshKey>>,
    paths: Seq<String>,
    metas: Seq<Result<SshKeyMetadata, AppError>>,
    k: int,
)
    requires
        import_trace(t1, paths, metas),
        t1.len() == paths.len() + 1,
        keys_fresh(t1),
        import_trace(t2, paths, metas),
        t2[0] == t1.last(),
        0 <= k < t2.len(),
    ensures
        t2[k] == t2[0],
    decreases k,
{
    if k > 0 {
        lemma_second_apply(t1, t2, paths, metas, k - 1);
        lemma_import_done(t1, paths, metas, k - 1);
        assert(import_step(t2[k - 1], t2[k], paths[k - 1]@, metas[k - 1]));
    }
}

/// The first-run service.
pub struct OnboardingService {}

impl OnboardingService {
    pub fn new() -> (s: Self) {
        OnboardingService {  }
    }

    /// Whether onboarding is done: the flag is set or a profile exists.
    pub fn already_onboarded(&self, store: &ProfileStore) -> (r: bool)
        ensures
            r == (store.settings.onboarded || store.profiles@.len() > 0),
    {
        store.load_settings().onboarded || store.profiles.len() > 0
    }

    /// The read-only scan of the system.
    pub fn scan(&self, store: &ProfileStore, git: &GitConfig, vault: &Vault, candidates: &Vec<SshCandidate>) -> (s:
        SystemScan)
        ensures
            s.identity == detect_identity_spec(*git),
            s.ssh_keys@.map_values(|k: DetectedSshKey| key_view(k)) == detected_keys(candidates@),
            s.credentials@.map_values(|c: DetectedCredential| credential_view(c)) == detected_credentials(
                supported_hosts_spec(),
                vault@,
            ),
            s.already_onboarded == (store.settings.onboarded || store.profiles@.len() > 0),
    {
        let already = self.already_onboarded(store);
        scan_system(git, vault, candidates, already)
    }

    /// Import the user's selections, then mark onboarding done. A profile
    /// whose email is taken and a key already tracked are skipped; the first
    /// key whose metadata could not be read fails the flow with that error.
    #[verifier::loop_isolation(false)]
    pub fn apply(
        &self,
        store: &mut ProfileStore,
        ssh: &mut SshStore,
        audit: &mut AuditLog,
        params: ApplyParams,
        metadata: Vec<Result<SshKeyMetadata, AppError>>,
    ) -> (r: Result<(), AppError>)
        requires
            metadata@.len() == params.ssh_paths@.len(),
        ensures
            grew(old(audit).view(), final(audit).view()),
            final(store).active_id == old(store).active_id,
            onboarding_profile_step(old(store).profiles@, final(store).profiles@, params),
            exists|trace: Seq<Seq<SshKey>>|
                {
                    &&& import_trace(trace, params.ssh_paths@, metadata@)
                    &&& trace[0] == old(ssh).keys@
                    &&& #[trigger] trace.last() == final(ssh).keys@
                    &&& if trace.len() == params.ssh_paths@.len() + 1 {
                        r is Ok
                    } else {
                        let j = trace.len() - 1;
                        &&& find_by_path_spec(trace.last(), params.ssh_paths@[j]@) is None
                        &&& metadata@[j] matches Err(e) && !(e is Conflict)
                        &&& r == Err::<(), AppError>(metadata@[j]->Err_0)
                    }
                },
            r is Ok ==> final(store).settings == (crate::profile::AppSettings {
                onboarded: true,
                ..old(store).settings
            }),
            r is Err ==> final(store).settings == old(store).settings,
    {
        proof {
            assert(audit.view().subrange(0, audit.view().len() as int) =~= audit.view());
        }
        let profiles = ProfileService::new();
        if params.create_profile {
            let identity = Identity {
                name: params.name,
                email: params.email,
                signing_key: non_blank_string(&params.signing_key),
            };
            let ghost a0 = audit.view();
            let created = profiles.create(store, audit, params.label, identity, params.color);
            proof {
                if created is Ok {
                    lemma_appended_grew(a0, audit.view(), "profile.create"@, Some(created->Ok_0.id), None);
                } else {
                    assert(audit.view().subrange(0, a0.len() as int) =~= a0);
                }
            }
        }
        let ghost a1 = audit.view();
        assert(grew(old(audit).view(), a1));
        let ghost s1 = *store;
        let svc = SshService::new();
        let paths = params.ssh_paths;
        let n = paths.len();
        let mut metas = metadata;
        let mut rev: Vec<Result<SshKeyMetadata, AppError>> = Vec::new();
        let ghost metas0 = metas@;
        while metas.len() > 0
            invariant
                metas@ == metas0.subrange(0, metas@.len() as int),
                rev@.len() + metas@.len() == metas0.len(),
                forall|t: int|
                    0 <= t < rev@.len() ==> #[trigger] rev@[t] == metas0[metas0.len() - 1 - t],
            decreases metas@.len(),
        {
            let m = metas.pop().unwrap();
            rev.push(m);
        }
        let ghost mut trace: Seq<Seq<SshKey>> = seq![ssh.keys@];
        let mut i: usize = 0;
        assert(audit.view().subrange(0, audit.view().len() as int) =~= audit.view());
        while i < n
            invariant
                n == paths@.len() == metas0.len(),
                i <= n,
                rev@.len() == n - i,
                forall|t: int| 0 <= t < rev@.len() ==> #[trigger] rev@[t] == metas0[n - 1 - t],
                trace.len() == i + 1,
                trace[0] == old(ssh).keys@,
                trace.last() == ssh.keys@,
                import_trace(trace, paths@, metas0),
                grew(a1, audit.view()),
                *store == s1,
            decreases n - i,
        {
            let meta = rev.pop().unwrap();
            assert(meta == metas0[i as int]);
            let path = &paths[i];
            let ghost prev = ssh.keys@;
            let ghost a2 = audit.view();
            proof {
                lemma_path_index_from(prev, path@, 0);
            }
            match svc.import(ssh, audit, path.clone(), None, None, meta) {
                Ok(k) => {
                    proof {
                        lemma_first_index(prev, k.id);
                        assert(ssh.keys@ == upsert(prev, k));
                        lemma_appended_grew(a2, audit.view(), "ssh.import"@, None, Some(path@));
                        lemma_grew_trans(a1, a2, audit.view());
                    }
                },
                Err(AppError::Conflict(_)) => {},
                Err(e) => {
                    proof {
                        assert(find_by_path_spec(trace.last(), paths@[i as int]@) is None);
                        lemma_grew_trans(old(audit).view(), a1, audit.view());
                    }
                    return Err(e);
                },
            }
            proof {
                let next = ssh.keys@;
                assert(import_step(prev, next, paths@[i as int]@, metas0[i as int]));
                let t2 = trace.push(next);
                assert forall|k: int| 0 <= k < t2.len() - 1 implies import_step(
                    #[trigger] t2[k],
                    t2[k + 1],
                    paths@[k]@,
                    metas0[k],
                ) by {
                    if k < i {
                        assert(t2[k] == trace[k] && t2[k + 1] == trace[k + 1]);
                    }
                }
                trace = t2;
            }
            i = i + 1;
        }
        proof {
            lemma_grew_trans(old(audit).view(), a1, audit.view());
        }
        self.mark_onboarded(store);
        Ok(())
    }

    /// Mark onboarding done without importing anything.
    pub fn skip(&self, store: &mut ProfileStore)
        ensures
            final(store).settings == (crate::profile::AppSettings { onboarded: true, ..old(store).settings }),
            final(store).profiles@ == old(store).profiles@,
            final(store).active_id == old(store).active_id,
    {
        self.mark_onboarded(store);
    }

    /// Set the onboarded flag.
    pub fn mark_onboarded(&self, store: &mut ProfileStore)
        ensures
            final(store).settings == (crate::profile::AppSettings { onboarded: true, ..old(store).settings }),
            final(store).profiles@ == old(store).profiles@,
            final(store).active_id == old(store).active_id,
    {
        let mut settings = store.load_settings();
        settings.onboarded = true;
        store.save_settings(settings);
    }
}

} // verus!

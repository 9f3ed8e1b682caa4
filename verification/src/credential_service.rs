//! HTTPS credential management: secrets are parked in per-credential
//! backing slots of the vault and promoted onto Git's canonical (or
//! path-scoped) target when a profile is applied or a repository pinned.
use vstd::prelude::*;

use crate::audit::{AuditEntry, AuditLog, appended, grew, lemma_appended_grew, lemma_grew_trans};
use crate::credential::{
    Credential, CredentialStore, CredentialTxn, Protocol, Vault, VaultSnapshot, backing_target,
    backing_target_spec, canonical_target, canonical_target_spec, entry, find_by_host_spec,
    is_supported_host, is_supported_host_spec, lemma_host_index_from, path_scoped_target,
    path_scoped_target_spec, prior_view, set_entry,
};
use crate::error::{AppError, ErrorKind, err_kind};
use crate::ids::now_millis;
use crate::pin::{hash_pin, pin_hash_accepts, pin_hash_parses, verify_pin};
use crate::profile::ProfileStore;
use crate::table::{Record, find_spec, has_id, lemma_find_after_save, lemma_first_index, upsert, without_id};
use crate::text::{is_blank, is_blank_seq, lower_seq, to_ascii_lowercase, trim, trim_seq};

verus! {

/// Shortest accepted reveal PIN, in bytes.
pub const PIN_MIN_LEN: usize = 4;

/// Longest accepted reveal PIN, in bytes.
pub const PIN_MAX_LEN: usize = 64;

/// The error `check_unique_host` reports: an unknown profile, or a profile
/// that already owns a credential for the host (other than `exclude`).
pub open spec fn unique_host_error(
    items: Seq<Credential>,
    profiles: ProfileStore,
    profile_id: u128,
    host: Seq<char>,
    exclude: Option<u128>,
) -> Option<ErrorKind> {
    if !has_id(profiles.profiles@, profile_id) {
        Some(ErrorKind::NotFound)
    } else {
        match find_by_host_spec(items, profile_id, host) {
            Some(e) => if Some(e.id) != exclude {
                Some(ErrorKind::Conflict)
            } else {
                None
            },
            None => None,
        }
    }
}

/// A host as it is stored: trimmed and lowercased.
pub open spec fn normalized_host(host: Seq<char>) -> Seq<char> {
    lower_seq(trim_seq(host))
}

/// The error `create` reports, checked in order: unsupported host, blank
/// username, blank token, then the owning profile's host uniqueness.
pub open spec fn create_error(
    items: Seq<Credential>,
    profiles: ProfileStore,
    profile_id: Option<u128>,
    host: Seq<char>,
    username: Seq<char>,
    secret: Seq<char>,
) -> Option<ErrorKind> {
    let h = normalized_host(host);
    if !is_supported_host_spec(h) {
        Some(ErrorKind::Validation)
    } else if is_blank_seq(username) {
        Some(ErrorKind::Validation)
    } else if is_blank_seq(secret) {
        Some(ErrorKind::Validation)
    } else {
        match profile_id {
            Some(p) => unique_host_error(items, profiles, p, h, None),
            None => None,
        }
    }
}

/// The backing target of a credential record.
pub open spec fn backing_of(c: Credential) -> Seq<char> {
    backing_target_spec(c.id, c.host@, c.protocol)
}

/// The error `reveal` reports, checked in order: unknown credential, no PIN
/// set, unparseable stored hash, wrong PIN, missing backing secret.
pub open spec fn reveal_error(store: CredentialStore, vault: Vault, id: u128, pin: Seq<char>) -> Option<
    ErrorKind,
> {
    match find_spec(store.items@, id) {
        None => Some(ErrorKind::NotFound),
        Some(c) => match store.pin_spec(id) {
            None => Some(ErrorKind::Validation),
            Some(h) => if !pin_hash_parses(h) {
                Some(ErrorKind::Crypto)
            } else if !pin_hash_accepts(pin, h) {
                Some(ErrorKind::Validation)
            } else if !vault@.contains_key(backing_of(c)) {
                Some(ErrorKind::Credential)
            } else {
                None
            },
        },
    }
}

/// Undo snapshots newest first: the vault contents `rollback` leaves.
pub open spec fn restore_all(m: Map<Seq<char>, (Seq<char>, Seq<char>)>, snaps: Seq<VaultSnapshot>) -> Map<
    Seq<char>,
    (Seq<char>, Seq<char>),
>
    decreases snaps.len(),
{
    if snaps.len() == 0 {
        m
    } else {
        restore_all(
            set_entry(m, snaps.last().target@, prior_view(snaps.last())),
            snaps.drop_last(),
        )
    }
}

/// Restoring a target to the snapshot taken just before a write undoes it.
pub proof fn lemma_set_entry_undoes_insert(
    m: Map<Seq<char>, (Seq<char>, Seq<char>)>,
    t: Seq<char>,
    v: (Seq<char>, Seq<char>),
)
    ensures
        set_entry(m.insert(t, v), t, entry(m, t)) == m,
{
    if m.contains_key(t) {
        assert(m.insert(t, v).insert(t, m[t]) =~= m);
    } else {
        assert(m.insert(t, v).remove(t) =~= m);
    }
}

/// A snapshot as (target, prior contents).
pub open spec fn snap_view(s: VaultSnapshot) -> (Seq<char>, Option<(Seq<char>, Seq<char>)>) {
    (s.target@, prior_view(s))
}

/// The snapshots a promotion pass over `cs` takes, oldest first: each
/// canonical target with what it held just before it was written.
pub open spec fn snapshots_for(m: Map<Seq<char>, (Seq<char>, Seq<char>)>, cs: Seq<Credential>) -> Seq<
    (Seq<char>, Option<(Seq<char>, Seq<char>)>),
>
    decreases cs.len(),
{
    if cs.len() == 0 {
        Seq::empty()
    } else {
        let prev = promote_all(m, cs.drop_last());
        let t = canonical_target_spec(cs.last().host@, cs.last().protocol);
        snapshots_for(m, cs.drop_last()).push((t, entry(prev, t)))
    }
}

/// Undo snapshots given as (target, prior contents), newest first.
pub open spec fn restore_views(
    m: Map<Seq<char>, (Seq<char>, Seq<char>)>,
    snaps: Seq<(Seq<char>, Option<(Seq<char>, Seq<char>)>)>,
) -> Map<Seq<char>, (Seq<char>, Seq<char>)>
    decreases snaps.len(),
{
    if snaps.len() == 0 {
        m
    } else {
        restore_views(set_entry(m, snaps.last().0, snaps.last().1), snaps.drop_last())
    }
}

/// Restoring snapshots depends only on their targets and prior contents.
pub proof fn lemma_restore_all_views(m: Map<Seq<char>, (Seq<char>, Seq<char>)>, snaps: Seq<VaultSnapshot>)
    ensures
        restore_all(m, snaps) == restore_views(m, snaps.map_values(|s: VaultSnapshot| snap_view(s))),
    decreases snaps.len(),
{
    let f = |s: VaultSnapshot| snap_view(s);
    if snaps.len() > 0 {
        let m2 = set_entry(m, snaps.last().target@, prior_view(snaps.last()));
        lemma_restore_all_views(m2, snaps.drop_last());
        assert(snaps.map_values(f).drop_last() =~= snaps.drop_last().map_values(f));
    }
}

/// Rolling back a profile switch restores the vault: promoting a profile's
/// credentials and then restoring, newest first, the snapshots that pass
/// took gives back the vault as it was.
pub proof fn lemma_rollback_restores(m: Map<Seq<char>, (Seq<char>, Seq<char>)>, cs: Seq<Credential>)
    ensures
        restore_views(promote_all(m, cs), snapshots_for(m, cs)) == m,
    decreases cs.len(),
{
    if cs.len() > 0 {
        let prev = promote_all(m, cs.drop_last());
        let c = cs.last();
        let t = canonical_target_spec(c.host@, c.protocol);
        lemma_set_entry_undoes_insert(prev, t, (c.username@, prev[backing_of(c)].1));
        let sn = snapshots_for(m, cs);
        assert(sn.drop_last() == snapshots_for(m, cs.drop_last()));
        lemma_rollback_restores(m, cs.drop_last());
    }
}

/// Setting a PIN makes it the one that reveals the token: after `set_pin`
/// saved credential `c` and a hash for `pin`, revealing `c` with that PIN
/// succeeds while its backing secret is in the vault.
pub proof fn lemma_reveal_after_set_pin(
    before: CredentialStore,
    after: CredentialStore,
    vault: Vault,
    c: Credential,
    pin: Seq<char>,
)
    requires
        after.items@ == upsert(before.items@, c),
        after.pin_spec(c.id) matches Some(h) && pin_hash_parses(h) && pin_hash_accepts(pin, h),
        vault@.contains_key(backing_of(c)),
    ensures
        reveal_error(after, vault, c.id, pin) is None,
{
    lemma_find_after_save(before.items@, c, c.id);
}

/// `c` after being used: same record with a last-used time.
pub open spec fn used(c: Credential, before: Credential) -> bool {
    &&& c.id == before.id
    &&& c.profile_id == before.profile_id
    &&& c.host == before.host
    &&& c.protocol == before.protocol
    &&& c.username == before.username
    &&& c.created_at == before.created_at
    &&& c.updated_at == before.updated_at
    &&& c.has_pin == before.has_pin
    &&& c.last_used is Some
}

/// `c` marked as used at the clock reading `t`.
pub open spec fn stamped(c: Credential, t: i64) -> Credential {
    Credential { last_used: Some(t), ..c }
}

/// The store `s` after each of `cs` is saved back marked as used, at the
/// clock readings `times` (one per credential, in order).
pub open spec fn stamp_all(s: Seq<Credential>, cs: Seq<Credential>, times: Seq<i64>) -> Seq<Credential>
    decreases cs.len(),
{
    if cs.len() == 0 || times.len() == 0 {
        s
    } else {
        upsert(stamp_all(s, cs.drop_last(), times.drop_last()), stamped(cs.last(), times.last()))
    }
}

/// `a1` is `a0` followed by one `credential.switch` entry for each of `cs`,
/// in order, each about `profile_id` and the credential's host.
pub open spec fn switch_logged(a0: Seq<AuditEntry>, a1: Seq<AuditEntry>, profile_id: u128, cs: Seq<Credential>) -> bool {
    &&& a1.len() == a0.len() + cs.len()
    &&& a1.subrange(0, a0.len() as int) == a0
    &&& forall|k: int|
        0 <= k < cs.len() ==> #[trigger] a1[a0.len() + k].records(
            "credential.switch"@,
            Some(profile_id),
            Some(cs[k].host@),
        )
}

proof fn lemma_switch_logged_step(
    a0: Seq<AuditEntry>,
    a1: Seq<AuditEntry>,
    a2: Seq<AuditEntry>,
    profile_id: u128,
    cs: Seq<Credential>,
    k: int,
)
    requires
        0 <= k < cs.len(),
        switch_logged(a0, a1, profile_id, cs.subrange(0, k)),
        appended(a1, a2, "credential.switch"@, Some(profile_id), Some(cs[k].host@)),
    ensures
        switch_logged(a0, a2, profile_id, cs.subrange(0, k + 1)),
{
    let p = cs.subrange(0, k + 1);
    assert(a2.subrange(0, a0.len() as int) =~= a2.subrange(0, a1.len() as int).subrange(0, a0.len() as int));
    assert forall|j: int| 0 <= j < p.len() implies #[trigger] a2[a0.len() + j].records(
        "credential.switch"@,
        Some(profile_id),
        Some(p[j].host@),
    ) by {
        if j < k {
            assert(a2[a0.len() + j] == a2.subrange(0, a1.len() as int)[a0.len() + j]);
            assert(cs.subrange(0, k)[j] == p[j]);
        } else {
            assert(a2[a0.len() + j] == a2.last());
        }
    }
}

/// The credentials a profile owns, in store order.
pub open spec fn owned_by(s: Seq<Credential>, profile_id: u128) -> Seq<Credential> {
    s.filter(|c: Credential| c.profile_id == Some(profile_id))
}

/// The vault after promoting each of `cs` onto its canonical target.
pub open spec fn promote_all(m: Map<Seq<char>, (Seq<char>, Seq<char>)>, cs: Seq<Credential>) -> Map<
    Seq<char>,
    (Seq<char>, Seq<char>),
>
    decreases cs.len(),
{
    if cs.len() == 0 {
        m
    } else {
        let prev = promote_all(m, cs.drop_last());
        let c = cs.last();
        prev.insert(canonical_target_spec(c.host@, c.protocol), (c.username@, prev[backing_of(c)].1))
    }
}

/// Every credential in `cs` has its backing secret, at each step of a promotion pass.
pub open spec fn all_backed(m: Map<Seq<char>, (Seq<char>, Seq<char>)>, cs: Seq<Credential>) -> bool
    decreases cs.len(),
{
    if cs.len() == 0 {
        true
    } else {
        all_backed(m, cs.drop_last()) && promote_all(m, cs.drop_last()).contains_key(
            backing_of(cs.last()),
        )
    }
}

/// Credential management.
pub struct CredentialService {}

impl CredentialService {
    pub fn new() -> (s: Self) {
        CredentialService {  }
    }

    /// Every credential.
    pub fn list(&self, store: &CredentialStore) -> (v: Vec<Credential>)
        ensures
            v@ == store.items@,
    {
        store.load_all()
    }

    /// The credential with that id.
    pub fn get(&self, store: &CredentialStore, id: u128) -> (r: Result<Credential, AppError>)
        ensures
            r is Ok <==> find_spec(store.items@, id) is Some,
            r matches Ok(c) ==> Some(c) == find_spec(store.items@, id),
            r is Err ==> err_kind(r) == Some(ErrorKind::NotFound),
    {
        match store.find(id) {
            Some(c) => Ok(c),
            None => Err(AppError::NotFound(String::from_str("credential not found"))),
        }
    }

    /// Enforce one credential per host per profile.
    pub fn check_unique_host(
        &self,
        store: &CredentialStore,
        profiles: &ProfileStore,
        profile_id: u128,
        host: &str,
        exclude: Option<u128>,
    ) -> (r: Result<(), AppError>)
        ensures
            err_kind(r) == unique_host_error(store.items@, *profiles, profile_id, host@, exclude),
    {
        proof {
            lemma_first_index(profiles.profiles@, profile_id);
        }
        if profiles.find(profile_id).is_none() {
            return Err(AppError::NotFound(String::from_str("profile not found")));
        }
        match store.find_by_host(profile_id, host) {
            Some(existing) => {
                if Some(existing.id) != exclude {
                    let mut msg = String::from_str("this profile already has a credential for ");
                    msg.append(host);
                    return Err(AppError::Conflict(msg));
                }
            },
            None => {},
        }
        Ok(())
    }

    /// Record a credential and park its secret in its backing slot. The
    /// canonical Git target is not touched until a switch or apply.
    pub fn create(
        &self,
        store: &mut CredentialStore,
        vault: &mut Vault,
        profiles: &ProfileStore,
        audit: &mut AuditLog,
        profile_id: Option<u128>,
        host: &str,
        username: String,
        secret: &str,
    ) -> (r: Result<Credential, AppError>)
        ensures
            err_kind(r) == create_error(
                old(store).items@,
                *profiles,
                profile_id,
                host@,
                username@,
                secret@,
            ),
            r is Err ==> final(store).items@ == old(store).items@ && final(vault)@ == old(vault)@
                && final(audit).view() == old(audit).view(),
            r matches Ok(c) ==> {
                &&& c.host@ == normalized_host(host@)
                &&& c.username == username
                &&& c.profile_id == profile_id
                &&& c.protocol == Protocol::Https
                &&& c.last_used is None
                &&& !c.has_pin
                &&& c.created_at == c.updated_at
                &&& !has_id(old(store).items@, c.id)
                &&& final(vault)@ == old(vault)@.insert(backing_of(c), (username@, secret@))
                &&& final(store).items@ == old(store).items@.push(c)
                &&& final(store).pins_view() == old(store).pins_view()
                &&& appended(
                    old(audit).view(),
                    final(audit).view(),
                    "credential.create"@,
                    profile_id,
                    Some(c.host@),
                )
            },
    {
        let trimmed = trim(host);
        let host = to_ascii_lowercase(trimmed.as_str());
        if !is_supported_host(host.as_str()) {
            let mut msg = String::from_str("unsupported host \"");
            msg.append(host.as_str());
            msg.append("\"");
            return Err(AppError::Validation(msg));
        }
        if is_blank(username.as_str()) {
            return Err(AppError::Validation(String::from_str("username is required")));
        }
        if is_blank(secret) {
            return Err(AppError::Validation(String::from_str("token is required")));
        }
        match profile_id {
            Some(pid) => {
                self.check_unique_host(store, profiles, pid, host.as_str(), None)?;
            },
            None => {},
        }
        let protocol = Protocol::Https;
        let id = store.items.fresh_id();
        proof {
            lemma_first_index(store.items@, id);
        }
        let backing = backing_target(id, host.as_str(), protocol);
        vault.store(backing.as_str(), username.as_str(), secret);
        let now = now_millis();
        let credential = Credential {
            id,
            profile_id,
            host: host.clone(),
            protocol,
            username,
            created_at: now,
            updated_at: now,
            last_used: None,
            has_pin: false,
        };
        store.save(credential.duplicate());
        audit.record("credential.create", profile_id, Some(host));
        Ok(credential)
    }

    /// Set (or replace) the reveal PIN. Only its Argon2 hash is stored.
    pub fn set_pin(
        &self,
        store: &mut CredentialStore,
        audit: &mut AuditLog,
        id: u128,
        pin: &str,
    ) -> (r: Result<Credential, AppError>)
        ensures
            (pin.len() < PIN_MIN_LEN || pin.len() > PIN_MAX_LEN) ==> err_kind(r)
                == Some(ErrorKind::Validation),
            (PIN_MIN_LEN <= pin.len() <= PIN_MAX_LEN && find_spec(old(store).items@, id)
                is None) ==> err_kind(r) == Some(ErrorKind::NotFound),
            (PIN_MIN_LEN <= pin.len() <= PIN_MAX_LEN && find_spec(old(store).items@, id)
                is Some) ==> (r is Ok || err_kind(r) == Some(ErrorKind::Crypto)),
            r is Err ==> final(store).items@ == old(store).items@ && final(store).pins_view() == old(store).pins_view() && final(audit).view() == old(audit).view(),
            r matches Ok(c) ==> {
                let before = find_spec(old(store).items@, id)->Some_0;
                &&& c.id == id
                &&& c.has_pin
                &&& c.profile_id == before.profile_id
                &&& c.host == before.host
                &&& c.username == before.username
                &&& c.created_at == before.created_at
                &&& c.last_used == before.last_used
                &&& final(store).items@ == upsert(old(store).items@, c)
                &&& (final(store).pin_spec(id) matches Some(h) && pin_hash_parses(h)
                    && pin_hash_accepts(pin@, h))
                &&& forall|other: u128|
                    other != id ==> final(store).pin_spec(other) == old(store).pin_spec(other)
                &&& appended(
                    old(audit).view(),
                    final(audit).view(),
                    "credential.pin_set"@,
                    c.profile_id,
                    Some(c.host@),
                )
            },
    {
        let len = pin.len();
        if len < PIN_MIN_LEN || len > PIN_MAX_LEN {
            return Err(AppError::Validation(String::from_str("PIN must be between 4 and 64 characters")));
        }
        let mut credential = self.get(store, id)?;
        proof {
            lemma_first_index(store.items@, id);
        }
        let hash = hash_pin(pin)?;
        store.save_pin(id, hash.as_str());
        credential.has_pin = true;
        credential.updated_at = now_millis();
        store.save(credential.duplicate());
        audit.record("credential.pin_set", credential.profile_id, Some(credential.host.clone()));
        Ok(credential)
    }

    /// Read a credential's token back after checking its PIN.
    pub fn reveal_token(
        &self,
        store: &CredentialStore,
        vault: &Vault,
        audit: &mut AuditLog,
        id: u128,
        pin: &str,
    ) -> (r: Result<String, AppError>)
        ensures
            err_kind(r) == reveal_error(*store, *vault, id, pin@),
            r is Err ==> final(audit).view() == old(audit).view(),
            r matches Ok(s) ==> {
                let c = find_spec(store.items@, id)->Some_0;
                &&& s@ == vault@[backing_of(c)].1
                &&& appended(
                    old(audit).view(),
                    final(audit).view(),
                    "credential.reveal"@,
                    c.profile_id,
                    Some(c.host@),
                )
            },
    {
        let credential = self.get(store, id)?;
        let hash = match store.load_pin(id) {
            Some(h) => h,
            None => {
                return Err(AppError::Validation(String::from_str("no PIN is set for this credential")));
            },
        };
        let ok = verify_pin(pin, hash.as_str())?;
        if !ok {
            return Err(AppError::Validation(String::from_str("incorrect PIN")));
        }
        let backing = backing_target(credential.id, credential.host.as_str(), credential.protocol);
        let secret = match vault.reveal_secret(backing.as_str()) {
            Some(s) => s,
            None => {
                return Err(AppError::Credential(String::from_str("backing secret missing")));
            },
        };
        audit.record("credential.reveal", credential.profile_id, Some(credential.host));
        Ok(secret)
    }

    /// Change the username and optionally rotate the token in the backing slot.
    pub fn update(
        &self,
        store: &mut CredentialStore,
        vault: &mut Vault,
        audit: &mut AuditLog,
        id: u128,
        username: String,
        secret: Option<&str>,
    ) -> (r: Result<Credential, AppError>)
        ensures
            err_kind(r) == (if is_blank_seq(username@) {
                Some(ErrorKind::Validation)
            } else if find_spec(old(store).items@, id) is None {
                Some(ErrorKind::NotFound)
            } else if secret matches Some(s) && is_blank_seq(s@) {
                Some(ErrorKind::Validation)
            } else {
                None
            }),
            r is Err ==> final(store).items@ == old(store).items@ && final(vault)@ == old(vault)@
                && final(audit).view() == old(audit).view(),
            r matches Ok(c) ==> {
                let before = find_spec(old(store).items@, id)->Some_0;
                &&& c.id == id
                &&& c.username == username
                &&& c.host == before.host
                &&& c.profile_id == before.profile_id
                &&& c.protocol == before.protocol
                &&& c.created_at == before.created_at
                &&& c.has_pin == before.has_pin
                &&& c.last_used == before.last_used
                &&& final(store).items@ == upsert(old(store).items@, c)
                &&& final(vault)@ == match secret {
                    Some(s) => old(vault)@.insert(backing_of(before), (username@, s@)),
                    None => old(vault)@,
                }
                &&& appended(
                    old(audit).view(),
                    final(audit).view(),
                    "credential.update"@,
                    c.profile_id,
                    Some(c.host@),
                )
            },
    {
        if is_blank(username.as_str()) {
            return Err(AppError::Validation(String::from_str("username is required")));
        }
        let mut credential = self.get(store, id)?;
        proof {
            lemma_first_index(store.items@, id);
        }
        match secret {
            Some(sec) => {
                if is_blank(sec) {
                    return Err(AppError::Validation(String::from_str("token is required")));
                }
                let backing = backing_target(
                    credential.id,
                    credential.host.as_str(),
                    credential.protocol,
                );
                vault.store(backing.as_str(), username.as_str(), sec);
            },
            None => {},
        }
        credential.username = username;
        credential.updated_at = now_millis();
        store.save(credential.duplicate());
        audit.record("credential.update", credential.profile_id, Some(credential.host.clone()));
        Ok(credential)
    }

    /// Assign (or clear) a credential's owning profile.
    pub fn assign_profile(
        &self,
        store: &mut CredentialStore,
        profiles: &ProfileStore,
        audit: &mut AuditLog,
        id: u128,
        profile_id: Option<u128>,
    ) -> (r: Result<Credential, AppError>)
        ensures
            err_kind(r) == match find_spec(old(store).items@, id) {
                None => Some(ErrorKind::NotFound),
                Some(c) => match profile_id {
                    Some(p) => unique_host_error(old(store).items@, *profiles, p, c.host@, Some(id)),
                    None => None,
                },
            },
            r is Err ==> final(store).items@ == old(store).items@ && final(audit).view() == old(audit).view(),
            r matches Ok(c) ==> {
                let before = find_spec(old(store).items@, id)->Some_0;
                &&& c.id == id
                &&& c.profile_id == profile_id
                &&& c.host == before.host
                &&& c.username == before.username
                &&& final(store).items@ == upsert(old(store).items@, c)
                &&& appended(
                    old(audit).view(),
                    final(audit).view(),
                    "credential.assign"@,
                    profile_id,
                    Some(c.host@),
                )
            },
    {
        let mut credential = self.get(store, id)?;
        proof {
            lemma_first_index(store.items@, id);
        }
        match profile_id {
            Some(pid) => {
                self.check_unique_host(store, profiles, pid, credential.host.as_str(), Some(id))?;
            },
            None => {},
        }
        credential.profile_id = profile_id;
        credential.updated_at = now_millis();
        store.save(credential.duplicate());
        audit.record("credential.assign", profile_id, Some(credential.host.clone()));
        Ok(credential)
    }

    /// Remove a credential and its backing secret; refused while a profile
    /// owns it. The canonical Git credential is never deleted.
    pub fn delete(
        &self,
        store: &mut CredentialStore,
        vault: &mut Vault,
        audit: &mut AuditLog,
        id: u128,
    ) -> (r: Result<(), AppError>)
        ensures
            err_kind(r) == match find_spec(old(store).items@, id) {
                None => Some(ErrorKind::NotFound),
                Some(c) => if c.profile_id is Some {
                    Some(ErrorKind::Conflict)
                } else {
                    None
                },
            },
            r is Err ==> final(store).items@ == old(store).items@ && final(vault)@ == old(vault)@
                && final(audit).view() == old(audit).view(),
            r is Ok ==> {
                let c = find_spec(old(store).items@, id)->Some_0;
                &&& final(store).items@ == without_id(old(store).items@, id)
                &&& final(store).pin_spec(id) is None
                &&& final(vault)@ == old(vault)@.remove(backing_of(c))
                &&& appended(
                    old(audit).view(),
                    final(audit).view(),
                    "credential.delete"@,
                    None,
                    Some(c.host@),
                )
            },
    {
        let credential = self.get(store, id)?;
        proof {
            lemma_first_index(store.items@, id);
        }
        if credential.profile_id.is_some() {
            return Err(
                AppError::Conflict(
                    String::from_str("unassign this credential from its profile before deleting it"),
                ),
            );
        }
        let backing = backing_target(credential.id, credential.host.as_str(), credential.protocol);
        vault.delete(backing.as_str());
        let deleted = store.delete(id);
        if deleted.is_err() {
            return Err(AppError::NotFound(String::from_str("credential not found")));
        }
        audit.record("credential.delete", None, Some(credential.host));
        Ok(())
    }

    /// Make one credential the active Git credential for its host.
    pub fn switch(
        &self,
        store: &mut CredentialStore,
        vault: &mut Vault,
        audit: &mut AuditLog,
        id: u128,
    ) -> (r: Result<Credential, AppError>)
        ensures
            err_kind(r) == match find_spec(old(store).items@, id) {
                None => Some(ErrorKind::NotFound),
                Some(c) => if old(vault)@.contains_key(backing_of(c)) {
                    None
                } else {
                    Some(ErrorKind::Credential)
                },
            },
            r is Err ==> final(store).items@ == old(store).items@ && final(vault)@ == old(vault)@
                && final(audit).view() == old(audit).view(),
            r matches Ok(c) ==> {
                let before = find_spec(old(store).items@, id)->Some_0;
                &&& used(c, before)
                &&& final(vault)@ == old(vault)@.insert(
                    canonical_target_spec(c.host@, c.protocol),
                    (c.username@, old(vault)@[backing_of(before)].1),
                )
                &&& final(store).items@ == upsert(old(store).items@, c)
                &&& appended(
                    old(audit).view(),
                    final(audit).view(),
                    "credential.switch"@,
                    c.profile_id,
                    Some(c.host@),
                )
            },
    {
        let mut credential = self.get(store, id)?;
        proof {
            lemma_first_index(store.items@, id);
        }
        self.promote(vault, &credential)?;
        credential.last_used = Some(now_millis());
        store.save(credential.duplicate());
        audit.record("credential.switch", credential.profile_id, Some(credential.host.clone()));
        Ok(credential)
    }

    /// Promote the profile's credential for `host` onto the repository's
    /// path-scoped target. `Ok(false)` when the profile owns none.
    pub fn pin_path(
        &self,
        store: &mut CredentialStore,
        vault: &mut Vault,
        audit: &mut AuditLog,
        profile_id: u128,
        host: &str,
        path: &str,
    ) -> (r: Result<bool, AppError>)
        ensures
            grew(old(audit).view(), final(audit).view()),
            final(store).pins_view() == old(store).pins_view(),
            match find_by_host_spec(old(store).items@, profile_id, host@) {
                None => r == Ok::<bool, AppError>(false) && final(store).items@ == old(store).items@
                    && final(vault)@ == old(vault)@ && final(audit).view() == old(audit).view(),
                Some(c) => if old(vault)@.contains_key(backing_of(c)) {
                    let target = path_scoped_target_spec(c.host@, c.protocol, path@);
                    &&& r == Ok::<bool, AppError>(true)
                    &&& final(vault)@ == old(vault)@.insert(
                        target,
                        (c.username@, old(vault)@[backing_of(c)].1),
                    )
                    &&& exists|u: Credential|
                        used(u, c) && final(store).items@ == #[trigger] upsert(old(store).items@, u)
                    &&& appended(
                        old(audit).view(),
                        final(audit).view(),
                        "credential.pin_path"@,
                        Some(profile_id),
                        Some(target),
                    )
                } else {
                    &&& err_kind(r) == Some(ErrorKind::Credential)
                    &&& final(store).items@ == old(store).items@
                    &&& final(vault)@ == old(vault)@
                    &&& final(audit).view() == old(audit).view()
                },
            },
    {
        proof {
            lemma_host_index_from(store.items@, profile_id, host@, 0);
            assert(audit.view().subrange(0, audit.view().len() as int) =~= audit.view());
        }
        let credential = match store.find_by_host(profile_id, host) {
            Some(c) => c,
            None => {
                return Ok(false);
            },
        };
        let target = path_scoped_target(credential.host.as_str(), credential.protocol, path);
        self.promote_to(vault, &credential, target.as_str())?;
        let mut touched = credential.duplicate();
        touched.last_used = Some(now_millis());
        store.save(touched.duplicate());
        audit.record("credential.pin_path", Some(profile_id), Some(target));
        assert(used(touched, credential));
        Ok(true)
    }

    /// Remove the path-scoped credential for `host`/`path`, returning the
    /// repository to the globally active credential.
    pub fn unpin_path(&self, vault: &mut Vault, audit: &mut AuditLog, host: &str, path: &str) -> (r:
        Result<(), AppError>)
        ensures
            r is Ok,
            grew(old(audit).view(), final(audit).view()),
            final(vault)@ == old(vault)@.remove(
                path_scoped_target_spec(host@, Protocol::Https, path@),
            ),
            appended(
                old(audit).view(),
                final(audit).view(),
                "credential.unpin_path"@,
                None,
                Some(path_scoped_target_spec(host@, Protocol::Https, path@)),
            ),
    {
        let target = path_scoped_target(host, Protocol::Https, path);
        vault.delete(target.as_str());
        audit.record("credential.unpin_path", None, Some(target));
        Ok(())
    }

    /// Promote a credential's backing secret onto `target`, returning the
    /// target's prior contents.
    pub fn promote_to(&self, vault: &mut Vault, credential: &Credential, target: &str) -> (r:
        Result<VaultSnapshot, AppError>)
        ensures
            r is Ok <==> old(vault)@.contains_key(backing_of(*credential)),
            r is Err ==> final(vault)@ == old(vault)@ && err_kind(r) == Some(ErrorKind::Credential),
            r matches Ok(s) ==> {
                &&& final(vault)@ == old(vault)@.insert(
                    target@,
                    (credential.username@, old(vault)@[backing_of(*credential)].1),
                )
                &&& s.target@ == target@
                &&& prior_view(s) == entry(old(vault)@, target@)
            },
    {
        let backing = backing_target(credential.id, credential.host.as_str(), credential.protocol);
        vault.promote(backing.as_str(), target, credential.username.as_str())
    }

    /// Promote a credential onto its canonical target.
    pub fn promote(&self, vault: &mut Vault, credential: &Credential) -> (r: Result<
        VaultSnapshot,
        AppError,
    >)
        ensures
            r is Ok <==> old(vault)@.contains_key(backing_of(*credential)),
            r is Err ==> final(vault)@ == old(vault)@ && err_kind(r) == Some(ErrorKind::Credential),
            r matches Ok(s) ==> {
                let t = canonical_target_spec(credential.host@, credential.protocol);
                &&& final(vault)@ == old(vault)@.insert(
                    t,
                    (credential.username@, old(vault)@[backing_of(*credential)].1),
                )
                &&& s.target@ == t
                &&& prior_view(s) == entry(old(vault)@, t)
            },
    {
        let canonical = canonical_target(credential.host.as_str(), credential.protocol);
        self.promote_to(vault, credential, canonical.as_str())
    }

    /// Promote every credential the profile owns onto its canonical target.
    /// On a failure the promotions already made are rolled back and the
    /// vault is left as it was.
    pub fn switch_profile(
        &self,
        store: &mut CredentialStore,
        vault: &mut Vault,
        audit: &mut AuditLog,
        profile_id: u128,
    ) -> (r: Result<CredentialTxn, AppError>)
        ensures
            r is Ok <==> all_backed(old(vault)@, owned_by(old(store).items@, profile_id)),
            r is Err ==> final(vault)@ == old(vault)@ && err_kind(r) == Some(ErrorKind::Credential),
            grew(old(audit).view(), final(audit).view()),
            final(store).pins_view() == old(store).pins_view(),
            r matches Ok(txn) ==> {
                &&& final(vault)@ == promote_all(old(vault)@, owned_by(old(store).items@, profile_id))
                &&& txn.snapshots@.map_values(|s: VaultSnapshot| snap_view(s)) == snapshots_for(
                    old(vault)@,
                    owned_by(old(store).items@, profile_id),
                )
                &&& txn.snapshots@.len() == owned_by(old(store).items@, profile_id).len()
                &&& restore_all(final(vault)@, txn.snapshots@) == old(vault)@
            },
            r is Ok ==> {
                let cs = owned_by(old(store).items@, profile_id);
                &&& exists|times: Seq<i64>|
                    times.len() == cs.len() && final(store).items@ == #[trigger] stamp_all(
                        old(store).items@,
                        cs,
                        times,
                    )
                &&& switch_logged(old(audit).view(), final(audit).view(), profile_id, cs)
            },
            r is Err ==> {
                let cs = owned_by(old(store).items@, profile_id);
                exists|j: int, times: Seq<i64>|
                    {
                        &&& 0 <= j < cs.len()
                        &&& times.len() == j
                        &&& final(store).items@ == #[trigger] stamp_all(
                            old(store).items@,
                            cs.subrange(0, j),
                            times,
                        )
                        &&& switch_logged(old(audit).view(), final(audit).view(), profile_id, cs.subrange(0, j))
                    }
            },
    {
        let all = store.load_all();
        let mut owned: Vec<Credential> = Vec::new();
        let mut i: usize = 0;
        while i < all.len()
            invariant
                i <= all@.len(),
                all@ == old(store).items@,
                owned@ == owned_by(all@.subrange(0, i as int), profile_id),
            decreases all@.len() - i,
        {
            proof {
                assert(all@.subrange(0, i + 1).drop_last() =~= all@.subrange(0, i as int));
                reveal(Seq::filter);
            }
            if all[i].profile_id == Some(profile_id) {
                owned.push(all[i].duplicate());
            }
            i = i + 1;
        }
        assert(all@.subrange(0, i as int) =~= all@);
        let ghost v0 = vault@;
        let ghost cs = owned@;
        let mut snapshots: Vec<VaultSnapshot> = Vec::new();
        let mut k: usize = 0;
        let ghost mut times: Seq<i64> = Seq::empty();
        assert(audit.view().subrange(0, audit.view().len() as int) =~= audit.view());
        assert(cs.subrange(0, 0) =~= Seq::<Credential>::empty());
        while k < owned.len()
            invariant
                grew(old(audit).view(), audit.view()),
                times.len() == k,
                store.pins_view() == old(store).pins_view(),
                store.items@ == stamp_all(old(store).items@, cs.subrange(0, k as int), times),
                switch_logged(old(audit).view(), audit.view(), profile_id, cs.subrange(0, k as int)),
                cs == owned@,
                v0 == old(vault)@,
                cs == owned_by(old(store).items@, profile_id),
                k <= cs.len(),
                snapshots@.len() == k,
                all_backed(v0, cs.subrange(0, k as int)),
                vault@ == promote_all(v0, cs.subrange(0, k as int)),
                restore_all(vault@, snapshots@) == v0,
                snapshots@.map_values(|s: VaultSnapshot| snap_view(s)) == snapshots_for(
                    v0,
                    cs.subrange(0, k as int),
                ),
            decreases cs.len() - k,
        {
            let credential = &owned[k];
            let ghost before = vault@;
            proof {
                assert(cs.subrange(0, k + 1).drop_last() =~= cs.subrange(0, k as int));
            }
            match self.promote(vault, credential) {
                Ok(snapshot) => {
                    proof {
                        lemma_set_entry_undoes_insert(
                            before,
                            snapshot.target@,
                            (credential.username@, before[backing_of(*credential)].1),
                        );
                        assert(snapshots@.push(snapshot).drop_last() =~= snapshots@);
                        assert(snapshots@.push(snapshot).map_values(|s: VaultSnapshot| snap_view(s))
                            =~= snapshots@.map_values(|s: VaultSnapshot| snap_view(s)).push(
                            snap_view(snapshot),
                        ));
                    }
                    snapshots.push(snapshot);
                },
                Err(e) => {
                    proof {
                        lemma_all_backed_prefix_fails(v0, cs, k as int);
                    }
                    let _ = self.rollback(vault, CredentialTxn { snapshots });
                    assert(store.items@ == stamp_all(old(store).items@, cs.subrange(0, k as int), times));
                    return Err(e);
                },
            }
            let mut touched = credential.duplicate();
            let t = now_millis();
            touched.last_used = Some(t);
            proof {
                assert(touched == stamped(cs[k as int], t));
                assert(cs.subrange(0, k + 1).drop_last() =~= cs.subrange(0, k as int));
                assert(times.push(t).drop_last() =~= times);
            }
            store.save(touched);
            proof {
                times = times.push(t);
            }
            let ghost a0 = audit.view();
            audit.record("credential.switch", Some(profile_id), Some(credential.host.clone()));
            proof {
                lemma_appended_grew(a0, audit.view(), "credential.switch"@, Some(profile_id), Some(credential.host@));
                lemma_grew_trans(old(audit).view(), a0, audit.view());
                lemma_switch_logged_step(old(audit).view(), a0, audit.view(), profile_id, cs, k as int);
            }
            k = k + 1;
        }
        assert(cs.subrange(0, k as int) =~= cs);
        Ok(CredentialTxn { snapshots })
    }

    /// Undo a switch: restore every snapshot, newest first.
    pub fn rollback(&self, vault: &mut Vault, txn: CredentialTxn) -> (r: Result<(), AppError>)
        ensures
            r is Ok,
            final(vault)@ == restore_all(old(vault)@, txn.snapshots@),
    {
        let snaps = txn.snapshots;
        let mut i: usize = snaps.len();
        assert(snaps@.subrange(0, i as int) =~= snaps@);
        while i > 0
            invariant
                i <= snaps@.len(),
                restore_all(old(vault)@, snaps@) == restore_all(vault@, snaps@.subrange(0, i as int)),
            decreases i,
        {
            let ghost before = vault@;
            let _ = vault.restore(&snaps[i - 1]);
            proof {
                let pre = snaps@.subrange(0, i as int);
                assert(pre.drop_last() =~= snaps@.subrange(0, i - 1));
                assert(pre.last() == snaps@[i - 1]);
            }
            i = i - 1;
        }
        assert(snaps@.subrange(0, 0) =~= Seq::<VaultSnapshot>::empty());
        Ok(())
    }
}

/// If a promotion pass stops at step `k` because a backing secret is
/// missing, the whole pass is not fully backed.
proof fn lemma_all_backed_prefix_fails(m: Map<Seq<char>, (Seq<char>, Seq<char>)>, cs: Seq<Credential>, k: int)
    requires
        0 <= k < cs.len(),
        !promote_all(m, cs.subrange(0, k)).contains_key(backing_of(cs[k])),
    ensures
        !all_backed(m, cs),
    decreases cs.len() - k,
{
    if k == cs.len() - 1 {
        assert(cs.drop_last() =~= cs.subrange(0, k));
    } else {
        assert(cs.drop_last().subrange(0, k) =~= cs.subrange(0, k));
        lemma_all_backed_prefix_fails(m, cs.drop_last(), k);
    }
}

} // verus!

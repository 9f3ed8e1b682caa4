//! SSH key management: discovery, import, generation, the one-key-per-profile
//! assignment rule and the managed `~/.ssh/config` block. Reading key files,
//! running the generator and writing the config file are the host's work;
//! their results are passed in.
use vstd::prelude::*;
use crate::audit::{AuditEntry, AuditLog, appended};
use crate::error::{AppError, ErrorKind, err_kind};
use crate::ids::{now_millis, uuid_string};
use crate::profile::{Profile, ProfileStore};
use crate::ssh::{
    path_index_from,
    GenerateParams, GeneratedKey, SshCandidate, SshConfig, SshConfigEntry, SshKey, SshKeyMetadata,
    SshStore, find_by_path_spec, label_from_path, lemma_path_index_from, slug, slug_spec,
};
use crate::table::{Record, find_spec, first_index, has_id, lemma_first_index, upsert, without_id};
use crate::text::{clone_opt_string, concat2, is_blank, is_blank_seq, name_or_path};

verus! {

/// `k` is the key a scan adds for `path`.
pub open spec fn scanned_key(k: SshKey, path: Seq<char>, meta: SshKeyMetadata) -> bool {
    &&& k.label@ == name_or_path(path)
    &&& k.algorithm == meta.algorithm
    &&& k.fingerprint == meta.fingerprint
    &&& k.private_key_path@ == path
    &&& k.public_key_path == meta.public_key_path
    &&& k.comment == meta.comment
    &&& k.assigned_profile_id is None
    &&& k.host_alias is None
    &&& k.host_name is None
    &&& !k.imported
    &&& k.last_used is None
}

/// One scan step: a tracked or unreadable candidate changes nothing, any
/// other is added.
pub open spec fn scan_step(prev: Seq<SshKey>, next: Seq<SshKey>, c: SshCandidate) -> bool {
    if find_by_path_spec(prev, c.path@) is Some || c.metadata is None {
        next == prev
    } else {
        exists|k: SshKey|
            scanned_key(k, c.path@, c.metadata->Some_0) && !has_id(prev, k.id) && next == #[trigger] upsert(prev, k)
    }
}

/// `trace` runs the scan steps for `cands` from `trace[0]` to `trace.last()`.
pub open spec fn scan_trace(trace: Seq<Seq<SshKey>>, cands: Seq<SshCandidate>) -> bool {
    &&& trace.len() == cands.len() + 1
    &&& forall|k: int| 0 <= k < cands.len() ==> scan_step(#[trigger] trace[k], trace[k + 1], cands[k])
}

/// `k` is the key `import` adds.
pub open spec fn imported_key(
    k: SshKey,
    path: Seq<char>,
    meta: SshKeyMetadata,
    host_alias: Option<String>,
    host_name: Option<String>,
) -> bool {
    &&& k.label@ == name_or_path(path)
    &&& k.algorithm == meta.algorithm
    &&& k.fingerprint == meta.fingerprint
    &&& k.private_key_path@ == path
    &&& k.public_key_path == meta.public_key_path
    &&& k.comment == meta.comment
    &&& k.assigned_profile_id is None
    &&& k.host_alias == host_alias
    &&& k.host_name == host_name
    &&& k.imported
    &&& k.last_used is None
}

/// `k` is the key `generate` adds.
pub open spec fn generated_key(k: SshKey, params: GenerateParams, g: GeneratedKey) -> bool {
    &&& k.label == params.label
    &&& k.algorithm == params.algorithm
    &&& k.fingerprint == g.fingerprint
    &&& k.private_key_path == g.private_key_path
    &&& k.public_key_path == Some(g.public_key_path)
    &&& k.comment == g.comment
    &&& k.assigned_profile_id is None
    &&& k.host_alias == params.host_alias
    &&& k.host_name == params.host_name
    &&& !k.imported
    &&& k.last_used is None
}

/// The error `generate` reports before the generator runs.
pub open spec fn params_error(params: GenerateParams) -> Option<ErrorKind> {
    if is_blank_seq(params.label@) {
        Some(ErrorKind::Validation)
    } else if is_blank_seq(params.file_name@) {
        Some(ErrorKind::Validation)
    } else {
        None
    }
}

/// The keys after assigning `id` to `pid`: the key takes `pid`, and any
/// other key that had `pid` loses it (one key per profile).
pub open spec fn reassigned(keys: Seq<SshKey>, id: u128, pid: Option<u128>) -> Seq<SshKey> {
    keys.map_values(
        |k: SshKey|
            if k.id == id {
                SshKey { assigned_profile_id: pid, ..k }
            } else if pid is Some && k.assigned_profile_id == pid {
                SshKey { assigned_profile_id: None, ..k }
            } else {
                k
            },
    )
}

/// The `Host` alias of an assigned key: its own alias when not blank, else
/// the slug of its profile's label (or of its own label when the profile is
/// gone).
pub open spec fn alias_for(k: SshKey, profiles: Seq<Profile>) -> Seq<char> {
    if k.host_alias is Some && !is_blank_seq(k.host_alias->Some_0@) {
        k.host_alias->Some_0@
    } else {
        slug_spec(
            match find_spec(profiles, k.assigned_profile_id->Some_0) {
                Some(p) => p.label@,
                None => k.label@,
            },
        )
    }
}

/// The `HostName` of an assigned key: its own when not blank, else `github.com`.
pub open spec fn host_name_for(k: SshKey) -> Seq<char> {
    if k.host_name is Some && !is_blank_seq(k.host_name->Some_0@) {
        k.host_name->Some_0@
    } else {
        "github.com"@
    }
}

/// An entry as (alias, host name, user, identity file).
pub open spec fn entry_view(e: SshConfigEntry) -> (Seq<char>, Seq<char>, Seq<char>, Seq<char>) {
    (e.host_alias@, e.host_name@, e.user@, e.identity_file@)
}

/// The managed block for `keys`: one entry per assigned key, in order.
pub open spec fn managed_entries(keys: Seq<SshKey>, profiles: Seq<Profile>) -> Seq<
    (Seq<char>, Seq<char>, Seq<char>, Seq<char>),
>
    decreases keys.len(),
{
    if keys.len() == 0 {
        Seq::empty()
    } else {
        let prev = managed_entries(keys.drop_last(), profiles);
        let k = keys.last();
        if k.assigned_profile_id is Some {
            prev.push((alias_for(k, profiles), host_name_for(k), "git"@, k.private_key_path@))
        } else {
            prev
        }
    }
}

/// Whether a key is assigned to a profile.
pub open spec fn is_assigned(k: SshKey) -> bool {
    k.assigned_profile_id is Some
}

/// The managed block has one entry per assigned key, in the keys' order:
/// the identity files of the entries are exactly the private key paths of
/// the assigned keys, so the block is as long as there are assigned keys
/// and every assigned key is reachable through it; each entry logs in as
/// `git`.
pub proof fn lemma_managed_block_lists_assigned_keys(keys: Seq<SshKey>, profiles: Seq<Profile>)
    ensures
        managed_entries(keys, profiles).map_values(|e: (Seq<char>, Seq<char>, Seq<char>, Seq<char>)| e.3)
            == keys.filter(|k: SshKey| is_assigned(k)).map_values(|k: SshKey| k.private_key_path@),
        managed_entries(keys, profiles).len() == keys.filter(|k: SshKey| is_assigned(k)).len(),
        forall|i: int|
            0 <= i < keys.len() && is_assigned(#[trigger] keys[i]) ==> exists|j: int|
                0 <= j < managed_entries(keys, profiles).len() && #[trigger] managed_entries(keys, profiles)[j].3
                    == keys[i].private_key_path@,
        forall|j: int| 0 <= j < managed_entries(keys, profiles).len() ==> #[trigger] managed_entries(keys, profiles)[j].2 == "git"@,
    decreases keys.len(),
{
    reveal(Seq::filter);
    let es = managed_entries(keys, profiles);
    if keys.len() > 0 {
        let p = keys.drop_last();
        let k = keys.last();
        lemma_managed_block_lists_assigned_keys(p, profiles);
        let prev = managed_entries(p, profiles);
        let f = |x: SshKey| is_assigned(x);
        assert(keys.filter(f) == if f(k) { p.filter(f).push(k) } else { p.filter(f) });
        if is_assigned(k) {
            let e = (alias_for(k, profiles), host_name_for(k), "git"@, k.private_key_path@);
            assert(es == prev.push(e));
            assert(es.map_values(|e: (Seq<char>, Seq<char>, Seq<char>, Seq<char>)| e.3) =~= prev.map_values(
                |e: (Seq<char>, Seq<char>, Seq<char>, Seq<char>)| e.3,
            ).push(k.private_key_path@));
            assert(p.filter(f).push(k).map_values(|k: SshKey| k.private_key_path@) =~= p.filter(f).map_values(
                |k: SshKey| k.private_key_path@,
            ).push(k.private_key_path@));
            assert forall|i: int| 0 <= i < keys.len() && is_assigned(#[trigger] keys[i]) implies exists|j: int|
                0 <= j < es.len() && #[trigger] es[j].3 == keys[i].private_key_path@ by {
                if i < p.len() {
                    assert(p[i] == keys[i]);
                    let j = choose|j: int| 0 <= j < prev.len() && #[trigger] prev[j].3 == p[i].private_key_path@;
                    assert(es[j] == prev[j]);
                    assert(es[j].3 == keys[i].private_key_path@);
                } else {
                    assert(keys[i] == k);
                    assert(es[prev.len() as int] == e);
                    assert(es[prev.len() as int].3 == keys[i].private_key_path@);
                }
            }
            assert forall|j: int| 0 <= j < es.len() implies #[trigger] es[j].2 == "git"@ by {
                if j < prev.len() {
                    assert(es[j] == prev[j]);
                }
            }
        } else {
            assert(es == prev);
            assert forall|i: int| 0 <= i < keys.len() && is_assigned(#[trigger] keys[i]) implies exists|j: int|
                0 <= j < es.len() && #[trigger] es[j].3 == keys[i].private_key_path@ by {
                assert(i < p.len());
                assert(p[i] == keys[i]);
            }
        }
    } else {
        assert(keys.filter(|k: SshKey| is_assigned(k)) =~= Seq::<SshKey>::empty());
        assert(es.map_values(|e: (Seq<char>, Seq<char>, Seq<char>, Seq<char>)| e.3) =~= Seq::<Seq<char>>::empty());
    }
}

/// The config holds the managed block for `keys`, and the same raw text.
pub open spec fn config_regenerated(c: SshConfig, before: SshConfig, keys: Seq<SshKey>, profiles: Seq<
    Profile,
>) -> bool {
    &&& c.managed@.map_values(|e: SshConfigEntry| entry_view(e)) == managed_entries(keys, profiles)
    &&& c.raw == before.raw
}

/// `new` is `old` with two entries appended: the config update, then `action`.
pub open spec fn appended_after_config(
    old: Seq<AuditEntry>,
    new: Seq<AuditEntry>,
    action: Seq<char>,
    profile_id: Option<u128>,
    subject: Option<Seq<char>>,
) -> bool {
    &&& new.len() == old.len() + 2
    &&& new.subrange(0, old.len() as int) == old
    &&& new[old.len() as int].records("ssh.config.updated"@, None, None)
    &&& new.last().records(action, profile_id, subject)
}

/// Assigning a key to a profile leaves it the only key assigned to that
/// profile, and every other key keeps or loses its assignment.
pub proof fn lemma_one_key_per_profile(keys: Seq<SshKey>, id: u128, pid: u128)
    ensures
        forall|i: int|
            0 <= i < reassigned(keys, id, Some(pid)).len() && (#[trigger] reassigned(keys, id, Some(pid))[i]).assigned_profile_id
                == Some(pid) ==> reassigned(keys, id, Some(pid))[i].id == id,
        forall|i: int|
            0 <= i < keys.len() && keys[i].id == id ==> (#[trigger] reassigned(keys, id, Some(pid))[i]).assigned_profile_id
                == Some(pid),
        forall|i: int|
            0 <= i < keys.len() && keys[i].id != id ==> (#[trigger] reassigned(keys, id, Some(pid))[i]).assigned_profile_id
                == (if keys[i].assigned_profile_id == Some(pid) {
                None
            } else {
                keys[i].assigned_profile_id
            }),
{
}

/// Whether some key uses the private key file `path`.
pub open spec fn tracks_path(s: Seq<SshKey>, path: Seq<char>) -> bool {
    find_by_path_spec(s, path) is Some
}

/// Every step of the trace keeps the keys or appends one: the ids the scan
/// drew were fresh.
pub open spec fn adds_fresh(t: Seq<Seq<SshKey>>) -> bool {
    forall|k: int| 0 <= k < t.len() - 1 ==> #[trigger] t[k + 1] == t[k] || t[k + 1].len() == t[k].len() + 1
}

/// A scan adds each new key under an id the store did not have.
proof fn lemma_scan_adds_fresh(t: Seq<Seq<SshKey>>, cands: Seq<SshCandidate>)
    requires
        scan_trace(t, cands),
    ensures
        adds_fresh(t),
{
    assert forall|k: int| 0 <= k < t.len() - 1 implies #[trigger] t[k + 1] == t[k] || t[k + 1].len() == t[k].len()
        + 1 by {
        assert(scan_step(t[k], t[k + 1], cands[k]));
        let c = cands[k];
        if !(find_by_path_spec(t[k], c.path@) is Some || c.metadata is None) {
            let x = choose|x: SshKey|
                scanned_key(x, c.path@, c.metadata->Some_0) && !has_id(t[k], x.id) && t[k + 1] == #[trigger] upsert(t[k], x);
            lemma_first_index(t[k], x.id);
        }
    }
}

proof fn lemma_path_index_push(s: Seq<SshKey>, x: SshKey, p: Seq<char>, i: int)
    requires
        0 <= i <= s.len(),
    ensures
        path_index_from(s, p, i) >= 0 ==> path_index_from(s.push(x), p, i) == path_index_from(s, p, i),
        path_index_from(s, p, i) < 0 && x.private_key_path@ == p ==> path_index_from(s.push(x), p, i)
            == s.len(),
    decreases s.len() - i,
{
    if i < s.len() {
        assert(s.push(x)[i] == s[i]);
        lemma_path_index_push(s, x, p, i + 1);
    } else {
        assert(s.push(x)[i] == x);
    }
}

pub proof fn lemma_tracks_push(s: Seq<SshKey>, x: SshKey, p: Seq<char>)
    ensures
        tracks_path(s, p) ==> tracks_path(s.push(x), p),
        x.private_key_path@ == p ==> tracks_path(s.push(x), p),
{
    lemma_path_index_from(s, p, 0);
    lemma_path_index_push(s, x, p, 0);
}

/// After the first `i` steps of a scan with fresh ids, every readable
/// candidate among them is tracked.
proof fn lemma_scan_prefix(t: Seq<Seq<SshKey>>, cands: Seq<SshCandidate>, i: int)
    requires
        scan_trace(t, cands),
        adds_fresh(t),
        0 <= i <= cands.len(),
    ensures
        forall|k: int|
            0 <= k < i && cands[k].metadata is Some ==> tracks_path(t[i], #[trigger] cands[k].path@),
    decreases i,
{
    if i > 0 {
        let j = i - 1;
        lemma_scan_prefix(t, cands, j);
        assert(scan_step(t[j], t[j + 1], cands[j]));
        assert(t[j + 1] == t[j] || t[j + 1].len() == t[j].len() + 1);
        if t[j + 1] == t[j] {
            assert forall|k: int|
                0 <= k < i && cands[k].metadata is Some implies tracks_path(
                t[i],
                #[trigger] cands[k].path@,
            ) by {
                if k == j {
                    if !tracks_path(t[j], cands[j].path@) {
                        let key = choose|key: SshKey|
                            scanned_key(key, cands[j].path@, cands[j].metadata->Some_0) && t[j + 1]
                                == #[trigger] upsert(t[j], key);
                        lemma_first_index(t[j], key.id_of());
                        if first_index(t[j], key.id_of()) < 0 {
                            assert(t[j + 1].len() == t[j].len() + 1);
                        }
                        assert(t[j + 1][first_index(t[j], key.id_of())] == key);
                        assert(find_by_path_spec(t[j + 1], cands[j].path@) is Some) by {
                            lemma_path_index_from(t[j + 1], cands[j].path@, 0);
                            lemma_path_found(t[j + 1], cands[j].path@, first_index(t[j], key.id_of()));
                        }
                    }
                }
            }
        } else {
            let key = choose|key: SshKey|
                scanned_key(key, cands[j].path@, cands[j].metadata->Some_0) && t[j + 1]
                    == #[trigger] upsert(t[j], key);
            lemma_first_index(t[j], key.id_of());
            assert(first_index(t[j], key.id_of()) < 0);
            assert(t[j + 1] == t[j].push(key));
            assert forall|k: int|
                0 <= k < i && cands[k].metadata is Some implies tracks_path(
                t[i],
                #[trigger] cands[k].path@,
            ) by {
                lemma_tracks_push(t[j], key, cands[k].path@);
            }
        }
    }
}

/// A key at position `k` with path `p` makes `p` tracked.
pub proof fn lemma_path_found(s: Seq<SshKey>, p: Seq<char>, k: int)
    requires
        0 <= k < s.len(),
        s[k].private_key_path@ == p,
    ensures
        tracks_path(s, p),
{
    lemma_path_found_from(s, p, k, 0);
}

proof fn lemma_path_found_from(s: Seq<SshKey>, p: Seq<char>, k: int, i: int)
    requires
        0 <= i <= k < s.len(),
        s[k].private_key_path@ == p,
    ensures
        path_index_from(s, p, i) >= 0,
    decreases k - i,
{
    if i < k && s[i].private_key_path@ != p {
        lemma_path_found_from(s, p, k, i + 1);
    }
}

/// `key` was added for one of the first `m` candidates, one that was
/// readable and not tracked in `s0`.
pub open spec fn added_for(s0: Seq<SshKey>, key: SshKey, cands: Seq<SshCandidate>, m: int) -> bool {
    exists|k: int|
        {
            &&& 0 <= k < m
            &&& cands[k].metadata is Some
            &&& !tracks_path(s0, cands[k].path@)
            &&& #[trigger] scanned_key(key, cands[k].path@, cands[k].metadata->Some_0)
        }
}

/// What the first `m` steps of a scan did to the store: the keys it started
/// with are kept in place, and each key after them was added for one of
/// those candidates that was readable and untracked at the start, with a
/// path no other key has and an id no earlier key has.
pub open spec fn scan_added(s0: Seq<SshKey>, s: Seq<SshKey>, cands: Seq<SshCandidate>, m: int) -> bool {
    &&& s0.len() <= s.len()
    &&& s.subrange(0, s0.len() as int) == s0
    &&& forall|j: int| s0.len() <= j < s.len() ==> #[trigger] added_for(s0, s[j], cands, m)
    &&& forall|i: int, j: int|
        0 <= i < j < s.len() && s0.len() <= j ==> #[trigger] s[i].private_key_path@ != #[trigger] s[j].private_key_path@
    &&& forall|j: int| s0.len() <= j < s.len() ==> !has_id(s.subrange(0, j), #[trigger] s[j].id)
}

proof fn lemma_scan_added_upto(t: Seq<Seq<SshKey>>, cands: Seq<SshCandidate>, m: int)
    requires
        scan_trace(t, cands),
        0 <= m <= cands.len(),
    ensures
        scan_added(t[0], t[m], cands, m),
    decreases m,
{
    if m == 0 {
        assert(t[0].subrange(0, t[0].len() as int) =~= t[0]);
    } else {
        let j = m - 1;
        lemma_scan_added_upto(t, cands, j);
        let prev = t[j];
        let next = t[m];
        let s0 = t[0];
        assert(scan_step(prev, next, cands[j]));
        let c = cands[j];
        if find_by_path_spec(prev, c.path@) is Some || c.metadata is None {
            assert(next == prev);
            assert forall|q: int| s0.len() <= q < next.len() implies #[trigger] added_for(s0, next[q], cands, m) by {
                assert(added_for(s0, prev[q], cands, j));
                assert(next[q] == prev[q]);
            }
            assert(scan_added(s0, next, cands, m));
        } else {
            let key = choose|key: SshKey|
                scanned_key(key, c.path@, c.metadata->Some_0) && !has_id(prev, key.id) && next == #[trigger] upsert(prev, key);
            lemma_first_index(prev, key.id);
            assert(next == prev.push(key));
            lemma_path_index_from(prev, c.path@, 0);
            assert(next.subrange(0, s0.len() as int) =~= prev.subrange(0, s0.len() as int));
            if tracks_path(s0, c.path@) {
                lemma_path_index_from(s0, c.path@, 0);
                let x = path_index_from(s0, c.path@, 0);
                assert(prev[x] == s0[x]);
                lemma_path_found(prev, c.path@, x);
            }
            assert forall|q: int| s0.len() <= q < next.len() implies #[trigger] added_for(s0, next[q], cands, m) by {
                if q < prev.len() {
                    assert(added_for(s0, prev[q], cands, j));
                    assert(next[q] == prev[q]);
                } else {
                    assert(next[q] == key);
                    assert(scanned_key(next[q], cands[j].path@, cands[j].metadata->Some_0));
                }
            }
            assert forall|a: int, b: int|
                0 <= a < b < next.len() && s0.len() <= b implies #[trigger] next[a].private_key_path@
                != #[trigger] next[b].private_key_path@ by {
                if b < prev.len() {
                    assert(next[a] == prev[a] && next[b] == prev[b]);
                } else {
                    assert(next[a] == prev[a]);
                    if prev[a].private_key_path@ == c.path@ {
                        lemma_path_found(prev, c.path@, a);
                    }
                }
            }
            assert forall|q: int| s0.len() <= q < next.len() implies !has_id(next.subrange(0, q), #[trigger] next[q].id) by {
                if q < prev.len() {
                    assert(next.subrange(0, q) =~= prev.subrange(0, q));
                    assert(next[q] == prev[q]);
                } else {
                    assert(next.subrange(0, q) =~= prev);
                }
            }
            assert(scan_added(s0, next, cands, m));
        }
    }
}

/// What one scan does, as a whole: the keys the store held are kept in
/// place; every readable candidate ends up tracked; and each key added
/// belongs to a readable candidate that was not tracked before, has that
/// candidate's path, algorithm, fingerprint, public key path and comment,
/// is neither imported nor assigned and is labelled from its path; no two
/// keys share a path that the scan added, and each added key has an id no
/// other key has.
pub proof fn lemma_scan_effect(t: Seq<Seq<SshKey>>, cands: Seq<SshCandidate>)
    requires
        scan_trace(t, cands),
    ensures
        scan_added(t[0], t.last(), cands, cands.len() as int),
        forall|k: int| 0 <= k < cands.len() && cands[k].metadata is Some ==> tracks_path(t.last(), #[trigger] cands[k].path@),
{
    lemma_scan_added_upto(t, cands, cands.len() as int);
    lemma_scan_adds_fresh(t, cands);
    lemma_scan_prefix(t, cands, cands.len() as int);
    assert(t.last() == t[cands.len() as int]);
}

/// Scanning is idempotent: once a scan has run, scanning again with the same
/// candidates changes nothing.
pub proof fn lemma_scan_idempotent(t1: Seq<Seq<SshKey>>, t2: Seq<Seq<SshKey>>, cands: Seq<SshCandidate>)
    requires
        scan_trace(t1, cands),
        scan_trace(t2, cands),
        t2[0] == t1.last(),
    ensures
        t2.last() == t2[0],
{
    lemma_scan_adds_fresh(t1, cands);
    lemma_scan_prefix(t1, cands, cands.len() as int);
    assert forall|k: int| 0 <= k <= cands.len() implies #[trigger] t2[k] == t2[0] by {
        lemma_scan_second(t1, t2, cands, k);
    }
    assert(t2.last() == t2[cands.len() as int]);
}

proof fn lemma_scan_second(t1: Seq<Seq<SshKey>>, t2: Seq<Seq<SshKey>>, cands: Seq<SshCandidate>, k: int)
    requires
        scan_trace(t2, cands),
        t2[0] == t1.last(),
        t1.len() == cands.len() + 1,
        forall|j: int|
            0 <= j < cands.len() && cands[j].metadata is Some ==> tracks_path(
                t1[cands.len() as int],
                #[trigger] cands[j].path@,
            ),
        0 <= k <= cands.len(),
    ensures
        t2[k] == t2[0],
    decreases k,
{
    if k > 0 {
        lemma_scan_second(t1, t2, cands, k - 1);
        assert(scan_step(t2[k - 1], t2[k], cands[k - 1]));
        assert(t1.last() == t1[cands.len() as int]);
    }
}

/// SSH key operations. The stores they act on are passed in.
pub struct SshService {}

impl SshService {
    pub fn new() -> (s: Self) {
        SshService {  }
    }

    pub fn list(&self, store: &SshStore) -> (v: Vec<SshKey>)
        ensures
            v@ == store.keys@,
    {
        store.load_all()
    }

    /// The key with `id`; `NotFound` when there is none.
    pub fn get(&self, store: &SshStore, id: u128) -> (r: Result<SshKey, AppError>)
        ensures
            match find_spec(store.keys@, id) {
                Some(k) => r == Ok::<SshKey, AppError>(k),
                None => err_kind(r) == Some(ErrorKind::NotFound),
            },
    {
        match store.find(id) {
            Some(k) => Ok(k),
            None => Err(AppError::NotFound(concat2("ssh key ", uuid_string(id).as_str()))),
        }
    }

    /// Add the keys a scan of the SSH directory found that are not tracked
    /// yet; candidates whose metadata could not be read are skipped. Returns
    /// every tracked key.
    pub fn scan(&self, store: &mut SshStore, candidates: Vec<SshCandidate>) -> (v: Vec<SshKey>)
        ensures
            exists|trace: Seq<Seq<SshKey>>|
                scan_trace(trace, candidates@) && trace[0] == old(store).keys@ && #[trigger] trace.last()
                    == final(store).keys@,
            v@ == final(store).keys@,
    {
        let ghost mut trace: Seq<Seq<SshKey>> = seq![store.keys@];
        let n = candidates.len();
        let mut i: usize = 0;
        while i < n
            invariant
                n == candidates@.len(),
                i <= n,
                trace.len() == i + 1,
                trace[0] == old(store).keys@,
                trace.last() == store.keys@,
                forall|k: int| 0 <= k < i ==> scan_step(#[trigger] trace[k], trace[k + 1], candidates@[k]),
            decreases n - i,
        {
            let c = &candidates[i];
            let ghost prev = store.keys@;
            proof {
                lemma_path_index_from(prev, c.path@, 0);
            }
            if store.find_by_path(c.path.as_str()).is_none() {
                match &c.metadata {
                    Some(meta) => {
                        let id = store.keys.fresh_id();
                        let key = SshKey {
                            id,
                            label: label_from_path(c.path.as_str()),
                            algorithm: meta.algorithm,
                            fingerprint: meta.fingerprint.clone(),
                            private_key_path: c.path.clone(),
                            public_key_path: clone_opt_string(&meta.public_key_path),
                            comment: clone_opt_string(&meta.comment),
                            assigned_profile_id: None,
                            host_alias: None,
                            host_name: None,
                            created_at: now_millis(),
                            imported: false,
                            last_used: None,
                        };
                        let ghost k = key;
                        store.save(key);
                        assert(scanned_key(k, c.path@, c.metadata->Some_0));
                    },
                    None => {},
                }
            }
            proof {
                let next = store.keys@;
                assert(scan_step(prev, next, candidates@[i as int]));
                let t2 = trace.push(next);
                assert forall|k: int| 0 <= k < i + 1 implies scan_step(
                    #[trigger] t2[k],
                    t2[k + 1],
                    candidates@[k],
                ) by {
                    if k < i {
                        assert(t2[k] == trace[k] && t2[k + 1] == trace[k + 1]);
                    }
                }
                trace = t2;
            }
            i = i + 1;
        }
        store.load_all()
    }

    /// Track a key file chosen by the user. `Conflict` when it is already
    /// tracked; otherwise the error of reading it, if reading failed.
    pub fn import(
        &self,
        store: &mut SshStore,
        audit: &mut AuditLog,
        private_key_path: String,
        host_alias: Option<String>,
        host_name: Option<String>,
        metadata: Result<SshKeyMetadata, AppError>,
    ) -> (r: Result<SshKey, AppError>)
        ensures
            find_by_path_spec(old(store).keys@, private_key_path@) is Some ==> err_kind(r) == Some(
                ErrorKind::Conflict,
            ),
            find_by_path_spec(old(store).keys@, private_key_path@) is None ==> match metadata {
                Err(e) => r == Err::<SshKey, AppError>(e),
                Ok(meta) => r is Ok,
            },
            r is Err ==> final(store).keys@ == old(store).keys@ && final(audit).view() == old(
                audit,
            ).view(),
            r matches Ok(k) ==> {
                &&& imported_key(k, private_key_path@, metadata->Ok_0, host_alias, host_name)
                &&& !has_id(old(store).keys@, k.id)
                &&& final(store).keys@ == old(store).keys@.push(k)
                &&& appended(
                    old(audit).view(),
                    final(audit).view(),
                    "ssh.import"@,
                    None,
                    Some(private_key_path@),
                )
            },
    {
        if store.find_by_path(private_key_path.as_str()).is_some() {
            return Err(AppError::Conflict(String::from_str("this key is already imported")));
        }
        let meta = metadata?;
        let id = store.keys.fresh_id();
        proof {
            lemma_first_index(store.keys@, id);
        }
        let key = SshKey {
            id,
            label: label_from_path(private_key_path.as_str()),
            algorithm: meta.algorithm,
            fingerprint: meta.fingerprint,
            private_key_path: private_key_path.clone(),
            public_key_path: meta.public_key_path,
            comment: meta.comment,
            assigned_profile_id: None,
            host_alias,
            host_name,
            created_at: now_millis(),
            imported: true,
            last_used: None,
        };
        store.save(key.duplicate());
        audit.record("ssh.import", None, Some(private_key_path));
        Ok(key)
    }

    /// Check the parameters of a key generation before the generator runs.
    pub fn check_generate_params(&self, params: &GenerateParams) -> (r: Result<(), AppError>)
        ensures
            err_kind(r) == params_error(*params),
    {
        if is_blank(params.label.as_str()) {
            return Err(AppError::Validation(String::from_str("label is required")));
        }
        if is_blank(params.file_name.as_str()) {
            return Err(AppError::Validation(String::from_str("file name is required")));
        }
        Ok(())
    }

    /// Track a newly generated key pair. `Validation` for a blank label or
    /// file name; otherwise the generator's error, if it failed.
    pub fn generate(
        &self,
        store: &mut SshStore,
        audit: &mut AuditLog,
        params: GenerateParams,
        generated: Result<GeneratedKey, AppError>,
    ) -> (r: Result<SshKey, AppError>)
        ensures
            params_error(params) is Some ==> err_kind(r) == params_error(params),
            params_error(params) is None ==> match generated {
                Err(e) => r == Err::<SshKey, AppError>(e),
                Ok(g) => r is Ok,
            },
            r is Err ==> final(store).keys@ == old(store).keys@ && final(audit).view() == old(
                audit,
            ).view(),
            r matches Ok(k) ==> {
                &&& generated_key(k, params, generated->Ok_0)
                &&& !has_id(old(store).keys@, k.id)
                &&& final(store).keys@ == old(store).keys@.push(k)
                &&& appended(
                    old(audit).view(),
                    final(audit).view(),
                    "ssh.generate"@,
                    None,
                    Some(k.private_key_path@),
                )
            },
    {
        self.check_generate_params(&params)?;
        let g = generated?;
        let id = store.keys.fresh_id();
        proof {
            lemma_first_index(store.keys@, id);
        }
        let key = SshKey {
            id,
            label: params.label,
            algorithm: params.algorithm,
            fingerprint: g.fingerprint,
            private_key_path: g.private_key_path.clone(),
            public_key_path: Some(g.public_key_path),
            comment: g.comment,
            assigned_profile_id: None,
            host_alias: params.host_alias,
            host_name: params.host_name,
            created_at: now_millis(),
            imported: false,
            last_used: None,
        };
        store.save(key.duplicate());
        audit.record("ssh.generate", None, Some(g.private_key_path));
        Ok(key)
    }

    /// Rebuild the managed block of `~/.ssh/config` from every assigned key.
    pub fn regenerate_config(
        &self,
        store: &SshStore,
        profiles: &ProfileStore,
        config: &mut SshConfig,
        audit: &mut AuditLog,
    )
        ensures
            config_regenerated(*final(config), *old(config), store.keys@, profiles.profiles@),
            final(config).managed@.len() == store.keys@.filter(|k: SshKey| is_assigned(k)).len(),
            final(config).managed@.map_values(|e: SshConfigEntry| e.identity_file@) == store.keys@.filter(
                |k: SshKey| is_assigned(k),
            ).map_values(|k: SshKey| k.private_key_path@),
            appended(old(audit).view(), final(audit).view(), "ssh.config.updated"@, None, None),
    {
        let keys = store.load_all();
        let mut entries: Vec<SshConfigEntry> = Vec::new();
        let mut i: usize = 0;
        while i < keys.len()
            invariant
                i <= keys@.len(),
                keys@ == store.keys@,
                entries@.map_values(|e: SshConfigEntry| entry_view(e)) == managed_entries(
                    keys@.subrange(0, i as int),
                    profiles.profiles@,
                ),
            decreases keys@.len() - i,
        {
            let key = &keys[i];
            proof {
                assert(keys@.subrange(0, i + 1).drop_last() =~= keys@.subrange(0, i as int));
            }
            match key.assigned_profile_id {
                Some(pid) => {
                    let custom_alias = match &key.host_alias {
                        Some(a) => !is_blank(a.as_str()),
                        None => false,
                    };
                    let host_alias = if custom_alias {
                        clone_opt_string(&key.host_alias).unwrap()
                    } else {
                        proof {
                            lemma_first_index(profiles.profiles@, pid);
                        }
                        let label = match profiles.find(pid) {
                            Some(p) => p.label,
                            None => key.label.clone(),
                        };
                        slug(label.as_str())
                    };
                    let custom_name = match &key.host_name {
                        Some(h) => !is_blank(h.as_str()),
                        None => false,
                    };
                    let host_name = if custom_name {
                        clone_opt_string(&key.host_name).unwrap()
                    } else {
                        String::from_str("github.com")
                    };
                    let e = SshConfigEntry {
                        host_alias,
                        host_name,
                        user: String::from_str("git"),
                        identity_file: key.private_key_path.clone(),
                    };
                    let ghost before = entries@;
                    entries.push(e);
                    proof {
                        assert(entries@.map_values(|e: SshConfigEntry| entry_view(e)) =~= before.map_values(
                            |e: SshConfigEntry| entry_view(e),
                        ).push(entry_view(e)));
                    }
                },
                None => {},
            }
            i = i + 1;
        }
        assert(keys@.subrange(0, i as int) =~= keys@);
        proof {
            lemma_managed_block_lists_assigned_keys(store.keys@, profiles.profiles@);
            let ev = entries@.map_values(|e: SshConfigEntry| entry_view(e));
            assert(entries@.map_values(|e: SshConfigEntry| e.identity_file@) =~= ev.map_values(
                |e: (Seq<char>, Seq<char>, Seq<char>, Seq<char>)| e.3,
            ));
        }
        config.managed = entries;
        audit.record("ssh.config.updated", None, None);
    }

    /// Assign a key to a profile (or clear it with `None`). One key per
    /// profile: any other key assigned to the profile loses it. The managed
    /// config block is rebuilt.
    pub fn assign_profile(
        &self,
        store: &mut SshStore,
        profiles: &ProfileStore,
        config: &mut SshConfig,
        audit: &mut AuditLog,
        id: u128,
        profile_id: Option<u128>,
    ) -> (r: Result<SshKey, AppError>)
        ensures
            err_kind(r) == if !has_id(old(store).keys@, id) {
                Some(ErrorKind::NotFound)
            } else if profile_id matches Some(p) && !has_id(profiles.profiles@, p) {
                Some(ErrorKind::NotFound)
            } else {
                None
            },
            r is Err ==> final(store).keys@ == old(store).keys@ && *final(config) == *old(config)
                && final(audit).view() == old(audit).view(),
            r matches Ok(k) ==> {
                &&& k == (SshKey {
                    assigned_profile_id: profile_id,
                    ..find_spec(old(store).keys@, id)->Some_0
                })
                &&& final(store).keys@ == reassigned(old(store).keys@, id, profile_id)
                &&& config_regenerated(*final(config), *old(config), final(store).keys@, profiles.profiles@)
                &&& appended_after_config(
                    old(audit).view(),
                    final(audit).view(),
                    "ssh.assign"@,
                    profile_id,
                    Some(k.private_key_path@),
                )
            },
    {
        proof {
            lemma_first_index(store.keys@, id);
        }
        let mut key = self.get(store, id)?;
        if let Some(pid) = profile_id {
            proof {
                lemma_first_index(profiles.profiles@, pid);
            }
            if profiles.find(pid).is_none() {
                return Err(AppError::NotFound(concat2("profile ", uuid_string(pid).as_str())));
            }
        }
        let all = store.load_all();
        let mut out: Vec<SshKey> = Vec::new();
        let mut i: usize = 0;
        while i < all.len()
            invariant
                i <= all@.len(),
                all@ == old(store).keys@,
                out@ == reassigned(all@, id, profile_id).subrange(0, i as int),
            decreases all@.len() - i,
        {
            let mut k = all[i].duplicate();
            if k.id == id {
                k.assigned_profile_id = profile_id;
            } else if profile_id.is_some() && k.assigned_profile_id == profile_id {
                k.assigned_profile_id = None;
            }
            out.push(k);
            i = i + 1;
            assert(out@ =~= reassigned(all@, id, profile_id).subrange(0, i as int));
        }
        assert(out@ =~= reassigned(all@, id, profile_id));
        store.keys.save_all(out);
        key.assigned_profile_id = profile_id;
        let ghost a0 = audit.view();
        self.regenerate_config(store, profiles, config, audit);
        let ghost a1 = audit.view();
        audit.record("ssh.assign", profile_id, Some(key.private_key_path.clone()));
        proof {
            assert(audit.view().subrange(0, a0.len() as int) =~= a1.subrange(0, a0.len() as int));
            assert(audit.view()[a0.len() as int] == a1.last());
        }
        Ok(key)
    }

    /// Stop tracking a key (the key file is never deleted). `Conflict` while
    /// it is assigned to a profile.
    pub fn remove(
        &self,
        store: &mut SshStore,
        profiles: &ProfileStore,
        config: &mut SshConfig,
        audit: &mut AuditLog,
        id: u128,
    ) -> (r: Result<(), AppError>)
        ensures
            err_kind(r) == match find_spec(old(store).keys@, id) {
                None => Some(ErrorKind::NotFound),
                Some(k) => if k.assigned_profile_id is Some {
                    Some(ErrorKind::Conflict)
                } else {
                    None
                },
            },
            r is Err ==> final(store).keys@ == old(store).keys@ && *final(config) == *old(config)
                && final(audit).view() == old(audit).view(),
            r is Ok ==> {
                &&& final(store).keys@ == without_id(old(store).keys@, id)
                &&& config_regenerated(*final(config), *old(config), final(store).keys@, profiles.profiles@)
                &&& appended_after_config(
                    old(audit).view(),
                    final(audit).view(),
                    "ssh.remove"@,
                    None,
                    Some(find_spec(old(store).keys@, id)->Some_0.private_key_path@),
                )
            },
    {
        proof {
            lemma_first_index(store.keys@, id);
        }
        let key = self.get(store, id)?;
        if key.assigned_profile_id.is_some() {
            return Err(
                AppError::Conflict(
                    String::from_str("unassign this key from its profile before removing it"),
                ),
            );
        }
        let deleted = store.delete(id);
        if deleted.is_err() {
            return Err(AppError::NotFound(String::from_str("ssh key not found")));
        }
        let ghost a0 = audit.view();
        self.regenerate_config(store, profiles, config, audit);
        let ghost a1 = audit.view();
        audit.record("ssh.remove", None, Some(key.private_key_path));
        proof {
            assert(audit.view().subrange(0, a0.len() as int) =~= a1.subrange(0, a0.len() as int));
            assert(audit.view()[a0.len() as int] == a1.last());
        }
        Ok(())
    }

    /// Record that a key was used now, and return it.
    pub fn mark_used(&self, store: &mut SshStore, id: u128) -> (r: Result<SshKey, AppError>)
        ensures
            match find_spec(old(store).keys@, id) {
                None => err_kind(r) == Some(ErrorKind::NotFound) && final(store).keys@ == old(
                    store,
                ).keys@,
                Some(before) => r matches Ok(k) && k.last_used is Some && k == (SshKey {
                    last_used: k.last_used,
                    ..before
                }) && final(store).keys@ == upsert(old(store).keys@, k),
            },
    {
        let mut key = self.get(store, id)?;
        key.last_used = Some(now_millis());
        store.save(key.duplicate());
        Ok(key)
    }

    /// The raw text of `~/.ssh/config` as last read.
    pub fn config_preview(&self, config: &SshConfig) -> (r: String)
        ensures
            r@ == config.raw@,
    {
        config.raw.clone()
    }
}

} // verus!

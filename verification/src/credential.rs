//! HTTPS credentials: metadata records, the vault slots that hold the
//! secrets, and the naming of vault targets.
use vstd::prelude::*;
use crate::error::AppError;
use crate::ids::{uuid_string, uuid_text};
use crate::table::{Record, Table, find_spec, has_id, upsert, without_id};
use crate::text::{str_eq, trim_char_range, trim_char_seq};

pub use crate::remote::{https_remote, pair_view, parse_https_remote};

verus! {

/// The transport a credential authenticates.
#[derive(Debug, Clone, Copy, PartialEq, Eq, Structural)]
pub enum Protocol {
    Https,
}

pub open spec fn scheme_of(p: Protocol) -> Seq<char> {
    match p {
        Protocol::Https => "https"@,
    }
}

impl Protocol {
    /// The URL scheme.
    pub fn scheme(&self) -> (r: &'static str)
        ensures
            r@ == scheme_of(*self),
    {
        match self {
            Protocol::Https => "https",
        }
    }
}

/// The hosts whose HTTPS credentials the application manages.
pub open spec fn supported_hosts_spec() -> Seq<Seq<char>> {
    seq!["github.com"@, "gitlab.com"@, "bitbucket.org"@]
}

/// The supported hosts, in display order.
pub fn supported_hosts() -> (v: Vec<&'static str>)
    ensures
        v@.len() == supported_hosts_spec().len(),
        forall|i: int| 0 <= i < v@.len() ==> #[trigger] v@[i]@ == supported_hosts_spec()[i],
{
    let v = vec!["github.com", "gitlab.com", "bitbucket.org"];
    assert(v@[0]@ == supported_hosts_spec()[0]);
    assert(v@[1]@ == supported_hosts_spec()[1]);
    assert(v@[2]@ == supported_hosts_spec()[2]);
    v
}

pub open spec fn is_supported_host_spec(host: Seq<char>) -> bool {
    supported_hosts_spec().contains(host)
}

/// Whether `host` (already normalised) is a supported host.
pub fn is_supported_host(host: &str) -> (r: bool)
    ensures
        r == is_supported_host_spec(host@),
{
    let hosts = supported_hosts();
    let mut i: usize = 0;
    while i < hosts.len()
        invariant
            i <= hosts@.len(),
            hosts@.len() == supported_hosts_spec().len(),
            forall|k: int| 0 <= k < hosts@.len() ==> #[trigger] hosts@[k]@ == supported_hosts_spec()[k],
            forall|k: int| 0 <= k < i ==> supported_hosts_spec()[k] != host@,
        decreases hosts@.len() - i,
    {
        if str_eq(hosts[i], host) {
            assert(supported_hosts_spec()[i as int] == host@);
            return true;
        }
        i = i + 1;
    }
    false
}

/// `git:<scheme>://<host>`: the target Git's credential helpers look up.
pub open spec fn canonical_target_spec(host: Seq<char>, p: Protocol) -> Seq<char> {
    "git:"@ + scheme_of(p) + "://"@ + host
}

/// `git:<scheme>://<host>/<path>` with the path's leading and trailing `/`
/// dropped: the target Git uses when `useHttpPath` is on.
pub open spec fn path_scoped_target_spec(host: Seq<char>, p: Protocol, path: Seq<char>) -> Seq<
    char,
> {
    "git:"@ + scheme_of(p) + "://"@ + host + "/"@ + trim_char_seq(path, '/')
}

/// `gitpersona:<id>:<scheme>://<host>`: where a credential's secret is
/// parked until its profile is applied.
pub open spec fn backing_target_spec(id: u128, host: Seq<char>, p: Protocol) -> Seq<char> {
    "gitpersona:"@ + uuid_text(id) + ":"@ + scheme_of(p) + "://"@ + host
}

/// The canonical, Git-readable vault target for a host.
pub fn canonical_target(host: &str, protocol: Protocol) -> (r: String)
    ensures
        r@ == canonical_target_spec(host@, protocol),
{
    let mut s = String::from_str("git:");
    s.append(protocol.scheme());
    s.append("://");
    s.append(host);
    s
}

/// The path-scoped vault target for a repository's remote path.
pub fn path_scoped_target(host: &str, protocol: Protocol, path: &str) -> (r: String)
    ensures
        r@ == path_scoped_target_spec(host@, protocol, path@),
{
    let n = path.unicode_len();
    let trimmed = trim_char_range(path, '/', 0, n);
    assert(path@.subrange(0, n as int) =~= path@);
    let mut s = String::from_str("git:");
    s.append(protocol.scheme());
    s.append("://");
    s.append(host);
    s.append("/");
    s.append(trimmed.as_str());
    s
}

/// The backing target for a credential.
pub fn backing_target(id: u128, host: &str, protocol: Protocol) -> (r: String)
    ensures
        r@ == backing_target_spec(id, host@, protocol),
{
    let mut s = String::from_str("gitpersona:");
    let idtext = uuid_string(id);
    s.append(idtext.as_str());
    s.append(":");
    s.append(protocol.scheme());
    s.append("://");
    s.append(host);
    s
}

/// Metadata about one HTTPS credential. The secret itself lives only in
/// the vault.
#[derive(Debug, Clone)]
pub struct Credential {
    pub id: u128,
    pub profile_id: Option<u128>,
    pub host: String,
    pub protocol: Protocol,
    pub username: String,
    pub created_at: i64,
    pub updated_at: i64,
    pub last_used: Option<i64>,
    pub has_pin: bool,
}

impl Record for Credential {
    open spec fn id_of(&self) -> u128 {
        self.id
    }

    fn id(&self) -> (r: u128) {
        self.id
    }

    fn duplicate(&self) -> (r: Self) {
        Credential {
            id: self.id,
            profile_id: self.profile_id,
            host: self.host.clone(),
            protocol: self.protocol,
            username: self.username.clone(),
            created_at: self.created_at,
            updated_at: self.updated_at,
            last_used: self.last_used,
            has_pin: self.has_pin,
        }
    }
}

/// A stored PIN hash for a credential.
#[derive(Debug, Clone)]
pub struct PinEntry {
    pub id: u128,
    pub hash: String,
}

/// The first credential of `profile_id` for `host`, from position `i` on.
pub open spec fn host_index_from(s: Seq<Credential>, profile_id: u128, host: Seq<char>, i: int) -> int
    decreases s.len() - i,
{
    if i < 0 || i >= s.len() {
        -1
    } else if s[i].profile_id == Some(profile_id) && s[i].host@ == host {
        i
    } else {
        host_index_from(s, profile_id, host, i + 1)
    }
}

/// The credential `profile_id` owns for `host`.
pub open spec fn find_by_host_spec(s: Seq<Credential>, profile_id: u128, host: Seq<char>) -> Option<
    Credential,
> {
    let k = host_index_from(s, profile_id, host, 0);
    if k >= 0 {
        Some(s[k])
    } else {
        None
    }
}

pub proof fn lemma_host_index_from(s: Seq<Credential>, profile_id: u128, host: Seq<char>, i: int)
    requires
        0 <= i <= s.len(),
    ensures
        -1 <= host_index_from(s, profile_id, host, i) < s.len(),
        host_index_from(s, profile_id, host, i) >= 0 ==> s[host_index_from(
            s,
            profile_id,
            host,
            i,
        )].profile_id == Some(profile_id) && s[host_index_from(s, profile_id, host, i)].host@
            == host,
    decreases s.len() - i,
{
    if i < s.len() && !(s[i].profile_id == Some(profile_id) && s[i].host@ == host) {
        lemma_host_index_from(s, profile_id, host, i + 1);
    }
}

/// Looking a credential up by profile and host finds one exactly when the
/// store holds a credential of that profile for that host, and then the
/// first such: credentials of other profiles for the same host, and of the
/// same profile for other hosts, never hide it.
pub proof fn lemma_find_by_host_exact(s: Seq<Credential>, profile_id: u128, host: Seq<char>)
    ensures
        find_by_host_spec(s, profile_id, host) is None <==> forall|i: int|
            0 <= i < s.len() ==> !(#[trigger] s[i].profile_id == Some(profile_id) && s[i].host@ == host),
        find_by_host_spec(s, profile_id, host) matches Some(c) ==> exists|i: int|
            {
                &&& 0 <= i < s.len()
                &&& #[trigger] s[i] == c
                &&& c.profile_id == Some(profile_id)
                &&& c.host@ == host
                &&& forall|j: int| 0 <= j < i ==> !(#[trigger] s[j].profile_id == Some(profile_id) && s[j].host@ == host)
            },
{
    lemma_host_index_from(s, profile_id, host, 0);
    lemma_host_index_first(s, profile_id, host, 0);
    let k = host_index_from(s, profile_id, host, 0);
    if k >= 0 {
        assert(s[k].profile_id == Some(profile_id) && s[k].host@ == host);
    }
}

proof fn lemma_host_index_first(s: Seq<Credential>, profile_id: u128, host: Seq<char>, i: int)
    requires
        0 <= i <= s.len(),
    ensures
        forall|j: int|
            i <= j < s.len() && (host_index_from(s, profile_id, host, i) < 0 || j < host_index_from(s, profile_id, host, i))
                ==> !(#[trigger] s[j].profile_id == Some(profile_id) && s[j].host@ == host),
    decreases s.len() - i,
{
    if i < s.len() && !(s[i].profile_id == Some(profile_id) && s[i].host@ == host) {
        lemma_host_index_first(s, profile_id, host, i + 1);
    }
}

/// The first PIN hash stored for `id`.
pub open spec fn pin_of(s: Seq<PinEntry>, id: u128) -> Option<Seq<char>>
    decreases s.len(),
{
    if s.len() == 0 {
        None
    } else if s[0].id == id {
        Some(s[0].hash@)
    } else {
        pin_of(s.drop_first(), id)
    }
}

/// Credential metadata and PIN hashes.
pub struct CredentialStore {
    pub items: Table<Credential>,
    pub pins: Vec<PinEntry>,
}

impl CredentialStore {
    pub closed spec fn pins_view(&self) -> Seq<PinEntry> {
        self.pins@
    }

    /// The stored PIN hash of a credential.
    pub open spec fn pin_spec(&self, id: u128) -> Option<Seq<char>> {
        pin_of(self.pins_view(), id)
    }

    pub fn new() -> (s: Self)
        ensures
            s.items@ == Seq::<Credential>::empty(),
            forall|id: u128| s.pin_spec(id) is None,
    {
        CredentialStore { items: Table::new(), pins: Vec::new() }
    }

    pub fn load_all(&self) -> (v: Vec<Credential>)
        ensures
            v@ == self.items@,
    {
        self.items.load_all()
    }

    pub fn find(&self, id: u128) -> (r: Option<Credential>)
        ensures
            r == find_spec(self.items@, id),
    {
        self.items.find(id)
    }

    /// The credential `profile_id` owns for `host`.
    pub fn find_by_host(&self, profile_id: u128, host: &str) -> (r: Option<Credential>)
        ensures
            r == find_by_host_spec(self.items@, profile_id, host@),
    {
        let mut i: usize = 0;
        while i < self.items.len()
            invariant
                i <= self.items@.len(),
                host_index_from(self.items@, profile_id, host@, 0) == host_index_from(
                    self.items@,
                    profile_id,
                    host@,
                    i as int,
                ),
            decreases self.items@.len() - i,
        {
            let c = self.items.at(i);
            if c.profile_id == Some(profile_id) && str_eq(c.host.as_str(), host) {
                return Some(c.duplicate());
            }
            i = i + 1;
        }
        None
    }

    pub fn save(&mut self, credential: Credential)
        ensures
            final(self).items@ == upsert(old(self).items@, credential),
            final(self).pins_view() == old(self).pins_view(),
    {
        self.items.save(credential);
    }

    /// Delete a credential and its PIN hash.
    pub fn delete(&mut self, id: u128) -> (r: Result<(), AppError>)
        ensures
            r is Ok <==> has_id(old(self).items@, id),
            r is Ok ==> final(self).items@ == without_id(old(self).items@, id) && final(self).pin_spec(id) is None && forall|other: u128|
                other != id ==> final(self).pin_spec(other) == old(self).pin_spec(other),
            r is Err ==> final(self).items@ == old(self).items@ && final(self).pins_view() == old(self).pins_view() && r->Err_0 is NotFound,
    {
        let r = self.items.delete(id);
        if r.is_ok() {
            self.remove_pin(id);
        }
        r
    }

    fn remove_pin(&mut self, id: u128)
        ensures
            final(self).items@ == old(self).items@,
            final(self).pin_spec(id) is None,
            forall|other: u128| other != id ==> final(self).pin_spec(other) == old(self).pin_spec(other),
    {
        let mut kept: Vec<PinEntry> = Vec::new();
        let mut i: usize = 0;
        assert(kept@ + self.pins@.subrange(0, self.pins@.len() as int) =~= self.pins@);
        while i < self.pins.len()
            invariant
                i <= self.pins@.len(),
                pin_of(kept@, id) is None,
                forall|other: u128|
                    other != id ==> pin_of(kept@ + self.pins@.subrange(i as int, self.pins@.len() as int), other)
                        == pin_of(self.pins@, other),
            decreases self.pins@.len() - i,
        {
            let ghost before = kept@;
            let ghost tail = self.pins@.subrange(i as int, self.pins@.len() as int);
            let e = PinEntry { id: self.pins[i].id, hash: self.pins[i].hash.clone() };
            proof {
                assert(tail[0] == e);
                assert(tail.drop_first() =~= self.pins@.subrange(i + 1, self.pins@.len() as int));
            }
            if e.id != id {
                kept.push(e);
                proof {
                    lemma_pin_of_push(before, e, id);
                    assert forall|other: u128| other != id implies pin_of(
                        kept@ + self.pins@.subrange(i + 1, self.pins@.len() as int),
                        other,
                    ) == pin_of(self.pins@, other) by {
                        lemma_pin_of_concat_shift(before, e, tail.drop_first(), other);
                        assert(before + tail =~= before + seq![e] + tail.drop_first());
                        assert(kept@ =~= before.push(e));
                        assert(before.push(e) =~= before + seq![e]);
                    }
                }
            } else {
                proof {
                    assert forall|other: u128| other != id implies pin_of(
                        kept@ + self.pins@.subrange(i + 1, self.pins@.len() as int),
                        other,
                    ) == pin_of(self.pins@, other) by {
                        lemma_pin_of_skip(before, e, tail.drop_first(), other);
                        assert(before + tail =~= before + seq![e] + tail.drop_first());
                    }
                }
            }
            i = i + 1;
        }
        proof {
            assert forall|other: u128| other != id implies pin_of(kept@, other) == pin_of(
                self.pins@,
                other,
            ) by {
                assert(kept@ + self.pins@.subrange(i as int, self.pins@.len() as int) =~= kept@);
            }
        }
        self.pins = kept;
    }

    /// Store (or replace) the PIN hash of a credential.
    pub fn save_pin(&mut self, id: u128, hash: &str)
        ensures
            final(self).items@ == old(self).items@,
            final(self).pin_spec(id) == Some(hash@),
            forall|other: u128| other != id ==> final(self).pin_spec(other) == old(self).pin_spec(other),
    {
        self.remove_pin(id);
        let ghost rest = self.pins@;
        let e = PinEntry { id, hash: String::from_str(hash) };
        self.pins.insert(0, e);
        proof {
            assert(self.pins@.drop_first() =~= rest);
        }
    }

    /// The PIN hash of a credential.
    pub fn load_pin(&self, id: u128) -> (r: Option<String>)
        ensures
            crate::audit::opt_view(r) == self.pin_spec(id),
    {
        let mut i: usize = 0;
        assert(self.pins@.subrange(0, self.pins@.len() as int) =~= self.pins@);
        while i < self.pins.len()
            invariant
                i <= self.pins@.len(),
                pin_of(self.pins@, id) == pin_of(self.pins@.subrange(i as int, self.pins@.len() as int), id),
            decreases self.pins@.len() - i,
        {
            let ghost tail = self.pins@.subrange(i as int, self.pins@.len() as int);
            assert(tail.drop_first() =~= self.pins@.subrange(i + 1, self.pins@.len() as int));
            if self.pins[i].id == id {
                return Some(self.pins[i].hash.clone());
            }
            i = i + 1;
        }
        None
    }
}

proof fn lemma_pin_of_push(s: Seq<PinEntry>, e: PinEntry, id: u128)
    requires
        pin_of(s, id) is None,
        e.id != id,
    ensures
        pin_of(s.push(e), id) is None,
    decreases s.len(),
{
    reveal_with_fuel(pin_of, 2);
    if s.len() > 0 {
        assert(s.push(e)[0] == s[0]);
        assert(s.push(e).drop_first() =~= s.drop_first().push(e));
        lemma_pin_of_push(s.drop_first(), e, id);
    } else {
        assert(s.push(e)[0] == e);
        assert(s.push(e).drop_first() =~= Seq::<PinEntry>::empty());
    }
}

proof fn lemma_pin_of_concat_shift(a: Seq<PinEntry>, e: PinEntry, b: Seq<PinEntry>, id: u128)
    ensures
        pin_of(a.push(e) + b, id) == pin_of(a + seq![e] + b, id),
{
    assert(a.push(e) + b =~= a + seq![e] + b);
}

proof fn lemma_pin_of_skip(a: Seq<PinEntry>, e: PinEntry, b: Seq<PinEntry>, id: u128)
    requires
        e.id != id,
    ensures
        pin_of(a + b, id) == pin_of(a + seq![e] + b, id),
    decreases a.len(),
{
    if a.len() > 0 {
        assert((a + b).drop_first() =~= a.drop_first() + b);
        assert((a + seq![e] + b).drop_first() =~= a.drop_first() + seq![e] + b);
        lemma_pin_of_skip(a.drop_first(), e, b, id);
    } else {
        assert(a + b =~= b);
        assert((a + seq![e] + b).drop_first() =~= b);
    }
}

// ---- the vault ------------------------------------------------------------

/// A username and secret held in a vault slot.
#[derive(Debug, Clone)]
pub struct VaultSecret {
    pub username: String,
    pub secret: String,
}

/// A target's contents before a write, for rollback.
#[derive(Debug, Clone)]
pub struct VaultSnapshot {
    pub target: String,
    pub prior: Option<VaultSecret>,
}

/// The prior contents recorded by a snapshot.
pub open spec fn prior_view(s: VaultSnapshot) -> Option<(Seq<char>, Seq<char>)> {
    match s.prior {
        Some(v) => Some((v.username@, v.secret@)),
        None => None,
    }
}

/// The snapshots taken by one multi-credential switch, oldest first.
#[derive(Debug, Clone)]
pub struct CredentialTxn {
    pub snapshots: Vec<VaultSnapshot>,
}

/// One occupied vault slot.
#[derive(Debug, Clone)]
pub struct VaultSlot {
    pub target: String,
    pub username: String,
    pub secret: String,
}

/// Position of the first slot for `t` at or after `i`, or -1.
pub open spec fn slot_index_from(s: Seq<VaultSlot>, t: Seq<char>, i: int) -> int
    decreases s.len() - i,
{
    if i < 0 || i >= s.len() {
        -1
    } else if s[i].target@ == t {
        i
    } else {
        slot_index_from(s, t, i + 1)
    }
}

pub open spec fn slot_lookup(s: Seq<VaultSlot>, t: Seq<char>) -> Option<(Seq<char>, Seq<char>)> {
    let k = slot_index_from(s, t, 0);
    if k >= 0 {
        Some((s[k].username@, s[k].secret@))
    } else {
        None
    }
}

proof fn lemma_slot_index_from(s: Seq<VaultSlot>, t: Seq<char>, i: int)
    requires
        0 <= i <= s.len(),
    ensures
        -1 <= slot_index_from(s, t, i) < s.len(),
        slot_index_from(s, t, i) >= 0 ==> i <= slot_index_from(s, t, i) && s[slot_index_from(
            s,
            t,
            i,
        )].target@ == t,
        forall|j: int|
            i <= j < s.len() && (slot_index_from(s, t, i) < 0 || j < slot_index_from(s, t, i))
                ==> #[trigger] s[j].target@ != t,
    decreases s.len() - i,
{
    if i < s.len() && s[i].target@ != t {
        lemma_slot_index_from(s, t, i + 1);
    }
}

/// A first-slot characterisation of `slot_index_from(s, t, 0)`.
proof fn lemma_slot_index_is(s: Seq<VaultSlot>, t: Seq<char>, k: int)
    requires
        -1 <= k < s.len(),
        k >= 0 ==> s[k].target@ == t,
        forall|j: int| 0 <= j < s.len() && (k < 0 || j < k) ==> #[trigger] s[j].target@ != t,
    ensures
        slot_index_from(s, t, 0) == k,
{
    lemma_slot_index_from(s, t, 0);
    let f = slot_index_from(s, t, 0);
    if f >= 0 && k >= 0 {
        if f < k {
            assert(s[f].target@ != t);
        }
        if k < f {
            assert(s[k].target@ != t);
        }
    } else if f >= 0 {
        assert(s[f].target@ != t);
    } else if k >= 0 {
        assert(s[k].target@ != t);
    }
}

proof fn lemma_remove_step(
    s0: Seq<VaultSlot>,
    k0: Seq<VaultSlot>,
    k1: Seq<VaultSlot>,
    i: int,
    target: Seq<char>,
)
    requires
        0 <= i < s0.len(),
        k1 == (if s0[i].target@ != target {
            k0.push(s0[i])
        } else {
            k0
        }),
        forall|j: int| 0 <= j < k0.len() ==> #[trigger] k0[j].target@ != target,
        forall|t: Seq<char>|
            t != target ==> (slot_index_from(s0, t, 0) >= 0 && slot_index_from(s0, t, 0) < i) == (
            slot_index_from(k0, t, 0) >= 0),
        forall|t: Seq<char>|
            t != target && slot_index_from(s0, t, 0) >= 0 && slot_index_from(s0, t, 0) < i
                ==> slot_lookup(k0, t) == slot_lookup(s0, t),
    ensures
        forall|j: int| 0 <= j < k1.len() ==> #[trigger] k1[j].target@ != target,
        forall|t: Seq<char>|
            t != target ==> (slot_index_from(s0, t, 0) >= 0 && slot_index_from(s0, t, 0) < i + 1)
                == (slot_index_from(k1, t, 0) >= 0),
        forall|t: Seq<char>|
            t != target && slot_index_from(s0, t, 0) >= 0 && slot_index_from(s0, t, 0) < i + 1
                ==> slot_lookup(k1, t) == slot_lookup(s0, t),
{
    assert forall|j: int| 0 <= j < k1.len() implies #[trigger] k1[j].target@ != target by {
        if j < k0.len() {
            assert(k1[j] == k0[j]);
        }
    }
    assert forall|t: Seq<char>| #![trigger slot_index_from(s0, t, 0)] t != target implies ((slot_index_from(s0, t, 0) >= 0
        && slot_index_from(s0, t, 0) < i + 1) == (slot_index_from(k1, t, 0) >= 0) && (
    slot_index_from(s0, t, 0) >= 0 && slot_index_from(s0, t, 0) < i + 1 ==> slot_lookup(k1, t)
        == slot_lookup(s0, t))) by {
        lemma_slot_index_from(s0, t, 0);
        lemma_slot_index_from(k0, t, 0);
        let f0 = slot_index_from(s0, t, 0);
        let fk = slot_index_from(k0, t, 0);
        if fk >= 0 {
            assert forall|j: int| 0 <= j < k1.len() && (fk < 0 || j < fk) implies #[trigger] k1[j].target@
                != t by {
                assert(k1[j] == k0[j]);
            }
            assert(k1[fk] == k0[fk]);
            lemma_slot_index_is(k1, t, fk);
            assert(f0 < i);
        } else if f0 == i {
            assert(k1 == k0.push(s0[i]));
            assert forall|j: int| 0 <= j < k1.len() && j < k0.len() implies #[trigger] k1[j].target@
                != t by {
                assert(k1[j] == k0[j]);
            }
            lemma_slot_index_is(k1, t, k0.len() as int);
        } else {
            if s0[i].target@ == t {
                assert(f0 <= i);
            }
            assert(!(f0 >= 0 && f0 < i));
            assert forall|j: int| 0 <= j < k1.len() && (-1 < 0 || j < -1) implies #[trigger] k1[j].target@
                != t by {
                if j < k0.len() {
                    assert(k1[j] == k0[j]);
                } else {
                    assert(k1[j] == s0[i]);
                }
            }
            lemma_slot_index_is(k1, t, -1);
        }
    }
}

/// The in-memory model of the OS credential vault: target → (username, secret).
pub struct Vault {
    slots: Vec<VaultSlot>,
}

impl View for Vault {
    type V = Map<Seq<char>, (Seq<char>, Seq<char>)>;

    closed spec fn view(&self) -> Map<Seq<char>, (Seq<char>, Seq<char>)> {
        Map::new(
            |t: Seq<char>| slot_lookup(self.slots@, t) is Some,
            |t: Seq<char>| slot_lookup(self.slots@, t)->Some_0,
        )
    }
}

/// The map's entry for `t`, as an option.
pub open spec fn entry(m: Map<Seq<char>, (Seq<char>, Seq<char>)>, t: Seq<char>) -> Option<
    (Seq<char>, Seq<char>),
> {
    if m.contains_key(t) {
        Some(m[t])
    } else {
        None
    }
}

/// `m` with the entry for `t` set to `v` (`None` removes it).
pub open spec fn set_entry(
    m: Map<Seq<char>, (Seq<char>, Seq<char>)>,
    t: Seq<char>,
    v: Option<(Seq<char>, Seq<char>)>,
) -> Map<Seq<char>, (Seq<char>, Seq<char>)> {
    match v {
        Some(x) => m.insert(t, x),
        None => m.remove(t),
    }
}

impl Vault {
    closed spec fn lookup(&self, t: Seq<char>) -> Option<(Seq<char>, Seq<char>)> {
        slot_lookup(self.slots@, t)
    }

    proof fn lemma_view_is_lookup(&self)
        ensures
            forall|t: Seq<char>| #[trigger] entry(self@, t) == self.lookup(t),
    {
    }

    pub fn new() -> (v: Self)
        ensures
            v@ == Map::<Seq<char>, (Seq<char>, Seq<char>)>::empty(),
    {
        let v = Vault { slots: Vec::new() };
        assert(v@ =~= Map::<Seq<char>, (Seq<char>, Seq<char>)>::empty());
        v
    }

    fn index_of(&self, target: &str) -> (r: Option<usize>)
        ensures
            match r {
                Some(k) => k as int == slot_index_from(self.slots@, target@, 0) && k
                    < self.slots@.len(),
                None => slot_index_from(self.slots@, target@, 0) == -1,
            },
    {
        proof {
            lemma_slot_index_from(self.slots@, target@, 0);
        }
        let mut i: usize = 0;
        while i < self.slots.len()
            invariant
                i <= self.slots@.len(),
                slot_index_from(self.slots@, target@, 0) == slot_index_from(
                    self.slots@,
                    target@,
                    i as int,
                ),
            decreases self.slots@.len() - i,
        {
            if str_eq(self.slots[i].target.as_str(), target) {
                return Some(i);
            }
            i = i + 1;
        }
        None
    }

    /// The current contents of `target`, as a snapshot.
    pub fn snapshot_of(&self, target: &str) -> (s: VaultSnapshot)
        ensures
            s.target@ == target@,
            prior_view(s) == entry(self@, target@),
    {
        proof {
            self.lemma_view_is_lookup();
        }
        let prior = match self.index_of(target) {
            Some(k) => Some(
                VaultSecret {
                    username: self.slots[k].username.clone(),
                    secret: self.slots[k].secret.clone(),
                },
            ),
            None => None,
        };
        VaultSnapshot { target: String::from_str(target), prior }
    }

    /// Set a slot.
    fn put(&mut self, target: &str, username: &str, secret: &str)
        ensures
            final(self)@ == old(self)@.insert(target@, (username@, secret@)),
    {
        let ghost s0 = self.slots@;
        proof {
            lemma_slot_index_from(s0, target@, 0);
        }
        let slot = VaultSlot {
            target: String::from_str(target),
            username: String::from_str(username),
            secret: String::from_str(secret),
        };
        match self.index_of(target) {
            Some(k) => {
                self.slots.set(k, slot);
            },
            None => {
                self.slots.push(slot);
            },
        }
        let ghost s1 = self.slots@;
        proof {
            let kt = slot_index_from(s0, target@, 0);
            let newk = if kt >= 0 {
                kt
            } else {
                s0.len() as int
            };
            lemma_slot_index_is(s1, target@, newk);
            assert forall|t: Seq<char>| t != target@ implies slot_lookup(s1, t) == slot_lookup(
                s0,
                t,
            ) by {
                lemma_slot_index_from(s0, t, 0);
                let kk = slot_index_from(s0, t, 0);
                assert forall|j: int| 0 <= j < s1.len() && (kk < 0 || j < kk) implies #[trigger] s1[j].target@
                    != t by {
                    if j != newk {
                        assert(s1[j] == s0[j]);
                    }
                }
                if kk >= 0 {
                    assert(s1[kk] == s0[kk]);
                }
                lemma_slot_index_is(s1, t, kk);
            }
            assert(self@ =~= old(self)@.insert(target@, (username@, secret@)));
        }
    }

    /// Remove a slot.
    fn remove(&mut self, target: &str)
        ensures
            final(self)@ == old(self)@.remove(target@),
    {
        let ghost s0 = self.slots@;
        let mut kept: Vec<VaultSlot> = Vec::new();
        let mut i: usize = 0;
        while i < self.slots.len()
            invariant
                self.slots@ == s0,
                i <= s0.len(),
                forall|j: int| 0 <= j < kept@.len() ==> #[trigger] kept@[j].target@ != target@,
                forall|t: Seq<char>|
                    t != target@ ==> (slot_index_from(s0, t, 0) >= 0 && slot_index_from(s0, t, 0)
                        < i) == (slot_index_from(kept@, t, 0) >= 0),
                forall|t: Seq<char>|
                    t != target@ && slot_index_from(s0, t, 0) >= 0 && slot_index_from(s0, t, 0) < i
                        ==> slot_lookup(kept@, t) == slot_lookup(s0, t),
            decreases s0.len() - i,
        {
            let ghost k0 = kept@;
            if !str_eq(self.slots[i].target.as_str(), target) {
                let sl = VaultSlot {
                    target: self.slots[i].target.clone(),
                    username: self.slots[i].username.clone(),
                    secret: self.slots[i].secret.clone(),
                };
                kept.push(sl);
                assert(kept@ == k0.push(s0[i as int]));
            } else {
                assert(kept@ == k0);
                assert(s0[i as int].target@ == target@);
            }
            proof {
                lemma_remove_step(s0, k0, kept@, i as int, target@);
            }
            i = i + 1;
        }
        self.slots = kept;
        proof {
            assert forall|t: Seq<char>| t != target@ implies slot_lookup(self.slots@, t) == slot_lookup(
                s0,
                t,
            ) by {
                lemma_slot_index_from(s0, t, 0);
            }
            lemma_slot_index_is(self.slots@, target@, -1);
            assert(self@ =~= old(self)@.remove(target@));
        }
    }

    /// Write a secret, returning the target's prior contents.
    pub fn store(&mut self, target: &str, username: &str, secret: &str) -> (s: VaultSnapshot)
        ensures
            final(self)@ == old(self)@.insert(target@, (username@, secret@)),
            s.target@ == target@,
            prior_view(s) == entry(old(self)@, target@),
    {
        let snap = self.snapshot_of(target);
        self.put(target, username, secret);
        snap
    }

    /// The username stored at `target`.
    pub fn username(&self, target: &str) -> (r: Option<String>)
        ensures
            match r {
                Some(u) => self@.contains_key(target@) && u@ == self@[target@].0,
                None => !self@.contains_key(target@),
            },
    {
        match self.index_of(target) {
            Some(k) => Some(self.slots[k].username.clone()),
            None => None,
        }
    }

    /// The secret stored at `target`.
    pub fn reveal_secret(&self, target: &str) -> (r: Option<String>)
        ensures
            match r {
                Some(s) => self@.contains_key(target@) && s@ == self@[target@].1,
                None => !self@.contains_key(target@),
            },
    {
        match self.index_of(target) {
            Some(k) => Some(self.slots[k].secret.clone()),
            None => None,
        }
    }

    /// Copy the secret at `from` onto `to` under `username`, returning `to`'s
    /// prior contents; fails when `from` is empty.
    pub fn promote(&mut self, from: &str, to: &str, username: &str) -> (r: Result<
        VaultSnapshot,
        AppError,
    >)
        ensures
            r is Ok <==> old(self)@.contains_key(from@),
            r is Err ==> final(self)@ == old(self)@ && r->Err_0 is Credential,
            r matches Ok(s) ==> {
                &&& final(self)@ == old(self)@.insert(to@, (username@, old(self)@[from@].1))
                &&& s.target@ == to@
                &&& prior_view(s) == entry(old(self)@, to@)
            },
    {
        let secret = match self.reveal_secret(from) {
            Some(s) => s,
            None => {
                return Err(AppError::Credential(String::from_str("backing secret missing")));
            },
        };
        let snap = self.snapshot_of(to);
        self.put(to, username, secret.as_str());
        Ok(snap)
    }

    /// Clear a target, returning its prior contents.
    pub fn delete(&mut self, target: &str) -> (s: VaultSnapshot)
        ensures
            final(self)@ == old(self)@.remove(target@),
            s.target@ == target@,
            prior_view(s) == entry(old(self)@, target@),
    {
        let snap = self.snapshot_of(target);
        self.remove(target);
        snap
    }

    /// Put a target back to the contents a snapshot recorded.
    pub fn restore(&mut self, snapshot: &VaultSnapshot) -> (r: Result<(), AppError>)
        ensures
            r is Ok,
            final(self)@ == set_entry(old(self)@, snapshot.target@, prior_view(*snapshot)),
    {
        match &snapshot.prior {
            Some(vs) => {
                self.put(snapshot.target.as_str(), vs.username.as_str(), vs.secret.as_str());
            },
            None => {
                self.remove(snapshot.target.as_str());
            },
        }
        Ok(())
    }
}

} // verus!

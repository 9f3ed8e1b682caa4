//! The activity (audit) log: every service records what it did.
use vstd::prelude::*;
use crate::ids::{new_id, now_millis};

verus! {

/// One recorded action.
#[derive(Debug, Clone)]
pub struct AuditEntry {
    pub id: u128,
    /// Milliseconds since the Unix epoch.
    pub timestamp: i64,
    pub action: String,
    pub profile_id: Option<u128>,
    /// The repository path, host, target or other subject of the action.
    pub repo_path: Option<String>,
}

/// The view of an optional string.
pub open spec fn opt_view(o: Option<String>) -> Option<Seq<char>> {
    match o {
        Some(s) => Some(s@),
        None => None,
    }
}

impl AuditEntry {
    pub fn duplicate(&self) -> (r: Self)
        ensures
            r == *self,
    {
        AuditEntry {
            id: self.id,
            timestamp: self.timestamp,
            action: self.action.clone(),
            profile_id: self.profile_id,
            repo_path: crate::text::clone_opt_string(&self.repo_path),
        }
    }

    /// The entry records `action` about `profile_id` and `subject`.
    pub open spec fn records(
        self,
        action: Seq<char>,
        profile_id: Option<u128>,
        subject: Option<Seq<char>>,
    ) -> bool {
        &&& self.action@ == action
        &&& self.profile_id == profile_id
        &&& opt_view(self.repo_path) == subject
    }
}

/// The append-only log (old entries can be purged).
pub struct AuditLog {
    pub entries: Vec<AuditEntry>,
}

/// `new` is `old` with exactly one entry appended, recording the given action.
pub open spec fn appended(
    old: Seq<AuditEntry>,
    new: Seq<AuditEntry>,
    action: Seq<char>,
    profile_id: Option<u128>,
    subject: Option<Seq<char>>,
) -> bool {
    &&& new.len() == old.len() + 1
    &&& new.subrange(0, old.len() as int) == old
    &&& new.last().records(action, profile_id, subject)
}

/// `new` extends `old`: every entry of `old` is still there, in place.
pub open spec fn grew(old: Seq<AuditEntry>, new: Seq<AuditEntry>) -> bool {
    &&& old.len() <= new.len()
    &&& new.subrange(0, old.len() as int) == old
}

/// An append is growth.
pub proof fn lemma_appended_grew(
    old: Seq<AuditEntry>,
    new: Seq<AuditEntry>,
    action: Seq<char>,
    profile_id: Option<u128>,
    subject: Option<Seq<char>>,
)
    requires
        appended(old, new, action, profile_id, subject),
    ensures
        grew(old, new),
{
}

/// Growth is transitive.
pub proof fn lemma_grew_trans(a: Seq<AuditEntry>, b: Seq<AuditEntry>, c: Seq<AuditEntry>)
    requires
        grew(a, b),
        grew(b, c),
    ensures
        grew(a, c),
{
    assert(c.subrange(0, a.len() as int) =~= c.subrange(0, b.len() as int).subrange(0, a.len() as int));
}

/// Entries kept by a purge with the given cutoff.
pub open spec fn kept_after(s: Seq<AuditEntry>, cutoff: i64) -> Seq<AuditEntry> {
    s.filter(|e: AuditEntry| e.timestamp >= cutoff)
}

impl AuditLog {
    pub open spec fn view(&self) -> Seq<AuditEntry> {
        self.entries@
    }

    pub fn new() -> (l: Self)
        ensures
            l.view() == Seq::<AuditEntry>::empty(),
    {
        AuditLog { entries: Vec::new() }
    }

    /// Add an entry.
    pub fn append(&mut self, entry: AuditEntry)
        ensures
            final(self).view() == old(self).view().push(entry),
    {
        self.entries.push(entry);
    }

    /// Record `action` now, under a fresh id.
    pub fn record(&mut self, action: &str, profile_id: Option<u128>, subject: Option<String>)
        ensures
            appended(old(self).view(), final(self).view(), action@, profile_id, opt_view(subject)),
    {
        let entry = AuditEntry {
            id: new_id(),
            timestamp: now_millis(),
            action: String::from_str(action),
            profile_id,
            repo_path: subject,
        };
        self.entries.push(entry);
        assert(self.entries@.subrange(0, old(self).entries@.len() as int) =~= old(self).entries@);
    }

    /// Every entry, oldest first.
    pub fn read_all(&self) -> (v: Vec<AuditEntry>)
        ensures
            v@ == self.view(),
    {
        let mut v: Vec<AuditEntry> = Vec::new();
        let mut i: usize = 0;
        while i < self.entries.len()
            invariant
                i <= self.entries@.len(),
                v@ == self.entries@.subrange(0, i as int),
            decreases self.entries@.len() - i,
        {
            v.push(self.entries[i].duplicate());
            i = i + 1;
            assert(v@ =~= self.entries@.subrange(0, i as int));
        }
        assert(v@ =~= self.entries@);
        v
    }

    /// Whether some entry has the given action.
    pub fn has_action(&self, action: &str) -> (r: bool)
        ensures
            r == exists|i: int| 0 <= i < self.view().len() && #[trigger] self.view()[i].action@ == action@,
    {
        let mut i: usize = 0;
        while i < self.entries.len()
            invariant
                i <= self.entries@.len(),
                forall|k: int| 0 <= k < i ==> #[trigger] self.entries@[k].action@ != action@,
            decreases self.entries@.len() - i,
        {
            if crate::text::str_eq(self.entries[i].action.as_str(), action) {
                return true;
            }
            i = i + 1;
        }
        false
    }

    /// Drop the entries older than `cutoff`; returns how many were dropped
    /// (saturating at `u32::MAX`).
    pub fn purge_before(&mut self, cutoff: i64) -> (n: u32)
        ensures
            final(self).view() == kept_after(old(self).view(), cutoff),
            n as int == if old(self).view().len() - final(self).view().len() > u32::MAX {
                u32::MAX as int
            } else {
                old(self).view().len() - final(self).view().len()
            },
    {
        let ghost old_entries = self.entries@;
        let mut kept: Vec<AuditEntry> = Vec::new();
        let mut i: usize = 0;
        while i < self.entries.len()
            invariant
                self.entries@ == old_entries,
                i <= old_entries.len(),
                kept@ == kept_after(old_entries.subrange(0, i as int), cutoff),
                kept@.len() <= i,
            decreases old_entries.len() - i,
        {
            let e = self.entries[i].duplicate();
            proof {
                let pre = old_entries.subrange(0, i as int);
                let post = old_entries.subrange(0, i + 1);
                assert(post.drop_last() =~= pre);
                reveal(Seq::filter);
            }
            if e.timestamp >= cutoff {
                kept.push(e);
            }
            i = i + 1;
        }
        assert(old_entries.subrange(0, old_entries.len() as int) =~= old_entries);
        let removed = self.entries.len() - kept.len();
        self.entries = kept;
        if removed > 4294967295 {
            u32::MAX
        } else {
            removed as u32
        }
    }
}

} // verus!

//! The activity log as the user sees it: listing keeps the last 30 days,
//! and the user can purge older entries or clear the log.
use vstd::prelude::*;
use crate::audit::{AuditEntry, AuditLog, kept_after};
use crate::ids::now_millis;

verus! {

/// Entries older than this many days are dropped whenever the log is listed.
pub const AUTO_PURGE_DAYS: u32 = 30;

/// Milliseconds in a day.
pub const DAY_MILLIS: i64 = 86_400_000;

/// The purge cutoff at time `now`: everything before it is dropped. With
/// `days == 0` it lies one second in the future, so the whole log goes.
pub open spec fn cutoff_spec(now: i64, days: u32) -> i64 {
    if days == 0 {
        if now + 1000 > i64::MAX {
            i64::MAX
        } else {
            (now + 1000) as i64
        }
    } else if now - days * 86_400_000 < i64::MIN {
        i64::MIN
    } else {
        (now - days * 86_400_000) as i64
    }
}

/// The purge cutoff at time `now` (saturating at the ends of the clock).
pub fn purge_cutoff(now: i64, days: u32) -> (c: i64)
    ensures
        c == cutoff_spec(now, days),
{
    if days == 0 {
        if now > i64::MAX - 1000 {
            i64::MAX
        } else {
            now + 1000
        }
    } else {
        let span: i64 = (days as i64) * DAY_MILLIS;
        if now < i64::MIN + span {
            i64::MIN
        } else {
            now - span
        }
    }
}

/// Purging with 0 days clears the log: every entry recorded by `now` is
/// older than the cutoff of a purge at `now`.
pub proof fn lemma_purge_zero_clears(s: Seq<AuditEntry>, now: i64)
    requires
        now < i64::MAX,
        forall|i: int| 0 <= i < s.len() ==> (#[trigger] s[i]).timestamp <= now,
    ensures
        kept_after(s, cutoff_spec(now, 0)) == Seq::<AuditEntry>::empty(),
    decreases s.len(),
{
    reveal(Seq::filter);
    if s.len() > 0 {
        assert forall|i: int| 0 <= i < s.drop_last().len() implies (#[trigger] s.drop_last()[i]).timestamp
            <= now by {
            assert(s.drop_last()[i] == s[i]);
        }
        lemma_purge_zero_clears(s.drop_last(), now);
        assert(s.last() == s[s.len() - 1]);
    }
}

/// The activity log service.
pub struct ActivityService {}

impl ActivityService {
    pub fn new() -> (s: Self) {
        ActivityService {  }
    }

    /// Every entry of the last 30 days, oldest first; older ones are purged.
    pub fn list(&self, audit: &mut AuditLog) -> (v: Vec<AuditEntry>)
        ensures
            exists|now: i64| final(audit).view() == kept_after(old(audit).view(), #[trigger] cutoff_spec(now, AUTO_PURGE_DAYS)),
            v@ == final(audit).view(),
    {
        let now = now_millis();
        let cutoff = purge_cutoff(now, AUTO_PURGE_DAYS);
        let _ = audit.purge_before(cutoff);
        audit.read_all()
    }

    /// Drop the entries older than `days` days (`0` clears the log); returns
    /// how many were dropped.
    pub fn purge(&self, audit: &mut AuditLog, days: u32) -> (n: u32)
        ensures
            exists|now: i64| final(audit).view() == kept_after(old(audit).view(), #[trigger] cutoff_spec(now, days)),
            n as int == if old(audit).view().len() - final(audit).view().len() > u32::MAX {
                u32::MAX as int
            } else {
                old(audit).view().len() - final(audit).view().len()
            },
    {
        let now = now_millis();
        let cutoff = purge_cutoff(now, days);
        audit.purge_before(cutoff)
    }
}

} // verus!

//! The rule engine: the decision layer that selects a profile for a
//! repository. It reads rules, evaluates them against repository facts and
//! returns a match; applying the profile is left to the profile service.
use vstd::prelude::*;
use crate::audit::{AuditLog, appended, opt_view};
use crate::error::{AppError, ErrorKind, err_kind};
use crate::ids::now_millis;
use crate::order::{is_stable_sort, stable_order, stable_sort};
use crate::profile::ProfileStore;
use crate::rule::{
    EvaluationContext, Rule, RuleCondition, RuleMatch, RulePreviewInput, RulePreviewResult,
    RuleSummary, clone_opt_match, evaluate_rules, evaluation, precedes, lemma_evaluation_deterministic, same_outcome,
    subject_allows,
};
use crate::table::{Record, Table, find_spec, fresh_id_in, has_id, lemma_first_index, upsert, without_id};
use crate::text::{decimal, is_blank, is_blank_seq, trim, trim_seq, u64_to_string};

verus! {

/// The persisted rules.
pub type RuleStore = Table<Rule>;

/// The sort keys for ordering rules by priority.
pub open spec fn priority_keys(s: Seq<Rule>) -> Seq<i128> {
    Seq::new(s.len(), |i: int| s[i].priority as i128)
}

/// The highest priority in `s`.
pub open spec fn max_priority(s: Seq<Rule>) -> Option<i32>
    decreases s.len(),
{
    if s.len() == 0 {
        None
    } else {
        match max_priority(s.drop_last()) {
            Some(m) => Some(if s.last().priority > m {
                s.last().priority
            } else {
                m
            }),
            None => Some(s.last().priority),
        }
    }
}

/// The priority given to a new rule: one past the highest (saturating),
/// or 0 for an empty set.
pub open spec fn next_priority_of(s: Seq<Rule>) -> i32 {
    match max_priority(s) {
        Some(m) => if m == i32::MAX {
            i32::MAX
        } else {
            (m + 1) as i32
        },
        None => 0,
    }
}

pub proof fn lemma_max_priority(s: Seq<Rule>)
    ensures
        s.len() == 0 <==> max_priority(s) is None,
        max_priority(s) matches Some(m) ==> (forall|i: int|
            0 <= i < s.len() ==> #[trigger] s[i].priority <= m) && exists|i: int|
            0 <= i < s.len() && #[trigger] s[i].priority == m,
    decreases s.len(),
{
    if s.len() > 0 {
        lemma_max_priority(s.drop_last());
        let m = max_priority(s).unwrap();
        assert forall|i: int| 0 <= i < s.len() implies #[trigger] s[i].priority <= m by {
            if i < s.len() - 1 {
                assert(s.drop_last()[i] == s[i]);
            }
        }
        if s.last().priority == m {
            assert(s[s.len() - 1].priority == m);
        } else {
            let w = choose|i: int|
                0 <= i < s.drop_last().len() && #[trigger] s.drop_last()[i].priority == m;
            assert(s[w].priority == m);
        }
    }
}

/// The error `validate` reports for a rule input, if any, checked in order:
/// blank name, blank condition value, operator not allowed for the subject,
/// unknown target profile.
pub open spec fn rule_input_error(
    profiles: ProfileStore,
    name: Seq<char>,
    condition: RuleCondition,
    target: u128,
) -> Option<ErrorKind> {
    if is_blank_seq(name) {
        Some(ErrorKind::Validation)
    } else if is_blank_seq(condition.value@) {
        Some(ErrorKind::Validation)
    } else if !subject_allows(condition.subject, condition.operator) {
        Some(ErrorKind::Validation)
    } else if !has_id(profiles.profiles@, target) {
        Some(ErrorKind::NotFound)
    } else {
        None
    }
}

/// The first problem with a set of rules to import, checked rule by rule:
/// an unknown target profile, or an operator the subject does not allow.
pub open spec fn import_error_from(parsed: Seq<Rule>, profiles: ProfileStore, i: int) -> Option<
    ErrorKind,
>
    decreases parsed.len() - i,
{
    if i < 0 || i >= parsed.len() {
        None
    } else if !has_id(profiles.profiles@, parsed[i].target_profile_id) {
        Some(ErrorKind::NotFound)
    } else if !subject_allows(parsed[i].condition.subject, parsed[i].condition.operator) {
        Some(ErrorKind::Validation)
    } else {
        import_error_from(parsed, profiles, i + 1)
    }
}

/// `min(base + k, i32::MAX)`: the k-th priority handed out from `base`.
pub open spec fn sat_priority(base: i32, k: int) -> i32 {
    if base + k > i32::MAX {
        i32::MAX
    } else {
        (base + k) as i32
    }
}

/// `r` is `src` brought in by an import: fresh id and timestamps, the given
/// priority, everything else kept.
pub open spec fn imported_as(r: Rule, src: Rule, priority: i32, now: i64) -> bool {
    &&& r.name == src.name
    &&& r.enabled == src.enabled
    &&& r.target_profile_id == src.target_profile_id
    &&& r.condition == src.condition
    &&& r.priority == priority
    &&& r.created_at == now
    &&& r.updated_at == now
}

/// The rules an import keeps: none when replacing, else all of them.
pub open spec fn import_base(s: Seq<Rule>, replace: bool) -> Seq<Rule> {
    if replace {
        Seq::empty()
    } else {
        s
    }
}

/// The `k`-th rule after the first `start` rules of `s`.
pub open spec fn imported_rule(s: Seq<Rule>, start: int, k: int) -> Rule {
    s[start + k]
}

/// `a` carries the same rule as `b`: name, enabled flag, target and condition.
pub open spec fn same_content(a: Rule, b: Rule) -> bool {
    &&& a.name == b.name
    &&& a.enabled == b.enabled
    &&& a.target_profile_id == b.target_profile_id
    &&& a.condition == b.condition
}

/// Exporting the rules and importing them back in place of the store gives
/// the same rules (names, flags, targets, conditions), in the same
/// evaluation order: the store `fin` that an import of `exported` with
/// `replace` leaves evaluates its rules exactly in `exported`'s order.
pub proof fn lemma_export_import_round_trip(exported: Seq<Rule>, fin: Seq<Rule>, now: i64)
    requires
        fin.len() == exported.len(),
        forall|k: int|
            0 <= k < exported.len() ==> imported_as(
                #[trigger] imported_rule(fin, 0, k),
                exported[k],
                sat_priority(0, k),
                now,
            ),
    ensures
        forall|k: int| 0 <= k < fin.len() ==> same_content(#[trigger] fin[k], exported[k]),
        forall|i: int, j: int| 0 <= i < j < fin.len() ==> precedes(fin, i, j),
{
    assert forall|k: int| 0 <= k < fin.len() implies same_content(#[trigger] fin[k], exported[k]) by {
        assert(imported_rule(fin, 0, k) == fin[k]);
    }
    assert forall|i: int, j: int| 0 <= i < j < fin.len() implies precedes(fin, i, j) by {
        assert(imported_rule(fin, 0, i) == fin[i]);
        assert(imported_rule(fin, 0, j) == fin[j]);
    }
}

/// A stable order of nondecreasing keys keeps every element in place.
proof fn lemma_stable_order_of_sorted(keys: Seq<i128>, p: Seq<int>)
    requires
        stable_order(keys, p),
        forall|i: int, j: int| 0 <= i < j < keys.len() ==> keys[i] <= keys[j],
    ensures
        forall|k: int| 0 <= k < p.len() ==> #[trigger] p[k] == k,
{
    let n = p.len() as int;
    assert forall|a: int, b: int| 0 <= a < b < n implies #[trigger] p[a] < #[trigger] p[b] by {
        assert(p[a] != p[b]);
        if p[a] > p[b] {
            assert(keys[p[b]] <= keys[p[a]]);
        }
    }
    lemma_increasing_is_identity(p, n);
}

proof fn lemma_increasing_is_identity(p: Seq<int>, n: int)
    requires
        n == p.len(),
        forall|k: int| 0 <= k < n ==> 0 <= #[trigger] p[k] < n,
        forall|a: int, b: int| 0 <= a < b < n ==> #[trigger] p[a] < #[trigger] p[b],
    ensures
        forall|k: int| 0 <= k < n ==> #[trigger] p[k] == k,
{
    assert forall|k: int| 0 <= k < n implies #[trigger] p[k] >= k by {
        lemma_increasing_lower(p, n, k);
    }
    assert forall|k: int| 0 <= k < n implies #[trigger] p[k] <= k by {
        lemma_increasing_upper(p, n, k);
    }
}

proof fn lemma_increasing_lower(p: Seq<int>, n: int, k: int)
    requires
        n == p.len(),
        0 <= k < n,
        forall|j: int| 0 <= j < n ==> 0 <= #[trigger] p[j] < n,
        forall|a: int, b: int| 0 <= a < b < n ==> #[trigger] p[a] < #[trigger] p[b],
    ensures
        p[k] >= k,
    decreases k,
{
    if k > 0 {
        lemma_increasing_lower(p, n, k - 1);
        assert(p[k - 1] < p[k]);
    }
}

proof fn lemma_increasing_upper(p: Seq<int>, n: int, k: int)
    requires
        n == p.len(),
        0 <= k < n,
        forall|j: int| 0 <= j < n ==> 0 <= #[trigger] p[j] < n,
        forall|a: int, b: int| 0 <= a < b < n ==> #[trigger] p[a] < #[trigger] p[b],
    ensures
        p[k] <= k,
    decreases n - k,
{
    if k < n - 1 {
        lemma_increasing_upper(p, n, k + 1);
        assert(p[k] < p[k + 1]);
    }
}

/// An import in place of the store returns exactly the rules it stored, in
/// their evaluation order, which is the order they were imported in: the
/// rule at position `i` has priority `i` (saturating at `i32::MAX`), so the
/// priorities rise and, below `i32::MAX`, are distinct. Together with
/// `lemma_export_import_round_trip`, an export imported back gives the
/// exported rules, in order, with priorities `0, 1, 2, ...`.
pub proof fn lemma_replace_import_returns_store(exported: Seq<Rule>, fin: Seq<Rule>, v: Seq<Rule>, now: i64)
    requires
        fin.len() == exported.len(),
        forall|k: int|
            0 <= k < exported.len() ==> imported_as(
                #[trigger] imported_rule(fin, 0, k),
                exported[k],
                sat_priority(0, k),
                now,
            ),
        is_stable_sort(v, fin, priority_keys(fin)),
    ensures
        v == fin,
        forall|i: int| 0 <= i < v.len() ==> #[trigger] v[i].priority == sat_priority(0, i),
        forall|i: int, j: int| 0 <= i < j < v.len() && j <= i32::MAX ==> v[i].priority < v[j].priority,
        forall|k: int| 0 <= k < v.len() ==> same_content(#[trigger] v[k], exported[k]),
{
    let keys = priority_keys(fin);
    assert forall|k: int| 0 <= k < fin.len() implies #[trigger] fin[k].priority == sat_priority(0, k) by {
        assert(imported_rule(fin, 0, k) == fin[k]);
    }
    assert forall|i: int, j: int| 0 <= i < j < keys.len() implies keys[i] <= keys[j] by {
        assert(fin[i].priority == sat_priority(0, i));
        assert(fin[j].priority == sat_priority(0, j));
    }
    let p = choose|p: Seq<int>|
        stable_order(keys, p) && v.len() == fin.len() && forall|k: int| 0 <= k < v.len() ==> #[trigger] v[k] == fin[p[k]];
    lemma_stable_order_of_sorted(keys, p);
    assert forall|k: int| 0 <= k < v.len() implies v[k] == fin[k] by {
        assert(v[k] == fin[p[k]]);
    }
    assert(v =~= fin);
    lemma_export_import_round_trip(exported, fin, now);
}

/// `r` is `src` with a new enabled flag and update time.
pub open spec fn toggled(r: Rule, src: Rule, enabled: bool) -> bool {
    &&& r.id == src.id
    &&& r.name == src.name
    &&& r.enabled == enabled
    &&& r.priority == src.priority
    &&& r.target_profile_id == src.target_profile_id
    &&& r.condition == src.condition
    &&& r.created_at == src.created_at
}

/// Sort key for `reorder`: listed ids first by their first position in
/// `ids`, the others after them by priority.
pub open spec fn reorder_key(ids: Seq<u128>, r: Rule) -> i128 {
    let k = first_pos(ids, r.id, 0);
    if k >= 0 {
        k as i128
    } else {
        (0x1_0000_0000_0000_0000i128 + 0x8000_0000i128 + r.priority as i128) as i128
    }
}

/// First position at or after `i` where `ids` holds `id`, or -1.
pub open spec fn first_pos(ids: Seq<u128>, id: u128, i: int) -> int
    decreases ids.len() - i,
{
    if i < 0 || i >= ids.len() {
        -1
    } else if ids[i] == id {
        i
    } else {
        first_pos(ids, id, i + 1)
    }
}

pub proof fn lemma_first_pos(ids: Seq<u128>, id: u128, i: int)
    requires
        0 <= i <= ids.len(),
    ensures
        -1 <= first_pos(ids, id, i) < ids.len(),
    decreases ids.len() - i,
{
    if i < ids.len() && ids[i] != id {
        lemma_first_pos(ids, id, i + 1);
    }
}

pub open spec fn reorder_keys(ids: Seq<u128>, s: Seq<Rule>) -> Seq<i128> {
    Seq::new(s.len(), |i: int| reorder_key(ids, s[i]))
}

/// `out` is `inp` with priorities renumbered 0, 1, 2... (saturating).
pub open spec fn renumbered(out: Seq<Rule>, inp: Seq<Rule>) -> bool {
    &&& out.len() == inp.len()
    &&& forall|k: int|
        0 <= k < out.len() ==> {
            &&& #[trigger] out[k].priority == sat_priority(0, k)
            &&& out[k].id == inp[k].id
            &&& out[k].name == inp[k].name
            &&& out[k].enabled == inp[k].enabled
            &&& out[k].target_profile_id == inp[k].target_profile_id
            &&& out[k].condition == inp[k].condition
            &&& out[k].created_at == inp[k].created_at
            &&& out[k].updated_at == inp[k].updated_at
        }
}

/// Number of enabled (`want == true`) or disabled rules.
pub open spec fn count_enabled(s: Seq<Rule>, want: bool) -> nat
    decreases s.len(),
{
    if s.len() == 0 {
        0
    } else {
        count_enabled(s.drop_last(), want) + if s.last().enabled == want {
            1nat
        } else {
            0nat
        }
    }
}

pub proof fn lemma_counts_partition(s: Seq<Rule>)
    ensures
        count_enabled(s, true) + count_enabled(s, false) == s.len(),
    decreases s.len(),
{
    if s.len() > 0 {
        lemma_counts_partition(s.drop_last());
    }
}

pub open spec fn sat_u32(n: nat) -> u32 {
    if n > u32::MAX {
        u32::MAX
    } else {
        n as u32
    }
}

/// After `reorder`, every listed rule comes before every unlisted one, and
/// the listed ones follow the order of the list.
pub proof fn lemma_reorder_listed_first(ids: Seq<u128>, s: Seq<Rule>, sorted: Seq<Rule>)
    requires
        ids.len() <= u64::MAX,
        is_stable_sort(sorted, s, reorder_keys(ids, s)),
    ensures
        forall|a: int, b: int|
            0 <= a < b < sorted.len() && first_pos(ids, #[trigger] sorted[b].id, 0) >= 0 ==> first_pos(
                ids,
                #[trigger] sorted[a].id,
                0,
            ) >= 0 && first_pos(ids, sorted[a].id, 0) <= first_pos(ids, sorted[b].id, 0),
{
    let keys = reorder_keys(ids, s);
    let p = choose|p: Seq<int>|
        stable_order(keys, p) && sorted.len() == s.len() && forall|k: int|
            0 <= k < sorted.len() ==> #[trigger] sorted[k] == s[p[k]];
    assert forall|a: int, b: int|
        0 <= a < b < sorted.len() && first_pos(ids, #[trigger] sorted[b].id, 0) >= 0 implies first_pos(
        ids,
        #[trigger] sorted[a].id,
        0,
    ) >= 0 && first_pos(ids, sorted[a].id, 0) <= first_pos(ids, sorted[b].id, 0) by {
        assert(sorted[a] == s[p[a]]);
        assert(sorted[b] == s[p[b]]);
        lemma_first_pos(ids, sorted[a].id, 0);
        lemma_first_pos(ids, sorted[b].id, 0);
        assert(keys[p[a]] <= keys[p[b]]);
    }
}

/// The rule engine. Holds the most recent match that drove a switch (for
/// the dashboard); it resets when the application restarts.
pub struct RuleService {
    pub last_match: Option<RuleMatch>,
}

impl RuleService {
    pub fn new() -> (s: Self)
        ensures
            s.last_match is None,
    {
        RuleService { last_match: None }
    }

    /// The rules in evaluation order: priority ascending, ties in store order.
    pub fn list(&self, store: &RuleStore) -> (v: Vec<Rule>)
        ensures
            is_stable_sort(v@, store@, priority_keys(store@)),
    {
        sort_by_priority(store.load_all())
    }

    /// The rule with that id.
    pub fn get(&self, store: &RuleStore, id: u128) -> (r: Result<Rule, AppError>)
        ensures
            r is Ok <==> find_spec(store@, id) is Some,
            r matches Ok(rule) ==> Some(rule) == find_spec(store@, id),
            r is Err ==> err_kind(r) == Some(ErrorKind::NotFound),
    {
        match store.find(id) {
            Some(rule) => Ok(rule),
            None => Err(AppError::NotFound(String::from_str("rule not found"))),
        }
    }

    /// Check a rule's name, condition and target profile.
    pub fn validate(
        &self,
        profiles: &ProfileStore,
        name: &str,
        condition: &RuleCondition,
        target_profile_id: u128,
    ) -> (r: Result<(), AppError>)
        ensures
            err_kind(r) == rule_input_error(*profiles, name@, *condition, target_profile_id),
    {
        if is_blank(name) {
            return Err(AppError::Validation(String::from_str("rule name is required")));
        }
        if is_blank(condition.value.as_str()) {
            return Err(AppError::Validation(String::from_str("condition value is required")));
        }
        if !condition.subject.allows(condition.operator) {
            let mut msg = String::from_str(condition.subject.label());
            msg.append(" does not support the \"");
            msg.append(condition.operator.label());
            msg.append("\" operator");
            return Err(AppError::Validation(msg));
        }
        proof {
            crate::table::lemma_first_index(profiles.profiles@, target_profile_id);
        }
        if profiles.find(target_profile_id).is_none() {
            return Err(AppError::NotFound(String::from_str("profile not found")));
        }
        Ok(())
    }

    /// The priority for a new rule.
    pub fn next_priority(&self, store: &RuleStore) -> (p: i32)
        ensures
            p == next_priority_of(store@),
    {
        next_priority_in(store)
    }

    /// Create an enabled rule at the end of the evaluation order.
    pub fn create(
        &self,
        store: &mut RuleStore,
        profiles: &ProfileStore,
        audit: &mut AuditLog,
        name: &str,
        condition: RuleCondition,
        target_profile_id: u128,
    ) -> (r: Result<Rule, AppError>)
        ensures
            err_kind(r) == rule_input_error(*profiles, name@, condition, target_profile_id),
            r is Err ==> final(store)@ == old(store)@ && final(audit).view() == old(audit).view(),
            r matches Ok(rule) ==> {
                &&& rule.name@ == trim_seq(name@)
                &&& rule.enabled
                &&& rule.priority == next_priority_of(old(store)@)
                &&& rule.target_profile_id == target_profile_id
                &&& rule.condition == condition
                &&& rule.created_at == rule.updated_at
                &&& !has_id(old(store)@, rule.id)
                &&& final(store)@ == old(store)@.push(rule)
                &&& appended(
                    old(audit).view(),
                    final(audit).view(),
                    "rule.created"@,
                    Some(target_profile_id),
                    Some(rule.name@),
                )
            },
    {
        self.validate(profiles, name, &condition, target_profile_id)?;
        let now = now_millis();
        let id = store.fresh_id();
        proof {
            lemma_first_index(store@, id);
        }
        let rule = Rule {
            id,
            name: trim(name),
            enabled: true,
            priority: next_priority_in(store),
            target_profile_id,
            condition,
            created_at: now,
            updated_at: now,
        };
        store.save(rule.duplicate());
        audit.record("rule.created", Some(target_profile_id), Some(rule.name.clone()));
        Ok(rule)
    }

    /// Change a rule's name, condition and target.
    pub fn update(
        &self,
        store: &mut RuleStore,
        profiles: &ProfileStore,
        audit: &mut AuditLog,
        id: u128,
        name: &str,
        condition: RuleCondition,
        target_profile_id: u128,
    ) -> (r: Result<Rule, AppError>)
        ensures
            err_kind(r) == match rule_input_error(*profiles, name@, condition, target_profile_id) {
                Some(k) => Some(k),
                None => if find_spec(old(store)@, id) is Some {
                    None
                } else {
                    Some(ErrorKind::NotFound)
                },
            },
            r is Err ==> final(store)@ == old(store)@ && final(audit).view() == old(audit).view(),
            r matches Ok(rule) ==> {
                let before = find_spec(old(store)@, id)->Some_0;
                &&& rule.id == id
                &&& rule.name@ == trim_seq(name@)
                &&& rule.condition == condition
                &&& rule.target_profile_id == target_profile_id
                &&& rule.enabled == before.enabled
                &&& rule.priority == before.priority
                &&& rule.created_at == before.created_at
                &&& final(store)@ == upsert(old(store)@, rule)
                &&& appended(
                    old(audit).view(),
                    final(audit).view(),
                    "rule.updated"@,
                    Some(target_profile_id),
                    Some(rule.name@),
                )
            },
    {
        self.validate(profiles, name, &condition, target_profile_id)?;
        let mut rule = self.get(store, id)?;
        proof {
            crate::table::lemma_first_index(store@, id);
        }
        rule.name = trim(name);
        rule.condition = condition;
        rule.target_profile_id = target_profile_id;
        rule.updated_at = now_millis();
        store.save(rule.duplicate());
        audit.record("rule.updated", Some(target_profile_id), Some(rule.name.clone()));
        Ok(rule)
    }

    /// Delete a rule.
    pub fn delete(&self, store: &mut RuleStore, audit: &mut AuditLog, id: u128) -> (r: Result<
        (),
        AppError,
    >)
        ensures
            r is Ok <==> find_spec(old(store)@, id) is Some,
            r is Err ==> err_kind(r) == Some(ErrorKind::NotFound) && final(store)@ == old(store)@
                && final(audit).view() == old(audit).view(),
            r is Ok ==> {
                let before = find_spec(old(store)@, id)->Some_0;
                &&& final(store)@ == without_id(old(store)@, id)
                &&& appended(
                    old(audit).view(),
                    final(audit).view(),
                    "rule.deleted"@,
                    Some(before.target_profile_id),
                    Some(before.name@),
                )
            },
    {
        let rule = self.get(store, id)?;
        proof {
            crate::table::lemma_first_index(store@, id);
        }
        let deleted = store.delete(id);
        if deleted.is_err() {
            return Err(AppError::NotFound(String::from_str("rule not found")));
        }
        audit.record("rule.deleted", Some(rule.target_profile_id), Some(rule.name));
        Ok(())
    }

    /// Copy a rule under a new id, named "Copy of …", at the end of the order.
    pub fn duplicate(&self, store: &mut RuleStore, audit: &mut AuditLog, id: u128) -> (r: Result<
        Rule,
        AppError,
    >)
        ensures
            r is Ok <==> find_spec(old(store)@, id) is Some,
            r is Err ==> err_kind(r) == Some(ErrorKind::NotFound) && final(store)@ == old(store)@
                && final(audit).view() == old(audit).view(),
            r matches Ok(rule) ==> {
                let source = find_spec(old(store)@, id)->Some_0;
                &&& rule.name@ == "Copy of "@ + source.name@
                &&& rule.enabled == source.enabled
                &&& rule.priority == next_priority_of(old(store)@)
                &&& rule.target_profile_id == source.target_profile_id
                &&& rule.condition == source.condition
                &&& rule.created_at == rule.updated_at
                &&& !has_id(old(store)@, rule.id)
                &&& final(store)@ == old(store)@.push(rule)
                &&& appended(
                    old(audit).view(),
                    final(audit).view(),
                    "rule.created"@,
                    Some(rule.target_profile_id),
                    Some(rule.name@),
                )
            },
    {
        let source = self.get(store, id)?;
        let now = now_millis();
        let mut name = String::from_str("Copy of ");
        name.append(source.name.as_str());
        let id = store.fresh_id();
        proof {
            lemma_first_index(store@, id);
        }
        let rule = Rule {
            id,
            name,
            enabled: source.enabled,
            priority: next_priority_in(store),
            target_profile_id: source.target_profile_id,
            condition: source.condition,
            created_at: now,
            updated_at: now,
        };
        store.save(rule.duplicate());
        audit.record("rule.created", Some(rule.target_profile_id), Some(rule.name.clone()));
        Ok(rule)
    }

    /// Enable or disable one rule.
    pub fn set_enabled(
        &self,
        store: &mut RuleStore,
        audit: &mut AuditLog,
        id: u128,
        enabled: bool,
    ) -> (r: Result<Rule, AppError>)
        ensures
            r is Ok <==> find_spec(old(store)@, id) is Some,
            r is Err ==> err_kind(r) == Some(ErrorKind::NotFound) && final(store)@ == old(store)@
                && final(audit).view() == old(audit).view(),
            r matches Ok(rule) ==> {
                &&& toggled(rule, find_spec(old(store)@, id)->Some_0, enabled)
                &&& final(store)@ == upsert(old(store)@, rule)
                &&& appended(
                    old(audit).view(),
                    final(audit).view(),
                    if enabled {
                        "rule.enabled"@
                    } else {
                        "rule.disabled"@
                    },
                    Some(rule.target_profile_id),
                    Some(rule.name@),
                )
            },
    {
        let mut rule = self.get(store, id)?;
        proof {
            crate::table::lemma_first_index(store@, id);
        }
        rule.enabled = enabled;
        rule.updated_at = now_millis();
        store.save(rule.duplicate());
        let action = if enabled {
            "rule.enabled"
        } else {
            "rule.disabled"
        };
        audit.record(action, Some(rule.target_profile_id), Some(rule.name.clone()));
        Ok(rule)
    }

    /// Enable or disable every rule at once; returns the rules in order.
    pub fn set_all_enabled(&self, store: &mut RuleStore, audit: &mut AuditLog, enabled: bool) -> (v:
        Vec<Rule>)
        ensures
            final(store)@.len() == old(store)@.len(),
            forall|k: int|
                0 <= k < old(store)@.len() ==> toggled(
                    #[trigger] final(store)@[k],
                    old(store)@[k],
                    enabled,
                ),
            appended(
                old(audit).view(),
                final(audit).view(),
                if enabled {
                    "rule.enabled"@
                } else {
                    "rule.disabled"@
                },
                None,
                Some("all rules"@),
            ),
            is_stable_sort(v@, final(store)@, priority_keys(final(store)@)),
    {
        let old_rules = store.load_all();
        let mut rules: Vec<Rule> = Vec::new();
        let mut i: usize = 0;
        while i < old_rules.len()
            invariant
                i <= old_rules@.len(),
                old_rules@ == old(store)@,
                rules@.len() == i,
                forall|k: int| 0 <= k < i ==> toggled(#[trigger] rules@[k], old_rules@[k], enabled),
            decreases old_rules@.len() - i,
        {
            let mut r = old_rules[i].duplicate();
            r.enabled = enabled;
            r.updated_at = now_millis();
            rules.push(r);
            i = i + 1;
        }
        store.save_all(rules);
        let action = if enabled {
            "rule.enabled"
        } else {
            "rule.disabled"
        };
        audit.record(action, None, Some(String::from_str("all rules")));
        self.list(store)
    }

    /// Reassign priorities from an explicit ordering: the listed ids first, in
    /// the order given, then the others in their previous order; priorities
    /// are renumbered 0, 1, 2... Returns the rules in the new order.
    pub fn reorder(&self, store: &mut RuleStore, ordered_ids: &Vec<u128>) -> (v: Vec<Rule>)
        ensures
            exists|sorted: Seq<Rule>|
                is_stable_sort(sorted, old(store)@, reorder_keys(ordered_ids@, old(store)@))
                    && renumbered(final(store)@, sorted),
            is_stable_sort(v@, final(store)@, priority_keys(final(store)@)),
    {
        let rules = store.load_all();
        let mut keys: Vec<i128> = Vec::new();
        let mut i: usize = 0;
        while i < rules.len()
            invariant
                i <= rules@.len(),
                rules@ == old(store)@,
                keys@ == reorder_keys(ordered_ids@, rules@).subrange(0, i as int),
            decreases rules@.len() - i,
        {
            let k = reorder_key_exec(ordered_ids, &rules[i]);
            keys.push(k);
            i = i + 1;
            assert(keys@ =~= reorder_keys(ordered_ids@, rules@).subrange(0, i as int));
        }
        assert(keys@ =~= reorder_keys(ordered_ids@, rules@));
        let sorted = stable_sort(rules, &keys);
        let ghost sorted_view = sorted@;
        let mut renum: Vec<Rule> = Vec::new();
        let mut j: usize = 0;
        while j < sorted.len()
            invariant
                j <= sorted@.len(),
                sorted@ == sorted_view,
                renum@.len() == j,
                forall|k: int|
                    0 <= k < j ==> {
                        &&& #[trigger] renum@[k].priority == sat_priority(0, k)
                        &&& renum@[k].id == sorted_view[k].id
                        &&& renum@[k].name == sorted_view[k].name
                        &&& renum@[k].enabled == sorted_view[k].enabled
                        &&& renum@[k].target_profile_id == sorted_view[k].target_profile_id
                        &&& renum@[k].condition == sorted_view[k].condition
                        &&& renum@[k].created_at == sorted_view[k].created_at
                        &&& renum@[k].updated_at == sorted_view[k].updated_at
                    },
            decreases sorted@.len() - j,
        {
            let mut r = sorted[j].duplicate();
            r.priority = if j > 2147483647 {
                i32::MAX
            } else {
                j as i32
            };
            renum.push(r);
            j = j + 1;
        }
        store.save_all(renum);
        assert(renumbered(store@, sorted_view));
        assert(is_stable_sort(sorted_view, old(store)@, reorder_keys(ordered_ids@, old(store)@)));
        self.list(store)
    }

    /// The first enabled rule, in priority order, whose condition holds of
    /// the repository. Never changes any state.
    pub fn evaluate(&self, store: &RuleStore, ctx: &EvaluationContext) -> (r: Option<RuleMatch>)
        ensures
            evaluation(store@, *ctx, r),
    {
        let rules = store.load_all();
        evaluate_rules(&rules, ctx)
    }

    /// Evaluate a hypothetical repository; never records a match.
    pub fn preview(&self, store: &RuleStore, input: &RulePreviewInput) -> (r: RulePreviewResult)
        ensures
            preview_outcome(store@, *input, r.matched),
    {
        let remote: Option<&str> = match &input.remote_url {
            Some(u) => Some(u.as_str()),
            None => None,
        };
        let ctx = EvaluationContext::from_parts(input.path.as_str(), input.name.as_str(), remote);
        proof {
            assert(opt_view(ctx.remote_url) == opt_view(input.remote_url));
        }
        let matched = self.evaluate(store, &ctx);
        let r = RulePreviewResult { matched };
        assert(describes_input(ctx, *input) && evaluation(store@, ctx, r.matched));
        r
    }

    /// Counts of enabled and disabled rules, and the last match that drove a switch.
    pub fn summary(&self, store: &RuleStore) -> (s: RuleSummary)
        ensures
            s.active == sat_u32(count_enabled(store@, true)),
            s.disabled == sat_u32(count_enabled(store@, false)),
            s.last_match == self.last_match,
    {
        let rules = store.load_all();
        let mut active: u64 = 0;
        let mut disabled: u64 = 0;
        let mut i: usize = 0;
        while i < rules.len()
            invariant
                i <= rules@.len(),
                rules@ == store@,
                active == count_enabled(rules@.subrange(0, i as int), true),
                disabled == count_enabled(rules@.subrange(0, i as int), false),
                active + disabled == i,
                i <= usize::MAX,
            decreases rules@.len() - i,
        {
            proof {
                assert(rules@.subrange(0, i + 1).drop_last() =~= rules@.subrange(0, i as int));
                lemma_counts_partition(rules@.subrange(0, i as int));
            }
            if rules[i].enabled {
                active = active + 1;
            } else {
                disabled = disabled + 1;
            }
            i = i + 1;
        }
        assert(rules@.subrange(0, i as int) =~= rules@);
        RuleSummary {
            active: if active > 4294967295 {
                u32::MAX
            } else {
                active as u32
            },
            disabled: if disabled > 4294967295 {
                u32::MAX
            } else {
                disabled as u32
            },
            last_match: clone_opt_match(&self.last_match),
        }
    }

    /// The rules in evaluation order, for export; records `rule.exported`.
    /// Serialising them is left to the caller.
    pub fn export(&self, store: &RuleStore, audit: &mut AuditLog) -> (v: Vec<Rule>)
        ensures
            is_stable_sort(v@, store@, priority_keys(store@)),
            appended(
                old(audit).view(),
                final(audit).view(),
                "rule.exported"@,
                None,
                Some(decimal(v@.len()) + " rules"@),
            ),
    {
        let rules = self.list(store);
        let mut msg = u64_to_string(rules.len() as u64);
        msg.append(" rules");
        audit.record("rule.exported", None, Some(msg));
        rules
    }

    /// Import parsed rules. With `replace` the existing set is dropped;
    /// otherwise the imported rules are appended after it. Imported rules get
    /// fresh ids and consecutive priorities after the kept ones.
    pub fn import(
        &self,
        store: &mut RuleStore,
        profiles: &ProfileStore,
        audit: &mut AuditLog,
        parsed: Vec<Rule>,
        replace: bool,
    ) -> (r: Result<Vec<Rule>, AppError>)
        requires
            import_error_from(parsed@, *profiles, 0) is None && !replace ==> match max_priority(old(store)@) {
                Some(m) => m < i32::MAX,
                None => true,
            },
        ensures
            err_kind(r) == import_error_from(parsed@, *profiles, 0),
            r is Err ==> final(store)@ == old(store)@ && final(audit).view() == old(audit).view(),
            r matches Ok(v) ==> {
                let base = import_base(old(store)@, replace);
                let start = match max_priority(base) {
                    Some(m) => (m + 1) as i32,
                    None => 0i32,
                };
                &&& final(store)@.len() == base.len() + parsed@.len()
                &&& final(store)@.subrange(0, base.len() as int) == base
                &&& forall|k: int|
                    0 <= k < parsed@.len() ==> {
                        &&& imported_as(
                            #[trigger] imported_rule(final(store)@, base.len() as int, k),
                            parsed@[k],
                            sat_priority(start, k),
                            final(store)@[base.len() as int].created_at,
                        )
                        &&& !has_id(
                            final(store)@.subrange(0, base.len() + k),
                            imported_rule(final(store)@, base.len() as int, k).id,
                        )
                    }
                &&& appended(
                    old(audit).view(),
                    final(audit).view(),
                    "rule.imported"@,
                    None,
                    Some(decimal(final(store)@.len()) + " rules"@),
                )
                &&& is_stable_sort(v@, final(store)@, priority_keys(final(store)@))
            },
    {
        let mut i: usize = 0;
        while i < parsed.len()
            invariant
                i <= parsed@.len(),
                import_error_from(parsed@, *profiles, 0) == import_error_from(
                    parsed@,
                    *profiles,
                    i as int,
                ),
            decreases parsed@.len() - i,
        {
            let rule = &parsed[i];
            proof {
                crate::table::lemma_first_index(profiles.profiles@, rule.target_profile_id);
            }
            if profiles.find(rule.target_profile_id).is_none() {
                let mut msg = String::from_str("rule \"");
                msg.append(rule.name.as_str());
                msg.append("\" targets a profile that does not exist on this machine");
                return Err(AppError::NotFound(msg));
            }
            if !rule.condition.subject.allows(rule.condition.operator) {
                let mut msg = String::from_str("rule \"");
                msg.append(rule.name.as_str());
                msg.append("\" has an unsupported operator for its subject");
                return Err(AppError::Validation(msg));
            }
            i = i + 1;
        }
        let now = now_millis();
        let mut existing: Vec<Rule> = if replace {
            Vec::new()
        } else {
            store.load_all()
        };
        let ghost base = existing@;
        let mut priority: i32 = match max_priority_in(&existing) {
            Some(m) => m + 1,
            None => 0,
        };
        let ghost start = priority;
        let ghost src = parsed@;
        let mut parsed = parsed;
        let mut k: usize = 0;
        let n = parsed.len();
        let mut rest: Vec<Rule> = Vec::new();
        // Take the parsed rules in order.
        while parsed.len() > 0
            invariant
                parsed@ == src.subrange(0, parsed@.len() as int),
                rest@.len() + parsed@.len() == src.len(),
                forall|t: int|
                    0 <= t < rest@.len() ==> #[trigger] rest@[t] == src[src.len() - 1 - t],
            decreases parsed@.len(),
        {
            let x = parsed.pop().unwrap();
            rest.push(x);
        }
        while rest.len() > 0
            invariant
                n == src.len(),
                k + rest@.len() == n,
                forall|t: int|
                    0 <= t < rest@.len() ==> #[trigger] rest@[t] == src[n - 1 - t],
                existing@.len() == base.len() + k,
                existing@.subrange(0, base.len() as int) == base,
                priority == sat_priority(start, k as int),
                forall|t: int|
                    0 <= t < k ==> imported_as(
                        #[trigger] imported_rule(existing@, base.len() as int, t),
                        src[t],
                        sat_priority(start, t),
                        now,
                    ) && !has_id(existing@.subrange(0, base.len() + t), imported_rule(existing@, base.len() as int, t).id),
            decreases rest@.len(),
        {
            let mut rule = rest.pop().unwrap();
            assert(rule == src[k as int]);
            rule.id = fresh_id_in(&existing);
            rule.priority = priority;
            rule.created_at = now;
            rule.updated_at = now;
            priority = if priority == i32::MAX {
                i32::MAX
            } else {
                priority + 1
            };
            let ghost prev = existing@;
            existing.push(rule);
            proof {
                assert(existing@.subrange(0, base.len() as int) =~= base);
                assert forall|t: int| 0 <= t < k + 1 implies imported_as(
                    #[trigger] imported_rule(existing@, base.len() as int, t),
                    src[t],
                    sat_priority(start, t),
                    now,
                ) && !has_id(existing@.subrange(0, base.len() + t), imported_rule(existing@, base.len() as int, t).id) by {
                    if t < k {
                        assert(imported_rule(existing@, base.len() as int, t) == imported_rule(prev, base.len() as int, t));
                        assert(existing@.subrange(0, base.len() + t) =~= prev.subrange(0, base.len() + t));
                    } else {
                        assert(existing@.subrange(0, base.len() + t) =~= prev);
                        assert(imported_rule(existing@, base.len() as int, t) == existing@.last());
                    }
                }
            }
            k = k + 1;
        }
        let total = existing.len();
        proof {
            if src.len() > 0 {
                let z: int = 0;
                assert(imported_as(imported_rule(existing@, base.len() as int, z), src[z], sat_priority(start, z), now));
            }
        }
        store.save_all(existing);
        let mut msg = u64_to_string(total as u64);
        msg.append(" rules");
        audit.record("rule.imported", None, Some(msg));
        Ok(self.list(store))
    }

    /// Evaluate for a real switch: like `evaluate`, and a match becomes the
    /// dashboard's last match.
    pub fn resolve(&mut self, store: &RuleStore, ctx: &EvaluationContext) -> (r: Option<RuleMatch>)
        ensures
            evaluation(store@, *ctx, r),
            final(self).last_match == match r {
                Some(m) => Some(m),
                None => old(self).last_match,
            },
    {
        let matched = self.evaluate(store, ctx);
        match &matched {
            Some(m) => {
                self.last_match = Some(m.duplicate());
            },
            None => {},
        }
        matched
    }
}

/// `c` is a context for the repository that `input` describes.
pub open spec fn describes_input(c: EvaluationContext, input: RulePreviewInput) -> bool {
    &&& c.path@ == input.path@
    &&& c.name@ == input.name@
    &&& opt_view(c.remote_url) == opt_view(input.remote_url)
    &&& c.wf()
}

/// `m` is what the rules give for the repository that `input` describes.
pub open spec fn preview_outcome(s: Seq<Rule>, input: RulePreviewInput, m: Option<RuleMatch>) -> bool {
    exists|c: EvaluationContext| #[trigger] describes_input(c, input) && evaluation(s, c, m)
}

/// A preview tells the truth: previewing a repository's path, name and
/// remote gives the same outcome as evaluating the rules against that
/// repository when it is resolved.
pub proof fn lemma_preview_agrees_with_resolution(
    s: Seq<Rule>,
    input: RulePreviewInput,
    previewed: Option<RuleMatch>,
    ctx: EvaluationContext,
    resolved: Option<RuleMatch>,
)
    requires
        preview_outcome(s, input, previewed),
        describes_input(ctx, input),
        evaluation(s, ctx, resolved),
    ensures
        same_outcome(previewed, resolved),
{
    let c = choose|c: EvaluationContext| #[trigger] describes_input(c, input) && evaluation(s, c, previewed);
    lemma_evaluation_deterministic(s, c, ctx, previewed, resolved);
}

/// Stable sort by priority.
pub fn sort_by_priority(rules: Vec<Rule>) -> (v: Vec<Rule>)
    ensures
        is_stable_sort(v@, rules@, priority_keys(rules@)),
{
    let mut keys: Vec<i128> = Vec::new();
    let mut i: usize = 0;
    while i < rules.len()
        invariant
            i <= rules@.len(),
            keys@ == priority_keys(rules@).subrange(0, i as int),
        decreases rules@.len() - i,
    {
        keys.push(rules[i].priority as i128);
        i = i + 1;
        assert(keys@ =~= priority_keys(rules@).subrange(0, i as int));
    }
    assert(keys@ =~= priority_keys(rules@));
    stable_sort(rules, &keys)
}

/// The highest priority among `rules`.
pub fn max_priority_in(rules: &Vec<Rule>) -> (m: Option<i32>)
    ensures
        m == max_priority(rules@),
{
    let mut m: Option<i32> = None;
    let mut i: usize = 0;
    while i < rules.len()
        invariant
            i <= rules@.len(),
            m == max_priority(rules@.subrange(0, i as int)),
        decreases rules@.len() - i,
    {
        assert(rules@.subrange(0, i + 1).drop_last() =~= rules@.subrange(0, i as int));
        let p = rules[i].priority;
        m = match m {
            Some(cur) => Some(if p > cur {
                p
            } else {
                cur
            }),
            None => Some(p),
        };
        i = i + 1;
    }
    assert(rules@.subrange(0, i as int) =~= rules@);
    m
}

fn next_priority_in(store: &RuleStore) -> (p: i32)
    ensures
        p == next_priority_of(store@),
{
    let rules = store.load_all();
    match max_priority_in(&rules) {
        Some(m) => if m == i32::MAX {
            i32::MAX
        } else {
            m + 1
        },
        None => 0,
    }
}

fn reorder_key_exec(ids: &Vec<u128>, r: &Rule) -> (k: i128)
    ensures
        k == reorder_key(ids@, *r),
{
    let mut i: usize = 0;
    while i < ids.len()
        invariant
            i <= ids@.len(),
            first_pos(ids@, r.id, 0) == first_pos(ids@, r.id, i as int),
        decreases ids@.len() - i,
    {
        if ids[i] == r.id {
            return i as i128;
        }
        i = i + 1;
    }
    0x1_0000_0000_0000_0000i128 + 0x8000_0000i128 + r.priority as i128
}

} // verus!

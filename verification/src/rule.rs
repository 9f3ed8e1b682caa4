//! The rule model: a rule routes repositories whose path, name or remote
//! satisfies a condition to a target profile.
use vstd::prelude::*;
use crate::audit::opt_view;
use crate::remote::{any_remote, owner_of, parse_remote, path_owner};
use crate::table::Record;
use crate::text::{contains, contains_seq, ends_with, ends_with_seq, starts_with, starts_with_seq, str_eq};

verus! {

/// What a condition looks at.
#[derive(Debug, Clone, Copy, PartialEq, Eq, Structural)]
pub enum RuleSubject {
    RepoPath,
    RepoName,
    RemoteUrl,
    RemoteHost,
    RemoteOwner,
}

/// How a condition compares.
#[derive(Debug, Clone, Copy, PartialEq, Eq, Structural)]
pub enum RuleOperator {
    Equals,
    Contains,
    StartsWith,
    EndsWith,
}

/// Which operators a subject supports: hosts compare whole or by suffix,
/// owners only whole; paths, names and URLs support every operator.
pub open spec fn subject_allows(s: RuleSubject, op: RuleOperator) -> bool {
    match s {
        RuleSubject::RemoteHost => op == RuleOperator::Equals || op == RuleOperator::EndsWith,
        RuleSubject::RemoteOwner => op == RuleOperator::Equals,
        _ => true,
    }
}

pub open spec fn subject_label(s: RuleSubject) -> Seq<char> {
    match s {
        RuleSubject::RepoPath => "repository path"@,
        RuleSubject::RepoName => "repository name"@,
        RuleSubject::RemoteUrl => "remote URL"@,
        RuleSubject::RemoteHost => "remote host"@,
        RuleSubject::RemoteOwner => "remote owner"@,
    }
}

pub open spec fn operator_label(op: RuleOperator) -> Seq<char> {
    match op {
        RuleOperator::Equals => "equals"@,
        RuleOperator::Contains => "contains"@,
        RuleOperator::StartsWith => "starts with"@,
        RuleOperator::EndsWith => "ends with"@,
    }
}

impl RuleSubject {
    pub fn allows(&self, op: RuleOperator) -> (r: bool)
        ensures
            r == subject_allows(*self, op),
    {
        match self {
            RuleSubject::RemoteHost => op == RuleOperator::Equals || op == RuleOperator::EndsWith,
            RuleSubject::RemoteOwner => op == RuleOperator::Equals,
            _ => true,
        }
    }

    pub fn label(&self) -> (r: &'static str)
        ensures
            r@ == subject_label(*self),
    {
        match self {
            RuleSubject::RepoPath => "repository path",
            RuleSubject::RepoName => "repository name",
            RuleSubject::RemoteUrl => "remote URL",
            RuleSubject::RemoteHost => "remote host",
            RuleSubject::RemoteOwner => "remote owner",
        }
    }
}

impl RuleOperator {
    pub fn label(&self) -> (r: &'static str)
        ensures
            r@ == operator_label(*self),
    {
        match self {
            RuleOperator::Equals => "equals",
            RuleOperator::Contains => "contains",
            RuleOperator::StartsWith => "starts with",
            RuleOperator::EndsWith => "ends with",
        }
    }
}

/// One condition: `subject operator value`.
#[derive(Debug, Clone)]
pub struct RuleCondition {
    pub subject: RuleSubject,
    pub operator: RuleOperator,
    pub value: String,
}

/// The facts about a repository that rules are evaluated against.
#[derive(Debug, Clone)]
pub struct EvaluationContext {
    pub path: String,
    pub name: String,
    pub remote_url: Option<String>,
    /// Lowercased host of the remote, when it parses.
    pub remote_host: Option<String>,
    /// First path segment of the remote, when it parses.
    pub remote_owner: Option<String>,
}

/// The host of a remote URL (any supported form).
pub open spec fn remote_host_of(remote: Option<Seq<char>>) -> Option<Seq<char>> {
    match remote {
        Some(u) => match any_remote(u) {
            Some((h, _)) => Some(h),
            None => None,
        },
        None => None,
    }
}

/// The owner of a remote URL (any supported form).
pub open spec fn remote_owner_of(remote: Option<Seq<char>>) -> Option<Seq<char>> {
    match remote {
        Some(u) => match any_remote(u) {
            Some((_, p)) => path_owner(p),
            None => None,
        },
        None => None,
    }
}

impl EvaluationContext {
    /// The context for a repository at `path` named `name` with an optional remote.
    pub fn from_parts(path: &str, name: &str, remote_url: Option<&str>) -> (c: Self)
        ensures
            c.path@ == path@,
            c.name@ == name@,
            opt_view(c.remote_url) == (match remote_url {
                Some(u) => Some(u@),
                None => None::<Seq<char>>,
            }),
            c.wf(),
    {
        let (url, host, owner) = match remote_url {
            Some(u) => {
                let parsed = parse_remote(u);
                match parsed {
                    Some((h, p)) => {
                        let o = owner_of(p.as_str());
                        (Some(String::from_str(u)), Some(h), o)
                    },
                    None => (Some(String::from_str(u)), None, None),
                }
            },
            None => (None, None, None),
        };
        EvaluationContext {
            path: String::from_str(path),
            name: String::from_str(name),
            remote_url: url,
            remote_host: host,
            remote_owner: owner,
        }
    }

    /// The host and owner are those of the remote URL.
    pub open spec fn wf(self) -> bool {
        &&& opt_view(self.remote_host) == remote_host_of(opt_view(self.remote_url))
        &&& opt_view(self.remote_owner) == remote_owner_of(opt_view(self.remote_url))
    }
}

/// The value of `subject` in the context, if the repository has one.
pub open spec fn subject_value(c: EvaluationContext, s: RuleSubject) -> Option<Seq<char>> {
    match s {
        RuleSubject::RepoPath => Some(c.path@),
        RuleSubject::RepoName => Some(c.name@),
        RuleSubject::RemoteUrl => opt_view(c.remote_url),
        RuleSubject::RemoteHost => opt_view(c.remote_host),
        RuleSubject::RemoteOwner => opt_view(c.remote_owner),
    }
}

pub open spec fn operator_holds(op: RuleOperator, v: Seq<char>, pat: Seq<char>) -> bool {
    match op {
        RuleOperator::Equals => v == pat,
        RuleOperator::Contains => contains_seq(v, pat),
        RuleOperator::StartsWith => starts_with_seq(v, pat),
        RuleOperator::EndsWith => ends_with_seq(v, pat),
    }
}

/// The condition holds of the repository.
pub open spec fn cond_matches(cond: RuleCondition, c: EvaluationContext) -> bool {
    match subject_value(c, cond.subject) {
        Some(v) => operator_holds(cond.operator, v, cond.value@),
        None => false,
    }
}

/// Why a condition matched: `<subject> <operator> "<value>"`.
pub open spec fn reason_text(cond: RuleCondition) -> Seq<char> {
    subject_label(cond.subject) + " "@ + operator_label(cond.operator) + " \""@ + cond.value@
        + "\""@
}

impl RuleCondition {
    pub fn duplicate(&self) -> (r: Self)
        ensures
            r == *self,
    {
        RuleCondition { subject: self.subject, operator: self.operator, value: self.value.clone() }
    }

    /// `Some(reason)` when the condition holds of the context.
    pub fn matches(&self, ctx: &EvaluationContext) -> (r: Option<String>)
        ensures
            r is Some == cond_matches(*self, *ctx),
            r matches Some(s) ==> s@ == reason_text(*self),
    {
        let v: Option<&String> = match self.subject {
            RuleSubject::RepoPath => Some(&ctx.path),
            RuleSubject::RepoName => Some(&ctx.name),
            RuleSubject::RemoteUrl => ctx.remote_url.as_ref(),
            RuleSubject::RemoteHost => ctx.remote_host.as_ref(),
            RuleSubject::RemoteOwner => ctx.remote_owner.as_ref(),
        };
        let v = match v {
            Some(v) => v,
            None => {
                return None;
            },
        };
        let pat = self.value.as_str();
        let holds = match self.operator {
            RuleOperator::Equals => str_eq(v.as_str(), pat),
            RuleOperator::Contains => contains(v.as_str(), pat),
            RuleOperator::StartsWith => starts_with(v.as_str(), pat),
            RuleOperator::EndsWith => ends_with(v.as_str(), pat),
        };
        if !holds {
            return None;
        }
        let mut reason = String::from_str(self.subject.label());
        reason.append(" ");
        reason.append(self.operator.label());
        reason.append(" \"");
        reason.append(pat);
        reason.append("\"");
        Some(reason)
    }
}

/// A routing rule.
#[derive(Debug, Clone)]
pub struct Rule {
    pub id: u128,
    pub name: String,
    pub enabled: bool,
    /// Lower values are evaluated first.
    pub priority: i32,
    pub target_profile_id: u128,
    pub condition: RuleCondition,
    pub created_at: i64,
    pub updated_at: i64,
}

impl Record for Rule {
    open spec fn id_of(&self) -> u128 {
        self.id
    }

    fn id(&self) -> (r: u128) {
        self.id
    }

    fn duplicate(&self) -> (r: Self) {
        Rule {
            id: self.id,
            name: self.name.clone(),
            enabled: self.enabled,
            priority: self.priority,
            target_profile_id: self.target_profile_id,
            condition: self.condition.duplicate(),
            created_at: self.created_at,
            updated_at: self.updated_at,
        }
    }
}

/// The rule that decided a profile, and why.
#[derive(Debug, Clone)]
pub struct RuleMatch {
    pub rule_id: u128,
    pub rule_name: String,
    pub profile_id: u128,
    pub reason: String,
}

impl RuleMatch {
    pub fn duplicate(&self) -> (r: Self)
        ensures
            r == *self,
    {
        RuleMatch {
            rule_id: self.rule_id,
            rule_name: self.rule_name.clone(),
            profile_id: self.profile_id,
            reason: self.reason.clone(),
        }
    }

    /// The match reports `rule` as matched.
    pub open spec fn describes(self, rule: Rule) -> bool {
        &&& self.rule_id == rule.id
        &&& self.rule_name == rule.name
        &&& self.profile_id == rule.target_profile_id
        &&& self.reason@ == reason_text(rule.condition)
    }
}

pub fn clone_opt_match(m: &Option<RuleMatch>) -> (r: Option<RuleMatch>)
    ensures
        r == *m,
{
    match m {
        Some(x) => Some(x.duplicate()),
        None => None,
    }
}

/// A hypothetical repository to preview the rules against.
#[derive(Debug, Clone)]
pub struct RulePreviewInput {
    pub path: String,
    pub name: String,
    pub remote_url: Option<String>,
}

/// The outcome of a preview.
#[derive(Debug, Clone)]
pub struct RulePreviewResult {
    pub matched: Option<RuleMatch>,
}

/// Dashboard counts.
#[derive(Debug, Clone)]
pub struct RuleSummary {
    pub active: u32,
    pub disabled: u32,
    pub last_match: Option<RuleMatch>,
}

/// A rule can decide for the repository: it is enabled and its condition holds.
pub open spec fn candidate(r: Rule, c: EvaluationContext) -> bool {
    r.enabled && cond_matches(r.condition, c)
}

/// Rule `i` is evaluated before rule `j`: lower priority first, then
/// earlier position.
pub open spec fn precedes(s: Seq<Rule>, i: int, j: int) -> bool {
    s[i].priority < s[j].priority || (s[i].priority == s[j].priority && i < j)
}

/// Rule `i` is the first candidate in evaluation order.
pub open spec fn is_winner(s: Seq<Rule>, c: EvaluationContext, i: int) -> bool {
    &&& 0 <= i < s.len()
    &&& candidate(s[i], c)
    &&& forall|j: int| 0 <= j < s.len() && j != i && candidate(s[j], c) ==> precedes(s, i, j)
}

/// The evaluation of `s` against `c`: the first enabled matching rule in
/// priority order (ties in store order), or nothing.
pub open spec fn evaluation(s: Seq<Rule>, c: EvaluationContext, r: Option<RuleMatch>) -> bool {
    match r {
        Some(m) => exists|i: int| is_winner(s, c, i) && m.describes(#[trigger] s[i]),
        None => forall|i: int| 0 <= i < s.len() ==> !candidate(#[trigger] s[i], c),
    }
}

/// Two evaluation outcomes name the same rule, profile and reason.
pub open spec fn same_outcome(a: Option<RuleMatch>, b: Option<RuleMatch>) -> bool {
    match (a, b) {
        (None, None) => true,
        (Some(x), Some(y)) => {
            &&& x.rule_id == y.rule_id
            &&& x.rule_name == y.rule_name
            &&& x.profile_id == y.profile_id
            &&& x.reason@ == y.reason@
        },
        _ => false,
    }
}

/// Rules are deterministic: evaluating the same rules against two
/// repositories with the same path, name and remote URL gives the same
/// outcome, whichever context records them (the remote's host and owner are
/// derived from its URL).
pub proof fn lemma_evaluation_deterministic(
    s: Seq<Rule>,
    c1: EvaluationContext,
    c2: EvaluationContext,
    r1: Option<RuleMatch>,
    r2: Option<RuleMatch>,
)
    requires
        c1.wf(),
        c2.wf(),
        c1.path@ == c2.path@,
        c1.name@ == c2.name@,
        opt_view(c1.remote_url) == opt_view(c2.remote_url),
        evaluation(s, c1, r1),
        evaluation(s, c2, r2),
    ensures
        same_outcome(r1, r2),
{
    assert forall|i: int| 0 <= i < s.len() implies candidate(s[i], c1) == candidate(s[i], c2) by {
        assert(subject_value(c1, s[i].condition.subject) == subject_value(c2, s[i].condition.subject));
    }
    match (r1, r2) {
        (Some(x), Some(y)) => {
            let i = choose|i: int| is_winner(s, c1, i) && x.describes(#[trigger] s[i]);
            let j = choose|j: int| is_winner(s, c2, j) && y.describes(#[trigger] s[j]);
            if i != j {
                assert(precedes(s, i, j));
                assert(precedes(s, j, i));
            }
        },
        (Some(x), None) => {
            let i = choose|i: int| is_winner(s, c1, i) && x.describes(#[trigger] s[i]);
            assert(!candidate(s[i], c2));
        },
        (None, Some(y)) => {
            let j = choose|j: int| is_winner(s, c2, j) && y.describes(#[trigger] s[j]);
            assert(!candidate(s[j], c1));
        },
        (None, None) => {},
    }
}

/// Evaluate rules against a repository.
pub fn evaluate_rules(rules: &Vec<Rule>, ctx: &EvaluationContext) -> (r: Option<RuleMatch>)
    ensures
        evaluation(rules@, *ctx, r),
{
    let mut best: Option<usize> = None;
    let mut best_reason = String::new();
    let mut i: usize = 0;
    while i < rules.len()
        invariant
            i <= rules@.len(),
            match best {
                Some(b) => {
                    &&& b < i
                    &&& candidate(rules@[b as int], *ctx)
                    &&& best_reason@ == reason_text(rules@[b as int].condition)
                    &&& forall|j: int|
                        0 <= j < i && j != b && candidate(#[trigger] rules@[j], *ctx) ==> precedes(
                            rules@,
                            b as int,
                            j,
                        )
                },
                None => forall|j: int| 0 <= j < i ==> !candidate(#[trigger] rules@[j], *ctx),
            },
        decreases rules@.len() - i,
    {
        let rule = &rules[i];
        if rule.enabled {
            match rule.condition.matches(ctx) {
                Some(reason) => {
                    let better = match best {
                        Some(b) => rule.priority < rules[b].priority,
                        None => true,
                    };
                    if better {
                        proof {
                            if let Some(b) = best {
                                assert forall|j: int|
                                    0 <= j < i + 1 && j != i && candidate(
                                        #[trigger] rules@[j],
                                        *ctx,
                                    ) implies precedes(rules@, i as int, j) by {
                                    if j != b {
                                        assert(precedes(rules@, b as int, j));
                                    }
                                }
                            }
                        }
                        best = Some(i);
                        best_reason = reason;
                    }
                },
                None => {},
            }
        }
        i = i + 1;
    }
    match best {
        Some(b) => {
            let rule = &rules[b];
            let m = RuleMatch {
                rule_id: rule.id,
                rule_name: rule.name.clone(),
                profile_id: rule.target_profile_id,
                reason: best_reason,
            };
            assert(is_winner(rules@, *ctx, b as int));
            Some(m)
        },
        None => None,
    }
}

} // verus!

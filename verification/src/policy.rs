//! Policy documents and their evaluation: deny unless an allow rule matches
//! and no deny rule matches.

use vstd::prelude::*;

use std::sync::Arc;

use crate::text::{chars_eq, concat2, is_prefix, starts_with_chars, to_chars};
use crate::text::{first_index, lemma_first_index, push_char};
use crate::workload::{
    raw_name, raw_namespace, slash_pos, valid_segment, valid_segment_char, valid_workload_id,
    workload_chars_prefix, workload_format_prefix, well_formed_id, WorkloadId, WorkloadIdError,
};

verus! {

broadcast use vstd::string::group_string_axioms;

/// What a rule does when it matches.
#[derive(Debug, Clone, Copy, PartialEq, Eq)]
pub enum RuleEffect {
    Allow,
    Deny,
}

/// One rule of a policy document.
#[derive(Debug, Clone)]
pub struct PolicyRule {
    pub id: String,
    pub effect: RuleEffect,
    pub subject: String,
    pub actions: Vec<String>,
    pub resources: Vec<String>,
}

/// A versioned list of rules.
#[derive(Debug, Clone)]
pub struct PolicyDocument {
    pub version: String,
    pub rules: Vec<PolicyRule>,
}

/// A request to be decided: may `subject` perform `action` on `resource`?
#[derive(Debug, Clone)]
pub struct PolicyRequest {
    pub subject: String,
    pub action: String,
    pub resource: String,
}

/// The effect of a decision.
#[derive(Debug, Clone, Copy, PartialEq, Eq)]
pub enum DecisionEffect {
    Allow,
    Deny,
}

/// Why a decision was taken.
#[derive(Debug, Clone, PartialEq, Eq)]
pub enum DecisionReason {
    MatchedAllow { rule_id: String },
    MatchedDeny { rule_id: String },
    NoMatch,
}

/// The outcome of evaluating a request against a policy.
#[derive(Debug, Clone, PartialEq, Eq)]
pub struct PolicyDecision {
    pub effect: DecisionEffect,
    pub reason: DecisionReason,
}

/// Pattern semantics: `*` matches anything, `p*` matches every value that
/// starts with `p`, any other pattern matches only itself.
pub open spec fn pattern_matches(pattern: Seq<char>, value: Seq<char>) -> bool {
    if pattern == seq!['*'] {
        true
    } else if pattern.len() > 0 && pattern.last() == '*' {
        is_prefix(pattern.drop_last(), value)
    } else {
        pattern == value
    }
}

/// Some pattern of the list matches the value.
pub open spec fn any_pattern(patterns: Seq<String>, value: Seq<char>) -> bool {
    exists|i: int| 0 <= i < patterns.len() && pattern_matches(#[trigger] patterns[i]@, value)
}

/// A rule applies to a request: subject, some action and some resource match.
pub open spec fn rule_matches(rule: PolicyRule, req: PolicyRequest) -> bool {
    &&& pattern_matches(rule.subject@, req.subject@)
    &&& any_pattern(rule.actions@, req.action@)
    &&& any_pattern(rule.resources@, req.resource@)
}

/// A rule applies to the request and has the given effect.
pub open spec fn applies_with(rule: PolicyRule, req: PolicyRequest, e: RuleEffect) -> bool {
    rule_matches(rule, req) && rule.effect == e
}

/// Index of the first rule at or after `start` that applies with effect `e`.
pub open spec fn first_applying(rules: Seq<PolicyRule>, req: PolicyRequest, e: RuleEffect, start: int) -> Option<int>
    decreases rules.len() - start,
{
    if start < 0 || start >= rules.len() {
        None
    } else if applies_with(rules[start], req, e) {
        Some(start)
    } else {
        first_applying(rules, req, e, start + 1)
    }
}

/// The decision the engine takes: the first matching deny rule wins; else the
/// first matching allow rule; else deny by default.
pub open spec fn policy_decision(rules: Seq<PolicyRule>, req: PolicyRequest) -> PolicyDecision {
    match first_applying(rules, req, RuleEffect::Deny, 0) {
        Some(i) => PolicyDecision {
            effect: DecisionEffect::Deny,
            reason: DecisionReason::MatchedDeny { rule_id: rules[i].id },
        },
        None => match first_applying(rules, req, RuleEffect::Allow, 0) {
            Some(i) => PolicyDecision {
                effect: DecisionEffect::Allow,
                reason: DecisionReason::MatchedAllow { rule_id: rules[i].id },
            },
            None => PolicyDecision { effect: DecisionEffect::Deny, reason: DecisionReason::NoMatch },
        },
    }
}

/// `first_applying` finds exactly the first applying rule at or after `start`.
pub proof fn lemma_first_applying(rules: Seq<PolicyRule>, req: PolicyRequest, e: RuleEffect, start: int)
    requires
        0 <= start,
    ensures
        first_applying(rules, req, e, start) matches Some(i) ==> start <= i < rules.len()
            && applies_with(rules[i], req, e) && forall|j: int|
            start <= j < i ==> !applies_with(#[trigger] rules[j], req, e),
        first_applying(rules, req, e, start) is None ==> forall|j: int|
            start <= j < rules.len() ==> !applies_with(#[trigger] rules[j], req, e),
    decreases rules.len() - start,
{
    if start < rules.len() && !applies_with(rules[start], req, e) {
        lemma_first_applying(rules, req, e, start + 1);
    }
}

/// Executable pattern matching (`*`, trailing-`*` prefix, or exact).
pub fn matches_pattern(pattern: &str, value: &str) -> (r: bool)
    ensures
        r == pattern_matches(pattern@, value@),
{
    let p = to_chars(pattern);
    let v = to_chars(value);
    if p.len() == 1 && p[0] == '*' {
        assert(p@ =~= seq!['*']);
        return true;
    }
    assert(p@ != seq!['*']);
    if p.len() > 0 && p[p.len() - 1] == '*' {
        let r = starts_with_chars(&v, &p, p.len() - 1);
        assert(p@.subrange(0, p.len() - 1) =~= p@.drop_last());
        return r;
    }
    chars_eq(&p, &v)
}

/// Whether some pattern of the list matches the value.
pub fn any_pattern_matches(patterns: &Vec<String>, value: &str) -> (r: bool)
    ensures
        r == any_pattern(patterns@, value@),
{
    let mut i: usize = 0;
    while i < patterns.len()
        invariant
            i <= patterns.len(),
            forall|j: int| 0 <= j < i ==> !pattern_matches(#[trigger] patterns@[j]@, value@),
        decreases patterns.len() - i,
    {
        if matches_pattern(patterns[i].as_str(), value) {
            return true;
        }
        i += 1;
    }
    false
}

/// Whether a rule applies to a request.
pub fn matches_request(rule: &PolicyRule, request: &PolicyRequest) -> (r: bool)
    ensures
        r == rule_matches(*rule, *request),
        r ==> pattern_matches(rule.subject@, request.subject@),
        r ==> exists|j: int| 0 <= j < rule.actions@.len() && pattern_matches(#[trigger] rule.actions@[j]@, request.action@),
        r ==> exists|k: int| 0 <= k < rule.resources@.len() && pattern_matches(#[trigger] rule.resources@[k]@, request.resource@),
{
    matches_pattern(rule.subject.as_str(), request.subject.as_str()) && any_pattern_matches(
        &rule.actions,
        request.action.as_str(),
    ) && any_pattern_matches(&rule.resources, request.resource.as_str())
}

/// Evaluate a request against a policy: the first matching deny rule wins,
/// then the first matching allow rule; with no matching rule the request is
/// denied by default.
pub fn evaluate_policy(policy: &PolicyDocument, request: &PolicyRequest) -> (d: PolicyDecision)
    ensures
        d == policy_decision(policy.rules@, *request),
{
    let ghost rules = policy.rules@;
    let ghost req = *request;
    let mut first_allow: Option<usize> = None;
    let mut first_deny: Option<usize> = None;
    let mut i: usize = 0;
    while i < policy.rules.len()
        invariant
            i <= policy.rules.len(),
            rules == policy.rules@,
            req == *request,
            first_applying(rules, req, RuleEffect::Allow, 0) == match first_allow {
                Some(k) => Some(k as int),
                None => first_applying(rules, req, RuleEffect::Allow, i as int),
            },
            first_applying(rules, req, RuleEffect::Deny, 0) == match first_deny {
                Some(k) => Some(k as int),
                None => first_applying(rules, req, RuleEffect::Deny, i as int),
            },
            first_allow matches Some(k) ==> k < i,
            first_deny matches Some(k) ==> k < i,
        decreases policy.rules.len() - i,
    {
        let rule = &policy.rules[i];
        if matches_request(rule, request) {
            match rule.effect {
                RuleEffect::Allow => {
                    if first_allow.is_none() {
                        first_allow = Some(i);
                    }
                },
                RuleEffect::Deny => {
                    if first_deny.is_none() {
                        first_deny = Some(i);
                    }
                },
            }
        }
        i += 1;
    }
    match first_deny {
        Some(k) => PolicyDecision {
            effect: DecisionEffect::Deny,
            reason: DecisionReason::MatchedDeny { rule_id: policy.rules[k].id.clone() },
        },
        None => match first_allow {
            Some(k) => PolicyDecision {
                effect: DecisionEffect::Allow,
                reason: DecisionReason::MatchedAllow { rule_id: policy.rules[k].id.clone() },
            },
            None => PolicyDecision { effect: DecisionEffect::Deny, reason: DecisionReason::NoMatch },
        },
    }
}

/// Deny by default: a request is allowed exactly when some allow rule
/// applies to it and no deny rule does.
pub proof fn law_allow_iff_allow_and_no_deny(rules: Seq<PolicyRule>, req: PolicyRequest)
    ensures
        policy_decision(rules, req).effect == DecisionEffect::Allow <==> (exists|i: int|
            0 <= i < rules.len() && applies_with(#[trigger] rules[i], req, RuleEffect::Allow))
            && !(exists|i: int|
            0 <= i < rules.len() && applies_with(#[trigger] rules[i], req, RuleEffect::Deny)),
{
    lemma_first_applying(rules, req, RuleEffect::Allow, 0);
    lemma_first_applying(rules, req, RuleEffect::Deny, 0);
}

/// Deny overrides allow: whenever some deny rule applies, the decision is
/// a deny that names the first applying deny rule, whatever allow rules match.
pub proof fn law_deny_overrides(rules: Seq<PolicyRule>, req: PolicyRequest, k: int)
    requires
        0 <= k < rules.len(),
        applies_with(rules[k], req, RuleEffect::Deny),
    ensures
        policy_decision(rules, req).effect == DecisionEffect::Deny,
        exists|i: int|
            0 <= i <= k && policy_decision(rules, req).reason == (DecisionReason::MatchedDeny {
                rule_id: rules[i].id,
            }) && applies_with(#[trigger] rules[i], req, RuleEffect::Deny),
{
    lemma_first_applying(rules, req, RuleEffect::Deny, 0);
    let i = first_applying(rules, req, RuleEffect::Deny, 0)->0;
    assert(0 <= i <= k && applies_with(rules[i], req, RuleEffect::Deny));
}

proof fn lemma_first_applying_insert(rules: Seq<PolicyRule>, req: PolicyRequest, e: RuleEffect, x: PolicyRule, pos: int)
    requires
        0 <= pos <= rules.len(),
        !applies_with(x, req, e),
    ensures
        first_applying(rules, req, e, 0) matches Some(i) ==> first_applying(rules.insert(pos, x), req, e, 0) == Some(
            if i < pos { i } else { i + 1 },
        ),
        first_applying(rules, req, e, 0) is None ==> first_applying(rules.insert(pos, x), req, e, 0) is None,
{
    let r2 = rules.insert(pos, x);
    lemma_first_applying(rules, req, e, 0);
    lemma_first_applying(r2, req, e, 0);
    assert forall|j: int| 0 <= j < r2.len() && j != pos implies #[trigger] r2[j] == rules[if j < pos { j } else { j - 1 }] by {
    }
    assert(r2[pos] == x);
    match first_applying(rules, req, e, 0) {
        Some(i) => {
            let i2 = if i < pos { i } else { i + 1 };
            assert(r2[i2] == rules[i]);
            match first_applying(r2, req, e, 0) {
                Some(b) => {
                    if b < i2 {
                        assert(b != pos);
                        let b0 = if b < pos { b } else { b - 1 };
                        assert(r2[b] == rules[b0]);
                        assert(!applies_with(rules[b0], req, e));
                    } else if b > i2 {
                        assert(!applies_with(r2[i2], req, e));
                    }
                },
                None => {
                    assert(!applies_with(r2[i2], req, e));
                },
            }
        },
        None => {
            if first_applying(r2, req, e, 0) is Some {
                let b = first_applying(r2, req, e, 0)->0;
                assert(b != pos);
                let b0 = if b < pos { b } else { b - 1 };
                assert(r2[b] == rules[b0]);
                assert(!applies_with(rules[b0], req, e));
            }
        },
    }
}

/// Inserting a rule anywhere: one that matches nothing of the request leaves
/// the decision as it was; a deny rule that matches makes it a deny.
pub proof fn law_insert_rule(rules: Seq<PolicyRule>, req: PolicyRequest, x: PolicyRule, pos: int)
    requires
        0 <= pos <= rules.len(),
    ensures
        !rule_matches(x, req) ==> policy_decision(rules.insert(pos, x), req) == policy_decision(rules, req),
        applies_with(x, req, RuleEffect::Deny) ==> policy_decision(rules.insert(pos, x), req).effect
            == DecisionEffect::Deny,
{
    let r2 = rules.insert(pos, x);
    if !rule_matches(x, req) {
        lemma_first_applying_insert(rules, req, RuleEffect::Deny, x, pos);
        lemma_first_applying_insert(rules, req, RuleEffect::Allow, x, pos);
        lemma_first_applying(rules, req, RuleEffect::Deny, 0);
        lemma_first_applying(rules, req, RuleEffect::Allow, 0);
        match first_applying(rules, req, RuleEffect::Deny, 0) {
            Some(i) => {
                assert(r2[if i < pos { i } else { i + 1 }] == rules[i]);
            },
            None => {
                match first_applying(rules, req, RuleEffect::Allow, 0) {
                    Some(i) => {
                        assert(r2[if i < pos { i } else { i + 1 }] == rules[i]);
                    },
                    None => {},
                }
            },
        }
    }
    if applies_with(x, req, RuleEffect::Deny) {
        assert(r2[pos] == x);
        law_deny_overrides(r2, req, pos);
    }
}

/// An allow names a rule that allows and matches the request in every part:
/// its subject pattern, one of its action patterns and one of its resource
/// patterns. When no rule has a resource pattern matching the request's
/// resource, the request is denied with no matching rule.
pub proof fn law_allow_needs_full_match(rules: Seq<PolicyRule>, req: PolicyRequest)
    ensures
        policy_decision(rules, req).effect == DecisionEffect::Allow ==> exists|i: int|
            0 <= i < rules.len() && (#[trigger] rules[i]).effect == RuleEffect::Allow
                && policy_decision(rules, req).reason == (DecisionReason::MatchedAllow { rule_id: rules[i].id })
                && pattern_matches(rules[i].subject@, req.subject@)
                && (exists|j: int| 0 <= j < rules[i].actions@.len() && pattern_matches(#[trigger] rules[i].actions@[j]@, req.action@))
                && (exists|k: int| 0 <= k < rules[i].resources@.len() && pattern_matches(#[trigger] rules[i].resources@[k]@, req.resource@)),
        (forall|i: int, k: int| 0 <= i < rules.len() && 0 <= k < rules[i].resources@.len() ==> !pattern_matches(
            #[trigger] rules[i].resources@[k]@,
            req.resource@,
        )) ==> policy_decision(rules, req) == (PolicyDecision { effect: DecisionEffect::Deny, reason: DecisionReason::NoMatch }),
{
    lemma_first_applying(rules, req, RuleEffect::Allow, 0);
    lemma_first_applying(rules, req, RuleEffect::Deny, 0);
    if policy_decision(rules, req).effect == DecisionEffect::Allow {
        let i = first_applying(rules, req, RuleEffect::Allow, 0)->0;
        assert(rule_matches(rules[i], req));
        let k = choose|k: int| 0 <= k < rules[i].resources@.len() && pattern_matches(#[trigger] rules[i].resources@[k]@, req.resource@);
        let j = choose|j: int| 0 <= j < rules[i].actions@.len() && pattern_matches(#[trigger] rules[i].actions@[j]@, req.action@);
        assert(pattern_matches(rules[i].resources@[k]@, req.resource@));
        assert(pattern_matches(rules[i].actions@[j]@, req.action@));
    }
    if forall|i: int, k: int| 0 <= i < rules.len() && 0 <= k < rules[i].resources@.len() ==> !pattern_matches(
        #[trigger] rules[i].resources@[k]@,
        req.resource@,
    ) {
        assert forall|i: int| 0 <= i < rules.len() implies !rule_matches(#[trigger] rules[i], req) by {
            if rule_matches(rules[i], req) {
                let k = choose|k: int| 0 <= k < rules[i].resources@.len() && pattern_matches(#[trigger] rules[i].resources@[k]@, req.resource@);
                assert(!pattern_matches(rules[i].resources@[k]@, req.resource@));
            }
        }
        match first_applying(rules, req, RuleEffect::Deny, 0) {
            Some(i) => { assert(rule_matches(rules[i], req)); },
            None => {},
        }
        match first_applying(rules, req, RuleEffect::Allow, 0) {
            Some(i) => { assert(rule_matches(rules[i], req)); },
            None => {},
        }
    }
}

/// The reason is `NoMatch` exactly when no rule applies to the request, and
/// then the decision is a deny.
pub proof fn law_no_match_is_deny(rules: Seq<PolicyRule>, req: PolicyRequest)
    ensures
        policy_decision(rules, req).reason == DecisionReason::NoMatch <==> forall|i: int|
            0 <= i < rules.len() ==> !rule_matches(#[trigger] rules[i], req),
        policy_decision(rules, req).reason == DecisionReason::NoMatch ==> policy_decision(
            rules,
            req,
        ).effect == DecisionEffect::Deny,
{
    lemma_first_applying(rules, req, RuleEffect::Allow, 0);
    lemma_first_applying(rules, req, RuleEffect::Deny, 0);
    if first_applying(rules, req, RuleEffect::Deny, 0) is None && first_applying(
        rules,
        req,
        RuleEffect::Allow,
        0,
    ) is None {
        assert forall|i: int| 0 <= i < rules.len() implies !rule_matches(#[trigger] rules[i], req) by {
            assert(!applies_with(rules[i], req, RuleEffect::Allow));
            assert(!applies_with(rules[i], req, RuleEffect::Deny));
        }
    }
}

/// The (effect, reason, rule id) strings that the gRPC service answers with.
pub open spec fn decision_fields(d: PolicyDecision) -> (Seq<char>, Seq<char>, Seq<char>) {
    let effect = match d.effect {
        DecisionEffect::Allow => "allow"@,
        DecisionEffect::Deny => "deny"@,
    };
    match d.reason {
        DecisionReason::MatchedAllow { rule_id } => (effect, "allowed by matching rule"@, rule_id@),
        DecisionReason::MatchedDeny { rule_id } => (effect, "denied by matching rule"@, rule_id@),
        DecisionReason::NoMatch => (
            effect,
            "denied by default because no matching rule was found"@,
            Seq::empty(),
        ),
    }
}

/// Map a decision to the wire fields (effect, reason, rule id).
pub fn map_decision_fields(decision: &PolicyDecision) -> (r: (String, String, String))
    ensures
        (r.0@, r.1@, r.2@) == decision_fields(*decision),
{
    let effect = match decision.effect {
        DecisionEffect::Allow => String::from_str("allow"),
        DecisionEffect::Deny => String::from_str("deny"),
    };
    match &decision.reason {
        DecisionReason::MatchedAllow { rule_id } => (
            effect,
            String::from_str("allowed by matching rule"),
            rule_id.clone(),
        ),
        DecisionReason::MatchedDeny { rule_id } => (
            effect,
            String::from_str("denied by matching rule"),
            rule_id.clone(),
        ),
        DecisionReason::NoMatch => (
            effect,
            String::from_str("denied by default because no matching rule was found"),
            String::new(),
        ),
    }
}


/// Subject-pattern semantics: `*` matches every subject; `ns/*` matches the
/// subjects of namespace `ns` (by parsed namespace when the subject is a valid
/// workload id, by the raw prefix `ns/` otherwise); any other pattern matches
/// only itself.
pub open spec fn subject_pattern_matches(pattern: Seq<char>, subject: Seq<char>) -> bool {
    if pattern == seq!['*'] {
        true
    } else if pattern.len() >= 2 && pattern[pattern.len() - 2] == '/' && pattern.last() == '*' {
        let prefix = pattern.subrange(0, pattern.len() - 2);
        if valid_workload_id(subject) {
            raw_namespace(subject) == prefix
        } else {
            is_prefix(prefix.push('/'), subject)
        }
    } else {
        pattern == subject
    }
}

/// Check whether a subject matches a policy rule subject pattern.
pub fn subject_matches(pattern: &str, subject: &str) -> (r: bool)
    ensures
        r == subject_pattern_matches(pattern@, subject@),
{
    let p = to_chars(pattern);
    if p.len() == 1 && p[0] == '*' {
        assert(p@ =~= seq!['*']);
        return true;
    }
    assert(p@ != seq!['*']);
    if p.len() >= 2 && p[p.len() - 2] == '/' && p[p.len() - 1] == '*' {
        let mut prefix_slash = p.clone();
        prefix_slash.pop();
        assert(prefix_slash@ =~= p@.subrange(0, p.len() - 2).push('/'));
        match WorkloadId::parse(subject) {
            Ok(id) => {
                let ns = to_chars(id.namespace());
                let r = starts_with_chars(&ns, &p, p.len() - 2)
                    && ns.len() == p.len() - 2;
                assert(ns.len() == p.len() - 2 ==> ns@.subrange(0, ns.len() as int) =~= ns@);
                assert(r == (ns@ == p@.subrange(0, p.len() - 2)));
                return r;
            },
            Err(_) => {
                let s = to_chars(subject);
                let n = prefix_slash.len();
                let r = starts_with_chars(&s, &prefix_slash, n);
                assert(prefix_slash@.subrange(0, n as int) =~= prefix_slash@);
                return r;
            },
        }
    }
    let s = to_chars(subject);
    chars_eq(&p, &s)
}

/// A namespace wildcard `ns/*` matches exactly the subjects that start with
/// `ns/`, whether or not the subject is a valid workload id.
pub proof fn law_namespace_wildcard_is_prefix(pattern: Seq<char>, subject: Seq<char>)
    requires
        pattern.len() >= 2,
        pattern[pattern.len() - 2] == '/',
        pattern.last() == '*',
        pattern != seq!['*'],
    ensures
        subject_pattern_matches(pattern, subject) == is_prefix(pattern.drop_last(), subject),
{
    let prefix = pattern.subrange(0, pattern.len() - 2);
    assert(pattern.drop_last() =~= prefix.push('/'));
    if valid_workload_id(subject) {
        let k = slash_pos(subject);
        lemma_first_index(subject, '/');
        let ps = prefix.push('/');
        if raw_namespace(subject) == prefix {
            assert(subject.subrange(0, ps.len() as int) =~= ps);
        }
        if is_prefix(ps, subject) {
            let n = prefix.len() as int;
            assert(subject[n] == ps[n]);
            assert(k <= n);
            if k < n {
                let name = raw_name(subject);
                assert(name[n - k - 1] == subject[n]);
                assert(valid_segment_char(name[n - k - 1]));
            }
            assert(raw_namespace(subject) =~= prefix) by {
                assert forall|j: int| 0 <= j < n implies subject[j] == prefix[j] by {
                    assert(subject.subrange(0, ps.len() as int)[j] == ps[j]);
                }
            }
        }
    }
}

/// Validate that a subject is a well-formed workload identifier, with the
/// parse error's message on failure.
pub fn validate_subject(subject: &str) -> (r: Result<WorkloadId, String>)
    ensures
        valid_workload_id(subject@) <==> r is Ok,
        r matches Ok(id) ==> id.spec_namespace() == raw_namespace(subject@) && id.spec_name()
            == raw_name(subject@),
        r matches Err(m) ==> (!well_formed_id(subject@) && m@ == workload_format_prefix()
            + subject@) || (well_formed_id(subject@) && m@ == workload_chars_prefix() + subject@),
{
    match WorkloadId::parse(subject) {
        Ok(id) => Ok(id),
        Err(e) => Err(e.message()),
    }
}

/// The policy service: answers evaluation requests against the policy it
/// was started with.
#[derive(Clone)]
pub struct PolicyGrpcService {
    policy: Arc<PolicyDocument>,
}

impl PolicyGrpcService {
    /// The policy the service answers with.
    pub closed spec fn spec_policy(&self) -> PolicyDocument {
        *self.policy
    }

    /// A service answering with `policy`.
    pub fn new(policy: Arc<PolicyDocument>) -> (s: PolicyGrpcService)
        ensures
            s.spec_policy() == *policy,
    {
        PolicyGrpcService { policy }
    }

    /// Answer one evaluation request: the effect (`allow` or `deny`), the
    /// reason and the id of the deciding rule (empty when none matched).
    pub fn evaluate(&self, subject: String, action: String, resource: String) -> (r: (String, String, String))
        ensures
            (r.0@, r.1@, r.2@) == decision_fields(
                policy_decision(
                    self.spec_policy().rules@,
                    PolicyRequest { subject, action, resource },
                ),
            ),
    {
        let input = PolicyRequest { subject, action, resource };
        let decision = evaluate_policy(&*self.policy, &input);
        map_decision_fields(&decision)
    }
}

/// The modification stamp of the policy file as last loaded, for hot
/// reload: a poll that sees another stamp reloads; a failed reload keeps
/// the old stamp, so the next poll tries again.
#[derive(Debug, Clone, Copy)]
pub struct ReloadTracker {
    pub last_modified: Option<u128>,
}

impl ReloadTracker {
    /// Start tracking from the stamp the policy was first loaded with.
    pub fn new(initial: Option<u128>) -> (t: ReloadTracker)
        ensures
            t.last_modified == initial,
    {
        ReloadTracker { last_modified: initial }
    }

    /// Whether a poll that sees `current` must reload the policy.
    pub fn should_reload(&self, current: Option<u128>) -> (r: bool)
        ensures
            r == (current != self.last_modified),
    {
        match (current, self.last_modified) {
            (Some(a), Some(b)) => a != b,
            (None, None) => false,
            _ => true,
        }
    }

    /// Record the outcome of a reload attempted at stamp `current`.
    pub fn record(&mut self, current: Option<u128>, loaded: bool)
        ensures
            final(self).last_modified == stamp_after(old(self).last_modified, current, loaded),
    {
        if loaded {
            self.last_modified = current;
        }
    }
}

/// The stamp kept after a reload attempted at `current`: the new one when
/// it loaded, the old one when it failed.
pub open spec fn stamp_after(last: Option<u128>, current: Option<u128>, loaded: bool) -> Option<u128> {
    if loaded {
        current
    } else {
        last
    }
}

/// A reload that failed is retried at the next poll that sees the same
/// stamp; one that succeeded is not repeated until the stamp changes again.
pub proof fn law_failed_reload_retried(last: Option<u128>, current: Option<u128>)
    requires
        current != last,
    ensures
        current != stamp_after(last, current, false),
        current == stamp_after(last, current, true),
{
}

} // verus!

use std::sync::Arc;

use llmos::policy::{
    evaluate_policy, matches_pattern, DecisionEffect, DecisionReason, PolicyDocument,
    PolicyGrpcService, PolicyRequest, PolicyRule, ReloadTracker, RuleEffect,
};

fn test_policy(rules: Vec<PolicyRule>) -> PolicyDocument {
    PolicyDocument {
        version: "v1".to_string(),
        rules,
    }
}

fn allow_rule(id: &str) -> PolicyRule {
    PolicyRule {
        id: id.to_string(),
        effect: RuleEffect::Allow,
        subject: "runtime/model-runtime".to_string(),
        actions: vec!["network:connect".to_string()],
        resources: vec!["api.openai.com".to_string()],
    }
}

fn deny_rule(id: &str) -> PolicyRule {
    PolicyRule {
        id: id.to_string(),
        effect: RuleEffect::Deny,
        subject: "runtime/model-runtime".to_string(),
        actions: vec!["network:connect".to_string()],
        resources: vec!["api.openai.com".to_string()],
    }
}

fn connect_request() -> PolicyRequest {
    PolicyRequest {
        subject: "runtime/model-runtime".to_string(),
        action: "network:connect".to_string(),
        resource: "api.openai.com".to_string(),
    }
}

#[test]
fn allow_when_allow_rule_matches() {
    let policy = test_policy(vec![allow_rule("allow-1")]);
    let request = connect_request();
    let decision = evaluate_policy(&policy, &request);
    assert_eq!(decision.effect, DecisionEffect::Allow);
    assert_eq!(
        decision.reason,
        DecisionReason::MatchedAllow {
            rule_id: "allow-1".to_string()
        }
    );
}

#[test]
fn deny_when_no_rule_matches() {
    let policy = test_policy(vec![allow_rule("allow-1")]);
    let request = PolicyRequest {
        subject: "runtime/mcp-runtime".to_string(),
        action: "fs:write".to_string(),
        resource: "/".to_string(),
    };
    let decision = evaluate_policy(&policy, &request);
    assert_eq!(decision.effect, DecisionEffect::Deny);
    assert_eq!(decision.reason, DecisionReason::NoMatch);
}

#[test]
fn deny_rule_overrides_allow_rule() {
    let policy = test_policy(vec![allow_rule("allow-1"), deny_rule("deny-1")]);
    let decision = evaluate_policy(&policy, &connect_request());
    assert_eq!(decision.effect, DecisionEffect::Deny);
    assert_eq!(
        decision.reason,
        DecisionReason::MatchedDeny {
            rule_id: "deny-1".to_string()
        }
    );
}

#[test]
fn wildcard_prefix_matches() {
    let policy = test_policy(vec![PolicyRule {
        id: "allow-prefix".to_string(),
        effect: RuleEffect::Allow,
        subject: "runtime/*".to_string(),
        actions: vec!["network:*".to_string()],
        resources: vec!["api.*".to_string()],
    }]);
    let decision = evaluate_policy(&policy, &connect_request());
    assert_eq!(decision.effect, DecisionEffect::Allow);
}

#[test]
fn first_matching_rule_is_reported() {
    let policy = test_policy(vec![
        allow_rule("allow-1"),
        allow_rule("allow-2"),
        deny_rule("deny-1"),
        deny_rule("deny-2"),
    ]);
    let decision = evaluate_policy(&policy, &connect_request());
    assert_eq!(
        decision.reason,
        DecisionReason::MatchedDeny {
            rule_id: "deny-1".to_string()
        }
    );
    let only_allows = test_policy(vec![allow_rule("allow-1"), allow_rule("allow-2")]);
    assert_eq!(
        evaluate_policy(&only_allows, &connect_request()).reason,
        DecisionReason::MatchedAllow {
            rule_id: "allow-1".to_string()
        }
    );
}

#[test]
fn empty_policy_denies() {
    let decision = evaluate_policy(&test_policy(vec![]), &connect_request());
    assert_eq!(decision.effect, DecisionEffect::Deny);
    assert_eq!(decision.reason, DecisionReason::NoMatch);
}

#[test]
fn pattern_semantics() {
    assert!(matches_pattern("*", "anything"));
    assert!(matches_pattern("api.*", "api.openai.com"));
    assert!(matches_pattern("api.*", "api."));
    assert!(!matches_pattern("api.*", "ap"));
    assert!(matches_pattern("exact", "exact"));
    assert!(!matches_pattern("exact", "exactly"));
}

#[test]
fn grpc_service_answers_with_fields() {
    let service = PolicyGrpcService::new(Arc::new(test_policy(vec![
        allow_rule("allow-1"),
        deny_rule("deny-9"),
    ])));
    let (effect, reason, rule_id) = service.evaluate(
        "runtime/model-runtime".to_string(),
        "network:connect".to_string(),
        "api.openai.com".to_string(),
    );
    assert_eq!(effect, "deny");
    assert_eq!(reason, "denied by matching rule");
    assert_eq!(rule_id, "deny-9");

    let allow_only = PolicyGrpcService::new(Arc::new(test_policy(vec![allow_rule("allow-1")])));
    let (effect, reason, rule_id) = allow_only.evaluate(
        "runtime/model-runtime".to_string(),
        "network:connect".to_string(),
        "api.openai.com".to_string(),
    );
    assert_eq!(effect, "allow");
    assert_eq!(reason, "allowed by matching rule");
    assert_eq!(rule_id, "allow-1");

    let (effect, reason, rule_id) = allow_only.evaluate(
        "security/audit".to_string(),
        "fs:read".to_string(),
        "/etc".to_string(),
    );
    assert_eq!(effect, "deny");
    assert_eq!(reason, "denied by default because no matching rule was found");
    assert_eq!(rule_id, "");
}

#[test]
fn reload_tracker_retries_failed_reload() {
    let mut t = ReloadTracker::new(Some(10));
    assert!(!t.should_reload(Some(10)));
    assert!(t.should_reload(Some(11)));
    t.record(Some(11), false);
    assert!(t.should_reload(Some(11)));
    t.record(Some(11), true);
    assert!(!t.should_reload(Some(11)));
    assert!(t.should_reload(None));
    let none = ReloadTracker::new(None);
    assert!(!none.should_reload(None));
}

#[test]
fn inserting_a_non_matching_rule_changes_nothing() {
    let base = vec![allow_rule("allow-1")];
    let before = evaluate_policy(&test_policy(base.clone()), &connect_request());
    let other = PolicyRule {
        id: "other".to_string(),
        effect: RuleEffect::Deny,
        subject: "security/*".to_string(),
        actions: vec!["*".to_string()],
        resources: vec!["*".to_string()],
    };
    for pos in 0..=base.len() {
        let mut rules = base.clone();
        rules.insert(pos, other.clone());
        assert_eq!(evaluate_policy(&test_policy(rules), &connect_request()), before);
        let mut rules = base.clone();
        rules.insert(pos, deny_rule("deny-x"));
        assert_eq!(evaluate_policy(&test_policy(rules), &connect_request()).effect, DecisionEffect::Deny);
    }
}

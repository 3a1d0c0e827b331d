use llmos::llmd::{finish_allowed, is_retryable_status, GRPC_DEADLINE_EXCEEDED, GRPC_UNAVAILABLE};
use llmos::common::{
    ActionRequest, ActionStatus, LlmOsError, PolicyDecisionRecord, PolicyEffect,
};
use llmos::llmd::{
    backoff_for_attempt, build_request, finish_model_action, gate_action, generate_id,
    map_grpc_decision, plan_model_action, rotated_path, rotation_moves, ActionExecutor,
    AttemptOutcome, AttemptStep, AuditRotation, GrpcPolicyClientConfig, ModelAction,
    NoopExecutor, PolicyClientState, PolicyGate,
};
use llmos::metrics::RuntimeMetrics;
use llmos::model_runtime::{InferenceError, InferenceResponse, MockBackend, ModelConfig};

const NOW: u128 = 1_700_000_000_000;

fn request() -> ActionRequest {
    ActionRequest {
        version: "v1".to_string(),
        request_id: "req-123".to_string(),
        correlation_id: "corr-123".to_string(),
        subject: "runtime/model-runtime".to_string(),
        action: "network:connect".to_string(),
        resource: "api.openai.com".to_string(),
    }
}

fn model_request(action: &str) -> ActionRequest {
    ActionRequest {
        version: "v1".to_string(),
        request_id: "req-1".to_string(),
        correlation_id: "corr-1".to_string(),
        subject: "runtime/model-runtime".to_string(),
        action: action.to_string(),
        resource: "test prompt".to_string(),
    }
}

fn decision(effect: PolicyEffect, reason: &str, rule: &str) -> PolicyDecisionRecord {
    PolicyDecisionRecord {
        version: "v1".to_string(),
        effect,
        reason: reason.to_string(),
        rule_id: Some(rule.to_string()),
    }
}

#[test]
fn allow_path_executes_action_and_emits_audit() {
    let gate = gate_action(
        &request(),
        Ok(decision(PolicyEffect::Allow, "allowed by matching rule", "allow-network")),
        NOW,
    );
    match gate {
        PolicyGate::Allowed { decision } => {
            assert_eq!(decision.effect, PolicyEffect::Allow);
            let result = NoopExecutor.execute(&request()).unwrap();
            assert_eq!(result.status, ActionStatus::Executed);
            let event = llmos::llmd::build_audit_event(&request(), decision, result.status, NOW);
            assert_eq!(event.request_id, "req-123");
            assert_eq!(event.correlation_id, "corr-123");
            assert_eq!(event.decision.effect, PolicyEffect::Allow);
            assert_eq!(event.outcome, ActionStatus::Executed);
        }
        PolicyGate::Denied { .. } => panic!("action should be allowed"),
    }
}

#[test]
fn explicit_deny_does_not_execute_action() {
    let gate = gate_action(
        &request(),
        Ok(decision(PolicyEffect::Deny, "denied by matching rule", "deny-network")),
        NOW,
    );
    match gate {
        PolicyGate::Denied { audit, error } => {
            assert!(matches!(error, LlmOsError::ActionDenied(ref m) if m == "denied by matching rule"));
            assert_eq!(audit.decision.effect, PolicyEffect::Deny);
            assert_eq!(audit.outcome, ActionStatus::Denied);
            assert_eq!(audit.timestamp_unix_ms, NOW);
        }
        PolicyGate::Allowed { .. } => panic!("action should be denied"),
    }
}

#[test]
fn policy_error_fails_closed_and_does_not_execute_action() {
    let gate = gate_action(
        &request(),
        Err(LlmOsError::PolicyUnavailable("connection refused".to_string())),
        NOW,
    );
    match gate {
        PolicyGate::Denied { audit, error } => {
            match error {
                LlmOsError::ActionDenied(m) => assert_eq!(
                    m,
                    "policy unavailable: policy unavailable: connection refused; request denied"
                ),
                other => panic!("unexpected error {other:?}"),
            }
            assert_eq!(audit.decision.effect, PolicyEffect::Deny);
            assert_eq!(audit.decision.rule_id, None);
            assert_eq!(audit.outcome, ActionStatus::Denied);
        }
        PolicyGate::Allowed { .. } => panic!("policy error should deny"),
    }
}

#[test]
fn grpc_answer_maps_to_record() {
    let d = map_grpc_decision(&request(), "allow", "ok".to_string(), "r1".to_string());
    assert_eq!(d.effect, PolicyEffect::Allow);
    assert_eq!(d.rule_id, Some("r1".to_string()));
    let d = map_grpc_decision(&request(), "ALLOW", "x".to_string(), String::new());
    assert_eq!(d.effect, PolicyEffect::Deny);
    assert_eq!(d.rule_id, None);
}

#[test]
fn non_model_action_passes_through() {
    match plan_model_action(&model_request("network:connect"), false) {
        ModelAction::Done(result) => {
            assert_eq!(result.status, ActionStatus::Executed);
            assert!(result.message.contains("network:connect"));
            assert_eq!(
                result.message,
                "executed network:connect for subject runtime/model-runtime on test prompt"
            );
        }
        ModelAction::Infer { .. } => panic!("should pass through"),
    }
}

#[test]
fn model_invoke_without_loaded_model() {
    match plan_model_action(&model_request("model:invoke"), false) {
        ModelAction::Done(result) => {
            assert_eq!(result.status, ActionStatus::Executed);
            assert!(result.message.contains("pass-through"));
        }
        ModelAction::Infer { .. } => panic!("no model is loaded"),
    }
}

fn run_model(mock: &MockBackend) -> Result<llmos::common::ActionResult, LlmOsError> {
    let req = model_request("model:invoke");
    match plan_model_action(&req, mock.is_loaded()) {
        ModelAction::Done(r) => Ok(r),
        ModelAction::Infer { prompt, max_tokens } => {
            finish_model_action(&req, mock.infer(&prompt, max_tokens))
        }
    }
}

#[test]
fn model_invoke_with_loaded_model() {
    let mut mock = MockBackend::new().with_response("generated text here");
    mock.load(&ModelConfig::cpu_only("test", "/tmp/test.gguf")).unwrap();
    let result = run_model(&mock).unwrap();
    assert_eq!(result.status, ActionStatus::Executed);
    assert!(result.message.contains("model:invoke complete"));
    assert!(result.message.contains("generated text here"));
}

#[test]
fn model_invoke_includes_timing_info() {
    let mut mock = MockBackend::new();
    mock.load(&ModelConfig::cpu_only("test", "/tmp/test.gguf")).unwrap();
    let result = run_model(&mock).unwrap();
    assert!(result.message.contains("50ms"));
    assert_eq!(result.message, "model:invoke complete (50ms, 64 tokens): mock response");
}

#[test]
fn model_output_is_truncated_to_200_bytes() {
    let req = model_request("model:invoke");
    let resp = InferenceResponse {
        text: "x".repeat(300),
        usage: llmos::model_runtime::TokenUsage { prompt_tokens: 1, completion_tokens: 2 },
        ttft_ms: 1,
        total_ms: 7,
    };
    let result = finish_model_action(&req, Ok(resp)).unwrap();
    assert_eq!(
        result.message,
        format!("model:invoke complete (7ms, 2 tokens): {}", "x".repeat(200))
    );
}

#[test]
fn inference_failure_denies() {
    let req = model_request("model:invoke");
    let err = finish_model_action(&req, Err(InferenceError::Backend("boom".to_string()))).unwrap_err();
    match err {
        LlmOsError::ActionDenied(m) => assert_eq!(m, "inference failed: backend error: boom"),
        other => panic!("unexpected {other:?}"),
    }
}

#[test]
fn backoff_doubles_and_caps() {
    assert_eq!(backoff_for_attempt(1, 100, 1000), 100);
    assert_eq!(backoff_for_attempt(2, 100, 1000), 200);
    assert_eq!(backoff_for_attempt(3, 100, 1000), 400);
    assert_eq!(backoff_for_attempt(5, 100, 1000), 1000);
    assert_eq!(backoff_for_attempt(100, 1, u64::MAX), 1 << 30);
}

fn answered() -> AttemptOutcome {
    AttemptOutcome::Answered {
        effect: "allow".to_string(),
        reason: "allowed by matching rule".to_string(),
        rule_id: "allow-1".to_string(),
    }
}

fn unavailable() -> AttemptOutcome {
    AttemptOutcome::Failed {
        status_code: llmos::llmd::GRPC_UNAVAILABLE,
        code: "Unavailable".to_string(),
        message: "down".to_string(),
    }
}

#[test]
fn grpc_retries_transient_failures_then_succeeds() {
    let mut state = PolicyClientState::new(&GrpcPolicyClientConfig::default());
    let mut metrics = RuntimeMetrics::default();
    assert!(state.begin_evaluation(0, &mut metrics).is_ok());
    match state.on_attempt(&request(), 1, unavailable(), 5, 5, &mut metrics) {
        AttemptStep::Retry { backoff_ms } => assert_eq!(backoff_ms, 100),
        AttemptStep::Done(_) => panic!("should retry"),
    }
    match state.on_attempt(&request(), 2, answered(), 120, 120, &mut metrics) {
        AttemptStep::Done(Ok(d)) => {
            assert_eq!(d.effect, PolicyEffect::Allow);
            assert_eq!(d.rule_id, Some("allow-1".to_string()));
            assert_eq!(d.reason, "allowed by matching rule");
        }
        _ => panic!("should succeed"),
    }
    assert_eq!(metrics.counters().policy_retries_total, 1);
    assert_eq!(metrics.counters().policy_requests_total, 1);
}

#[test]
fn grpc_circuit_breaker_opens_after_repeated_failures() {
    let config = GrpcPolicyClientConfig {
        max_attempts: 1,
        circuit_breaker_threshold: 2,
        circuit_breaker_cooldown_ms: 1000,
        ..GrpcPolicyClientConfig::default()
    };
    let mut state = PolicyClientState::new(&config);
    let mut metrics = RuntimeMetrics::default();
    for t in [0u64, 10] {
        assert!(state.begin_evaluation(t, &mut metrics).is_ok());
        match state.on_attempt(&request(), 1, unavailable(), 1, t, &mut metrics) {
            AttemptStep::Done(Err(LlmOsError::PolicyUnavailable(m))) => {
                assert_eq!(m, "policy service returned Unavailable: down")
            }
            _ => panic!("should fail"),
        }
    }
    match state.begin_evaluation(20, &mut metrics) {
        Err(LlmOsError::PolicyUnavailable(m)) => {
            assert_eq!(m, "policy circuit breaker open; failing closed")
        }
        _ => panic!("breaker should be open"),
    }
    assert!(state.begin_evaluation(1010, &mut metrics).is_ok());
}

#[test]
fn grpc_timeout_on_last_attempt_denies() {
    let mut state = PolicyClientState::new(&GrpcPolicyClientConfig::default());
    let mut metrics = RuntimeMetrics::default();
    match state.on_attempt(&request(), 3, AttemptOutcome::TimedOut, 1, 1, &mut metrics) {
        AttemptStep::Done(Err(LlmOsError::PolicyUnavailable(m))) => {
            assert_eq!(m, "policy evaluation timed out; denying request by default")
        }
        _ => panic!("should give up"),
    }
    let e = state.give_up(1, 1, &mut metrics);
    assert!(matches!(e, LlmOsError::PolicyUnavailable(ref m) if m == "policy service failed after retries"));
}

#[test]
fn rotation_names_and_moves() {
    assert_eq!(rotated_path("/var/log/audit.jsonl", 2), "/var/log/audit.jsonl.2");
    let moves = rotation_moves("a.log", 3);
    assert_eq!(
        moves,
        vec![
            ("a.log.2".to_string(), "a.log.3".to_string()),
            ("a.log.1".to_string(), "a.log.2".to_string()),
            ("a.log".to_string(), "a.log.1".to_string()),
        ]
    );
    let r = AuditRotation::with_rotation(100, 0);
    assert_eq!(r.max_files, 1);
    assert!(r.needs_rotation(90, 11));
    assert!(!r.needs_rotation(90, 10));
    assert_eq!(AuditRotation::new().max_bytes, 10 * 1024 * 1024);
}

#[test]
fn ids_and_requests() {
    assert_eq!(generate_id("req", 17, 3), "req-17-3");
    let r = build_request("a/b", "fs:read", "/etc", "corr", "req-1".to_string());
    assert_eq!(r.version, "v1");
    assert_eq!(r.request_id, "req-1");
    assert_eq!(r.correlation_id, "corr");
}

#[test]
fn grpc_request_checks_metadata() {
    let call = llmos::llmd::build_grpc_request(&request()).unwrap();
    assert_eq!(call.request_id, "req-123");
    assert_eq!(call.subject, "runtime/model-runtime");
    let mut bad = request();
    bad.request_id = "line\nbreak".to_string();
    match llmos::llmd::build_grpc_request(&bad) {
        Err(LlmOsError::PolicyUnavailable(m)) => {
            assert_eq!(m, "request_id contains invalid metadata characters")
        }
        _ => panic!("expected refusal"),
    }
    let mut bad = request();
    bad.correlation_id = "del\u{7f}".to_string();
    match llmos::llmd::build_grpc_request(&bad) {
        Err(LlmOsError::PolicyUnavailable(m)) => {
            assert_eq!(m, "correlation_id contains invalid metadata characters")
        }
        _ => panic!("expected refusal"),
    }
    let mut ok = request();
    ok.correlation_id = "tab\tand é".to_string();
    assert!(llmos::llmd::build_grpc_request(&ok).is_ok());
}

#[test]
fn retry_backoffs_follow_settings() {
    let config = GrpcPolicyClientConfig {
        initial_backoff_ms: 10,
        max_backoff_ms: 20,
        circuit_breaker_threshold: 10,
        ..GrpcPolicyClientConfig::default()
    };
    let mut state = PolicyClientState::new(&config);
    let mut metrics = RuntimeMetrics::default();
    assert!(state.begin_evaluation(0, &mut metrics).is_ok());
    let mut waits = Vec::new();
    for attempt in 1..=2 {
        match state.on_attempt(&request(), attempt, unavailable(), 1, 1, &mut metrics) {
            AttemptStep::Retry { backoff_ms } => waits.push(backoff_ms),
            AttemptStep::Done(_) => panic!("should retry"),
        }
    }
    assert_eq!(waits, vec![10, 20]);
    let answer = AttemptOutcome::Answered {
        effect: "allow".to_string(),
        reason: "allowed after retries".to_string(),
        rule_id: "allow-after-retry".to_string(),
    };
    match state.on_attempt(&request(), 3, answer, 40, 40, &mut metrics) {
        AttemptStep::Done(Ok(d)) => {
            assert_eq!(d.rule_id, Some("allow-after-retry".to_string()));
            assert_eq!(d.version, "v1");
        }
        _ => panic!("should answer"),
    }
}

#[test]
fn retry_classification() {
    assert!(is_retryable_status(GRPC_UNAVAILABLE));
    assert!(is_retryable_status(GRPC_DEADLINE_EXCEEDED));
    assert!(!is_retryable_status(7));
    assert!(!is_retryable_status(0));
    let mut state = PolicyClientState::new(&GrpcPolicyClientConfig::default());
    let mut metrics = RuntimeMetrics::default();
    let denied = AttemptOutcome::Failed {
        status_code: 7,
        code: "PermissionDenied".to_string(),
        message: "no".to_string(),
    };
    match state.on_attempt(&request(), 1, denied, 1, 1, &mut metrics) {
        AttemptStep::Done(Err(LlmOsError::PolicyUnavailable(m))) => {
            assert_eq!(m, "policy service returned PermissionDenied: no")
        }
        _ => panic!("a non-retryable status ends the evaluation"),
    }
}

#[test]
fn finished_action_is_audited_once() {
    let mut metrics = RuntimeMetrics::default();
    let d = decision(PolicyEffect::Allow, "allowed by matching rule", "allow-network");
    let (result, audit) = finish_allowed(&request(), d.clone(), NoopExecutor.execute(&request()), NOW, &mut metrics);
    assert_eq!(result.unwrap().status, ActionStatus::Executed);
    let event = audit.expect("one audit event");
    assert_eq!(event.outcome, ActionStatus::Executed);
    assert_eq!(event.decision.rule_id, Some("allow-network".to_string()));
    assert_eq!(metrics.counters().policy_allows_total, 1);
    let (result, audit) = finish_allowed(
        &request(),
        d,
        Err(LlmOsError::ActionDenied("boom".to_string())),
        NOW,
        &mut metrics,
    );
    assert!(matches!(result, Err(LlmOsError::ActionDenied(_))));
    assert!(audit.is_none());
    assert_eq!(metrics.counters().policy_allows_total, 1);
}

//! The runtime daemon's decisions: gating actions on policy decisions (fail
//! closed), audit records, the policy client's retry, back-off and circuit
//! breaker, the model executor's handling of `model:invoke`, and audit-log
//! rotation.

use vstd::prelude::*;

use crate::common::{
    copy_decision, error_message, ActionRequest, ActionResult, ActionStatus, AuditEvent,
    LlmOsError, PolicyDecisionRecord, PolicyEffect,
};
use crate::metrics::RuntimeMetrics;
use crate::secrets::{module_views, SecretStore};
use vstd::utf8::encode_utf8;
use crate::model_runtime::{inference_error_message, InferenceError, InferenceResponse};
use crate::text::{
    chars_eq, decimal, push_char, push_decimal, push_str, string_from_chars, to_chars,
};
use vstd::string::StringSliceAdditionalSpecFns;

verus! {

broadcast use vstd::string::group_string_axioms;

/// Executes an allowed action.
pub trait ActionExecutor {
    fn execute(&self, request: &ActionRequest) -> Result<ActionResult, LlmOsError>;
}

/// Receives audit events.
pub trait AuditSink {
    fn emit(&self, event: &AuditEvent);
}

/// The message of an action that ran without side effects.
pub open spec fn executed_message(r: ActionRequest) -> Seq<char> {
    "executed "@ + r.action@ + " for subject "@ + r.subject@ + " on "@ + r.resource@
}

/// The pass-through result of an action: executed, with a message naming it.
pub fn pass_through_result(request: &ActionRequest) -> (r: ActionResult)
    ensures
        r.version@ == request.version@,
        r.status == ActionStatus::Executed,
        r.message@ == executed_message(*request),
{
    let mut m = String::new();
    push_str(&mut m, "executed ");
    push_str(&mut m, request.action.as_str());
    push_str(&mut m, " for subject ");
    push_str(&mut m, request.subject.as_str());
    push_str(&mut m, " on ");
    push_str(&mut m, request.resource.as_str());
    assert(m@ =~= executed_message(*request));
    ActionResult { version: request.version.clone(), status: ActionStatus::Executed, message: m }
}

/// An executor that runs nothing and reports every action as executed.
pub struct NoopExecutor;

impl ActionExecutor for NoopExecutor {
    fn execute(&self, request: &ActionRequest) -> (r: Result<ActionResult, LlmOsError>)
        ensures
            r matches Ok(res) && res.version@ == request.version@ && res.status
                == ActionStatus::Executed && res.message@ == executed_message(*request),
    {
        Ok(pass_through_result(request))
    }
}

/// The audit event for a request, its decision and its outcome at `now_ms`.
pub open spec fn audit_event_of(
    request: ActionRequest,
    decision: PolicyDecisionRecord,
    outcome: ActionStatus,
    now_ms: u128,
) -> AuditEvent {
    AuditEvent {
        version: request.version,
        request_id: request.request_id,
        correlation_id: request.correlation_id,
        timestamp_unix_ms: now_ms,
        subject: request.subject,
        action: request.action,
        resource: request.resource,
        decision,
        outcome,
    }
}

/// Build the audit event for a request, its decision and its outcome.
pub fn build_audit_event(
    request: &ActionRequest,
    decision: PolicyDecisionRecord,
    outcome: ActionStatus,
    now_ms: u128,
) -> (e: AuditEvent)
    ensures
        e == audit_event_of(*request, decision, outcome, now_ms),
        e.version@ == request.version@,
        e.request_id@ == request.request_id@,
        e.correlation_id@ == request.correlation_id@,
        e.timestamp_unix_ms == now_ms,
        e.subject@ == request.subject@,
        e.action@ == request.action@,
        e.resource@ == request.resource@,
        e.decision == decision,
        e.outcome == outcome,
{
    AuditEvent {
        version: request.version.clone(),
        request_id: request.request_id.clone(),
        correlation_id: request.correlation_id.clone(),
        timestamp_unix_ms: now_ms,
        subject: request.subject.clone(),
        action: request.action.clone(),
        resource: request.resource.clone(),
        decision,
        outcome,
    }
}

/// The outcome of gating an action on a policy evaluation.
pub enum PolicyGate {
    /// The action must not run: audit `audit` and fail with `error`.
    Denied { audit: AuditEvent, error: LlmOsError },
    /// The action may run; record `decision` with the execution outcome.
    Allowed { decision: PolicyDecisionRecord },
}

/// The reason recorded when the policy service could not answer.
pub open spec fn unavailable_reason(e: LlmOsError) -> Seq<char> {
    "policy unavailable: "@ + error_message(e) + "; request denied"@
}

/// An audit event records the request's own fields, each in its own place,
/// with the decision, the outcome and the time it was given.
pub proof fn law_audit_records_request(
    request: ActionRequest,
    decision: PolicyDecisionRecord,
    outcome: ActionStatus,
    now_ms: u128,
)
    ensures
        audit_event_of(request, decision, outcome, now_ms).version@ == request.version@,
        audit_event_of(request, decision, outcome, now_ms).request_id@ == request.request_id@,
        audit_event_of(request, decision, outcome, now_ms).correlation_id@ == request.correlation_id@,
        audit_event_of(request, decision, outcome, now_ms).subject@ == request.subject@,
        audit_event_of(request, decision, outcome, now_ms).action@ == request.action@,
        audit_event_of(request, decision, outcome, now_ms).resource@ == request.resource@,
        audit_event_of(request, decision, outcome, now_ms).timestamp_unix_ms == now_ms,
        audit_event_of(request, decision, outcome, now_ms).decision == decision,
        audit_event_of(request, decision, outcome, now_ms).outcome == outcome,
{
}

/// Gate an action on the policy evaluation, failing closed: an evaluation
/// error denies the action (with a deny record naming the error and no rule),
/// an explicit deny denies it with the decision's reason, and only an allow
/// lets it run.
pub fn gate_action(
    request: &ActionRequest,
    evaluation: Result<PolicyDecisionRecord, LlmOsError>,
    now_ms: u128,
) -> (g: PolicyGate)
    ensures
        evaluation is Err ==> {
            &&& g is Denied
            &&& g->audit == audit_event_of(*request, g->audit.decision, ActionStatus::Denied, now_ms)
            &&& g->audit.decision.version@ == request.version@
            &&& g->audit.decision.effect == PolicyEffect::Deny
            &&& g->audit.decision.reason@ == unavailable_reason(evaluation->Err_0)
            &&& g->audit.decision.rule_id is None
            &&& g->error is ActionDenied
            &&& g->error->ActionDenied_0@ == unavailable_reason(evaluation->Err_0)
        },
        evaluation is Ok ==> (evaluation->Ok_0.effect == PolicyEffect::Deny <==> g is Denied),
        evaluation is Ok && evaluation->Ok_0.effect == PolicyEffect::Deny ==> {
            &&& g is Denied
            &&& g->audit == audit_event_of(*request, evaluation->Ok_0, ActionStatus::Denied, now_ms)
            &&& g->error is ActionDenied
            &&& g->error->ActionDenied_0@ == evaluation->Ok_0.reason@
        },
        evaluation is Ok && evaluation->Ok_0.effect == PolicyEffect::Allow ==> {
            &&& g is Allowed
            &&& g->decision == evaluation->Ok_0
        },
{
    match evaluation {
        Err(err) => {
            let mut message = String::new();
            push_str(&mut message, "policy unavailable: ");
            let em = err.message();
            push_str(&mut message, em.as_str());
            push_str(&mut message, "; request denied");
            assert(message@ =~= unavailable_reason(err));
            let denied = PolicyDecisionRecord {
                version: request.version.clone(),
                effect: PolicyEffect::Deny,
                reason: message.clone(),
                rule_id: None,
            };
            let audit = build_audit_event(request, denied, ActionStatus::Denied, now_ms);
            PolicyGate::Denied { audit, error: LlmOsError::ActionDenied(message) }
        },
        Ok(decision) => {
            match decision.effect {
                PolicyEffect::Deny => {
                    let reason = decision.reason.clone();
                    let audit = build_audit_event(request, decision, ActionStatus::Denied, now_ms);
                    PolicyGate::Denied { audit, error: LlmOsError::ActionDenied(reason) }
                },
                PolicyEffect::Allow => PolicyGate::Allowed { decision },
            }
        },
    }
}

/// Finish an allowed action once the executor has run it: its result is
/// returned as it is; a successful execution counts an allow and is audited
/// with the allowing decision and the execution's status, a failed one is
/// neither counted nor audited.
pub fn finish_allowed(
    request: &ActionRequest,
    decision: PolicyDecisionRecord,
    execution: Result<ActionResult, LlmOsError>,
    now_ms: u128,
    metrics: &mut RuntimeMetrics,
) -> (r: (Result<ActionResult, LlmOsError>, Option<AuditEvent>))
    ensures
        r.0 == execution,
        execution matches Ok(res) ==> r.1 == Some(audit_event_of(*request, decision, res.status, now_ms)),
        execution is Err ==> r.1 is None,
        execution is Ok ==> final(metrics).spec_counters() == (crate::metrics::RuntimeCounters {
            policy_allows_total: old(metrics).spec_counters().policy_allows_total.wrapping_add(1),
            ..old(metrics).spec_counters()
        }),
        execution is Err ==> final(metrics).spec_counters() == old(metrics).spec_counters(),
        final(metrics).spec_latency() == old(metrics).spec_latency(),
{
    match execution {
        Ok(result) => {
            metrics.inc_policy_allows();
            let audit = build_audit_event(request, decision, result.status, now_ms);
            (Ok(result), Some(audit))
        },
        Err(e) => (Err(e), None),
    }
}

/// Fail closed: an action may run only when the policy service answered
/// with an allow; every other evaluation denies it.
pub proof fn law_fail_closed(evaluation: Result<PolicyDecisionRecord, LlmOsError>, g: PolicyGate)
    requires
        evaluation is Err ==> g is Denied,
        evaluation is Ok ==> (evaluation->Ok_0.effect == PolicyEffect::Deny <==> g is Denied),
    ensures
        g is Allowed ==> evaluation is Ok && evaluation->Ok_0.effect == PolicyEffect::Allow,
{
}

/// Whether every byte may stand in a metadata (HTTP header) value: visible
/// characters and bytes from 128 up, or a tab; not the other control
/// characters and not DEL.
pub open spec fn metadata_ok(bytes: Seq<u8>) -> bool {
    forall|i: int| 0 <= i < bytes.len() ==> ((32 <= #[trigger] bytes[i] && bytes[i] != 127) || bytes[i] == 9)
}

/// Whether `s` converts to an ASCII metadata value
/// (`tonic::metadata::MetadataValue::<Ascii>::try_from`).
///
/// Trusted: claims that the conversion succeeds exactly when every byte of
/// `s` is a tab, or at least 32 and not 127, which is the byte check that
/// the conversion runs (through `http::HeaderValue::from_str`).
#[verifier::external_body]
fn is_valid_metadata_value(s: &str) -> (r: bool)
    ensures
        r == metadata_ok(s.spec_bytes()),
{
    tonic::metadata::MetadataValue::<tonic::metadata::Ascii>::try_from(s).is_ok()
}

/// The fields of one call to the policy service: the request's subject,
/// action and resource, and its ids for the call's metadata.
#[derive(Debug, Clone)]
pub struct EvaluateCall {
    pub subject: String,
    pub action: String,
    pub resource: String,
    pub request_id: String,
    pub correlation_id: String,
}

/// Prepare the call to the policy service for `request`; refused when the
/// request id, then the correlation id, cannot be sent as metadata.
pub fn build_grpc_request(request: &ActionRequest) -> (r: Result<EvaluateCall, LlmOsError>)
    ensures
        r is Ok <==> metadata_ok(encode_utf8(request.request_id@)) && metadata_ok(encode_utf8(request.correlation_id@)),
        r matches Ok(c) ==> c.subject@ == request.subject@ && c.action@ == request.action@ && c.resource@
            == request.resource@ && c.request_id@ == request.request_id@ && c.correlation_id@ == request.correlation_id@,
        !metadata_ok(encode_utf8(request.request_id@)) ==> (r matches Err(LlmOsError::PolicyUnavailable(m))
            && m@ == "request_id contains invalid metadata characters"@),
        metadata_ok(encode_utf8(request.request_id@)) && !metadata_ok(encode_utf8(request.correlation_id@)) ==> (r matches Err(
            LlmOsError::PolicyUnavailable(m),
        ) && m@ == "correlation_id contains invalid metadata characters"@),
{
    if !is_valid_metadata_value(request.request_id.as_str()) {
        return Err(LlmOsError::PolicyUnavailable(String::from_str("request_id contains invalid metadata characters")));
    }
    if !is_valid_metadata_value(request.correlation_id.as_str()) {
        return Err(LlmOsError::PolicyUnavailable(String::from_str("correlation_id contains invalid metadata characters")));
    }
    Ok(EvaluateCall {
        subject: request.subject.clone(),
        action: request.action.clone(),
        resource: request.resource.clone(),
        request_id: request.request_id.clone(),
        correlation_id: request.correlation_id.clone(),
    })
}

/// The record of a policy service answer: effect `allow` allows, any other
/// effect denies; an empty rule id means no rule.
pub fn map_grpc_decision(
    request: &ActionRequest,
    effect: &str,
    reason: String,
    rule_id: String,
) -> (d: PolicyDecisionRecord)
    ensures
        d.version@ == request.version@,
        d.effect == (if effect@ == "allow"@ { PolicyEffect::Allow } else { PolicyEffect::Deny }),
        d.reason == reason,
        rule_id@.len() == 0 ==> d.rule_id is None,
        rule_id@.len() > 0 ==> d.rule_id == Some(rule_id),
{
    let e = to_chars(effect);
    let allow = to_chars("allow");
    let is_allow = chars_eq(&e, &allow);
    PolicyDecisionRecord {
        version: request.version.clone(),
        effect: if is_allow { PolicyEffect::Allow } else { PolicyEffect::Deny },
        reason,
        rule_id: if rule_id.as_str().is_empty() { None } else { Some(rule_id) },
    }
}

/// `2^n`.
pub open spec fn pow2(n: nat) -> nat
    decreases n,
{
    if n == 0 {
        1
    } else {
        2 * pow2((n - 1) as nat)
    }
}

/// Back-off before retry number `attempt`: the initial back-off doubled for
/// each earlier attempt (at most 30 doublings), capped at the maximum.
pub open spec fn backoff(attempt: nat, initial_ms: u64, max_ms: u64) -> nat {
    let k: nat = if attempt == 0 { 0 } else { (attempt - 1) as nat };
    let shifts: nat = if k > 30 { 30 } else { k };
    let raw: nat = (initial_ms as nat) * pow2(shifts);
    if raw < max_ms { raw } else { max_ms as nat }
}

proof fn lemma_pow2_bound(n: nat)
    requires
        n <= 30,
    ensures
        1 <= pow2(n) <= 0x4000_0000,
    decreases 30 - n,
{
    if n < 30 {
        lemma_pow2_bound(n + 1);
        assert(pow2(n + 1) == 2 * pow2(n));
    } else {
        reveal_with_fuel(pow2, 31);
        assert(pow2(30) == 0x4000_0000);
    }
}

/// Back-off before retry number `attempt` (1-based).
pub fn backoff_for_attempt(attempt: usize, initial_ms: u64, max_ms: u64) -> (r: u64)
    ensures
        r == backoff(attempt as nat, initial_ms, max_ms),
        r <= max_ms,
{
    let k: usize = if attempt == 0 { 0 } else { attempt - 1 };
    let shifts: usize = if k > 30 { 30 } else { k };
    let mut mult: u128 = 1;
    let mut i: usize = 0;
    while i < shifts
        invariant
            i <= shifts <= 30,
            mult == pow2(i as nat),
        decreases shifts - i,
    {
        proof {
            lemma_pow2_bound(i as nat);
        }
        mult = mult * 2;
        i += 1;
    }
    proof {
        lemma_pow2_bound(shifts as nat);
        assert(initial_ms * mult <= 0xFFFF_FFFF_FFFF_FFFF * 0x4000_0000) by (nonlinear_arith)
            requires
                mult <= 0x4000_0000,
                initial_ms <= 0xFFFF_FFFF_FFFF_FFFF,
        ;
    }
    let raw: u128 = (initial_ms as u128) * mult;
    if raw < max_ms as u128 {
        raw as u64
    } else {
        max_ms
    }
}

/// Back-off never exceeds its cap, and never shrinks from one retry to the next.
pub proof fn law_backoff_capped_and_growing(attempt: nat, initial_ms: u64, max_ms: u64)
    ensures
        backoff(attempt, initial_ms, max_ms) <= max_ms,
        backoff(attempt, initial_ms, max_ms) <= backoff(attempt + 1, initial_ms, max_ms),
{
    let k: nat = if attempt == 0 { 0 } else { (attempt - 1) as nat };
    let s1: nat = if k > 30 { 30 } else { k };
    let k2: nat = attempt;
    let s2: nat = if k2 > 30 { 30 } else { k2 };
    assert(pow2(s1) <= pow2(s2)) by {
        if s1 < s2 {
            assert(pow2(s2) == 2 * pow2(s1));
        }
    }
    assert(initial_ms * pow2(s1) <= initial_ms * pow2(s2)) by (nonlinear_arith)
        requires
            pow2(s1) <= pow2(s2),
    ;
}


/// Settings of the policy client (durations in milliseconds).
#[derive(Debug, Clone)]
pub struct GrpcPolicyClientConfig {
    pub timeout_per_attempt_ms: u64,
    pub max_attempts: usize,
    pub initial_backoff_ms: u64,
    pub max_backoff_ms: u64,
    pub circuit_breaker_threshold: u32,
    pub circuit_breaker_cooldown_ms: u64,
}

impl Default for GrpcPolicyClientConfig {
    /// 2 s per attempt, 3 attempts, back-off from 100 ms up to 1 s, breaker
    /// opening after 3 consecutive failures for 5 s.
    fn default() -> (c: Self)
        ensures
            c.timeout_per_attempt_ms == 2000,
            c.max_attempts == 3,
            c.initial_backoff_ms == 100,
            c.max_backoff_ms == 1000,
            c.circuit_breaker_threshold == 3,
            c.circuit_breaker_cooldown_ms == 5000,
    {
        GrpcPolicyClientConfig {
            timeout_per_attempt_ms: 2000,
            max_attempts: 3,
            initial_backoff_ms: 100,
            max_backoff_ms: 1000,
            circuit_breaker_threshold: 3,
            circuit_breaker_cooldown_ms: 5000,
        }
    }
}

/// What one attempt to reach the policy service came back with.
pub enum AttemptOutcome {
    /// The service answered.
    Answered { effect: String, reason: String, rule_id: String },
    /// The service returned an error status: its numeric gRPC code, the
    /// code as rendered, and its message.
    Failed { status_code: i32, code: String, message: String },
    /// The attempt timed out.
    TimedOut,
}

/// The gRPC status code `DEADLINE_EXCEEDED`.
pub const GRPC_DEADLINE_EXCEEDED: i32 = 4;

/// The gRPC status code `UNAVAILABLE`.
pub const GRPC_UNAVAILABLE: i32 = 14;

/// The error statuses worth another attempt: the service was unavailable or
/// the deadline passed.
pub open spec fn retryable_code(code: i32) -> bool {
    code == GRPC_UNAVAILABLE || code == GRPC_DEADLINE_EXCEEDED
}

/// Whether an error status with gRPC code `code` is retried.
pub fn is_retryable_status(code: i32) -> (r: bool)
    ensures
        r == retryable_code(code),
        r <==> (code == 14 || code == 4),
{
    code == GRPC_UNAVAILABLE || code == GRPC_DEADLINE_EXCEEDED
}

/// Exactly two gRPC codes are retried: 14 (`UNAVAILABLE`) and 4
/// (`DEADLINE_EXCEEDED`); every other code, such as 13 (`INTERNAL`), ends the
/// evaluation.
pub proof fn law_retry_codes(code: i32)
    ensures
        retryable_code(code) <==> (code == 14 || code == 4),
        !retryable_code(13),
        !retryable_code(0),
{
}

/// What the client does after an attempt.
pub enum AttemptStep {
    /// Evaluation is over with this result.
    Done(Result<PolicyDecisionRecord, LlmOsError>),
    /// Wait this long, then try again.
    Retry { backoff_ms: u64 },
}

/// Retry, back-off and circuit-breaker state of the policy client. Times are
/// milliseconds on a monotonic clock.
pub struct PolicyClientState {
    timeout_per_attempt_ms: u64,
    max_attempts: usize,
    initial_backoff_ms: u64,
    max_backoff_ms: u64,
    threshold: u32,
    cooldown_ms: u64,
    consecutive_failures: u32,
    circuit_open_until: Option<u64>,
}

/// The message of a failed attempt.
pub open spec fn failure_message(code: Seq<char>, message: Seq<char>) -> Seq<char> {
    "policy service returned "@ + code + ": "@ + message
}

impl PolicyClientState {
    /// At least one attempt, and a breaker threshold of at least one.
    #[verifier::type_invariant]
    closed spec fn wf(&self) -> bool {
        self.max_attempts >= 1 && self.threshold >= 1
    }

    pub closed spec fn spec_timeout_ms(&self) -> u64 {
        self.timeout_per_attempt_ms
    }

    pub closed spec fn spec_max_attempts(&self) -> usize {
        self.max_attempts
    }

    pub closed spec fn spec_initial_backoff_ms(&self) -> u64 {
        self.initial_backoff_ms
    }

    pub closed spec fn spec_max_backoff_ms(&self) -> u64 {
        self.max_backoff_ms
    }

    pub closed spec fn spec_threshold(&self) -> u32 {
        self.threshold
    }

    pub closed spec fn spec_cooldown_ms(&self) -> u64 {
        self.cooldown_ms
    }

    pub closed spec fn spec_failures(&self) -> u32 {
        self.consecutive_failures
    }

    pub closed spec fn spec_open_until(&self) -> Option<u64> {
        self.circuit_open_until
    }

    /// The breaker refuses calls at `now`.
    pub open spec fn is_open(&self, now: u64) -> bool {
        self.spec_open_until() matches Some(u) && now < u
    }

    /// The state after a failed evaluation at `now`: one more consecutive
    /// failure (saturating); the breaker opens for the cooldown once the
    /// failures reach the threshold.
    pub closed spec fn after_failure(self, now: u64) -> Self {
        let f = if self.consecutive_failures == u32::MAX {
            u32::MAX
        } else {
            (self.consecutive_failures + 1) as u32
        };
        PolicyClientState {
            consecutive_failures: f,
            circuit_open_until: if f >= self.threshold {
                Some((now + self.cooldown_ms) as u64)
            } else {
                self.circuit_open_until
            },
            ..self
        }
    }

    /// The state once an elapsed cooldown has closed the breaker.
    pub closed spec fn after_cooldown(self) -> Self {
        PolicyClientState { circuit_open_until: None, ..self }
    }

    /// The state after a successful evaluation: no failures, breaker closed.
    pub closed spec fn after_success(self) -> Self {
        PolicyClientState { consecutive_failures: 0, circuit_open_until: None, ..self }
    }

    /// A fresh state from a config; the attempt count and the threshold are
    /// raised to at least one.
    pub fn new(config: &GrpcPolicyClientConfig) -> (s: PolicyClientState)
        ensures
            s.spec_timeout_ms() == config.timeout_per_attempt_ms,
            s.spec_max_attempts() == (if config.max_attempts < 1 { 1 } else { config.max_attempts }),
            s.spec_initial_backoff_ms() == config.initial_backoff_ms,
            s.spec_max_backoff_ms() == config.max_backoff_ms,
            s.spec_threshold() == (if config.circuit_breaker_threshold < 1 { 1 } else { config.circuit_breaker_threshold }),
            s.spec_cooldown_ms() == config.circuit_breaker_cooldown_ms,
            s.spec_failures() == 0,
            s.spec_open_until() is None,
    {
        PolicyClientState {
            timeout_per_attempt_ms: config.timeout_per_attempt_ms,
            max_attempts: if config.max_attempts < 1 { 1 } else { config.max_attempts },
            initial_backoff_ms: config.initial_backoff_ms,
            max_backoff_ms: config.max_backoff_ms,
            threshold: if config.circuit_breaker_threshold < 1 { 1 } else { config.circuit_breaker_threshold },
            cooldown_ms: config.circuit_breaker_cooldown_ms,
            consecutive_failures: 0,
            circuit_open_until: None,
        }
    }

    /// The per-attempt timeout.
    pub fn timeout_per_attempt_ms(&self) -> (r: u64)
        ensures
            r == self.spec_timeout_ms(),
    {
        self.timeout_per_attempt_ms
    }

    /// The number of attempts per evaluation.
    pub fn max_attempts(&self) -> (r: usize)
        ensures
            r == self.spec_max_attempts(),
            r >= 1,
    {
        proof {
            use_type_invariant(self);
        }
        self.max_attempts
    }

    /// Refuse calls while the breaker is open at `now`; once its cooldown has
    /// passed, close it.
    pub fn fail_if_circuit_open(&mut self, now_ms: u64, metrics: &mut RuntimeMetrics) -> (r: Result<(), LlmOsError>)
        ensures
            r is Err <==> old(self).is_open(now_ms),
            r matches Err(LlmOsError::PolicyUnavailable(m)) ==> m@ == "policy circuit breaker open; failing closed"@,
            r is Err ==> r matches Err(LlmOsError::PolicyUnavailable(_)),
            r is Err ==> *final(self) == *old(self) && final(metrics).spec_counters().policy_breaker_open_state == 1,
            r is Ok && old(self).spec_open_until() is Some ==> *final(self) == old(self).after_cooldown()
                && final(metrics).spec_counters().policy_breaker_open_state == 0,
            r is Ok && old(self).spec_open_until() is None ==> *final(self) == *old(self)
                && final(metrics).spec_counters() == old(metrics).spec_counters(),
            final(metrics).spec_latency() == old(metrics).spec_latency(),
            ({
                let c0 = old(metrics).spec_counters();
                let c1 = final(metrics).spec_counters();
                c1.policy_requests_total == c0.policy_requests_total && c1.policy_retries_total == c0.policy_retries_total
                    && c1.policy_denies_total == c0.policy_denies_total && c1.policy_allows_total == c0.policy_allows_total
                    && c1.policy_breaker_open_total == c0.policy_breaker_open_total
                    && c1.audit_write_failures_total == c0.audit_write_failures_total
                    && c1.audit_last_write_failed == c0.audit_last_write_failed
            }),
    {
        proof {
            use_type_invariant(&*self);
        }
        if let Some(until) = self.circuit_open_until {
            if now_ms < until {
                metrics.set_breaker_open(true);
                return Err(LlmOsError::PolicyUnavailable(
                    String::from_str("policy circuit breaker open; failing closed"),
                ));
            }
            self.circuit_open_until = None;
            metrics.set_breaker_open(false);
        }
        Ok(())
    }

    /// Record a successful evaluation.
    pub fn mark_success(&mut self, metrics: &mut RuntimeMetrics)
        ensures
            *final(self) == old(self).after_success(),
            final(metrics).spec_counters() == (crate::metrics::RuntimeCounters {
                policy_breaker_open_state: 0,
                ..old(metrics).spec_counters()
            }),
            final(metrics).spec_latency() == old(metrics).spec_latency(),
    {
        proof {
            use_type_invariant(&*self);
        }
        self.consecutive_failures = 0;
        self.circuit_open_until = None;
        metrics.set_breaker_open(false);
    }

    /// Record a failed evaluation at `now`.
    pub fn mark_failure(&mut self, now_ms: u64, metrics: &mut RuntimeMetrics)
        requires
            now_ms + old(self).spec_cooldown_ms() <= u64::MAX,
        ensures
            *final(self) == old(self).after_failure(now_ms),
            final(self).spec_failures() >= old(self).spec_threshold() ==> final(metrics).spec_counters()
                == (crate::metrics::RuntimeCounters {
                policy_breaker_open_state: 1,
                policy_breaker_open_total: old(metrics).spec_counters().policy_breaker_open_total.wrapping_add(1),
                ..old(metrics).spec_counters()
            }),
            final(self).spec_failures() < old(self).spec_threshold() ==> final(metrics).spec_counters()
                == old(metrics).spec_counters(),
            final(metrics).spec_latency() == old(metrics).spec_latency(),
    {
        proof {
            use_type_invariant(&*self);
        }
        self.consecutive_failures = self.consecutive_failures.saturating_add(1);
        if self.consecutive_failures >= self.threshold {
            self.circuit_open_until = Some(now_ms + self.cooldown_ms);
            metrics.set_breaker_open(true);
            metrics.inc_breaker_open_total();
        }
    }

    /// Start an evaluation at `now`: count the request, and refuse it while the
    /// breaker is open.
    pub fn begin_evaluation(&mut self, now_ms: u64, metrics: &mut RuntimeMetrics) -> (r: Result<(), LlmOsError>)
        ensures
            r is Err <==> old(self).is_open(now_ms),
            r is Err ==> r matches Err(LlmOsError::PolicyUnavailable(_)),
            r matches Err(LlmOsError::PolicyUnavailable(m)) ==> m@ == "policy circuit breaker open; failing closed"@,
            r is Err ==> *final(self) == *old(self),
            r is Ok && old(self).spec_open_until() is Some ==> *final(self) == old(self).after_cooldown(),
            r is Ok && old(self).spec_open_until() is None ==> *final(self) == *old(self),
            r is Ok ==> final(self).spec_open_until() is None || final(self).spec_open_until() == old(self).spec_open_until(),
            final(metrics).spec_counters().policy_requests_total == old(metrics).spec_counters().policy_requests_total.wrapping_add(1),
            final(self).spec_failures() == old(self).spec_failures(),
            final(self).spec_max_attempts() == old(self).spec_max_attempts(),
            final(self).spec_cooldown_ms() == old(self).spec_cooldown_ms(),
            final(self).spec_threshold() == old(self).spec_threshold(),
            final(self).spec_timeout_ms() == old(self).spec_timeout_ms(),
            final(self).spec_initial_backoff_ms() == old(self).spec_initial_backoff_ms(),
            final(self).spec_max_backoff_ms() == old(self).spec_max_backoff_ms(),
            !old(self).is_open(now_ms) ==> !final(self).is_open(now_ms),
    {
        metrics.inc_policy_requests();
        self.fail_if_circuit_open(now_ms, metrics)
    }

    /// Decide what follows attempt number `attempt` (1-based) of an
    /// evaluation that has run `elapsed_ms` so far, at time `now`: an answer
    /// ends it with the service's decision; an error status or a timeout is
    /// retried after a back-off while attempts remain (error statuses only
    /// when retryable), and otherwise ends it failed, counting a failure
    /// towards the breaker.
    pub fn on_attempt(
        &mut self,
        request: &ActionRequest,
        attempt: usize,
        outcome: AttemptOutcome,
        elapsed_ms: u64,
        now_ms: u64,
        metrics: &mut RuntimeMetrics,
    ) -> (step: AttemptStep)
        requires
            1 <= attempt,
            now_ms + old(self).spec_cooldown_ms() <= u64::MAX,
        ensures
            step is Retry ==> attempt < old(self).spec_max_attempts() && *final(self) == *old(self)
                && step->backoff_ms == backoff(attempt as nat, old(self).spec_initial_backoff_ms(), old(self).spec_max_backoff_ms())
                && final(metrics).spec_counters().policy_retries_total == old(metrics).spec_counters().policy_retries_total.wrapping_add(1),
            outcome is Answered ==> step is Done && step->Done_0 is Ok
                && *final(self) == old(self).after_success()
                && step->Done_0->Ok_0.effect == (if outcome->Answered_effect@ == "allow"@ { PolicyEffect::Allow } else { PolicyEffect::Deny })
                && step->Done_0->Ok_0.reason == outcome->Answered_reason
                && step->Done_0->Ok_0.version@ == request.version@
                && step->Done_0->Ok_0.rule_id == (if outcome->Answered_rule_id@.len() == 0 {
                    None
                } else {
                    Some(outcome->Answered_rule_id)
                }),
            outcome is Failed && !(retryable_code(outcome->status_code) && attempt < old(self).spec_max_attempts()) ==> step is Done
                && step->Done_0 is Err && *final(self) == old(self).after_failure(now_ms)
                && step->Done_0->Err_0 is PolicyUnavailable
                && step->Done_0->Err_0->PolicyUnavailable_0@ == failure_message(outcome->code@, outcome->message@),
            outcome is Failed && retryable_code(outcome->status_code) && attempt < old(self).spec_max_attempts() ==> step is Retry,
            outcome is TimedOut && attempt >= old(self).spec_max_attempts() ==> step is Done
                && step->Done_0 is Err && *final(self) == old(self).after_failure(now_ms)
                && step->Done_0->Err_0 is PolicyUnavailable
                && step->Done_0->Err_0->PolicyUnavailable_0@ == "policy evaluation timed out; denying request by default"@,
            outcome is TimedOut && attempt < old(self).spec_max_attempts() ==> step is Retry,
            step is Retry ==> final(metrics).spec_latency() == old(metrics).spec_latency() && final(metrics).spec_counters()
                == (crate::metrics::RuntimeCounters {
                policy_retries_total: old(metrics).spec_counters().policy_retries_total.wrapping_add(1),
                ..old(metrics).spec_counters()
            }),
            step is Done ==> final(metrics).spec_latency().spec_count() == old(metrics).spec_latency().spec_count().wrapping_add(1)
                && final(metrics).spec_latency().spec_sum() == old(metrics).spec_latency().spec_sum().wrapping_add(elapsed_ms),
            outcome is Answered ==> final(metrics).spec_counters() == (crate::metrics::RuntimeCounters {
                policy_breaker_open_state: 0,
                ..old(metrics).spec_counters()
            }),
            step is Done && !(outcome is Answered) && final(self).spec_failures() >= old(self).spec_threshold() ==> final(metrics).spec_counters() == (crate::metrics::RuntimeCounters {
                policy_breaker_open_state: 1,
                policy_breaker_open_total: old(metrics).spec_counters().policy_breaker_open_total.wrapping_add(1),
                ..old(metrics).spec_counters()
            }),
            step is Done && !(outcome is Answered) && final(self).spec_failures() < old(self).spec_threshold() ==> final(metrics).spec_counters() == old(metrics).spec_counters(),
    {
        proof {
            use_type_invariant(&*self);
        }
        match outcome {
            AttemptOutcome::Answered { effect, reason, rule_id } => {
                self.mark_success(metrics);
                metrics.observe_policy_latency(elapsed_ms);
                AttemptStep::Done(Ok(map_grpc_decision(request, effect.as_str(), reason, rule_id)))
            },
            AttemptOutcome::Failed { status_code, code, message } => {
                if is_retryable_status(status_code) && attempt < self.max_attempts {
                    metrics.inc_policy_retries();
                    return AttemptStep::Retry {
                        backoff_ms: backoff_for_attempt(attempt, self.initial_backoff_ms, self.max_backoff_ms),
                    };
                }
                let mut m = String::new();
                push_str(&mut m, "policy service returned ");
                push_str(&mut m, code.as_str());
                push_str(&mut m, ": ");
                push_str(&mut m, message.as_str());
                assert(m@ =~= failure_message(code@, message@));
                self.mark_failure(now_ms, metrics);
                metrics.observe_policy_latency(elapsed_ms);
                AttemptStep::Done(Err(LlmOsError::PolicyUnavailable(m)))
            },
            AttemptOutcome::TimedOut => {
                if attempt < self.max_attempts {
                    metrics.inc_policy_retries();
                    return AttemptStep::Retry {
                        backoff_ms: backoff_for_attempt(attempt, self.initial_backoff_ms, self.max_backoff_ms),
                    };
                }
                self.mark_failure(now_ms, metrics);
                metrics.observe_policy_latency(elapsed_ms);
                AttemptStep::Done(Err(LlmOsError::PolicyUnavailable(
                    String::from_str("policy evaluation timed out; denying request by default"),
                )))
            },
        }
    }

    /// End an evaluation whose attempts all came back without a decision.
    pub fn give_up(&mut self, elapsed_ms: u64, now_ms: u64, metrics: &mut RuntimeMetrics) -> (r: LlmOsError)
        requires
            now_ms + old(self).spec_cooldown_ms() <= u64::MAX,
        ensures
            *final(self) == old(self).after_failure(now_ms),
            r matches LlmOsError::PolicyUnavailable(m) && m@ == "policy service failed after retries"@,
            final(metrics).spec_latency().spec_count() == old(metrics).spec_latency().spec_count().wrapping_add(1),
            final(metrics).spec_latency().spec_sum() == old(metrics).spec_latency().spec_sum().wrapping_add(elapsed_ms),
            final(self).spec_failures() >= old(self).spec_threshold() ==> final(metrics).spec_counters()
                == (crate::metrics::RuntimeCounters {
                policy_breaker_open_state: 1,
                policy_breaker_open_total: old(metrics).spec_counters().policy_breaker_open_total.wrapping_add(1),
                ..old(metrics).spec_counters()
            }),
            final(self).spec_failures() < old(self).spec_threshold() ==> final(metrics).spec_counters()
                == old(metrics).spec_counters(),
    {
        self.mark_failure(now_ms, metrics);
        metrics.observe_policy_latency(elapsed_ms);
        LlmOsError::PolicyUnavailable(String::from_str("policy service failed after retries"))
    }
}

/// The state after `n` consecutive failures at time `now`.
pub open spec fn after_failures(s: PolicyClientState, n: nat, now: u64) -> PolicyClientState
    decreases n,
{
    if n == 0 {
        s
    } else {
        after_failures(s, (n - 1) as nat, now).after_failure(now)
    }
}

/// The circuit breaker opens after `threshold` consecutive failures: once
/// that many evaluations have failed in a row at time `now`, every call
/// until `now + cooldown` is refused.
pub proof fn law_breaker_opens_after_threshold(s: PolicyClientState, n: nat, now: u64, t: u64)
    requires
        s.spec_failures() == 0,
        n >= s.spec_threshold(),
        n > 0,
        now + s.spec_cooldown_ms() <= u64::MAX,
        now <= t < now + s.spec_cooldown_ms(),
    ensures
        after_failures(s, n, now).is_open(t),
{
    lemma_after_failures(s, n, now);
}

proof fn lemma_after_failures(s: PolicyClientState, n: nat, now: u64)
    requires
        s.spec_failures() == 0,
        n > 0,
    ensures
        after_failures(s, n, now).spec_failures() == (if n > u32::MAX { u32::MAX as nat } else { n }),
        after_failures(s, n, now).spec_threshold() == s.spec_threshold(),
        after_failures(s, n, now).spec_cooldown_ms() == s.spec_cooldown_ms(),
        n >= s.spec_threshold() ==> after_failures(s, n, now).spec_open_until() == Some((now + s.spec_cooldown_ms()) as u64),
    decreases n,
{
    if n > 1 {
        lemma_after_failures(s, (n - 1) as nat, now);
    } else {
        assert(after_failures(s, 0, now) == s);
    }
}

/// A success resets the breaker: no failures are counted and no call is
/// refused afterwards.
pub proof fn law_success_closes_breaker(s: PolicyClientState, t: u64)
    ensures
        s.after_success().spec_failures() == 0,
        !s.after_success().is_open(t),
{
}

/// Below the threshold a failure leaves the breaker as it was.
pub proof fn law_failure_below_threshold(s: PolicyClientState, now: u64)
    requires
        s.spec_failures() + 1 < s.spec_threshold(),
    ensures
        s.after_failure(now).spec_open_until() == s.spec_open_until(),
        s.after_failure(now).spec_failures() == s.spec_failures() + 1,
{
}


/// The first `max_len` bytes of `text` (all of it when it is shorter).
pub fn truncate_text(text: &str, max_len: usize) -> (r: &str)
    requires
        text.spec_bytes().len() <= usize::MAX,
        text.spec_bytes().len() <= max_len || vstd::utf8::is_char_boundary(text.spec_bytes(), max_len as int),
    ensures
        text.spec_bytes().len() <= max_len ==> r@ == text@,
        text.spec_bytes().len() > max_len ==> r.spec_bytes() == text.spec_bytes().subrange(0, max_len as int),
{
    if text.len() <= max_len {
        text
    } else {
        let (head, _) = text.split_at(max_len);
        head
    }
}

/// What the model executor does with an action.
pub enum ModelAction {
    /// The action is answered without inference.
    Done(ActionResult),
    /// Run inference on `prompt`, generating at most `max_tokens` tokens.
    Infer { prompt: String, max_tokens: u32 },
}

/// The message of a `model:invoke` accepted while no model is loaded.
pub open spec fn not_loaded_message() -> Seq<char> {
    "model:invoke accepted (no model loaded; pass-through)"@
}

/// Decide how the model executor handles an action: anything other than
/// `model:invoke` passes through as executed; `model:invoke` with no model
/// loaded is accepted as a pass-through; otherwise the resource is the prompt
/// for an inference of at most 128 tokens.
pub fn plan_model_action(request: &ActionRequest, backend_loaded: bool) -> (a: ModelAction)
    ensures
        request.action@ != "model:invoke"@ ==> a is Done && a->Done_0.version@ == request.version@
            && a->Done_0.status == ActionStatus::Executed && a->Done_0.message@ == executed_message(*request),
        request.action@ == "model:invoke"@ && !backend_loaded ==> a is Done && a->Done_0.version@
            == request.version@ && a->Done_0.status == ActionStatus::Executed && a->Done_0.message@
            == not_loaded_message(),
        request.action@ == "model:invoke"@ && backend_loaded ==> a is Infer && a->prompt@
            == request.resource@ && a->max_tokens == 128,
{
    let act = to_chars(request.action.as_str());
    let invoke = to_chars("model:invoke");
    if !chars_eq(&act, &invoke) {
        return ModelAction::Done(pass_through_result(request));
    }
    if !backend_loaded {
        return ModelAction::Done(
            ActionResult {
                version: request.version.clone(),
                status: ActionStatus::Executed,
                message: String::from_str("model:invoke accepted (no model loaded; pass-through)"),
            },
        );
    }
    ModelAction::Infer { prompt: request.resource.clone(), max_tokens: 128 }
}

/// The head of the message of a completed inference.
pub open spec fn invoke_message_head(resp: InferenceResponse) -> Seq<char> {
    "model:invoke complete ("@ + decimal(resp.total_ms as nat) + "ms, "@ + decimal(
        resp.usage.completion_tokens as nat,
    ) + " tokens): "@
}

/// Turn an inference result into the action result: a completed inference
/// reports its time, token count and the first 200 bytes of its text; a
/// failed one denies the action with the inference error.
pub fn finish_model_action(
    request: &ActionRequest,
    result: Result<InferenceResponse, InferenceError>,
) -> (r: Result<ActionResult, LlmOsError>)
    requires
        result is Ok ==> encode_utf8(result->Ok_0.text@).len() <= usize::MAX,
        result is Ok ==> (encode_utf8(result->Ok_0.text@).len() <= 200 || vstd::utf8::is_char_boundary(
            encode_utf8(result->Ok_0.text@),
            200,
        )),
    ensures
        result is Err ==> r is Err && r->Err_0 is ActionDenied && r->Err_0->ActionDenied_0@
            == "inference failed: "@ + inference_error_message(result->Err_0),
        result is Ok ==> r is Ok && r->Ok_0.version@ == request.version@ && r->Ok_0.status
            == ActionStatus::Executed && (exists|shown: Seq<char>|
            r->Ok_0.message@ == invoke_message_head(result->Ok_0) + shown && (if encode_utf8(result->Ok_0.text@).len() <= 200 {
                shown == result->Ok_0.text@
            } else {
                encode_utf8(shown) == encode_utf8(result->Ok_0.text@).subrange(0, 200)
            })),
{
    match result {
        Ok(response) => {
            let mut m = String::new();
            push_str(&mut m, "model:invoke complete (");
            push_decimal(&mut m, response.total_ms as u128);
            push_str(&mut m, "ms, ");
            push_decimal(&mut m, response.usage.completion_tokens as u128);
            push_str(&mut m, " tokens): ");
            let shown = truncate_text(response.text.as_str(), 200);
            let ghost head = m@;
            push_str(&mut m, shown);
            assert(head == invoke_message_head(response));
            assert(m@ == invoke_message_head(response) + shown@);
            Ok(ActionResult { version: request.version.clone(), status: ActionStatus::Executed, message: m })
        },
        Err(err) => {
            let mut m = String::new();
            push_str(&mut m, "inference failed: ");
            let em = err.message();
            push_str(&mut m, em.as_str());
            assert(m@ =~= "inference failed: "@ + inference_error_message(err));
            Err(LlmOsError::ActionDenied(m))
        },
    }
}

/// The daemon's identity and listen address.
#[derive(Debug, Clone)]
pub struct DaemonConfig {
    pub name: String,
    pub listen: String,
}

/// The model backend settings.
#[derive(Debug, Clone)]
pub struct ModelBackendConfig {
    pub backend: String,
    pub model_path: String,
    pub name: String,
    pub context_length: u32,
    pub gpu_layers: u32,
    pub threads: u32,
    pub quantization: String,
}

/// The policy service settings.
#[derive(Debug, Clone)]
pub struct PolicyConfig {
    pub endpoint: String,
    pub timeout_secs: u64,
    pub max_attempts: usize,
    pub backoff_initial_ms: u64,
    pub backoff_max_ms: u64,
    pub breaker_threshold: u32,
    pub breaker_cooldown_secs: u64,
    pub health_interval_secs: u64,
}

/// The audit sink settings.
#[derive(Debug, Clone)]
pub struct AuditConfig {
    pub sink: String,
    pub jsonl_path: String,
    pub rotate_max_bytes: u64,
    pub rotate_max_files: usize,
}

/// The metrics endpoint settings.
#[derive(Debug, Clone)]
pub struct MetricsConfig {
    pub listen: String,
}

/// The daemon configuration file.
#[derive(Debug, Clone)]
pub struct LlmdConfig {
    pub daemon: DaemonConfig,
    pub model: ModelBackendConfig,
    pub policy: PolicyConfig,
    pub audit: AuditConfig,
    pub metrics: MetricsConfig,
}

/// Default model name.
pub fn default_model_name() -> (r: String)
    ensures
        r@ == "none"@,
{
    String::from_str("none")
}

/// Default context length, in tokens.
pub fn default_context_length() -> (r: u32)
    ensures
        r == 4096,
{
    4096
}

/// Default number of inference threads.
pub fn default_threads() -> (r: u32)
    ensures
        r == 4,
{
    4
}

/// Default quantization format.
pub fn default_quantization() -> (r: String)
    ensures
        r@ == "Q4_K_M"@,
{
    String::from_str("Q4_K_M")
}

/// Default policy timeout, in seconds.
pub fn default_timeout_secs() -> (r: u64)
    ensures
        r == 2,
{
    2
}

/// Default number of policy attempts.
pub fn default_max_attempts() -> (r: usize)
    ensures
        r == 3,
{
    3
}

/// Default initial back-off, in milliseconds.
pub fn default_backoff_initial_ms() -> (r: u64)
    ensures
        r == 100,
{
    100
}

/// Default maximal back-off, in milliseconds.
pub fn default_backoff_max_ms() -> (r: u64)
    ensures
        r == 1000,
{
    1000
}

/// Default breaker threshold.
pub fn default_breaker_threshold() -> (r: u32)
    ensures
        r == 3,
{
    3
}

/// Default breaker cooldown, in seconds.
pub fn default_breaker_cooldown_secs() -> (r: u64)
    ensures
        r == 5,
{
    5
}

/// Default health-check interval, in seconds.
pub fn default_health_interval_secs() -> (r: u64)
    ensures
        r == 30,
{
    30
}

/// Default audit file size before rotation (10 MiB).
pub fn default_rotate_max_bytes() -> (r: u64)
    ensures
        r == 10 * 1024 * 1024,
{
    10 * 1024 * 1024
}

/// Default number of rotated audit files kept.
pub fn default_rotate_max_files() -> (r: usize)
    ensures
        r == 5,
{
    5
}

/// The name of rotated file number `index`: `path.index`.
pub open spec fn rotated_name(path: Seq<char>, index: nat) -> Seq<char> {
    path + seq!['.'] + decimal(index)
}

/// The name of rotated audit file number `index`.
pub fn rotated_path(path: &str, index: usize) -> (r: String)
    ensures
        r@ == rotated_name(path@, index as nat),
{
    let mut r = String::new();
    push_str(&mut r, path);
    push_char(&mut r, '.');
    push_decimal(&mut r, index as u128);
    assert(r@ =~= rotated_name(path@, index as nat));
    r
}

/// The rename of step `j` of a rotation keeping `max_files` files: the
/// oldest files move first, the active file becomes `path.1` last.
pub open spec fn rotation_move(path: Seq<char>, max_files: nat, j: int) -> (Seq<char>, Seq<char>) {
    let idx = max_files - j;
    (
        if idx == 1 { path } else { rotated_name(path, (idx - 1) as nat) },
        rotated_name(path, idx as nat),
    )
}

/// The renames of a rotation, in order (each skipped when its source is missing).
pub fn rotation_moves(path: &str, max_files: usize) -> (r: Vec<(String, String)>)
    ensures
        r@.len() == max_files,
        forall|j: int| 0 <= j < max_files ==> (#[trigger] r@[j].0@, r@[j].1@) == rotation_move(path@, max_files as nat, j),
{
    let mut r: Vec<(String, String)> = Vec::new();
    let mut idx = max_files;
    while idx >= 1
        invariant
            idx <= max_files,
            r@.len() == max_files - idx,
            forall|j: int| 0 <= j < r@.len() ==> (#[trigger] r@[j].0@, r@[j].1@) == rotation_move(path@, max_files as nat, j),
        decreases idx,
    {
        let src = if idx == 1 { path.to_owned() } else { rotated_path(path, idx - 1) };
        let dst = rotated_path(path, idx);
        r.push((src, dst));
        idx -= 1;
    }
    r
}

/// A rotation never overwrites a file before moving it: each rename's
/// target is the file the previous rename moved away, and the last rename
/// moves the active file to `path.1`.
pub proof fn law_rotation_chain(path: Seq<char>, max_files: nat, j: int)
    requires
        max_files >= 1,
        0 <= j,
        j + 1 < max_files,
    ensures
        rotation_move(path, max_files, j + 1).1 == rotation_move(path, max_files, j).0,
        rotation_move(path, max_files, max_files - 1).0 == path,
        rotation_move(path, max_files, max_files - 1).1 == rotated_name(path, 1),
{
}

/// The file number `i` of an audit log: the active file `path` for 0, the
/// rotated file `path.i` otherwise.
pub open spec fn log_file_name(path: Seq<char>, i: nat) -> Seq<char> {
    if i == 0 {
        path
    } else {
        rotated_name(path, i)
    }
}

/// Different file numbers name different files, so a rotation's renames can
/// be followed by number.
pub proof fn law_log_file_names_distinct(path: Seq<char>, i: nat, j: nat)
    requires
        i != j,
    ensures
        log_file_name(path, i) != log_file_name(path, j),
{
    crate::text::lemma_decimal_digits(i);
    crate::text::lemma_decimal_digits(j);
    if i > 0 && j > 0 {
        if log_file_name(path, i) == log_file_name(path, j) {
            let n = path.len() + 1;
            assert(decimal(i) == log_file_name(path, i).skip(n as int));
            assert(decimal(j) == log_file_name(path, j).skip(n as int));
            crate::text::lemma_decimal_injective(i, j);
        }
    } else if i == 0 {
        assert(log_file_name(path, j).len() > path.len());
    } else {
        assert(log_file_name(path, i).len() > path.len());
    }
}

/// Rename `j` of a rotation keeping `max_files` files moves file number
/// `max_files - j - 1` to number `max_files - j`.
pub proof fn law_rotation_move_numbers(path: Seq<char>, max_files: nat, j: int)
    requires
        0 <= j < max_files,
    ensures
        rotation_move(path, max_files, j) == (
            log_file_name(path, (max_files - j - 1) as nat),
            log_file_name(path, (max_files - j) as nat),
        ),
{
}

/// The files of an audit log by number (0 the active one, then the rotated
/// ones up to the number kept): the lines each holds, or `None` when it does
/// not exist.
pub open spec fn rename_file(
    files: Seq<Option<Seq<Seq<u8>>>>,
    src: int,
    dst: int,
) -> Seq<Option<Seq<Seq<u8>>>> {
    if files[src] is Some {
        files.update(dst, files[src]).update(src, None)
    } else {
        files
    }
}

/// The files after the first `n` renames of a rotation keeping `max_files`
/// files (each skipped when its source does not exist).
pub open spec fn after_moves(files: Seq<Option<Seq<Seq<u8>>>>, max_files: nat, n: nat) -> Seq<Option<Seq<Seq<u8>>>>
    decreases n,
{
    if n == 0 {
        files
    } else {
        let j = n - 1;
        rename_file(after_moves(files, max_files, (n - 1) as nat), max_files - j - 1, max_files - j)
    }
}

/// The files after a rotation: all renames, then a fresh, empty active file.
pub open spec fn rotated_files(files: Seq<Option<Seq<Seq<u8>>>>, max_files: nat) -> Seq<Option<Seq<Seq<u8>>>> {
    after_moves(files, max_files, max_files).update(0, Some(Seq::<Seq<u8>>::empty()))
}

/// The files and the active file's size after writing one line: a rotation
/// first when the line would take the active file past `max_bytes`.
pub open spec fn after_emit(
    state: (Seq<Option<Seq<Seq<u8>>>>, nat),
    line: Seq<u8>,
    max_bytes: u64,
    max_files: nat,
) -> (Seq<Option<Seq<Seq<u8>>>>, nat) {
    let (files, bytes) = if state.1 + line.len() > max_bytes {
        (rotated_files(state.0, max_files), 0nat)
    } else {
        state
    };
    let active = match files[0] {
        Some(ls) => ls,
        None => Seq::empty(),
    };
    (files.update(0, Some(active.push(line))), bytes + line.len())
}

/// The files and size after writing `lines` in order.
pub open spec fn after_emits(
    state: (Seq<Option<Seq<Seq<u8>>>>, nat),
    lines: Seq<Seq<u8>>,
    max_bytes: u64,
    max_files: nat,
) -> (Seq<Option<Seq<Seq<u8>>>>, nat)
    decreases lines.len(),
{
    if lines.len() == 0 {
        state
    } else {
        after_emit(after_emits(state, lines.drop_last(), max_bytes, max_files), lines.last(), max_bytes, max_files)
    }
}

/// A fresh log: an empty active file and no rotated files.
pub open spec fn fresh_log(max_files: nat) -> Seq<Option<Seq<Seq<u8>>>> {
    Seq::new(max_files + 1, |i: int| if i == 0 { Some(Seq::<Seq<u8>>::empty()) } else { None })
}

proof fn lemma_after_moves(files: Seq<Option<Seq<Seq<u8>>>>, m: nat, k: nat)
    requires
        files.len() == m + 1,
        1 <= k <= m,
    ensures
        after_moves(files, m, k).len() == m + 1,
        forall|i: int| 0 <= i < m - k ==> #[trigger] after_moves(files, m, k)[i] == files[i],
        after_moves(files, m, k)[m - k] is None,
        forall|i: int| m - k < i < m ==> #[trigger] after_moves(files, m, k)[i] == files[i - 1],
        after_moves(files, m, k)[m as int] == (if files[m - 1] is Some { files[m - 1] } else { files[m as int] }),
    decreases k,
{
    let f = after_moves(files, m, (k - 1) as nat);
    let g = after_moves(files, m, k);
    assert(g == rename_file(f, m - k, m - k + 1));
    if k > 1 {
        lemma_after_moves(files, m, (k - 1) as nat);
        assert(f[m - k] == files[m - k]);
        assert(f[m - k + 1] is None);
    } else {
        assert(f == files);
    }
    assert(g.len() == m + 1);
    assert forall|i: int| 0 <= i < m - k implies #[trigger] g[i] == files[i] by {
        if k > 1 {
            assert(f[i] == files[i]);
        }
    }
}

/// The files a rotation leaves: a fresh active file, each rotated file one
/// number up, and the oldest kept one replaced only when there is a file to
/// move there.
pub proof fn law_rotation_shifts(files: Seq<Option<Seq<Seq<u8>>>>, max_files: nat)
    requires
        files.len() == max_files + 1,
        max_files >= 1,
    ensures
        rotated_files(files, max_files).len() == max_files + 1,
        rotated_files(files, max_files)[0] == Some(Seq::<Seq<u8>>::empty()),
        forall|i: int| 1 <= i < max_files ==> #[trigger] rotated_files(files, max_files)[i] == files[i - 1],
        rotated_files(files, max_files)[max_files as int] == (if files[max_files - 1] is Some {
            files[max_files - 1]
        } else {
            files[max_files as int]
        }),
{
    lemma_after_moves(files, max_files, max_files);
}

/// Writing lines that are each longer than the size limit rotates before
/// every line: afterwards the active file holds the last line, `path.i`
/// holds the line written `i` lines earlier, and nothing beyond
/// `path.<max_files>` exists.
pub proof fn law_rotation_keeps_latest(lines: Seq<Seq<u8>>, max_bytes: u64, max_files: nat)
    requires
        max_files >= 1,
        forall|k: int| 0 <= k < lines.len() ==> (#[trigger] lines[k]).len() > max_bytes,
    ensures
        after_emits((fresh_log(max_files), 0nat), lines, max_bytes, max_files).0.len() == max_files + 1,
        forall|i: int|
            0 <= i <= max_files && i < lines.len() ==> #[trigger] after_emits(
                (fresh_log(max_files), 0nat),
                lines,
                max_bytes,
                max_files,
            ).0[i] == Some(seq![lines[lines.len() - 1 - i]]),
    decreases lines.len(),
{
    lemma_rotation_series(lines, max_bytes, max_files);
}

proof fn lemma_rotation_series(lines: Seq<Seq<u8>>, max_bytes: u64, m: nat)
    requires
        m >= 1,
        forall|k: int| 0 <= k < lines.len() ==> (#[trigger] lines[k]).len() > max_bytes,
    ensures
        ({
            let st = after_emits((fresh_log(m), 0nat), lines, max_bytes, m);
            let n = lines.len() as int;
            &&& st.0.len() == m + 1
            &&& st.0[0] == (if n == 0 { Some(Seq::<Seq<u8>>::empty()) } else { Some(seq![lines[n - 1]]) })
            &&& st.1 == (if n == 0 { 0 } else { lines[n - 1].len() })
            &&& forall|i: int| 1 <= i <= m ==> #[trigger] st.0[i] == (if i < n {
                Some(seq![lines[n - 1 - i]])
            } else if i == n {
                Some(Seq::<Seq<u8>>::empty())
            } else {
                None
            })
        }),
    decreases lines.len(),
{
    let n = lines.len() as int;
    if n > 0 {
        let p = lines.drop_last();
        assert forall|k: int| 0 <= k < p.len() implies (#[trigger] p[k]).len() > max_bytes by {
            assert(p[k] == lines[k]);
        }
        lemma_rotation_series(p, max_bytes, m);
        let prev = after_emits((fresh_log(m), 0nat), p, max_bytes, m);
        let line = lines.last();
        assert(line == lines[n - 1]);
        assert(prev.1 + line.len() > max_bytes);
        law_rotation_shifts(prev.0, m);
        let r = rotated_files(prev.0, m);
        let st = after_emits((fresh_log(m), 0nat), lines, max_bytes, m);
        assert(st == after_emit(prev, line, max_bytes, m));
        assert(st.0 == r.update(0, Some(Seq::<Seq<u8>>::empty().push(line))));
        assert(Seq::<Seq<u8>>::empty().push(line) == seq![lines[n - 1]]);
        assert forall|i: int| 1 <= i <= m implies #[trigger] st.0[i] == (if i < n {
            Some(seq![lines[n - 1 - i]])
        } else if i == n {
            Some(Seq::<Seq<u8>>::empty())
        } else {
            None
        }) by {
            assert(st.0[i] == r[i]);
            if i < m {
                assert(r[i] == prev.0[i - 1]);
                if i - 1 >= 1 {
                    assert(prev.0[i - 1] == (if i - 1 < n - 1 {
                        Some(seq![p[n - 2 - (i - 1)]])
                    } else if i - 1 == n - 1 {
                        Some(Seq::<Seq<u8>>::empty())
                    } else {
                        None
                    }));
                    if i - 1 < n - 1 {
                        assert(p[n - 2 - (i - 1)] == lines[n - 1 - i]);
                    }
                } else {
                    if n - 1 > 0 {
                        assert(p[n - 2] == lines[n - 2]);
                    }
                }
            } else {
                if m - 1 >= 1 {
                    assert(prev.0[m - 1] == (if m - 1 < n - 1 {
                        Some(seq![p[n - 2 - (m - 1)]])
                    } else if m - 1 == n - 1 {
                        Some(Seq::<Seq<u8>>::empty())
                    } else {
                        None
                    }));
                    assert(prev.0[m as int] == (if m < n - 1 {
                        Some(seq![p[n - 2 - m]])
                    } else if m == n - 1 {
                        Some(Seq::<Seq<u8>>::empty())
                    } else {
                        None
                    }));
                    if m - 1 < n - 1 {
                        assert(p[n - 2 - (m - 1)] == lines[n - 1 - i]);
                    }
                } else {
                    if n - 1 > 0 {
                        assert(p[n - 2] == lines[n - 2]);
                    }
                }
            }
        }
    } else {
        let st = after_emits((fresh_log(m), 0nat), lines, max_bytes, m);
        assert(st == (fresh_log(m), 0nat));
    }
}

/// With the default settings (10 MiB, 5 files) a rotation renames files
/// number 4 down to 0 into numbers 5 down to 1: the oldest file kept is
/// `path.5`.
pub proof fn law_default_rotation(path: Seq<char>)
    ensures
        rotation_move(path, 5, 0) == (rotated_name(path, 4), rotated_name(path, 5)),
        rotation_move(path, 5, 4) == (path, rotated_name(path, 1)),
        10 * 1024 * 1024 == 10485760,
{
}

/// Size-based rotation settings of the JSONL audit sink.
#[derive(Debug, Clone, Copy)]
pub struct AuditRotation {
    pub max_bytes: u64,
    pub max_files: usize,
}

impl AuditRotation {
    /// Rotation at 10 MiB, keeping 5 files.
    pub fn new() -> (r: AuditRotation)
        ensures
            r.max_bytes == 10 * 1024 * 1024,
            r.max_files == 5,
    {
        AuditRotation { max_bytes: 10 * 1024 * 1024, max_files: 5 }
    }

    /// Custom rotation; at least one rotated file is kept.
    pub fn with_rotation(max_bytes: u64, max_files: usize) -> (r: AuditRotation)
        ensures
            r.max_bytes == max_bytes,
            r.max_files == (if max_files < 1 { 1 } else { max_files }),
    {
        AuditRotation { max_bytes, max_files: if max_files < 1 { 1 } else { max_files } }
    }

    /// Whether writing `payload_len` more bytes after `bytes_written` needs a rotation first.
    pub fn needs_rotation(&self, bytes_written: u64, payload_len: usize) -> (r: bool)
        requires
            bytes_written + payload_len <= u64::MAX,
        ensures
            r == (bytes_written + payload_len > self.max_bytes),
    {
        bytes_written + payload_len as u64 > self.max_bytes
    }
}

/// An identifier `prefix-ts-seq`.
pub open spec fn id_text(prefix: Seq<char>, ts: u128, seq: u64) -> Seq<char> {
    prefix + seq!['-'] + decimal(ts as nat) + seq!['-'] + decimal(seq as nat)
}

/// Build an identifier from a prefix, a timestamp and a sequence number.
pub fn generate_id(prefix: &str, ts: u128, seq: u64) -> (r: String)
    ensures
        r@ == id_text(prefix@, ts, seq),
{
    let mut r = String::new();
    push_str(&mut r, prefix);
    push_char(&mut r, '-');
    push_decimal(&mut r, ts);
    push_char(&mut r, '-');
    push_decimal(&mut r, seq as u128);
    assert(r@ =~= id_text(prefix@, ts, seq));
    r
}

/// A version-1 action request.
pub fn build_request(
    subject: &str,
    action: &str,
    resource: &str,
    correlation_id: &str,
    request_id: String,
) -> (r: ActionRequest)
    ensures
        r.version@ == "v1"@,
        r.request_id == request_id,
        r.correlation_id@ == correlation_id@,
        r.subject@ == subject@,
        r.action@ == action@,
        r.resource@ == resource@,
{
    ActionRequest {
        version: String::from_str("v1"),
        request_id,
        correlation_id: correlation_id.to_owned(),
        subject: subject.to_owned(),
        action: action.to_owned(),
        resource: resource.to_owned(),
    }
}

/// The module identity of the runtime daemon.
pub open spec fn llmd_module() -> Seq<char> {
    "runtime/model-runtime"@
}

/// The secret store of the runtime daemon: the provider credential keys
/// `openai_api_key`, `anthropic_api_key` and `local_model_path`, each
/// readable by the daemon's own module only.
pub fn build_llmd_secret_store<P>(provider: P) -> (s: SecretStore<P>)
    ensures
        s.view() == map![
            "openai_api_key"@ => seq![llmd_module()],
            "anthropic_api_key"@ => seq![llmd_module()],
            "local_model_path"@ => seq![llmd_module()],
        ],
        s.spec_provider() == provider,
{
    let mut store = SecretStore::new(provider);
    let module = String::from_str("runtime/model-runtime");
    let m1 = vec![module.clone()];
    assert(module_views(m1@) =~= seq![llmd_module()]);
    store.register("openai_api_key", m1);
    let m2 = vec![module.clone()];
    assert(module_views(m2@) =~= seq![llmd_module()]);
    store.register("anthropic_api_key", m2);
    let m3 = vec![module];
    assert(module_views(m3@) =~= seq![llmd_module()]);
    store.register("local_model_path", m3);
    assert(store.view() =~= map![
        "openai_api_key"@ => seq![llmd_module()],
        "anthropic_api_key"@ => seq![llmd_module()],
        "local_model_path"@ => seq![llmd_module()],
    ]);
    store
}

} // verus!

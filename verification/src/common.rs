//! Types shared by the daemons: module descriptors, action requests and their
//! results, policy decision records, audit events and the common error type.

use vstd::prelude::*;

use crate::text::concat2;

verus! {

broadcast use vstd::string::group_string_axioms;

/// A running module of the system.
#[derive(Debug, Clone)]
pub struct ModuleDescriptor {
    pub id: String,
    pub version: String,
    pub status: String,
}

/// The error type shared by the daemons.
#[derive(Debug)]
pub enum LlmOsError {
    ModuleNotFound(String),
    PolicyUnavailable(String),
    ActionDenied(String),
}

/// A request to perform an action on behalf of a subject.
#[derive(Debug, Clone)]
pub struct ActionRequest {
    pub version: String,
    pub request_id: String,
    pub correlation_id: String,
    pub subject: String,
    pub action: String,
    pub resource: String,
}

/// Whether an action ran.
#[derive(Debug, Clone, Copy, PartialEq, Eq)]
pub enum ActionStatus {
    Executed,
    Denied,
}

/// The result of an action.
#[derive(Debug, Clone)]
pub struct ActionResult {
    pub version: String,
    pub status: ActionStatus,
    pub message: String,
}

/// The effect of a policy decision as the daemons record it.
#[derive(Debug, Clone, Copy, PartialEq, Eq)]
pub enum PolicyEffect {
    Allow,
    Deny,
}

/// A policy decision as the daemons record it.
#[derive(Debug, Clone)]
pub struct PolicyDecisionRecord {
    pub version: String,
    pub effect: PolicyEffect,
    pub reason: String,
    pub rule_id: Option<String>,
}

/// One audit record: who asked for what, what was decided and what happened.
#[derive(Debug, Clone)]
pub struct AuditEvent {
    pub version: String,
    pub request_id: String,
    pub correlation_id: String,
    pub timestamp_unix_ms: u128,
    pub subject: String,
    pub action: String,
    pub resource: String,
    pub decision: PolicyDecisionRecord,
    pub outcome: ActionStatus,
}

/// The rendered message of an error, as its `Display` prints it.
pub open spec fn error_message(e: LlmOsError) -> Seq<char> {
    match e {
        LlmOsError::ModuleNotFound(m) => "module not found: "@ + m@,
        LlmOsError::PolicyUnavailable(m) => "policy unavailable: "@ + m@,
        LlmOsError::ActionDenied(m) => "action denied: "@ + m@,
    }
}

impl LlmOsError {
    /// The rendered message of the error.
    pub fn message(&self) -> (r: String)
        ensures
            r@ == error_message(*self),
    {
        match self {
            LlmOsError::ModuleNotFound(m) => concat2("module not found: ", m.as_str()),
            LlmOsError::PolicyUnavailable(m) => concat2("policy unavailable: ", m.as_str()),
            LlmOsError::ActionDenied(m) => concat2("action denied: ", m.as_str()),
        }
    }
}

/// A copy of a decision record with the same fields.
pub fn copy_decision(d: &PolicyDecisionRecord) -> (r: PolicyDecisionRecord)
    ensures
        r == *d,
{
    PolicyDecisionRecord {
        version: d.version.clone(),
        effect: d.effect,
        reason: d.reason.clone(),
        rule_id: match &d.rule_id {
            Some(id) => Some(id.clone()),
            None => None,
        },
    }
}

} // verus!

//! Verified core logic of the LLM-OS control plane: policy evaluation,
//! workload identity, sandbox templates, secret scoping and runtime metrics.

pub mod text;
pub mod workload;
pub mod policy;
pub mod base64;
pub mod common;
pub mod token;
pub mod sandbox;
pub mod model_runtime;
pub mod kernel_profile;
pub mod secrets;
pub mod metrics;
pub mod llmd;
pub mod mcp_runtime;
pub mod benchmark;
pub mod service_bus;

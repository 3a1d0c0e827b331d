# llmos

The decision logic of the LLM-OS control plane, written in Verus and proved
against its contracts:

- `policy`: policy documents, deny-by-default evaluation, subject patterns,
  the policy service's answers and hot-reload bookkeeping.
- `workload`, `token`, `base64`: workload identifiers, base64-framed identity
  tokens and their validity windows.
- `sandbox`, `mcp_runtime`: seccomp, AppArmor, namespace and capability
  templates; plugin manifests, the sandbox each plugin gets, and which
  plugins run.
- `secrets`: which modules may read which secret keys.
- `llmd`: gating actions on policy decisions (failing closed), audit
  records, the policy client's retries, back-off and circuit breaker, the
  model executor and audit-log rotation.
- `model_runtime`, `kernel_profile`: model configuration, the mock backend,
  token-by-token generation and stop sequences; cgroup and OOM defaults.
- `metrics`: counters, latency histograms and their Prometheus text.
- `service_bus`: message ids, transport errors and topic routing.
- `benchmark`: the benchmark CSV format and run selection.
- `text`, `common`: shared string helpers and records.

`app/` holds what runs around the library: files, clocks, processes,
channels, HTTP and the policy transport. `tests/` exercises the library.

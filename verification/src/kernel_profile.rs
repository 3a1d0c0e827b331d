//! Kernel resource defaults for LLM workloads: cgroup v2 settings and the
//! out-of-memory policy.

use vstd::prelude::*;

verus! {

/// cgroup v2 defaults for LLM workloads.
#[derive(Debug, Clone, PartialEq)]
pub struct CgroupDefaults {
    /// Memory limit in bytes; `None` means no limit.
    pub memory_max_bytes: Option<u64>,
    /// Memory high watermark in bytes; `None` means no watermark.
    pub memory_high_bytes: Option<u64>,
    /// CPU weight (1-10000, default 100).
    pub cpu_weight: u32,
}

impl Default for CgroupDefaults {
    /// No memory limit, no watermark, CPU weight 100.
    fn default() -> (d: Self)
        ensures
            d.memory_max_bytes is None,
            d.memory_high_bytes is None,
            d.cpu_weight == 100,
    {
        CgroupDefaults { memory_max_bytes: None, memory_high_bytes: None, cpu_weight: 100 }
    }
}

/// OOM policy recommendation for a workload.
#[derive(Debug, Clone, Copy, PartialEq, Eq)]
pub enum OomPolicy {
    /// Kill the workload process on OOM.
    Kill,
    /// Pause the workload and alert the operator.
    Pause,
    /// Attempt to reclaim memory by compressing before killing.
    CompressThenKill,
}

impl Default for OomPolicy {
    /// The default policy is to kill the workload.
    fn default() -> (p: Self)
        ensures
            p == OomPolicy::Kill,
    {
        OomPolicy::Kill
    }
}

} // verus!

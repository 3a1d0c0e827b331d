use llmos::kernel_profile::{CgroupDefaults, OomPolicy};

#[test]
fn cgroup_defaults_are_sensible() {
    let defaults = CgroupDefaults::default();
    assert_eq!(defaults.cpu_weight, 100);
    assert!(defaults.memory_max_bytes.is_none());
    assert!(defaults.memory_high_bytes.is_none());
}

#[test]
fn oom_policy_default_is_kill() {
    assert_eq!(OomPolicy::default(), OomPolicy::Kill);
}

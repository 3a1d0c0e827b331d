use llmos::mcp_runtime::{resolve_sandbox, Capability};
use llmos::sandbox::{
    AppArmorTemplate, CapabilityPreset, NamespacePreset, SeccompAction, SeccompTemplate,
};

fn allowed_names(profile: &llmos::sandbox::SeccompProfile) -> Vec<String> {
    profile
        .rules
        .iter()
        .filter(|r| r.action == SeccompAction::Allow)
        .flat_map(|r| r.names.iter().cloned())
        .collect()
}

#[test]
fn mcp_plugin_seccomp_denies_by_default() {
    let profile = SeccompTemplate::mcp_plugin();
    assert_eq!(profile.default_action, SeccompAction::Errno);
}

#[test]
fn mcp_plugin_seccomp_allows_basic_io() {
    let profile = SeccompTemplate::mcp_plugin();
    let allowed = allowed_names(&profile);
    assert!(allowed.contains(&"read".to_string()));
    assert!(allowed.contains(&"write".to_string()));
    assert!(allowed.contains(&"close".to_string()));
}

#[test]
fn model_runtime_seccomp_allows_network() {
    let profile = SeccompTemplate::model_runtime();
    let allowed = allowed_names(&profile);
    assert!(allowed.contains(&"socket".to_string()));
    assert!(allowed.contains(&"connect".to_string()));
}

#[test]
fn mcp_plugin_seccomp_has_no_network() {
    let allowed = allowed_names(&SeccompTemplate::mcp_plugin());
    assert!(!allowed.contains(&"socket".to_string()));
    assert!(!allowed.contains(&"connect".to_string()));
}

#[test]
fn mcp_plugin_apparmor_denies_network() {
    let profile = AppArmorTemplate::mcp_plugin("/opt/plugins");
    assert!(!profile.network_access);
    assert!(profile.write_paths.is_empty());
}

#[test]
fn mcp_plugin_apparmor_paths() {
    let profile = AppArmorTemplate::mcp_plugin("/opt/plugins");
    assert_eq!(profile.name, "llmos-mcp-plugin");
    assert_eq!(profile.read_paths, vec!["/opt/plugins/**", "/usr/lib/**", "/lib/**"]);
}

#[test]
fn model_runtime_apparmor_allows_network() {
    let profile = AppArmorTemplate::model_runtime("/etc/llmos", "/var/log/llmos");
    assert!(profile.network_access);
    assert!(!profile.write_paths.is_empty());
    assert_eq!(profile.write_paths, vec!["/var/log/llmos/**"]);
}

#[test]
fn full_namespace_isolates_everything() {
    let ns = NamespacePreset::full();
    assert!(ns.pid);
    assert!(ns.net);
    assert!(ns.mount);
    assert!(ns.ipc);
    assert!(ns.user);
}

#[test]
fn none_namespace_shares_everything() {
    let ns = NamespacePreset::none();
    assert!(!ns.pid);
    assert!(!ns.net);
    assert!(!ns.mount);
    assert!(!ns.ipc);
    assert!(!ns.user);
}

#[test]
fn network_only_namespace_isolates_network() {
    let ns = NamespacePreset::network_only();
    assert!(ns.net);
    assert!(!ns.pid && !ns.mount && !ns.ipc && !ns.user);
}

#[test]
fn minimal_capabilities_deny_dangerous_caps() {
    let caps = CapabilityPreset::minimal();
    assert!(caps.allowed.is_empty());
    assert!(caps.denied.contains(&"CAP_SYS_ADMIN".to_string()));
    assert!(caps.denied.contains(&"CAP_NET_RAW".to_string()));
}

#[test]
fn model_runtime_capabilities_allow_net_bind() {
    let caps = CapabilityPreset::model_runtime();
    assert!(caps.allowed.contains(&"CAP_NET_BIND_SERVICE".to_string()));
}

#[test]
fn plugin_without_network_gets_restrictive_profile() {
    let config = resolve_sandbox(
        "test.plugin",
        &vec![Capability::FsRead, Capability::McpSpawn],
        "/opt/plugins/test",
    );
    assert!(!config.apparmor.network_access);
    assert!(config.apparmor.write_paths.is_empty());
    assert!(config.namespaces.net);
    assert!(config.namespaces.pid);
    assert!(config.capabilities.allowed.is_empty());
}

#[test]
fn plugin_with_network_gets_permissive_profile() {
    let config = resolve_sandbox(
        "net.plugin",
        &vec![Capability::NetworkEgress, Capability::FsRead],
        "/opt/plugins/net",
    );
    assert!(config.apparmor.network_access);
    assert_eq!(config.apparmor.write_paths, vec!["/var/log/llmos/net.plugin/**"]);
    assert!(config.namespaces.net);
    assert!(!config.namespaces.pid);
    assert!(config
        .capabilities
        .allowed
        .contains(&"CAP_NET_BIND_SERVICE".to_string()));
    let allowed = allowed_names(&config.seccomp);
    assert!(allowed.contains(&"connect".to_string()));
}

#[test]
fn model_runtime_seccomp_extends_plugin_rules() {
    let plugin = allowed_names(&SeccompTemplate::mcp_plugin());
    let runtime = allowed_names(&SeccompTemplate::model_runtime());
    assert!(plugin.iter().all(|n| runtime.contains(n)));
    for n in ["socket", "connect", "sendto", "recvfrom"] {
        assert!(runtime.contains(&n.to_string()), "{n}");
    }
    assert_eq!(SeccompTemplate::model_runtime().default_action, SeccompAction::Errno);
}

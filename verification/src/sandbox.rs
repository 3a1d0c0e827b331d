//! Sandbox templates: seccomp filters, AppArmor profiles, namespace presets
//! and Linux capability sets for the workload types of the system.

use vstd::prelude::*;

use crate::text::concat2;

verus! {

broadcast use vstd::string::group_string_axioms;

/// The characters of each string of a list.
pub open spec fn views(v: Seq<String>) -> Seq<Seq<char>> {
    v.map_values(|s: String| s@)
}

/// An AppArmor profile definition.
#[derive(Debug, Clone)]
pub struct AppArmorProfile {
    pub name: String,
    pub read_paths: Vec<String>,
    pub write_paths: Vec<String>,
    pub network_access: bool,
}

/// Pre-built AppArmor templates for common workload types.
pub struct AppArmorTemplate;

impl AppArmorTemplate {
    /// A restrictive profile for MCP plugins: read access to the plugin
    /// directory and the system libraries only, no write access, no network.
    pub fn mcp_plugin(plugin_dir: &str) -> (p: AppArmorProfile)
        ensures
            p.name@ == "llmos-mcp-plugin"@,
            views(p.read_paths@) == seq![plugin_dir@ + "/**"@, "/usr/lib/**"@, "/lib/**"@],
            p.write_paths@.len() == 0,
            !p.network_access,
    {
        let p = AppArmorProfile {
            name: String::from_str("llmos-mcp-plugin"),
            read_paths: vec![
                concat2(plugin_dir, "/**"),
                String::from_str("/usr/lib/**"),
                String::from_str("/lib/**"),
            ],
            write_paths: Vec::new(),
            network_access: false,
        };
        assert(views(p.read_paths@) =~= seq![plugin_dir@ + "/**"@, "/usr/lib/**"@, "/lib/**"@]);
        p
    }

    /// A profile for the model runtime: read access to the config directory
    /// and the system libraries, write access to the audit directory, network on.
    pub fn model_runtime(config_dir: &str, audit_dir: &str) -> (p: AppArmorProfile)
        ensures
            p.name@ == "llmos-model-runtime"@,
            views(p.read_paths@) == seq![config_dir@ + "/**"@, "/usr/lib/**"@, "/lib/**"@],
            views(p.write_paths@) == seq![audit_dir@ + "/**"@],
            p.network_access,
    {
        let p = AppArmorProfile {
            name: String::from_str("llmos-model-runtime"),
            read_paths: vec![
                concat2(config_dir, "/**"),
                String::from_str("/usr/lib/**"),
                String::from_str("/lib/**"),
            ],
            write_paths: vec![concat2(audit_dir, "/**")],
            network_access: true,
        };
        assert(views(p.read_paths@) =~= seq![config_dir@ + "/**"@, "/usr/lib/**"@, "/lib/**"@]);
        assert(views(p.write_paths@) =~= seq![audit_dir@ + "/**"@]);
        p
    }
}

/// A set of Linux capabilities to grant or deny.
#[derive(Debug, Clone, PartialEq, Eq)]
pub struct CapabilitySet {
    pub allowed: Vec<String>,
    pub denied: Vec<String>,
}

/// Pre-built capability presets.
pub struct CapabilityPreset;

/// The capabilities that the minimal preset denies.
pub open spec fn minimal_denied() -> Seq<Seq<char>> {
    seq![
        "CAP_NET_RAW"@,
        "CAP_NET_ADMIN"@,
        "CAP_SYS_ADMIN"@,
        "CAP_SYS_PTRACE"@,
        "CAP_SYS_MODULE"@,
        "CAP_MKNOD"@,
    ]
}

/// The capabilities that the model-runtime preset denies.
pub open spec fn model_runtime_denied() -> Seq<Seq<char>> {
    seq!["CAP_SYS_ADMIN"@, "CAP_SYS_PTRACE"@, "CAP_SYS_MODULE"@, "CAP_MKNOD"@]
}

impl CapabilityPreset {
    /// Minimal capabilities for sandboxed plugins: nothing allowed; network,
    /// raw I/O and privilege escalation denied.
    pub fn minimal() -> (c: CapabilitySet)
        ensures
            c.allowed@.len() == 0,
            views(c.denied@) == minimal_denied(),
    {
        let c = CapabilitySet {
            allowed: Vec::new(),
            denied: vec![
                String::from_str("CAP_NET_RAW"),
                String::from_str("CAP_NET_ADMIN"),
                String::from_str("CAP_SYS_ADMIN"),
                String::from_str("CAP_SYS_PTRACE"),
                String::from_str("CAP_SYS_MODULE"),
                String::from_str("CAP_MKNOD"),
            ],
        };
        assert(views(c.denied@) =~= minimal_denied());
        c
    }

    /// Capabilities for the model runtime: network binding allowed.
    pub fn model_runtime() -> (c: CapabilitySet)
        ensures
            views(c.allowed@) == seq!["CAP_NET_BIND_SERVICE"@],
            views(c.denied@) == model_runtime_denied(),
    {
        let c = CapabilitySet {
            allowed: vec![String::from_str("CAP_NET_BIND_SERVICE")],
            denied: vec![
                String::from_str("CAP_SYS_ADMIN"),
                String::from_str("CAP_SYS_PTRACE"),
                String::from_str("CAP_SYS_MODULE"),
                String::from_str("CAP_MKNOD"),
            ],
        };
        assert(views(c.allowed@) =~= seq!["CAP_NET_BIND_SERVICE"@]);
        assert(views(c.denied@) =~= model_runtime_denied());
        c
    }
}

/// Linux namespace isolation settings.
#[derive(Debug, Clone, PartialEq, Eq)]
pub struct NamespaceConfig {
    pub pid: bool,
    pub net: bool,
    pub mount: bool,
    pub ipc: bool,
    pub user: bool,
}

/// Pre-built namespace presets.
pub struct NamespacePreset;

impl NamespacePreset {
    /// Full isolation: all namespaces enabled.
    pub fn full() -> (n: NamespaceConfig)
        ensures
            n == (NamespaceConfig { pid: true, net: true, mount: true, ipc: true, user: true }),
    {
        NamespaceConfig { pid: true, net: true, mount: true, ipc: true, user: true }
    }

    /// Network-only isolation: a separate network namespace, everything else shared.
    pub fn network_only() -> (n: NamespaceConfig)
        ensures
            n == (NamespaceConfig { pid: false, net: true, mount: false, ipc: false, user: false }),
    {
        NamespaceConfig { pid: false, net: true, mount: false, ipc: false, user: false }
    }

    /// No isolation: all namespaces shared with the host.
    pub fn none() -> (n: NamespaceConfig)
        ensures
            n == (NamespaceConfig { pid: false, net: false, mount: false, ipc: false, user: false }),
    {
        NamespaceConfig { pid: false, net: false, mount: false, ipc: false, user: false }
    }
}

/// Action to take when a syscall matches a rule.
#[derive(Debug, Clone, Copy, PartialEq, Eq)]
pub enum SeccompAction {
    Allow,
    Kill,
    Log,
    Errno,
}

/// A single syscall filtering rule.
#[derive(Debug, Clone)]
pub struct SyscallRule {
    pub names: Vec<String>,
    pub action: SeccompAction,
}

/// A complete seccomp profile: a default action and a list of rules.
#[derive(Debug, Clone)]
pub struct SeccompProfile {
    pub default_action: SeccompAction,
    pub rules: Vec<SyscallRule>,
}

/// Pre-built seccomp templates for common workload types.
pub struct SeccompTemplate;

/// Basic I/O, memory and process syscalls of the plugin template.
pub open spec fn base_syscalls() -> Seq<Seq<char>> {
    seq![
        "read"@,
        "write"@,
        "close"@,
        "fstat"@,
        "lseek"@,
        "mmap"@,
        "mprotect"@,
        "munmap"@,
        "brk"@,
        "exit_group"@,
        "exit"@,
        "futex"@,
        "clock_gettime"@,
        "getpid"@,
        "gettid"@,
    ]
}

/// File-lookup syscalls of the plugin template.
pub open spec fn file_syscalls() -> Seq<Seq<char>> {
    seq!["openat"@, "newfstatat"@, "getdents64"@]
}

/// Network syscalls that only the model-runtime template adds.
pub open spec fn network_syscalls() -> Seq<Seq<char>> {
    seq![
        "socket"@,
        "connect"@,
        "sendto"@,
        "recvfrom"@,
        "bind"@,
        "listen"@,
        "accept"@,
        "setsockopt"@,
        "getsockopt"@,
        "epoll_create1"@,
        "epoll_ctl"@,
        "epoll_wait"@,
    ]
}

/// The rules of a profile, each as (syscall names, action).
pub open spec fn rule_views(rules: Seq<SyscallRule>) -> Seq<(Seq<Seq<char>>, SeccompAction)> {
    rules.map_values(|r: SyscallRule| (views(r.names@), r.action))
}

/// The rules of the plugin template.
pub open spec fn mcp_plugin_rules() -> Seq<(Seq<Seq<char>>, SeccompAction)> {
    seq![(base_syscalls(), SeccompAction::Allow), (file_syscalls(), SeccompAction::Allow)]
}

impl SeccompTemplate {
    /// A restrictive profile for MCP plugins: basic I/O, memory and process
    /// syscalls are allowed; everything else fails with an errno.
    pub fn mcp_plugin() -> (p: SeccompProfile)
        ensures
            p.default_action == SeccompAction::Errno,
            rule_views(p.rules@) == mcp_plugin_rules(),
    {
        let base = vec![
            String::from_str("read"),
            String::from_str("write"),
            String::from_str("close"),
            String::from_str("fstat"),
            String::from_str("lseek"),
            String::from_str("mmap"),
            String::from_str("mprotect"),
            String::from_str("munmap"),
            String::from_str("brk"),
            String::from_str("exit_group"),
            String::from_str("exit"),
            String::from_str("futex"),
            String::from_str("clock_gettime"),
            String::from_str("getpid"),
            String::from_str("gettid"),
        ];
        let files = vec![
            String::from_str("openat"),
            String::from_str("newfstatat"),
            String::from_str("getdents64"),
        ];
        assert(views(base@) =~= base_syscalls());
        assert(views(files@) =~= file_syscalls());
        let p = SeccompProfile {
            default_action: SeccompAction::Errno,
            rules: vec![
                SyscallRule { names: base, action: SeccompAction::Allow },
                SyscallRule { names: files, action: SeccompAction::Allow },
            ],
        };
        assert(rule_views(p.rules@) =~= mcp_plugin_rules());
        p
    }

    /// A permissive profile for the model runtime: the plugin rules plus the
    /// network syscalls needed to reach external APIs.
    pub fn model_runtime() -> (p: SeccompProfile)
        ensures
            p.default_action == SeccompAction::Errno,
            rule_views(p.rules@) == mcp_plugin_rules().push(
                (network_syscalls(), SeccompAction::Allow),
            ),
    {
        let mut profile = Self::mcp_plugin();
        let net = vec![
            String::from_str("socket"),
            String::from_str("connect"),
            String::from_str("sendto"),
            String::from_str("recvfrom"),
            String::from_str("bind"),
            String::from_str("listen"),
            String::from_str("accept"),
            String::from_str("setsockopt"),
            String::from_str("getsockopt"),
            String::from_str("epoll_create1"),
            String::from_str("epoll_ctl"),
            String::from_str("epoll_wait"),
        ];
        assert(views(net@) =~= network_syscalls());
        let ghost before = profile.rules@;
        profile.rules.push(SyscallRule { names: net, action: SeccompAction::Allow });
        assert(rule_views(profile.rules@) =~= rule_views(before).push(
            (network_syscalls(), SeccompAction::Allow),
        ));
        profile
    }
}

/// A syscall name is allowed by some `Allow` rule of the profile.
pub open spec fn allows_syscall(rules: Seq<(Seq<Seq<char>>, SeccompAction)>, name: Seq<char>) -> bool {
    exists|i: int, j: int|
        0 <= i < rules.len() && rules[i].1 == SeccompAction::Allow && 0 <= j < rules[i].0.len()
            && #[trigger] rules[i].0[j] == name
}

/// The model-runtime seccomp template allows every syscall that the plugin
/// template allows, and additionally the network syscalls.
pub proof fn law_model_runtime_extends_plugin(name: Seq<char>)
    ensures
        allows_syscall(mcp_plugin_rules(), name) ==> allows_syscall(
            mcp_plugin_rules().push((network_syscalls(), SeccompAction::Allow)),
            name,
        ),
        network_syscalls().contains(name) ==> allows_syscall(
            mcp_plugin_rules().push((network_syscalls(), SeccompAction::Allow)),
            name,
        ),
{
    let base = mcp_plugin_rules();
    let ext = base.push((network_syscalls(), SeccompAction::Allow));
    if allows_syscall(base, name) {
        let (i, j) = choose|i: int, j: int|
            0 <= i < base.len() && base[i].1 == SeccompAction::Allow && 0 <= j < base[i].0.len()
                && #[trigger] base[i].0[j] == name;
        assert(ext[i] == base[i]);
        assert(ext[i].0[j] == name);
    }
    if network_syscalls().contains(name) {
        let j = choose|j: int| 0 <= j < network_syscalls().len() && network_syscalls()[j] == name;
        assert(ext[2] == (network_syscalls(), SeccompAction::Allow));
        assert(ext[2].0[j] == name);
    }
}

} // verus!

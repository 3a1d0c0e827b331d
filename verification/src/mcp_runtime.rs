//! MCP plugin runtime: plugin manifests, their validation, and the sandbox
//! each plugin gets from its declared capabilities.

use vstd::prelude::*;

use crate::sandbox::{
    base_syscalls, file_syscalls, mcp_plugin_rules, minimal_denied, model_runtime_denied,
    network_syscalls, rule_views, views, AppArmorProfile, AppArmorTemplate, CapabilityPreset,
    CapabilitySet, NamespaceConfig, NamespacePreset, SeccompAction, SeccompProfile,
    SeccompTemplate,
};
use crate::secrets::{lemma_lex_irreflexive, lemma_lex_transitive, lemma_lex_trichotomy, lex_less, lex_lt};
use crate::text::{chars_eq, concat2, push_char, push_str, to_chars, trim, trim_bounds};

verus! {

broadcast use vstd::string::group_string_axioms;

/// A capability a plugin may declare.
#[derive(Debug, Clone, Copy, PartialEq, Eq, Hash, Structural)]
pub enum Capability {
    ModelInvoke,
    McpSpawn,
    NetworkEgress,
    FsRead,
    FsWrite,
    AuditEmit,
}

/// A plugin manifest as read from its JSON file.
#[derive(Debug, Clone)]
pub struct PluginManifest {
    pub id: String,
    pub version: String,
    pub entrypoint: String,
    pub description: Option<String>,
    pub capabilities: Vec<Capability>,
}

/// The runtime status of a plugin.
#[derive(Debug, Clone)]
pub struct PluginRuntimeStatus {
    pub id: String,
    pub version: String,
    pub entrypoint: String,
    pub running: bool,
    pub pid: Option<u32>,
}

/// Characters allowed in a plugin id: `[a-z0-9._-]`.
pub open spec fn plugin_id_char(c: char) -> bool {
    ('a' <= c && c <= 'z') || ('0' <= c && c <= '9') || c == '.' || c == '_' || c == '-'
}

/// A valid plugin id: non-empty, made of allowed characters.
pub open spec fn valid_plugin_id(id: Seq<char>) -> bool {
    id.len() > 0 && forall|i: int| 0 <= i < id.len() ==> plugin_id_char(#[trigger] id[i])
}

/// Why a plugin id was rejected.
#[derive(Debug, Clone, Copy, PartialEq, Eq)]
pub enum PluginIdError {
    Empty,
    InvalidCharacters,
}

impl PluginIdError {
    /// The error message.
    pub fn message(&self) -> (r: String)
        ensures
            *self == PluginIdError::Empty ==> r@ == "plugin id cannot be empty"@,
            *self == PluginIdError::InvalidCharacters ==> r@ == "plugin id must match ^[a-z0-9._-]+$"@,
    {
        match self {
            PluginIdError::Empty => String::from_str("plugin id cannot be empty"),
            PluginIdError::InvalidCharacters => String::from_str("plugin id must match ^[a-z0-9._-]+$"),
        }
    }
}

/// Check a plugin id against `^[a-z0-9._-]+$`.
pub fn validate_plugin_id(id: &str) -> (r: Result<(), PluginIdError>)
    ensures
        r is Ok <==> valid_plugin_id(id@),
        r == Err::<(), PluginIdError>(PluginIdError::Empty) <==> id@.len() == 0,
{
    let v = to_chars(id);
    if v.len() == 0 {
        return Err(PluginIdError::Empty);
    }
    let mut i: usize = 0;
    while i < v.len()
        invariant
            i <= v.len(),
            v@ == id@,
            forall|j: int| 0 <= j < i ==> plugin_id_char(#[trigger] v@[j]),
        decreases v.len() - i,
    {
        let c = v[i];
        if !(('a' <= c && c <= 'z') || ('0' <= c && c <= '9') || c == '.' || c == '_' || c == '-') {
            return Err(PluginIdError::InvalidCharacters);
        }
        i += 1;
    }
    Ok(())
}

/// Why a manifest was rejected; each variant names the manifest's source.
#[derive(Debug)]
pub enum ManifestError {
    InvalidId { source: String, id: String, reason: PluginIdError },
    EmptyCapabilities { source: String },
    EmptyEntrypoint { source: String },
    DuplicateCapability { source: String },
}

impl ManifestError {
    /// The error message.
    pub fn message(&self) -> (r: String)
        ensures
            self matches ManifestError::InvalidId { source, id, .. } ==> r@ == "manifest "@ + source@
                + " has invalid plugin id '"@ + id@ + "'"@,
            self matches ManifestError::EmptyCapabilities { source } ==> r@ == "manifest "@ + source@
                + " has empty capabilities; at least one capability is required"@,
            self matches ManifestError::EmptyEntrypoint { source } ==> r@ == "manifest "@ + source@
                + " has an empty entrypoint; a command is required"@,
            self matches ManifestError::DuplicateCapability { source } ==> r@ == "manifest "@ + source@
                + " contains duplicate capability entries"@,
    {
        let mut r = String::from_str("manifest ");
        match self {
            ManifestError::InvalidId { source, id, .. } => {
                push_str(&mut r, source.as_str());
                push_str(&mut r, " has invalid plugin id '");
                push_str(&mut r, id.as_str());
                push_str(&mut r, "'");
            },
            ManifestError::EmptyCapabilities { source } => {
                push_str(&mut r, source.as_str());
                push_str(&mut r, " has empty capabilities; at least one capability is required");
            },
            ManifestError::EmptyEntrypoint { source } => {
                push_str(&mut r, source.as_str());
                push_str(&mut r, " has an empty entrypoint; a command is required");
            },
            ManifestError::DuplicateCapability { source } => {
                push_str(&mut r, source.as_str());
                push_str(&mut r, " contains duplicate capability entries");
            },
        }
        r
    }
}

/// Some capability occurs twice.
pub open spec fn has_duplicate(caps: Seq<Capability>) -> bool {
    exists|i: int, j: int| 0 <= i < j < caps.len() && caps[i] == caps[j]
}

fn find_duplicate(caps: &Vec<Capability>) -> (r: bool)
    ensures
        r == has_duplicate(caps@),
{
    let mut j: usize = 0;
    while j < caps.len()
        invariant
            j <= caps.len(),
            forall|a: int, b: int| 0 <= a < b < j ==> caps@[a] != caps@[b],
        decreases caps.len() - j,
    {
        let mut i: usize = 0;
        while i < j
            invariant
                i <= j < caps.len(),
                forall|a: int| 0 <= a < i ==> caps@[a] != caps@[j as int],
            decreases j - i,
        {
            if caps[i] == caps[j] {
                return true;
            }
            i += 1;
        }
        j += 1;
    }
    false
}

/// A manifest that the runtime accepts: a valid id, at least one capability,
/// a non-blank entrypoint and no capability twice (checked in that order).
pub open spec fn manifest_ok(m: PluginManifest) -> bool {
    &&& valid_plugin_id(m.id@)
    &&& m.capabilities@.len() > 0
    &&& trim(m.entrypoint@).len() > 0
    &&& !has_duplicate(m.capabilities@)
}

/// Validate a parsed manifest read from `source`.
pub fn validate_manifest(manifest: &PluginManifest, source: &str) -> (r: Result<(), ManifestError>)
    ensures
        r is Ok <==> manifest_ok(*manifest),
        r matches Err(ManifestError::InvalidId { source: s, id, .. }) ==> s@ == source@ && id@
            == manifest.id@ && !valid_plugin_id(manifest.id@),
        r matches Err(ManifestError::EmptyCapabilities { source: s }) ==> s@ == source@
            && valid_plugin_id(manifest.id@) && manifest.capabilities@.len() == 0,
        r matches Err(ManifestError::EmptyEntrypoint { source: s }) ==> s@ == source@
            && valid_plugin_id(manifest.id@) && manifest.capabilities@.len() > 0 && trim(
            manifest.entrypoint@,
        ).len() == 0,
        r matches Err(ManifestError::DuplicateCapability { source: s }) ==> s@ == source@
            && valid_plugin_id(manifest.id@) && manifest.capabilities@.len() > 0 && trim(
            manifest.entrypoint@,
        ).len() > 0,
{
    match validate_plugin_id(manifest.id.as_str()) {
        Err(reason) => {
            return Err(
                ManifestError::InvalidId {
                    source: source.to_owned(),
                    id: manifest.id.clone(),
                    reason,
                },
            );
        },
        Ok(()) => {},
    }
    if manifest.capabilities.len() == 0 {
        return Err(ManifestError::EmptyCapabilities { source: source.to_owned() });
    }
    let e = to_chars(manifest.entrypoint.as_str());
    let (s, t) = trim_bounds(&e);
    if s == t {
        return Err(ManifestError::EmptyEntrypoint { source: source.to_owned() });
    }
    if find_duplicate(&manifest.capabilities) {
        return Err(ManifestError::DuplicateCapability { source: source.to_owned() });
    }
    Ok(())
}

/// Sandbox configuration resolved for a plugin.
#[derive(Debug, Clone)]
pub struct PluginSandboxConfig {
    pub seccomp: SeccompProfile,
    pub apparmor: AppArmorProfile,
    pub namespaces: NamespaceConfig,
    pub capabilities: CapabilitySet,
}

/// The plugin declares network egress.
pub open spec fn needs_network(caps: Seq<Capability>) -> bool {
    exists|i: int| 0 <= i < caps.len() && caps[i] == Capability::NetworkEgress
}

/// The audit directory of a plugin: `/var/log/llmos/<id>`.
pub open spec fn plugin_audit_dir(plugin_id: Seq<char>) -> Seq<char> {
    "/var/log/llmos/"@ + plugin_id
}

/// Resolve the sandbox of a plugin from its declared capabilities: plugins
/// that need network egress get the model-runtime profiles (network
/// namespace only, network syscalls, `CAP_NET_BIND_SERVICE`, write access to
/// their audit directory); all others get the restrictive plugin defaults
/// (every namespace, minimal capabilities, no network, no writes).
pub fn resolve_sandbox(plugin_id: &str, plugin_capabilities: &Vec<Capability>, plugin_dir: &str) -> (c: PluginSandboxConfig)
    ensures
        needs_network(plugin_capabilities@) ==> {
            &&& c.seccomp.default_action == SeccompAction::Errno
            &&& rule_views(c.seccomp.rules@) == mcp_plugin_rules().push((network_syscalls(), SeccompAction::Allow))
            &&& c.apparmor.name@ == "llmos-model-runtime"@
            &&& views(c.apparmor.read_paths@) == seq![plugin_dir@ + "/**"@, "/usr/lib/**"@, "/lib/**"@]
            &&& views(c.apparmor.write_paths@) == seq![plugin_audit_dir(plugin_id@) + "/**"@]
            &&& c.apparmor.network_access
            &&& c.namespaces == (NamespaceConfig { pid: false, net: true, mount: false, ipc: false, user: false })
            &&& views(c.capabilities.allowed@) == seq!["CAP_NET_BIND_SERVICE"@]
            &&& views(c.capabilities.denied@) == model_runtime_denied()
        },
        !needs_network(plugin_capabilities@) ==> {
            &&& c.seccomp.default_action == SeccompAction::Errno
            &&& rule_views(c.seccomp.rules@) == mcp_plugin_rules()
            &&& c.apparmor.name@ == "llmos-mcp-plugin"@
            &&& views(c.apparmor.read_paths@) == seq![plugin_dir@ + "/**"@, "/usr/lib/**"@, "/lib/**"@]
            &&& c.apparmor.write_paths@.len() == 0
            &&& !c.apparmor.network_access
            &&& c.namespaces == (NamespaceConfig { pid: true, net: true, mount: true, ipc: true, user: true })
            &&& c.capabilities.allowed@.len() == 0
            &&& views(c.capabilities.denied@) == minimal_denied()
        },
{
    let mut needs = false;
    let mut i: usize = 0;
    while i < plugin_capabilities.len()
        invariant
            i <= plugin_capabilities.len(),
            needs == exists|j: int| 0 <= j < i && plugin_capabilities@[j] == Capability::NetworkEgress,
        decreases plugin_capabilities.len() - i,
    {
        if plugin_capabilities[i] == Capability::NetworkEgress {
            needs = true;
        }
        i += 1;
    }
    if needs {
        let audit_dir = concat2("/var/log/llmos/", plugin_id);
        PluginSandboxConfig {
            seccomp: SeccompTemplate::model_runtime(),
            apparmor: AppArmorTemplate::model_runtime(plugin_dir, audit_dir.as_str()),
            namespaces: NamespacePreset::network_only(),
            capabilities: CapabilityPreset::model_runtime(),
        }
    } else {
        PluginSandboxConfig {
            seccomp: SeccompTemplate::mcp_plugin(),
            apparmor: AppArmorTemplate::mcp_plugin(plugin_dir),
            namespaces: NamespacePreset::full(),
            capabilities: CapabilityPreset::minimal(),
        }
    }
}

/// Ids strictly increasing along the manifests.
pub open spec fn sorted_ids(ms: Seq<PluginManifest>) -> bool {
    forall|i: int, j: int| 0 <= i < j < ms.len() ==> lex_lt(#[trigger] ms[i].id@, #[trigger] ms[j].id@)
}

/// Some manifest has id `id`.
pub open spec fn has_id(ms: Seq<PluginManifest>, id: Seq<char>) -> bool {
    exists|i: int| 0 <= i < ms.len() && #[trigger] ms[i].id@ == id
}

/// The process id recorded for the running plugin `id` (`Some(pid)`), or
/// `None` when it is not running.
pub open spec fn running_entry(rs: Seq<(Seq<char>, Option<u32>)>, id: Seq<char>) -> Option<Option<u32>>
    decreases rs.len(),
{
    if rs.len() == 0 {
        None
    } else if rs.last().0 == id {
        Some(rs.last().1)
    } else {
        running_entry(rs.drop_last(), id)
    }
}

/// The (id, process id) pairs of a running list.
pub open spec fn running_view(rs: Seq<(String, Option<u32>)>) -> Seq<(Seq<char>, Option<u32>)> {
    rs.map_values(|e: (String, Option<u32>)| (e.0@, e.1))
}

/// No id occurs twice in a running list.
pub open spec fn running_distinct(rs: Seq<(String, Option<u32>)>) -> bool {
    forall|a: int, b: int| 0 <= a < b < rs.len() ==> #[trigger] rs[a].0@ != #[trigger] rs[b].0@
}

/// What starting a plugin calls for.
pub enum StartPlan {
    /// It is already running: nothing to do.
    AlreadyRunning,
    /// Spawn its entrypoint, then record it as started.
    Spawn { entrypoint: String },
    /// No manifest has this id.
    NotFound(String),
}

/// The message for an unknown plugin id.
pub open spec fn not_found_message(id: Seq<char>) -> Seq<char> {
    "plugin '"@ + id + "' was not found in loaded manifests"@
}

/// The loaded manifests (kept sorted by id, one per id) and the plugins
/// running from them with their process ids. The processes themselves are
/// the caller's: it spawns and stops them as the plans say.
pub struct RuntimeManager {
    manifests: Vec<PluginManifest>,
    running: Vec<(String, Option<u32>)>,
}

impl RuntimeManager {
    #[verifier::type_invariant]
    closed spec fn wf(&self) -> bool {
        &&& sorted_ids(self.manifests@)
        &&& running_distinct(self.running@)
        &&& forall|i: int| 0 <= i < self.running@.len() ==> has_id(self.manifests@, #[trigger] self.running@[i].0@)
    }

    /// The manifests, in increasing id order.
    pub closed spec fn spec_manifests(&self) -> Seq<PluginManifest> {
        self.manifests@
    }

    /// The running plugins and their process ids.
    pub closed spec fn spec_running(&self) -> Seq<(Seq<char>, Option<u32>)> {
        running_view(self.running@)
    }

    /// The process id of plugin `id` if it is running.
    pub open spec fn spec_pid(&self, id: Seq<char>) -> Option<Option<u32>> {
        running_entry(self.spec_running(), id)
    }

    /// A manager without manifests.
    pub fn new() -> (m: RuntimeManager)
        ensures
            m.spec_manifests().len() == 0,
            m.spec_running().len() == 0,
    {
        RuntimeManager { manifests: Vec::new(), running: Vec::new() }
    }

    /// The number of loaded manifests.
    pub fn manifests_len(&self) -> (r: usize)
        ensures
            r == self.spec_manifests().len(),
    {
        self.manifests.len()
    }

    /// Load a manifest; refused (with its id) when a manifest with the same
    /// id is already loaded.
    pub fn add_manifest(&mut self, manifest: PluginManifest) -> (r: Result<(), String>)
        ensures
            r is Err <==> has_id(old(self).spec_manifests(), manifest.id@),
            r matches Err(id) ==> id@ == manifest.id@ && final(self).spec_manifests() == old(self).spec_manifests(),
            r is Ok ==> exists|pos: int| 0 <= pos <= old(self).spec_manifests().len()
                && final(self).spec_manifests() == old(self).spec_manifests().insert(pos, manifest),
            final(self).spec_running() == old(self).spec_running(),
    {
        proof {
            use_type_invariant(&*self);
        }
        let ghost gm = manifest;
        let k = to_chars(manifest.id.as_str());
        let ghost old_ms = self.manifests@;
        let mut pos: usize = 0;
        while pos < self.manifests.len() && lex_less(&to_chars(self.manifests[pos].id.as_str()), &k)
            invariant
                pos <= self.manifests.len(),
                self.manifests@ == old_ms,
                k@ == manifest.id@,
                forall|j: int| 0 <= j < pos ==> lex_lt(#[trigger] old_ms[j].id@, k@),
            decreases self.manifests.len() - pos,
        {
            pos += 1;
        }
        proof {
            if pos < old_ms.len() {
                lemma_lex_trichotomy(old_ms[pos as int].id@, k@);
            }
        }
        if pos < self.manifests.len() && chars_eq(&to_chars(self.manifests[pos].id.as_str()), &k) {
            return Err(manifest.id.clone());
        }
        proof {
            assert forall|j: int| 0 <= j < old_ms.len() implies old_ms[j].id@ != k@ by {
                if j < pos {
                    lemma_lex_irreflexive(k@);
                } else if j > pos {
                    lemma_lex_trichotomy(old_ms[pos as int].id@, k@);
                    lemma_lex_transitive(k@, old_ms[pos as int].id@, old_ms[j].id@);
                    lemma_lex_irreflexive(k@);
                }
            }
        }
        let ghost ne = old_ms.insert(pos as int, manifest);
        proof {
            assert forall|i: int, j: int| 0 <= i < j < ne.len() implies lex_lt(
                #[trigger] ne[i].id@,
                #[trigger] ne[j].id@,
            ) by {
                if i < pos && j == pos as int {
                } else if i == pos as int {
                    lemma_lex_trichotomy(old_ms[pos as int].id@, k@);
                    if j - 1 > pos {
                        lemma_lex_transitive(k@, old_ms[pos as int].id@, old_ms[j - 1].id@);
                    }
                } else if i < pos && j > pos {
                    lemma_lex_trichotomy(old_ms[pos as int].id@, k@);
                    if j - 1 > pos {
                        lemma_lex_transitive(k@, old_ms[pos as int].id@, old_ms[j - 1].id@);
                    }
                    lemma_lex_transitive(old_ms[i].id@, k@, ne[j].id@);
                } else if j < pos {
                    assert(ne[i] == old_ms[i]);
                    assert(ne[j] == old_ms[j]);
                } else {
                    assert(ne[i] == old_ms[i - 1]);
                    assert(ne[j] == old_ms[j - 1]);
                }
            }
            assert forall|i: int| 0 <= i < self.running@.len() implies has_id(ne, #[trigger] self.running@[i].0@) by {
                let j = choose|j: int| 0 <= j < old_ms.len() && #[trigger] old_ms[j].id@ == self.running@[i].0@;
                if j < pos {
                    assert(ne[j] == old_ms[j]);
                } else {
                    assert(ne[j + 1] == old_ms[j]);
                }
            }
        }
        let mut whole = RuntimeManager::new();
        std::mem::swap(&mut whole, self);
        let RuntimeManager { mut manifests, running } = whole;
        manifests.insert(pos, manifest);
        assert(manifests@ == ne);
        *self = RuntimeManager { manifests, running };
        assert(self.spec_manifests() == old(self).spec_manifests().insert(pos as int, gm));
        Ok(())
    }

    /// Find the running entry of `id`.
    fn find_running(&self, id: &Vec<char>) -> (r: Option<usize>)
        ensures
            r matches Some(k) ==> k < self.running@.len() && self.running@[k as int].0@ == id@,
            r is None ==> forall|j: int| 0 <= j < self.running@.len() ==> #[trigger] self.running@[j].0@ != id@,
    {
        let mut i: usize = 0;
        while i < self.running.len()
            invariant
                i <= self.running.len(),
                forall|j: int| 0 <= j < i ==> #[trigger] self.running@[j].0@ != id@,
            decreases self.running.len() - i,
        {
            if chars_eq(&to_chars(self.running[i].0.as_str()), id) {
                return Some(i);
            }
            i += 1;
        }
        None
    }

    /// Find the manifest of `id`.
    fn find_manifest(&self, id: &Vec<char>) -> (r: Option<usize>)
        ensures
            r matches Some(k) ==> k < self.manifests@.len() && self.manifests@[k as int].id@ == id@,
            r is None ==> !has_id(self.manifests@, id@),
    {
        let mut i: usize = 0;
        while i < self.manifests.len()
            invariant
                i <= self.manifests.len(),
                forall|j: int| 0 <= j < i ==> #[trigger] self.manifests@[j].id@ != id@,
            decreases self.manifests.len() - i,
        {
            if chars_eq(&to_chars(self.manifests[i].id.as_str()), id) {
                return Some(i);
            }
            i += 1;
        }
        None
    }

    /// Plan the start of plugin `id`: nothing when it already runs, its
    /// entrypoint when its manifest is loaded, and an error otherwise.
    pub fn plan_start(&self, id: &str) -> (p: StartPlan)
        ensures
            self.spec_pid(id@) is Some ==> p is AlreadyRunning,
            self.spec_pid(id@) is None && has_id(self.spec_manifests(), id@) ==> (p matches StartPlan::Spawn { entrypoint }
                && exists|k: int| 0 <= k < self.spec_manifests().len() && #[trigger] self.spec_manifests()[k].id@ == id@
                && entrypoint@ == self.spec_manifests()[k].entrypoint@),
            self.spec_pid(id@) is None && !has_id(self.spec_manifests(), id@) ==> (p matches StartPlan::NotFound(m)
                && m@ == not_found_message(id@)),
    {
        proof {
            use_type_invariant(self);
        }
        let k = to_chars(id);
        match self.find_running(&k) {
            Some(i) => {
                proof {
                    lemma_running_entry_found(self.running@, id@, i as int);
                }
                return StartPlan::AlreadyRunning;
            },
            None => {
                proof {
                    lemma_running_entry_absent(self.running@, id@);
                }
            },
        }
        match self.find_manifest(&k) {
            Some(i) => StartPlan::Spawn { entrypoint: self.manifests[i].entrypoint.clone() },
            None => {
                let mut m = String::from_str("plugin '");
                push_str(&mut m, id);
                push_str(&mut m, "' was not found in loaded manifests");
                StartPlan::NotFound(m)
            },
        }
    }

    /// Record that plugin `id` was spawned with process id `pid`. Ignored
    /// when it already runs or has no manifest.
    pub fn mark_started(&mut self, id: &str, pid: Option<u32>)
        ensures
            final(self).spec_manifests() == old(self).spec_manifests(),
            old(self).spec_pid(id@) is None && has_id(old(self).spec_manifests(), id@) ==> final(self).spec_running()
                == old(self).spec_running().push((id@, pid)),
            !(old(self).spec_pid(id@) is None && has_id(old(self).spec_manifests(), id@)) ==> final(self).spec_running()
                == old(self).spec_running(),
    {
        proof {
            use_type_invariant(&*self);
        }
        let k = to_chars(id);
        match self.find_running(&k) {
            Some(i) => {
                proof {
                    lemma_running_entry_found(self.running@, id@, i as int);
                }
                return;
            },
            None => {
                proof {
                    lemma_running_entry_absent(self.running@, id@);
                }
            },
        }
        if self.find_manifest(&k).is_none() {
            return;
        }
        let ghost before = self.spec_running();
        let mut rs = Vec::new();
        std::mem::swap(&mut rs, &mut self.running);
        rs.push((id.to_owned(), pid));
        self.running = rs;
        assert(self.spec_running() == before.push((id@, pid)));
    }

    /// Take plugin `id` off the running list; returns whether it was running
    /// (the caller then stops its process).
    pub fn take_running(&mut self, id: &str) -> (was: bool)
        ensures
            was == (old(self).spec_pid(id@) is Some),
            final(self).spec_manifests() == old(self).spec_manifests(),
            final(self).spec_pid(id@) is None,
            forall|other: Seq<char>| other != id@ ==> #[trigger] final(self).spec_pid(other) == old(self).spec_pid(other),
    {
        proof {
            use_type_invariant(&*self);
        }
        let k = to_chars(id);
        match self.find_running(&k) {
            None => {
                proof {
                    lemma_running_entry_absent(self.running@, id@);
                }
                false
            },
            Some(i) => {
                proof {
                    lemma_running_entry_found(self.running@, id@, i as int);
                }
                let ghost old_rs = self.running@;
                let mut rs = Vec::new();
                std::mem::swap(&mut rs, &mut self.running);
                rs.remove(i);
                proof {
                    assert forall|a: int, b: int| 0 <= a < b < rs@.len() implies #[trigger] rs@[a].0@
                        != #[trigger] rs@[b].0@ by {
                        let a0 = if a < i { a } else { a + 1 };
                        let b0 = if b < i { b } else { b + 1 };
                        assert(rs@[a] == old_rs[a0]);
                        assert(rs@[b] == old_rs[b0]);
                    }
                    assert forall|a: int| 0 <= a < rs@.len() implies has_id(self.manifests@, #[trigger] rs@[a].0@) by {
                        let a0 = if a < i { a } else { a + 1 };
                        assert(rs@[a] == old_rs[a0]);
                    }
                }
                self.running = rs;
                proof {
                    lemma_running_entry_removed(old_rs, i as int, id@);
                }
                true
            },
        }
    }

    /// The ids of all loaded manifests, in increasing order (the order in
    /// which all plugins are started).
    pub fn start_order(&self) -> (r: Vec<String>)
        ensures
            r@.len() == self.spec_manifests().len(),
            forall|k: int| 0 <= k < r@.len() ==> #[trigger] r@[k]@ == self.spec_manifests()[k].id@,
    {
        let mut r: Vec<String> = Vec::new();
        let mut i: usize = 0;
        while i < self.manifests.len()
            invariant
                i <= self.manifests.len(),
                r@.len() == i,
                forall|k: int| 0 <= k < i ==> #[trigger] r@[k]@ == self.manifests@[k].id@,
            decreases self.manifests.len() - i,
        {
            r.push(self.manifests[i].id.clone());
            i += 1;
        }
        r
    }

    /// The ids of the running plugins, in increasing order (the order in
    /// which all plugins are stopped).
    pub fn stop_order(&self) -> (r: Vec<String>)
        ensures
            forall|k: int| 0 <= k < r@.len() ==> self.spec_pid(#[trigger] r@[k]@) is Some,
            forall|a: int, b: int| 0 <= a < b < r@.len() ==> lex_lt(#[trigger] r@[a]@, #[trigger] r@[b]@),
            forall|id: Seq<char>| #[trigger] self.spec_pid(id) is Some ==> exists|k: int| 0 <= k < r@.len() && r@[k]@ == id,
    {
        proof {
            use_type_invariant(self);
        }
        let mut r: Vec<String> = Vec::new();
        let mut ix: Ghost<Seq<int>> = Ghost(Seq::empty());
        let mut i: usize = 0;
        while i < self.manifests.len()
            invariant
                i <= self.manifests.len(),
                sorted_ids(self.manifests@),
                running_distinct(self.running@),
                r@.len() == ix@.len(),
                forall|k: int| 0 <= k < r@.len() ==> 0 <= #[trigger] ix@[k] < i && r@[k]@ == self.manifests@[ix@[k]].id@,
                forall|a: int, b: int| 0 <= a < b < ix@.len() ==> #[trigger] ix@[a] < #[trigger] ix@[b],
                forall|k: int| 0 <= k < r@.len() ==> self.spec_pid(#[trigger] r@[k]@) is Some,
                forall|j: int| 0 <= j < i && self.spec_pid(#[trigger] self.manifests@[j].id@) is Some ==> exists|k: int|
                    0 <= k < r@.len() && r@[k]@ == self.manifests@[j].id@,
            decreases self.manifests.len() - i,
        {
            let k = to_chars(self.manifests[i].id.as_str());
            match self.find_running(&k) {
                Some(_) => {
                    proof {
                        let f = self.find_running_spec_witness(k@);
                        lemma_running_entry_found(self.running@, k@, f);
                    }
                    let ghost old_r = r@;
                    r.push(self.manifests[i].id.clone());
                    proof {
                        ix@ = ix@.push(i as int);
                        assert(r@[r@.len() - 1]@ == self.manifests@[i as int].id@);
                        assert forall|j: int| 0 <= j < i + 1 && self.spec_pid(#[trigger] self.manifests@[j].id@) is Some implies exists|k: int|
                            0 <= k < r@.len() && r@[k]@ == self.manifests@[j].id@ by {
                            if j < i {
                                let k0 = choose|k: int| 0 <= k < old_r.len() && old_r[k]@ == self.manifests@[j].id@;
                                assert(r@[k0] == old_r[k0]);
                            } else {
                                assert(r@[r@.len() - 1]@ == self.manifests@[j].id@);
                            }
                        }
                    }
                },
                None => {
                    proof {
                        lemma_running_entry_absent(self.running@, k@);
                    }
                },
            }
            i += 1;
        }
        proof {
            assert forall|a: int, b: int| 0 <= a < b < r@.len() implies lex_lt(#[trigger] r@[a]@, #[trigger] r@[b]@) by {
                assert(ix@[a] < ix@[b]);
            }
            assert forall|id: Seq<char>| #[trigger] self.spec_pid(id) is Some implies exists|k: int| 0 <= k < r@.len() && r@[k]@ == id by {
                lemma_running_entry_some(self.running@, id);
                let t = choose|t: int| 0 <= t < self.running@.len() && self.running@[t].0@ == id;
                assert(has_id(self.manifests@, self.running@[t].0@));
                let j = choose|j: int| 0 <= j < self.manifests@.len() && #[trigger] self.manifests@[j].id@ == id;
                assert(self.spec_pid(self.manifests@[j].id@) is Some);
            }
        }
        r
    }

    /// A position of `id` in the running list, when it runs.
    spec fn find_running_spec_witness(&self, id: Seq<char>) -> int {
        choose|t: int| 0 <= t < self.running@.len() && self.running@[t].0@ == id
    }

    /// The status of every loaded plugin, in increasing id order.
    pub fn list(&self) -> (r: Vec<PluginRuntimeStatus>)
        ensures
            r@.len() == self.spec_manifests().len(),
            forall|k: int| 0 <= k < r@.len() ==> {
                let m = self.spec_manifests()[k];
                let pid = match self.spec_pid(m.id@) {
                    Some(p) => p,
                    None => None,
                };
                &&& (#[trigger] r@[k]).id@ == m.id@
                &&& r@[k].version@ == m.version@
                &&& r@[k].entrypoint@ == m.entrypoint@
                &&& r@[k].pid == pid
                &&& r@[k].running == pid is Some
            },
    {
        proof {
            use_type_invariant(self);
        }
        let mut r: Vec<PluginRuntimeStatus> = Vec::new();
        let mut i: usize = 0;
        while i < self.manifests.len()
            invariant
                i <= self.manifests.len(),
                running_distinct(self.running@),
                r@.len() == i,
                forall|k: int| 0 <= k < i ==> {
                    let m = self.manifests@[k];
                    let pid = match self.spec_pid(m.id@) {
                        Some(p) => p,
                        None => None,
                    };
                    &&& (#[trigger] r@[k]).id@ == m.id@
                    &&& r@[k].version@ == m.version@
                    &&& r@[k].entrypoint@ == m.entrypoint@
                    &&& r@[k].pid == pid
                    &&& r@[k].running == pid is Some
                },
            decreases self.manifests.len() - i,
        {
            let m = &self.manifests[i];
            let k = to_chars(m.id.as_str());
            let pid = match self.find_running(&k) {
                Some(j) => {
                    proof {
                        lemma_running_entry_found(self.running@, k@, j as int);
                    }
                    self.running[j].1
                },
                None => {
                    proof {
                        lemma_running_entry_absent(self.running@, k@);
                    }
                    None
                },
            };
            r.push(
                PluginRuntimeStatus {
                    id: m.id.clone(),
                    version: m.version.clone(),
                    entrypoint: m.entrypoint.clone(),
                    running: pid.is_some(),
                    pid,
                },
            );
            i += 1;
        }
        r
    }
}

/// Starting a plugin records it as running with its process id, and leaves
/// every other plugin's status as it was.
pub proof fn law_start_records_pid(rs: Seq<(Seq<char>, Option<u32>)>, id: Seq<char>, pid: Option<u32>, other: Seq<char>)
    requires
        other != id,
    ensures
        running_entry(rs.push((id, pid)), id) == Some(pid),
        running_entry(rs.push((id, pid)), other) == running_entry(rs, other),
{
    assert(rs.push((id, pid)).drop_last() == rs);
}

proof fn lemma_running_entry_absent(rs: Seq<(String, Option<u32>)>, id: Seq<char>)
    requires
        forall|j: int| 0 <= j < rs.len() ==> #[trigger] rs[j].0@ != id,
    ensures
        running_entry(running_view(rs), id) is None,
    decreases rs.len(),
{
    let v = running_view(rs);
    if rs.len() > 0 {
        assert(v.drop_last() == running_view(rs.drop_last()));
        assert(v.last().0 == rs[rs.len() - 1].0@);
        lemma_running_entry_absent(rs.drop_last(), id);
    }
}

proof fn lemma_running_entry_found(rs: Seq<(String, Option<u32>)>, id: Seq<char>, i: int)
    requires
        0 <= i < rs.len(),
        rs[i].0@ == id,
        running_distinct(rs),
    ensures
        running_entry(running_view(rs), id) == Some(rs[i].1),
    decreases rs.len(),
{
    let v = running_view(rs);
    assert(v.drop_last() == running_view(rs.drop_last()));
    if i < rs.len() - 1 {
        assert(rs[rs.len() - 1].0@ != id);
        assert(v.last().0 == rs[rs.len() - 1].0@);
        lemma_running_entry_found(rs.drop_last(), id, i);
    }
}

proof fn lemma_running_entry_some(rs: Seq<(String, Option<u32>)>, id: Seq<char>)
    requires
        running_entry(running_view(rs), id) is Some,
    ensures
        exists|t: int| 0 <= t < rs.len() && rs[t].0@ == id,
    decreases rs.len(),
{
    let v = running_view(rs);
    if rs.len() > 0 {
        assert(v.drop_last() == running_view(rs.drop_last()));
        if v.last().0 == id {
            assert(rs[rs.len() - 1].0@ == id);
        } else {
            lemma_running_entry_some(rs.drop_last(), id);
            let t = choose|t: int| 0 <= t < rs.drop_last().len() && rs.drop_last()[t].0@ == id;
            assert(rs[t] == rs.drop_last()[t]);
        }
    }
}

proof fn lemma_running_entry_removed(rs: Seq<(String, Option<u32>)>, i: int, id: Seq<char>)
    requires
        0 <= i < rs.len(),
        rs[i].0@ == id,
        running_distinct(rs),
    ensures
        running_entry(running_view(rs.remove(i)), id) is None,
        forall|other: Seq<char>| other != id ==> #[trigger] running_entry(
            running_view(rs.remove(i)),
            other,
        ) == running_entry(running_view(rs), other),
{
    let rr = rs.remove(i);
    assert forall|j: int| 0 <= j < rr.len() implies #[trigger] rr[j].0@ != id by {
        let j0 = if j < i { j } else { j + 1 };
        assert(rr[j] == rs[j0]);
    }
    lemma_running_entry_absent(rr, id);
    assert forall|other: Seq<char>| other != id implies #[trigger] running_entry(
        running_view(rr),
        other,
    ) == running_entry(running_view(rs), other) by {
        if exists|t: int| 0 <= t < rs.len() && rs[t].0@ == other {
            let t = choose|t: int| 0 <= t < rs.len() && rs[t].0@ == other;
            assert(t != i);
            let t1 = if t < i { t } else { t - 1 };
            assert(rr[t1] == rs[t]);
            assert forall|a: int, b: int| 0 <= a < b < rr.len() implies #[trigger] rr[a].0@ != #[trigger] rr[b].0@ by {
                let a0 = if a < i { a } else { a + 1 };
                let b0 = if b < i { b } else { b + 1 };
                assert(rr[a] == rs[a0]);
                assert(rr[b] == rs[b0]);
            }
            lemma_running_entry_found(rr, other, t1);
            lemma_running_entry_found(rs, other, t);
        } else {
            assert forall|j: int| 0 <= j < rr.len() implies #[trigger] rr[j].0@ != other by {
                let j0 = if j < i { j } else { j + 1 };
                assert(rr[j] == rs[j0]);
            }
            lemma_running_entry_absent(rr, other);
            lemma_running_entry_absent(rs, other);
        }
    }
}

} // verus!

use llmos::mcp_runtime::{
    validate_manifest, validate_plugin_id, Capability, ManifestError, PluginIdError,
    PluginManifest,
};

fn manifest(id: &str, entrypoint: &str, caps: Vec<Capability>) -> PluginManifest {
    PluginManifest {
        id: id.to_string(),
        version: "1.0.0".to_string(),
        entrypoint: entrypoint.to_string(),
        description: None,
        capabilities: caps,
    }
}

#[test]
fn parse_manifest_accepts_valid_payload() {
    let m = manifest("example.plugin", "node server.js", vec![Capability::McpSpawn, Capability::FsRead]);
    assert!(validate_manifest(&m, "plugin.json").is_ok());
    assert_eq!(m.id, "example.plugin");
    assert_eq!(m.version, "1.0.0");
    assert_eq!(m.entrypoint, "node server.js");
}

#[test]
fn parse_manifest_rejects_invalid_id() {
    let m = manifest("Example.Plugin", "node server.js", vec![Capability::McpSpawn]);
    let err = validate_manifest(&m, "plugin.json").expect_err("manifest should fail");
    assert!(err.message().contains("invalid plugin id"));
    assert_eq!(err.message(), "manifest plugin.json has invalid plugin id 'Example.Plugin'");
}

#[test]
fn manifest_checks_in_order() {
    let no_caps = manifest("a", "  ", vec![]);
    assert!(matches!(
        validate_manifest(&no_caps, "m.json"),
        Err(ManifestError::EmptyCapabilities { .. })
    ));
    let blank = manifest("a", " \t ", vec![Capability::FsRead]);
    let err = validate_manifest(&blank, "m.json").unwrap_err();
    assert_eq!(err.message(), "manifest m.json has an empty entrypoint; a command is required");
    let dup = manifest("a", "run", vec![Capability::FsRead, Capability::AuditEmit, Capability::FsRead]);
    let err = validate_manifest(&dup, "m.json").unwrap_err();
    assert_eq!(err.message(), "manifest m.json contains duplicate capability entries");
}

#[test]
fn plugin_id_rules() {
    assert!(validate_plugin_id("a.b_c-9").is_ok());
    assert_eq!(validate_plugin_id(""), Err(PluginIdError::Empty));
    assert_eq!(validate_plugin_id("a/b"), Err(PluginIdError::InvalidCharacters));
    assert_eq!(PluginIdError::Empty.message(), "plugin id cannot be empty");
}

use llmos::mcp_runtime::{RuntimeManager, StartPlan};

#[test]
fn load_manifests_rejects_duplicate_ids() {
    let mut manager = RuntimeManager::new();
    assert!(manager.add_manifest(manifest("dup.plugin", "echo test", vec![Capability::FsRead])).is_ok());
    let err = manager
        .add_manifest(manifest("dup.plugin", "echo test", vec![Capability::FsRead]))
        .unwrap_err();
    assert_eq!(err, "dup.plugin");
    assert_eq!(manager.manifests_len(), 1);
}

#[test]
fn run_autostart_supports_stop_start_list_cycle() {
    let mut manager = RuntimeManager::new();
    manager.add_manifest(manifest("zeta", "run-z", vec![Capability::FsRead])).unwrap();
    manager.add_manifest(manifest("alpha", "run-a", vec![Capability::FsRead])).unwrap();
    assert_eq!(manager.start_order(), vec!["alpha", "zeta"]);

    for id in manager.start_order() {
        match manager.plan_start(&id) {
            StartPlan::Spawn { entrypoint } => {
                assert_eq!(entrypoint, format!("run-{}", &id[..1]));
                manager.mark_started(&id, Some(100));
            }
            _ => panic!("plugin should be spawned"),
        }
    }
    assert!(matches!(manager.plan_start("alpha"), StartPlan::AlreadyRunning));
    let listed = manager.list();
    assert_eq!(listed.len(), 2);
    assert!(listed.iter().all(|s| s.running && s.pid == Some(100)));
    assert_eq!(listed[0].id, "alpha");

    assert!(manager.take_running("alpha"));
    assert!(!manager.take_running("alpha"));
    let listed = manager.list();
    assert!(!listed[0].running);
    assert_eq!(listed[0].pid, None);
    assert!(listed[1].running);
    assert_eq!(manager.stop_order(), vec!["zeta"]);

    match manager.plan_start("missing") {
        StartPlan::NotFound(m) => assert_eq!(m, "plugin 'missing' was not found in loaded manifests"),
        _ => panic!("unknown plugin"),
    }
    manager.mark_started("missing", Some(1));
    assert_eq!(manager.stop_order(), vec!["zeta"]);
}

use llmos::llmd::build_llmd_secret_store;
use llmos::secrets::{EnvSecretProvider, SecretError, SecretStore};

fn modules(names: &[&str]) -> Vec<String> {
    names.iter().map(|n| n.to_string()).collect()
}

#[test]
fn allowed_module_can_read_secret() {
    let mut store = SecretStore::new(EnvSecretProvider::new());
    store.register("openai_api_key", modules(&["runtime/model-runtime"]));
    assert!(store.authorize("runtime/model-runtime", "openai_api_key").is_ok());
}

#[test]
fn denied_module_cannot_read_secret() {
    let mut store = SecretStore::new(EnvSecretProvider::new());
    store.register("openai_api_key", modules(&["runtime/model-runtime"]));
    let err = store
        .authorize("runtime/mcp-runtime", "openai_api_key")
        .expect_err("should be denied");
    assert!(matches!(err, SecretError::AccessDenied { .. }));
}

#[test]
fn unregistered_key_returns_not_found() {
    let store = SecretStore::new(EnvSecretProvider::new());
    let err = store
        .authorize("runtime/model-runtime", "nonexistent")
        .expect_err("should not be found");
    assert!(matches!(err, SecretError::NotFound(_)));
}

#[test]
fn keys_returns_sorted_registered_keys() {
    let mut store = SecretStore::new(EnvSecretProvider::new());
    store.register("zebra_key", modules(&["mod-a"]));
    store.register("alpha_key", modules(&["mod-b"]));
    let keys = store.keys();
    assert_eq!(keys, vec!["alpha_key", "zebra_key"]);
}

#[test]
fn register_replaces_earlier_entry() {
    let mut store = SecretStore::new(EnvSecretProvider::new());
    store.register("k", modules(&["a"]));
    store.register("k", modules(&["b"]));
    assert_eq!(store.keys(), vec!["k"]);
    assert!(store.authorize("b", "k").is_ok());
    assert!(store.authorize("a", "k").is_err());
}

#[test]
fn env_provider_resolves_upper_cased_key() {
    assert_eq!(
        EnvSecretProvider::new().resolve_key("openai_api_key"),
        "LLMOS_SECRET_OPENAI_API_KEY"
    );
    assert_eq!(EnvSecretProvider::with_prefix("X_").resolve_key("a.b"), "X_A.B");
}

#[test]
fn llmd_store_registers_provider_keys() {
    let store = build_llmd_secret_store(EnvSecretProvider::new());
    assert_eq!(
        store.keys(),
        vec!["anthropic_api_key", "local_model_path", "openai_api_key"]
    );
    assert!(store.authorize("runtime/model-runtime", "openai_api_key").is_ok());
    assert!(store.authorize("runtime/mcp-runtime", "openai_api_key").is_err());
}

use llmos::model_runtime::{
    apply_stop_sequences, check_context_length, InferenceError, MockBackend, ModelConfig,
    TokenUsage,
};

fn test_config() -> ModelConfig {
    ModelConfig::cpu_only("test-model", "/tmp/test.gguf")
}

#[test]
fn mock_backend_load_and_infer() {
    let mut backend = MockBackend::new();
    assert!(!backend.is_loaded());

    backend.load(&test_config()).unwrap();
    assert!(backend.is_loaded());
    assert_eq!(backend.loaded_model_name(), Some("test-model"));

    let response = backend.infer("Hello world", 32).unwrap();
    assert_eq!(response.text, "mock response");
    assert!(response.usage.total() > 0);
    assert_eq!(response.usage.prompt_tokens, 2);
    assert_eq!(response.usage.completion_tokens, 32);
    assert_eq!(response.total_ms, 50);
}

#[test]
fn mock_backend_infer_without_load_fails() {
    let backend = MockBackend::new();
    let err = backend.infer("Hello", 32).unwrap_err();
    assert!(matches!(err, InferenceError::NotLoaded(_)));
    assert_eq!(err.message(), "model not loaded: no model loaded");
}

#[test]
fn mock_backend_unload_clears_state() {
    let mut backend = MockBackend::new();
    backend.load(&test_config()).unwrap();
    assert!(backend.is_loaded());

    backend.unload().unwrap();
    assert!(!backend.is_loaded());
    assert!(backend.loaded_model_name().is_none());
}

#[test]
fn mock_backend_custom_response() {
    let mut backend = MockBackend::new().with_response("custom output");
    backend.load(&test_config()).unwrap();
    let response = backend.infer("test prompt", 16).unwrap();
    assert_eq!(response.text, "custom output");
}

#[test]
fn mock_backend_caps_completion_and_checks_context() {
    let mut backend = MockBackend::new();
    let mut small = test_config();
    small.context_length = 1;
    backend.load(&small).unwrap();
    let err = backend.infer("twelve chars", 500).unwrap_err();
    assert!(matches!(err, InferenceError::ContextLengthExceeded { requested: 3, max: 1 }));
    backend.load(&test_config()).unwrap();
    assert_eq!(backend.infer("p", 500).unwrap().usage.completion_tokens, 64);
}

#[test]
fn token_usage_total() {
    let usage = TokenUsage {
        prompt_tokens: 10,
        completion_tokens: 20,
    };
    assert_eq!(usage.total(), 30);
}

#[test]
fn cpu_only_config_defaults() {
    let config = ModelConfig::cpu_only("my-model", "/path/to/model.gguf");
    assert_eq!(config.name, "my-model");
    assert_eq!(config.gpu_layers, 0);
    assert_eq!(config.context_length, 4096);
    assert_eq!(config.quantization, "Q4_K_M");
}

#[test]
fn stop_sequences_cut_first_listed_match() {
    let stops = vec!["</s>".to_string(), "s>".to_string()];
    assert_eq!(apply_stop_sequences("hello</s>", &stops), ("hello".to_string(), true));
    assert_eq!(apply_stop_sequences("hello", &stops), ("hello".to_string(), false));
    let other = vec!["s>".to_string(), "</s>".to_string()];
    assert_eq!(apply_stop_sequences("hello</s>", &other), ("hello</".to_string(), true));
}

#[test]
fn context_length_check() {
    assert!(check_context_length(10, 10).is_ok());
    let err = check_context_length(11, 10).unwrap_err();
    assert_eq!(err.message(), "context length exceeded: requested 11, max 10");
}

use llmos::model_runtime::Generation;

fn run(max: u32, stops: &[&str], tokens: &[(bool, &str)]) -> (String, u32, usize) {
    let mut g = Generation::new(max, stops.iter().map(|s| s.to_string()).collect());
    let mut used = 0;
    for (eog, piece) in tokens {
        if !g.wants_token() {
            break;
        }
        g.on_token(*eog, piece);
        used += 1;
    }
    let (text, n) = g.finish();
    (text, n, used)
}

#[test]
fn generation_stops_at_budget() {
    assert_eq!(run(2, &[], &[(false, "a"), (false, "b"), (false, "c")]), ("ab".to_string(), 2, 2));
    assert_eq!(run(0, &[], &[(false, "a")]), (String::new(), 0, 0));
}

#[test]
fn generation_stops_at_end_token() {
    assert_eq!(run(10, &[], &[(false, "a"), (true, ""), (false, "b")]), ("a".to_string(), 1, 2));
}

#[test]
fn generation_cuts_stop_sequence() {
    assert_eq!(
        run(10, &["END", "D"], &[(false, "hi E"), (false, "ND"), (false, "x")]),
        ("hi ".to_string(), 2, 2)
    );
}

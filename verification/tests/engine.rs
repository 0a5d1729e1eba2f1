use whytop::ai::{engine_settings, select_model};

#[test]
fn configured_platform_defaults_are_distinct() {
    assert!("openbmb/MiniCPM5-1B-MLX".contains("MLX"));
    assert!("openbmb/MiniCPM5-1B-GGUF".contains("GGUF"));
}

#[test]
fn macos_defaults_use_rapid_mlx() {
    let s = engine_settings(true, None, None);
    assert_eq!(s.base_url, "http://127.0.0.1:8000/v1");
    assert_eq!(s.configured_model, "nail-qwen3.6-35b-a3b");
    assert_eq!(s.label, "Rapid-MLX");
}

#[test]
fn other_defaults_use_llama_server() {
    let s = engine_settings(false, None, None);
    assert_eq!(s.base_url, "http://127.0.0.1:8080/v1");
    assert_eq!(s.configured_model, "openbmb/MiniCPM5-1B-GGUF");
    assert_eq!(s.label, "llama-server");
}

#[test]
fn configured_url_loses_trailing_slashes() {
    let s = engine_settings(false, Some("http://host:1/v1///".to_string()), Some("m".to_string()));
    assert_eq!(s.base_url, "http://host:1/v1");
    assert_eq!(s.configured_model, "m");
}

#[test]
fn configured_model_is_preferred() {
    let models = vec!["a".to_string(), "wanted".to_string()];
    assert_eq!(select_model("wanted", &models), Ok("wanted".to_string()));
}

#[test]
fn a_single_other_model_is_used() {
    let models = vec!["alias".to_string()];
    assert_eq!(select_model("wanted", &models), Ok("alias".to_string()));
}

#[test]
fn several_other_models_are_an_error() {
    let models = vec!["a".to_string(), "b".to_string()];
    assert_eq!(
        select_model("wanted", &models),
        Err("wrong model server model: expected wanted, available: a, b".to_string())
    );
}

#[test]
fn no_models_is_an_error() {
    let models: Vec<String> = vec![];
    assert_eq!(
        select_model("wanted", &models),
        Err("wrong model server model: expected wanted, available: none".to_string())
    );
}

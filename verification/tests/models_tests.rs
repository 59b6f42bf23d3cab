use safetensors_browser::models::{get_param_layer, Llama, ModelFamily, ParamToLayer};

#[test]
fn test_get_param_layer_known_family() {
    match get_param_layer("llama") {
        Some(ModelFamily::Llama(_)) => {}
        None => panic!("llama is a known family"),
    }
}

#[test]
fn test_get_param_layer_unknown_family() {
    assert!(get_param_layer("bert").is_none());
    assert!(get_param_layer("").is_none());
}

#[test]
fn test_param_to_layer_finds_projection() {
    let r = Llama.param_to_layer("model.layers.0.self_attn.q_proj.weight");
    assert_eq!(r, Some("Linear".to_string()));
}

#[test]
fn test_param_to_layer_last_segment_wins() {
    // Segments are tried from the last to the first; "up_proj" is the first
    // hit even though "gate_proj" also appears earlier in the name.
    let r = Llama.param_to_layer("gate_proj.up_proj");
    assert_eq!(r, Some("Linear".to_string()));
}

#[test]
fn test_param_to_layer_unknown_parameter() {
    assert_eq!(Llama.param_to_layer("model.embed_tokens.weight"), None);
    assert_eq!(Llama.param_to_layer(""), None);
}

#[test]
fn test_param_to_layer_bare_segment() {
    assert_eq!(Llama.param_to_layer("k_proj"), Some("Linear".to_string()));
}

#[test]
fn test_parameter_layer_table() {
    let table = Llama.parameter_layer();
    assert_eq!(table.len(), 7);
    assert!(table.iter().all(|(_, layer)| layer == "Linear"));
    assert!(table.iter().any(|(p, _)| p == "q_proj"));
    assert!(table.iter().any(|(p, _)| p == "down_proj"));
}

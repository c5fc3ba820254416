use spec_checker::data::StringMap;
use spec_checker::spec::{
    resolve_defaults, Layer, LayerConfig, ModuleSpec, SpecDefaults, Stability,
};

#[test]
fn test_defaults_merge_scalars() {
    let parent = SpecDefaults {
        language: Some("rust".to_string()),
        layer: Some(Layer::new("domain")),
        context: Some("core".to_string()),
        stability: Some(Stability::Stable),
        ..Default::default()
    };
    let child = SpecDefaults {
        layer: Some(Layer::new("infrastructure")),
        context: Some("infra".to_string()),
        ..Default::default()
    };

    let merged = parent.merge(&child);
    assert_eq!(merged.language, Some("rust".to_string())); // parent (child None)
    assert_eq!(merged.layer, Some(Layer::new("infrastructure"))); // child overrides
    assert_eq!(merged.context, Some("infra".to_string())); // child overrides
    assert_eq!(merged.stability, Some(Stability::Stable)); // parent (child None)
}

#[test]
fn test_defaults_merge_lists() {
    let parent = SpecDefaults {
        forbidden_deps: Some(vec!["clap".to_string(), "syn".to_string()]),
        ..Default::default()
    };
    let child = SpecDefaults {
        forbidden_deps: Some(vec!["syn".to_string(), "regex".to_string()]),
        ..Default::default()
    };

    let merged = parent.merge(&child);
    let forbidden = merged.forbidden_deps.unwrap();
    assert_eq!(forbidden.len(), 3); // clap, syn, regex (deduplicated)
    assert!(forbidden.contains(&"clap".to_string()));
    assert!(forbidden.contains(&"syn".to_string()));
    assert!(forbidden.contains(&"regex".to_string()));
}

#[test]
fn test_apply_defaults_fills_missing() {
    let defaults = SpecDefaults {
        language: Some("rust".to_string()),
        layer: Some(Layer::new("domain")),
        context: Some("core".to_string()),
        stability: Some(Stability::Stable),
        forbidden_deps: Some(vec!["clap".to_string()]),
        ..Default::default()
    };

    let mut spec = ModuleSpec {
        module: "test".to_string(),
        // language, layer, context, stability all None
        forbidden_deps: vec!["syn".to_string()],
        ..Default::default()
    };

    spec.apply_defaults(&defaults);

    assert_eq!(spec.language, Some("rust".to_string()));
    assert_eq!(spec.layer, Some(Layer::new("domain")));
    assert_eq!(spec.context, Some("core".to_string()));
    assert_eq!(spec.stability, Some(Stability::Stable));
    // Lists merge
    assert!(spec.forbidden_deps.contains(&"clap".to_string()));
    assert!(spec.forbidden_deps.contains(&"syn".to_string()));
}

#[test]
fn test_apply_defaults_no_override() {
    let defaults = SpecDefaults {
        language: Some("rust".to_string()),
        layer: Some(Layer::new("domain")),
        ..Default::default()
    };

    let mut spec = ModuleSpec {
        module: "test".to_string(),
        language: Some("solidity".to_string()),
        layer: Some(Layer::new("interface")),
        ..Default::default()
    };

    spec.apply_defaults(&defaults);

    // Spec's own values are preserved
    assert_eq!(spec.language, Some("solidity".to_string()));
    assert_eq!(spec.layer, Some(Layer::new("interface")));
}

#[test]
fn test_resolve_defaults_chain() {
    // Defaults of the root directory
    let root = SpecDefaults {
        language: Some("rust".to_string()),
        stability: Some(Stability::Stable),
        forbidden_deps: Some(vec!["clap".to_string()]),
        ..Default::default()
    };

    // Defaults of a directory below it, which override them
    let sub = SpecDefaults {
        layer: Some(Layer::new("infrastructure")),
        forbidden_deps: Some(vec!["serde_yaml".to_string()]),
        ..Default::default()
    };

    let effective = resolve_defaults(&vec![root, sub]);
    assert_eq!(effective.language, Some("rust".to_string())); // from root
    assert_eq!(effective.stability, Some(Stability::Stable)); // from root
    assert_eq!(effective.layer, Some(Layer::new("infrastructure"))); // from subdir
    let forbidden = effective.forbidden_deps.unwrap();
    assert!(forbidden.contains(&"clap".to_string())); // from root
    assert!(forbidden.contains(&"serde_yaml".to_string())); // from subdir
}

#[test]
fn test_builtin_layer_config() {
    let config = LayerConfig::builtin();

    // Infrastructure can only depend on itself
    assert!(config.can_depend_on("infrastructure", "infrastructure"));
    assert!(!config.can_depend_on("infrastructure", "domain"));
    assert!(!config.can_depend_on("infrastructure", "application"));
    assert!(!config.can_depend_on("infrastructure", "interface"));

    // Domain can depend on itself and infrastructure
    assert!(config.can_depend_on("domain", "infrastructure"));
    assert!(config.can_depend_on("domain", "domain"));
    assert!(!config.can_depend_on("domain", "application"));
    assert!(!config.can_depend_on("domain", "interface"));

    // Application can depend on domain and infrastructure
    assert!(config.can_depend_on("application", "infrastructure"));
    assert!(config.can_depend_on("application", "domain"));
    assert!(config.can_depend_on("application", "application"));
    assert!(!config.can_depend_on("application", "interface"));

    // Interface can depend on anything
    assert!(config.can_depend_on("interface", "infrastructure"));
    assert!(config.can_depend_on("interface", "domain"));
    assert!(config.can_depend_on("interface", "application"));
    assert!(config.can_depend_on("interface", "interface"));
}

#[test]
fn test_custom_layer_config_linear() {
    let layers = vec![
        "presentation".to_string(),
        "business".to_string(),
        "data".to_string(),
    ];
    let config = LayerConfig::from_linear(&layers);

    assert!(config.can_depend_on("presentation", "business"));
    assert!(config.can_depend_on("presentation", "data"));
    assert!(config.can_depend_on("business", "data"));
    assert!(!config.can_depend_on("data", "business"));
    assert!(!config.can_depend_on("data", "presentation"));
    assert!(!config.can_depend_on("business", "presentation"));
}

#[test]
fn test_custom_layer_config_dag() {
    // Diamond: A depends on B and C, B and C both depend on D
    let mut dag = StringMap::new();
    dag.insert("a".to_string(), vec!["b".to_string(), "c".to_string()]);
    dag.insert("b".to_string(), vec!["d".to_string()]);
    dag.insert("c".to_string(), vec!["d".to_string()]);
    dag.insert("d".to_string(), vec![]);

    let config = LayerConfig::from_dag(&dag);

    assert!(config.can_depend_on("a", "b"));
    assert!(config.can_depend_on("a", "c"));
    assert!(!config.can_depend_on("a", "d")); // not transitive — explicit only
    assert!(config.can_depend_on("b", "d"));
    assert!(!config.can_depend_on("d", "a"));
    assert!(!config.can_depend_on("d", "b"));
}

#[test]
fn test_unknown_layers_allowed() {
    let config = LayerConfig::builtin();
    // Unknown layers not in config are allowed by default
    assert!(config.can_depend_on("custom", "anything"));
}

#[test]
fn test_stability_dependencies() {
    // Stable can only depend on stable
    assert!(Stability::Stable.can_depend_on(&Stability::Stable));
    assert!(!Stability::Stable.can_depend_on(&Stability::Normal));
    assert!(!Stability::Stable.can_depend_on(&Stability::Volatile));

    // Normal can depend on stable and normal
    assert!(Stability::Normal.can_depend_on(&Stability::Stable));
    assert!(Stability::Normal.can_depend_on(&Stability::Normal));
    assert!(!Stability::Normal.can_depend_on(&Stability::Volatile));

    // Volatile can depend on anything
    assert!(Stability::Volatile.can_depend_on(&Stability::Stable));
    assert!(Stability::Volatile.can_depend_on(&Stability::Normal));
    assert!(Stability::Volatile.can_depend_on(&Stability::Volatile));
}

#[test]
fn layers_compare_alike_in_either_case() {
    let config = LayerConfig::from_linear(&["Top".to_string(), "Low".to_string()]);
    for (a, b) in [("Top", "Low"), ("Low", "Top"), ("other", "Low"), ("Top", "other")] {
        let allowed = config.can_depend_on(a, b);
        assert_eq!(config.can_depend_on(&a.to_uppercase(), &b.to_lowercase()), allowed);
    }
    assert!(!config.can_depend_on("top", "other"));
    assert!(config.can_depend_on("other", "top"));
}

use spec_checker::rules::{
    builtin_rules, check_dependency, eval_value, evaluate, EvalContext, Rule, Severity,
};
use spec_checker::spec::{Layer, LayerConfig, ModuleSpec, Stability};

fn make_spec(
    name: &str,
    layer: Option<Layer>,
    context: Option<&str>,
    stability: Option<Stability>,
) -> ModuleSpec {
    ModuleSpec {
        module: name.to_string(),
        source_path: Some(format!("src/{}.rs", name)),
        layer,
        context: context.map(String::from),
        stability,
        ..Default::default()
    }
}

fn builtin_layer_config() -> LayerConfig {
    LayerConfig::builtin()
}

#[test]
fn test_evaluate_literals() {
    let source = make_spec("a", None, None, None);
    let target = make_spec("b", None, None, None);
    let lc = builtin_layer_config();
    let ctx = EvalContext {
        source: &source,
        target: &target,
        layer_config: &lc,
    };

    assert!(evaluate("true", &ctx).unwrap());
    assert!(!evaluate("false", &ctx).unwrap());
}

#[test]
fn test_evaluate_property_access() {
    let source = make_spec(
        "payments",
        Some(Layer::new("domain")),
        Some("payments"),
        Some(Stability::Stable),
    );
    let target = make_spec(
        "users",
        Some(Layer::new("domain")),
        Some("users"),
        Some(Stability::Volatile),
    );
    let lc = builtin_layer_config();
    let ctx = EvalContext {
        source: &source,
        target: &target,
        layer_config: &lc,
    };

    assert_eq!(eval_value("source.module", &ctx).unwrap(), "payments");
    assert_eq!(eval_value("target.context", &ctx).unwrap(), "users");
    assert_eq!(eval_value("source.layer", &ctx).unwrap(), "domain");
    assert_eq!(eval_value("target.stability", &ctx).unwrap(), "volatile");
}

#[test]
fn test_evaluate_comparisons() {
    let source = make_spec("a", Some(Layer::new("domain")), Some("payments"), None);
    let target = make_spec("b", Some(Layer::new("domain")), Some("users"), None);
    let lc = builtin_layer_config();
    let ctx = EvalContext {
        source: &source,
        target: &target,
        layer_config: &lc,
    };

    assert!(evaluate("source.layer == target.layer", &ctx).unwrap());
    assert!(evaluate("source.context != target.context", &ctx).unwrap());
    assert!(evaluate("source.layer == domain", &ctx).unwrap());
}

#[test]
fn test_evaluate_logical_ops() {
    let source = make_spec("a", Some(Layer::new("interface")), Some("x"), None);
    let target = make_spec("b", Some(Layer::new("domain")), Some("y"), None);
    let lc = builtin_layer_config();
    let ctx = EvalContext {
        source: &source,
        target: &target,
        layer_config: &lc,
    };

    assert!(evaluate(
        "source.layer == interface OR target.layer == interface",
        &ctx
    )
    .unwrap());
    assert!(!evaluate("source.layer == domain AND target.layer == domain", &ctx).unwrap());
    assert!(evaluate("NOT source.layer == domain", &ctx).unwrap());
}

#[test]
fn test_evaluate_can_depend_on() {
    let source = make_spec(
        "a",
        Some(Layer::new("domain")),
        None,
        Some(Stability::Stable),
    );
    let target_infra = make_spec(
        "b",
        Some(Layer::new("infrastructure")),
        None,
        Some(Stability::Stable),
    );
    let target_app = make_spec(
        "c",
        Some(Layer::new("application")),
        None,
        Some(Stability::Volatile),
    );

    let lc = builtin_layer_config();

    let ctx1 = EvalContext {
        source: &source,
        target: &target_infra,
        layer_config: &lc,
    };
    assert!(evaluate("source.layer.can_depend_on(target.layer)", &ctx1).unwrap());

    let ctx2 = EvalContext {
        source: &source,
        target: &target_app,
        layer_config: &lc,
    };
    assert!(!evaluate("source.layer.can_depend_on(target.layer)", &ctx2).unwrap());

    // Stability
    let ctx3 = EvalContext {
        source: &source,
        target: &target_app,
        layer_config: &lc,
    };
    assert!(!evaluate("source.stability.can_depend_on(target.stability)", &ctx3).unwrap());
}

#[test]
fn test_evaluate_can_depend_on_custom_layers() {
    let layers = vec![
        "ui".to_string(),
        "logic".to_string(),
        "data".to_string(),
    ];
    let lc = LayerConfig::from_linear(&layers);

    let source = make_spec("a", Some(Layer::new("data")), None, None);
    let target = make_spec("b", Some(Layer::new("ui")), None, None);

    let ctx = EvalContext {
        source: &source,
        target: &target,
        layer_config: &lc,
    };
    // data cannot depend on ui (ui is above data)
    assert!(!evaluate("source.layer.can_depend_on(target.layer)", &ctx).unwrap());

    // Reverse: ui can depend on data
    let ctx2 = EvalContext {
        source: &target,
        target: &source,
        layer_config: &lc,
    };
    assert!(evaluate("source.layer.can_depend_on(target.layer)", &ctx2).unwrap());
}

#[test]
fn test_builtin_rules() {
    let rules = builtin_rules();
    assert_eq!(rules.len(), 3);
    assert!(rules.iter().any(|r| r.name == "layer-direction"));
    assert!(rules.iter().any(|r| r.name == "context-isolation"));
    assert!(rules.iter().any(|r| r.name == "stability-direction"));
}

#[test]
fn test_check_dependency_layer_violation() {
    let source = make_spec("infra", Some(Layer::new("infrastructure")), None, None);
    let target = make_spec("domain", Some(Layer::new("domain")), None, None);
    let rules = builtin_rules();
    let lc = builtin_layer_config();

    let violations = check_dependency(&source, &target, &rules, &lc);
    assert!(!violations.is_empty());
    assert!(violations.iter().any(|v| v.rule_name == "layer-direction"));
}

#[test]
fn test_check_dependency_context_violation() {
    let source = make_spec("payments", Some(Layer::new("domain")), Some("payments"), None);
    let target = make_spec("users", Some(Layer::new("domain")), Some("users"), None);
    let rules = builtin_rules();
    let lc = builtin_layer_config();

    let violations = check_dependency(&source, &target, &rules, &lc);
    assert!(violations
        .iter()
        .any(|v| v.rule_name == "context-isolation"));
}

#[test]
fn test_custom_rule() {
    let rule = Rule {
        name: "no-test-to-prod".to_string(),
        description: Some("Test modules cannot depend on production code".to_string()),
        when: "true".to_string(),
        require: "source.module != target.module".to_string(),
        severity: Severity::Warning,
    };

    let source = make_spec("test_a", None, None, None);
    let target = make_spec("test_a", None, None, None);
    let lc = builtin_layer_config();

    let violations = check_dependency(&source, &target, &[rule], &lc);
    assert!(!violations.is_empty());
}

#[test]
fn contexts_depend_through_open_layers() {
    let rules = builtin_rules();
    let lc = builtin_layer_config();
    let module = |name: &str, layer: &str, context: &str| {
        make_spec(name, Some(Layer::new(layer)), Some(context), None)
    };
    let domain = module("b", "domain", "y");
    for layer in ["presentation", "interface"] {
        assert!(check_dependency(&module("a", layer, "x"), &domain, &rules, &lc).is_empty());
    }
    let found = check_dependency(&module("a", "application", "x"), &domain, &rules, &lc);
    assert_eq!(found.len(), 1);
    assert_eq!(found[0].rule_name, "context-isolation");
    assert!(check_dependency(&module("a", "application", "y"), &domain, &rules, &lc).is_empty());
}

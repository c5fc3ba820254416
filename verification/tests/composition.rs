use spec_checker::checker::{ConstraintSeverity, SpecChecker};
use spec_checker::data::StringMap;
use spec_checker::dependency::{DependencyGraph, ResolvedProject};
use spec_checker::smt::SolverReply;
use spec_checker::spec::{ExposeSpec, ModuleSpec, SubsystemExpose, SubsystemSpec};

fn texts(list: &[&str]) -> Vec<String> {
    list.iter().map(|s| s.to_string()).collect()
}

fn module(name: &str, deps: &[&str]) -> ModuleSpec {
    let mut spec = ModuleSpec::default();
    spec.module = name.to_string();
    spec.source_path = Some(format!("src/{}.rs", name));
    spec.depends_on = texts(deps);
    spec.exposes.insert("run".to_string(), ExposeSpec::default());
    spec
}

fn checker() -> SpecChecker {
    SpecChecker::new(".".to_string())
}

#[test]
fn subscriptions_need_an_emitter() {
    let mut a = module("a", &[]);
    a.emits = texts(&["Saved"]);
    let mut b = module("b", &[]);
    b.subscribes = texts(&["Saved", "Lost"]);
    let result = checker().check_composition(&[a, b], &SolverReply::Missing);
    assert_eq!(
        result.errors,
        texts(&["Module 'b' subscribes to event 'Lost' that no module emits"])
    );
    let unsat = SolverReply::Output { stdout: "unsat".to_string(), stderr: "".to_string() };
    let result = checker().check_composition(&[], &unsat);
    assert_eq!(result.errors, texts(&["State ownership conflict detected (SMT-verified)"]));
}

fn subsystem(modules: &[&str], delegates: &[(&str, Option<&str>)]) -> SubsystemSpec {
    let mut exposes = StringMap::new();
    for (name, target) in delegates {
        exposes.insert(
            name.to_string(),
            SubsystemExpose {
                delegates_to: target.map(|t| t.to_string()),
                requires: vec![],
                ensures: vec![],
            },
        );
    }
    SubsystemSpec {
        subsystem: "Pay".to_string(),
        description: None,
        modules: texts(modules),
        exposes,
        invariants: vec![],
        depends_on: vec![],
        forbidden_deps: texts(&["test"]),
        layer: None,
        context: None,
        stability: None,
    }
}

#[test]
fn sound_subsystems_have_no_findings() {
    let specs = vec![module("bridge", &["src/vault.rs"]), module("vault", &[]), module("x", &["y"])];
    let sub = subsystem(
        &["src/bridge.rs", "vault"],
        &[("deposit", Some("bridge.run")), ("own", None)],
    );
    // A dependency by its path is inside where the path is listed
    let listed = subsystem(&["src/bridge.rs", "src/vault.rs"], &[]);
    assert!(checker().check_subsystem(&listed, &specs).constraint_results.is_empty());
    let result = checker().check_subsystem(&sub, &specs);
    assert!(result.errors.is_empty());
    assert_eq!(
        result.warnings,
        texts(&["Subsystem 'Pay': module 'bridge' depends on 'src/vault.rs' outside the subsystem"])
    );
}

#[test]
fn broken_subsystems_have_findings() {
    let specs = vec![module("bridge", &["src/test_utils.rs"])];
    let sub = subsystem(
        &["src/bridge.rs", "src/lost.rs"],
        &[("a", Some("bridge.walk")), ("b", Some("plain"))],
    );
    let result = checker().check_subsystem(&sub, &specs);
    assert_eq!(
        result.errors,
        texts(&[
            "Subsystem 'Pay': module 'src/lost.rs' has no matching spec",
            "Subsystem 'Pay': 'a' delegates to 'bridge.walk', which no member module exposes",
            "Subsystem 'Pay': 'b' delegates to 'plain', which no member module exposes",
            "Subsystem 'Pay': module 'bridge' depends on 'src/test_utils.rs', which matches forbidden 'test'",
        ])
    );
    assert_eq!(result.warnings.len(), 1);
    assert_eq!(result.constraint_results[3].severity, ConstraintSeverity::Warning);
}

#[test]
fn only_public_modules_are_used_from_outside() {
    let project = |name: &str, public: Option<Vec<String>>| ResolvedProject {
        name: name.to_string(),
        root: format!("/{}", name),
        specs: vec![],
        subsystems: vec![],
        public_modules: public,
        dependency_names: vec![],
    };
    let graph = DependencyGraph::toposort(&vec![
        project("lib", Some(texts(&["src/parser.rs"]))),
        project("broken", Some(vec![])),
    ])
    .unwrap();
    let specs = vec![module(
        "app",
        &["local", "lib::parser", "lib::internal", "none::x", "broken::y"],
    )];
    let result =
        checker().check_cross_project_boundaries(&specs, &graph, &texts(&["broken"]));
    assert_eq!(
        result.errors,
        texts(&[
            "Module 'app' depends on 'lib::internal', which is not public",
            "Module 'app' depends on 'none::x' of an unknown project",
        ])
    );
}

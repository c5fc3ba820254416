use spec_checker::data::StringMap;
use spec_checker::dependency::{
    DependencyGraph, DependencyLocation, LoadedProject, ResolveStep,
};
use spec_checker::extractors::flow9::strip_comments;
use spec_checker::extractors::flow9_types::checked_parse_flow9_type;
use spec_checker::extractors::{
    get_extractor, Extractor, RustExtractor, SolidityExtractor, SourceFile,
};
use spec_checker::flow9_parser::{checked_parse_flow9_source, parse_flow9_source};
use spec_checker::hash::{compute_source_hash, full_hash_of};
use spec_checker::rules::{checked_evaluate, eval_value, evaluate, EvalContext, Obstacle};
use spec_checker::spec::{Layer, LayerConfig, ModuleSpec};
use spec_checker::type_formula::{
    checked_parse_formula, checked_parse_type_repr_from_str, evaluate_formula, parse_formula,
    TypeEvalContext,
};
use spec_checker::types::{FunctionInfo, TypeInfo, TypeKind, TypeRepr};

fn source_file(path: &str, content: &str) -> SourceFile {
    SourceFile {
        stem: path.split('.').next().map(|s| s.to_string()),
        path: path.to_string(),
        content: content.to_string(),
        syntax_trees: None,
    }
}

// ─── Hashes ──────────────────────────────────────────────────────────────────

#[test]
fn hashes_are_sha256() {
    assert_eq!(
        full_hash_of(b"abc"),
        "ba7816bf8f01cfea414140de5dae2223b00361a396177a9cb410ff61f20015ad"
    );
    assert_eq!(compute_source_hash(b"abc"), "ba7816bf8f01cfea");
}

// ─── Rules ───────────────────────────────────────────────────────────────────

fn with_layer(module: &str, layer: &str) -> ModuleSpec {
    ModuleSpec {
        module: module.to_string(),
        layer: Some(Layer::new(layer)),
        ..Default::default()
    }
}

#[test]
fn expressions_have_errors() {
    let source = with_layer("a", "DOMAIN");
    let target = with_layer("b", "domain");
    let layers = LayerConfig::builtin();
    let ctx = EvalContext { source: &source, target: &target, layer_config: &layers };
    assert_eq!(evaluate("source.layer == target.layer", &ctx), Ok(true));
    assert_eq!(eval_value("source.color", &ctx), Err("Unknown property: color".to_string()));
    assert_eq!(
        evaluate("x.can_depend_on(y)", &ctx),
        Err("Unknown can_depend_on expression: x.can_depend_on(y)".to_string())
    );
    assert_eq!(
        evaluate("other.exists", &ctx),
        Err("Unknown exists expression: other.exists".to_string())
    );
    assert_eq!(eval_value("STABLE", &ctx), Ok("stable".to_string()));
    assert_eq!(eval_value("'quoted text'", &ctx), Ok("quoted text".to_string()));
    assert!(matches!(checked_evaluate("'", &ctx), Err(Obstacle::Stuck)));
    assert!(matches!(checked_evaluate("é", &ctx), Err(Obstacle::Stuck)));
}

// ─── Type formulas ───────────────────────────────────────────────────────────

fn type_info(name: &str, kind: TypeKind) -> TypeInfo {
    TypeInfo {
        name: name.to_string(),
        kind,
        generics: vec![],
        fields: vec![],
        variants: vec![],
        trait_impls: vec![],
        derives: vec![],
    }
}

fn function(ret: Option<TypeRepr>) -> FunctionInfo {
    FunctionInfo { name: "f".to_string(), params: vec![], return_type: ret, generics: vec![] }
}

#[test]
fn formulas_without_a_reading_are_told_apart() {
    assert!(checked_parse_formula("equals(return, Vec<)").unwrap().is_err());
    assert!(checked_parse_type_repr_from_str("Vec<").is_none());
    assert!(checked_parse_type_repr_from_str("Vec<u8>").unwrap().is_ok());
    assert!(checked_parse_type_repr_from_str("[u8; x]").unwrap().is_err());
}

#[test]
fn errors_show_tokens() {
    let message = parse_formula("cloneable cloneable").unwrap_err().to_string();
    assert!(message.contains("Unexpected token: Ident(\"cloneable\")"), "{}", message);
    let message = parse_formula("fallible(\"a b\")").unwrap_err().to_string();
    assert!(message.contains("StringLit(\"a b\")"), "{}", message);
}

#[test]
fn predicates_default_to_self() {
    assert_eq!(parse_formula("cloneable").unwrap(), parse_formula("cloneable(Self)").unwrap());
}

#[test]
fn patterns_have_wildcards() {
    let types = StringMap::new();
    let functions = StringMap::new();
    let result = TypeRepr::Applied(
        Box::new(TypeRepr::Named("Result".to_string())),
        vec![TypeRepr::Named("u8".to_string()), TypeRepr::Named("Error".to_string())],
    );
    let fi = function(Some(result));
    let ctx = TypeEvalContext {
        self_type: None,
        function: Some(&fi),
        type_defs: &types,
        function_defs: &functions,
    };
    let holds = |formula: &str| {
        evaluate_formula(&checked_parse_formula(formula).unwrap().unwrap(), &ctx).unwrap()
    };
    assert!(holds("matches(return, \"Result<_, _>\")"));
    assert!(holds("matches(return, \"Result<u8, _>\")"));
    assert!(!holds("matches(return, \"Option<_>\")"));
    // Meta characters stand for themselves
    assert!(!holds("matches(return, \"Result.*\")"));
}

#[test]
fn formulas_can_fail() {
    let types = StringMap::new();
    let functions = StringMap::new();
    let ti = type_info("T", TypeKind::Struct);
    let on_type = TypeEvalContext {
        self_type: Some(&ti),
        function: None,
        type_defs: &types,
        function_defs: &functions,
    };
    assert!(evaluate_formula(&parse_formula("fallible(return)").unwrap(), &on_type).is_err());
    assert!(
        evaluate_formula(&parse_formula("equals(field(x), u8)").unwrap(), &on_type).is_err()
    );
    let fi = function(None);
    let on_function = TypeEvalContext {
        self_type: None,
        function: Some(&fi),
        type_defs: &types,
        function_defs: &functions,
    };
    assert!(
        evaluate_formula(&parse_formula("equals(param(0), u8)").unwrap(), &on_function).is_err()
    );
    // Without a type, `Self` stands for itself
    assert!(!evaluate_formula(&parse_formula("cloneable").unwrap(), &on_function).unwrap());
}

// ─── Flow9 ───────────────────────────────────────────────────────────────────

#[test]
fn texts_without_a_reading_are_told_apart() {
    assert!(checked_parse_flow9_source("import ééééééééééé").is_some());
    assert!(checked_parse_flow9_source("importé a;").is_some());
    assert!(checked_parse_flow9_type("aé-> int").is_none());
    assert!(checked_parse_flow9_type("int -> int").is_some());
}

#[test]
fn expected_characters_are_shown() {
    let message = parse_flow9_source("import a!").unwrap_err();
    assert!(message.contains("';'"), "{}", message);
    assert!(message.contains("'!'"), "{}", message);
}

#[test]
fn comments_are_stripped_outside_literals() {
    assert_eq!(strip_comments("a // b\n\"// c\" /* d */ e"), "a \n\"// c\"  e");
}

// ─── Extraction ──────────────────────────────────────────────────────────────

#[test]
fn languages_have_extractors() {
    assert!(get_extractor("RS").is_ok());
    assert_eq!(
        get_extractor("COBOL").unwrap_err(),
        "Unsupported language: cobol. Supported: solidity, rust, flow9"
    );
}

#[test]
fn rust_items_are_extracted() {
    let content = r#"
use serde::{Serialize, de::DeserializeOwned as Owned};
use tokio::*;
#[derive(Clone, Debug)]
pub struct Pair<T: Clone>(pub T, [u8; 4]);
pub enum Shape { Dot, Line { from: (u8, u8), to: &'static str } }
pub trait Area: Send { fn area(&self) -> f64; }
pub type Alias = Vec<Option<u8>>;
pub static COUNT: usize = 0;
impl<T: Clone> Pair<T> {
    pub fn first(&self, other: &mut Vec<T>) -> Option<T> { None }
}
impl Area for Shape { fn area(&self) -> f64 { 0.0 } }
pub fn apply(f: fn(u8) -> bool) {}
fn private() -> impl Iterator<Item = u8> { std::iter::empty() }
"#;
    let m = RustExtractor::new().extract(&source_file("pair.rs", content)).unwrap();
    assert_eq!(m.name, "pair");
    assert_eq!(m.imports, vec!["serde", "tokio"]);
    let pair = m.type_definitions.get("Pair").unwrap();
    assert_eq!(pair.kind, TypeKind::Struct);
    assert_eq!(pair.generics[0].name, "T");
    assert_eq!(pair.fields[1].type_repr.to_string(), "[u8; 4]");
    assert_eq!(pair.derives, vec!["Clone", "Debug"]);
    let shape = m.type_definitions.get("Shape").unwrap();
    assert_eq!(shape.variants[1].fields[0].type_repr.to_string(), "(u8, u8)");
    assert_eq!(shape.variants[1].fields[1].type_repr.to_string(), "&str");
    assert_eq!(m.type_definitions.get("Area").unwrap().kind, TypeKind::Trait);
    assert_eq!(m.type_definitions.get("Alias").unwrap().kind, TypeKind::TypeAlias);
    assert!(m.public_functions.contains(&"Pair.first".to_string()));
    assert!(m.public_functions.contains(&"apply".to_string()));
    assert!(m.private_functions.contains(&"private".to_string()));
    let first = m.function_info.get("Pair.first").unwrap();
    assert!(first.params[0].is_receiver);
    assert_eq!(first.params[1].type_repr.to_string(), "&mut Vec<T>");
    let apply = m.function_info.get("apply").unwrap();
    assert_eq!(apply.params[0].type_repr.to_string(), "fn(u8) -> bool");
    assert!(RustExtractor::new().extract(&source_file("bad.rs", "fn {")).is_err());
}

#[test]
fn solidity_state_variables_are_found() {
    let content = "contract C {\n    uint256 public total;\n    address private owner;\n}\n";
    let m = SolidityExtractor::new().extract(&source_file("c.sol", content)).unwrap();
    assert!(m.state_variables.contains(&"total".to_string()));
    assert!(m.state_variables.contains(&"owner".to_string()));
}

// ─── Dependencies ────────────────────────────────────────────────────────────

fn project(name: Option<&str>, deps: &[(&str, &str)]) -> LoadedProject {
    LoadedProject {
        name: name.map(|n| n.to_string()),
        dir_name: Some("dir".to_string()),
        public_modules: None,
        dependencies: deps
            .iter()
            .map(|(name, root)| DependencyLocation {
                name: name.to_string(),
                root: root.to_string(),
                error: None,
            })
            .collect(),
        specs: vec![],
        subsystems: vec![],
        spec_error: None,
    }
}

fn loaded(projects: Vec<(&str, LoadedProject)>) -> StringMap<LoadedProject> {
    let mut map = StringMap::new();
    for (root, p) in projects {
        map.insert(root.to_string(), p);
    }
    map
}

#[test]
fn trees_show_dependencies_in_turn() {
    let world = loaded(vec![
        ("/root", project(Some("app"), &[("lib", "/lib"), ("util", "/util")])),
        ("/lib", project(Some("lib"), &[("util", "/util")])),
        ("/util", project(Some("util"), &[])),
    ]);
    match DependencyGraph::resolve(&world, "/root") {
        ResolveStep::Done(graph) => {
            let names: Vec<&str> = graph.projects.iter().map(|p| p.name.as_str()).collect();
            assert_eq!(names, vec!["util", "lib", "app"]);
            assert_eq!(graph.get("lib").unwrap().root, "/lib");
            assert!(graph.get("none").is_none());
            assert_eq!(graph.dependencies().len(), 2);
            let lines: Vec<String> = graph
                .dependency_tree()
                .iter()
                .map(|l| format!("{}{} ({})", l.indent, l.name, l.root))
                .collect();
            assert_eq!(
                lines,
                vec!["├── lib (/lib)", "│   └── util (/util)", "└── util (/util)"]
            );
        }
        other => panic!("expected a graph, got {:?}", other),
    }
}

#[test]
fn resolving_asks_for_projects_and_fails() {
    match DependencyGraph::resolve(&loaded(vec![]), "/root") {
        ResolveStep::Load(place) => assert_eq!(place, "/root"),
        other => panic!("expected to load, got {:?}", other),
    }
    let world = loaded(vec![
        ("/root", project(Some("app"), &[("lib", "/lib"), ("alias", "/lib")])),
        ("/lib", project(Some("lib"), &[])),
    ]);
    match DependencyGraph::resolve(&world, "/root") {
        ResolveStep::Failed(e) => assert_eq!(
            e,
            "Diamond dependency conflict: 'lib' at /lib is also referenced as 'alias'"
        ),
        other => panic!("expected a failure, got {:?}", other),
    }
    let mut broken = project(Some("app"), &[]);
    broken.spec_error = Some("failed to parse x".to_string());
    match DependencyGraph::resolve(&loaded(vec![("/root", broken)]), "/root") {
        ResolveStep::Failed(e) => assert_eq!(e, "failed to parse x"),
        other => panic!("expected a failure, got {:?}", other),
    }
    let mut lost = project(None, &[("lib", "/lib")]);
    lost.dependencies[0].error = Some("cannot canonicalize: ../lib".to_string());
    match DependencyGraph::resolve(&loaded(vec![("/root", lost)]), "/root") {
        ResolveStep::Failed(e) => assert_eq!(e, "cannot canonicalize: ../lib"),
        other => panic!("expected a failure, got {:?}", other),
    }
    match DependencyGraph::resolve(&loaded(vec![("/root", project(None, &[]))]), "/root") {
        ResolveStep::Done(graph) => assert_eq!(graph.root_project().name, "dir"),
        other => panic!("expected a graph, got {:?}", other),
    }
}

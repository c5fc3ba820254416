use spec_checker::data::StringMap;
use spec_checker::dependency::{
    DependencyGraph, DependencyLocation, LoadedProject, ResolveStep, ResolvedProject,
};
use spec_checker::spec::ModuleSpec;

/// A project with a name, one spec, and dependencies by their names and places.
fn project(name: &str, module: Option<&str>, deps: &[(&str, &str)]) -> LoadedProject {
    LoadedProject {
        name: Some(name.to_string()),
        dir_name: None,
        public_modules: None,
        dependencies: deps
            .iter()
            .map(|(name, root)| DependencyLocation {
                name: name.to_string(),
                root: root.to_string(),
                error: None,
            })
            .collect(),
        specs: module
            .iter()
            .map(|m| ModuleSpec {
                module: m.to_string(),
                source_path: Some(format!("src/{}.rs", m)),
                ..Default::default()
            })
            .collect(),
        subsystems: vec![],
        spec_error: None,
    }
}

/// Resolves the dependencies of a project, reading each project when it is asked for.
fn resolve(
    projects: Vec<(&str, LoadedProject)>,
    root: &str,
) -> Result<DependencyGraph, String> {
    let mut unread = projects;
    let mut loaded = StringMap::new();
    loop {
        match DependencyGraph::resolve(&loaded, root) {
            ResolveStep::Done(graph) => return Ok(graph),
            ResolveStep::Failed(e) => return Err(e),
            ResolveStep::Load(place) => {
                let at = unread.iter().position(|(p, _)| *p == place).unwrap();
                let (p, project) = unread.remove(at);
                loaded.insert(p.to_string(), project);
            }
        }
    }
}

#[test]
fn test_single_project_no_deps() {
    let graph = resolve(vec![("/root", project("my-project", Some("main"), &[]))], "/root").unwrap();
    assert_eq!(graph.projects.len(), 1);
    assert_eq!(graph.root_project().name, "my-project");
    assert_eq!(graph.root_project().specs.len(), 1);
}

#[test]
fn test_linear_dependency() {
    let graph = resolve(
        vec![
            ("/lib-a", project("lib-a", Some("parser"), &[])),
            ("/root", project("my-project", Some("main"), &[("lib-a", "/lib-a")])),
        ],
        "/root",
    )
    .unwrap();
    assert_eq!(graph.projects.len(), 2);
    // Dependencies first in topological order
    assert_eq!(graph.projects[0].name, "lib-a");
    assert_eq!(graph.projects[1].name, "my-project");
}

#[test]
fn test_diamond_dedup() {
    let graph = resolve(
        vec![
            ("/shared", project("shared", Some("utils"), &[])),
            ("/lib-a", project("lib-a", Some("parser"), &[("shared", "/shared")])),
            (
                "/root",
                project(
                    "my-project",
                    Some("main"),
                    &[("lib-a", "/lib-a"), ("shared", "/shared")],
                ),
            ),
        ],
        "/root",
    )
    .unwrap();
    // shared is only loaded once despite being referenced by both root and lib-a
    assert_eq!(graph.projects.len(), 3);
    let names: Vec<&str> = graph.projects.iter().map(|p| p.name.as_str()).collect();
    assert!(names.contains(&"shared"));
    assert!(names.contains(&"lib-a"));
    assert!(names.contains(&"my-project"));
}

#[test]
fn test_cycle_detected() {
    let result = resolve(
        vec![
            ("/a", project("a", None, &[("b", "/b")])),
            ("/b", project("b", None, &[("a", "/a")])),
        ],
        "/a",
    );
    assert!(result.is_err());
    let err = result.unwrap_err();
    assert!(
        err.contains("cycle") || err.contains("Cycle"),
        "Expected cycle error, got: {}",
        err
    );
    assert_eq!(err, "Dependency cycle among projects: a, b");
}

#[test]
fn test_name_mismatch_error() {
    let result = resolve(
        vec![
            ("/lib", project("actual-name", None, &[])),
            ("/root", project("root", None, &[("wrong-name", "/lib")])),
        ],
        "/root",
    );
    assert!(result.is_err());
    let err = result.unwrap_err();
    assert!(err.contains("mismatch"));
    assert_eq!(
        err,
        "Dependency name mismatch: consumer expects 'wrong-name' but /lib declares name 'actual-name'"
    );
}

#[test]
fn test_public_modules_explicit() {
    let proj = ResolvedProject {
        name: "test".to_string(),
        root: "/tmp/test".to_string(),
        specs: vec![],
        subsystems: vec![],
        public_modules: Some(vec!["src/parser.rs".to_string()]),
        dependency_names: vec![],
    };

    assert!(proj.is_module_public("src/parser.rs"));
    assert!(proj.is_module_public("parser")); // by module name
    assert!(!proj.is_module_public("src/internal.rs"));
}

#[test]
fn test_parse_cross_ref() {
    assert_eq!(
        DependencyGraph::parse_cross_ref("lib-a::parser"),
        Some(("lib-a".to_string(), "parser".to_string()))
    );
    assert_eq!(
        DependencyGraph::parse_cross_ref("lib-a::parser.Parser.parse"),
        Some(("lib-a".to_string(), "parser.Parser.parse".to_string()))
    );
    assert_eq!(DependencyGraph::parse_cross_ref("local_module"), None);
}

#[test]
fn test_fallback_all_public() {
    let proj = ResolvedProject {
        name: "test".to_string(),
        root: "/tmp/test".to_string(),
        specs: vec![],
        subsystems: vec![],
        public_modules: None,
        dependency_names: vec![],
    };
    assert!(proj.is_module_public("anything"));
}

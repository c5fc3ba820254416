use spec_checker::checker::module::{source_candidates, SourceLookup};
use spec_checker::checker::{ConstraintKind, SpecChecker, VerificationTier};
use spec_checker::data::StringMap;
use spec_checker::extractors::SourceFile;
use spec_checker::spec::{ExposeSpec, Layer, ModuleSpec, ProtocolSpec, Stability, Transition};

/// Source files by their paths.
struct Dir {
    files: Vec<(String, String)>,
}

impl Dir {
    fn new() -> Self {
        Dir { files: vec![] }
    }

    fn write(&mut self, path: &str, content: &str) {
        self.files.push((path.to_string(), content.to_string()));
    }

    /// The file at the first of the places where the source of a module may lie.
    fn lookup(&self, spec: &ModuleSpec) -> SourceLookup {
        for candidate in source_candidates(spec) {
            for (path, content) in &self.files {
                if *path == candidate {
                    return SourceLookup::Read(SourceFile {
                        stem: Some(spec.module.clone()),
                        path: path.clone(),
                        content: content.clone(),
                        syntax_trees: None,
                    });
                }
            }
        }
        SourceLookup::NotFound
    }
}

fn create_test_spec() -> ModuleSpec {
    let mut exposes = StringMap::new();
    exposes.insert("deposit".to_string(), ExposeSpec::default());
    exposes.insert("withdraw".to_string(), ExposeSpec::default());

    ModuleSpec {
        module: "Bridge".to_string(),
        language: Some("solidity".to_string()),
        source_path: Some("Bridge.sol".to_string()),
        exposes,
        depends_on: vec!["TokenRegistry".to_string()],
        forbidden_deps: vec!["TestUtils".to_string()],
        ..Default::default()
    }
}

#[test]
fn test_check_missing_function() {
    let mut dir = Dir::new();

    // Create a source file missing the withdraw function
    let content = r#"
contract Bridge {
    function deposit(address token, uint256 amount) public {}
    function _verifySignature(bytes memory sig) internal {}
}
"#;
    dir.write("Bridge.sol", content);

    let checker = SpecChecker::new(".".to_string());
    let spec = create_test_spec();

    let result = checker.check(&spec, &dir.lookup(&spec));

    assert!(!result.is_ok());
    assert!(result.errors.iter().any(|e| e.contains("withdraw")));
}

#[test]
fn test_check_forbidden_dep() {
    let mut dir = Dir::new();

    let content = r#"
import "./TestUtils.sol"; // Forbidden!
import "./TokenRegistry.sol";

contract Bridge {
    function deposit(address token, uint256 amount) public {}
    function withdraw(address token, uint256 amount) public {}
    function _verifySignature(bytes memory sig) internal {}
}
"#;
    dir.write("Bridge.sol", content);

    let checker = SpecChecker::new(".".to_string());
    let spec = create_test_spec();

    let result = checker.check(&spec, &dir.lookup(&spec));

    assert!(!result.is_ok());
    assert!(result
        .errors
        .iter()
        .any(|e| e.contains("TestUtils") && e.contains("forbidden")));
}

#[test]
fn test_check_all_passing() {
    let mut dir = Dir::new();

    let content = r#"
import "./TokenRegistry.sol";

contract Bridge {
    function deposit(address token, uint256 amount) public {}
    function withdraw(address token, uint256 amount) public {}
    function _verifySignature(bytes memory sig) internal {}
}
"#;
    dir.write("Bridge.sol", content);

    let checker = SpecChecker::new(".".to_string());
    let spec = create_test_spec();

    let result = checker.check(&spec, &dir.lookup(&spec));

    assert!(
        result.is_ok(),
        "Expected no errors but got: {:?}",
        result.errors
    );
}

#[test]
fn test_check_layer_violation() {
    let mut dir = Dir::new();

    // Create two source files
    let infra_content = r#"
pub fn infra_function() {}
"#;
    let domain_content = r#"
use infra;
pub fn domain_function() {}
"#;
    dir.write("src/infra.rs", infra_content);
    dir.write("src/domain.rs", domain_content);

    // Infrastructure module that depends on domain (VIOLATION!)
    let infra_spec = ModuleSpec {
        module: "infra".to_string(),
        language: Some("rust".to_string()),
        source_path: Some("src/infra.rs".to_string()),
        layer: Some(Layer::new("infrastructure")),
        depends_on: vec!["src/domain.rs".to_string()], // Infrastructure depending on Domain!
        ..Default::default()
    };

    // Domain module
    let domain_spec = ModuleSpec {
        module: "domain".to_string(),
        language: Some("rust".to_string()),
        source_path: Some("src/domain.rs".to_string()),
        layer: Some(Layer::new("domain")),
        ..Default::default()
    };

    let specs = vec![infra_spec.clone(), domain_spec];
    let checker = SpecChecker::new(".".to_string()).with_specs(&specs);

    let result = checker.check(&infra_spec, &dir.lookup(&infra_spec));

    assert!(
        !result.is_ok(),
        "Expected layer violation error but got none"
    );
    assert!(
        result.errors.iter().any(|e| e.contains("layer-direction")),
        "Expected 'layer-direction' error but got: {:?}",
        result.errors
    );
}

#[test]
fn test_check_layer_valid() {
    let mut dir = Dir::new();

    // Create source files
    dir.write("src/infra.rs", "pub fn f() {}");
    dir.write("src/domain.rs", "pub fn f() {}");

    // Domain depending on Infrastructure (valid)
    let domain_spec = ModuleSpec {
        module: "domain".to_string(),
        language: Some("rust".to_string()),
        source_path: Some("src/domain.rs".to_string()),
        layer: Some(Layer::new("domain")),
        depends_on: vec!["src/infra.rs".to_string()],
        ..Default::default()
    };

    let infra_spec = ModuleSpec {
        module: "infra".to_string(),
        language: Some("rust".to_string()),
        source_path: Some("src/infra.rs".to_string()),
        layer: Some(Layer::new("infrastructure")),
        ..Default::default()
    };

    let specs = vec![domain_spec.clone(), infra_spec];
    let checker = SpecChecker::new(".".to_string()).with_specs(&specs);

    let result = checker.check(&domain_spec, &dir.lookup(&domain_spec));

    assert!(
        result.is_ok(),
        "Expected no errors but got: {:?}",
        result.errors
    );
}

#[test]
fn test_check_events_missing() {
    let mut dir = Dir::new();

    // Solidity contract with only one event
    let content = r#"
contract Bridge {
    event Deposited(address token, uint256 amount);
    
    function deposit(address token, uint256 amount) public {}
}
"#;
    dir.write("Bridge.sol", content);

    // Spec expects two events
    let spec = ModuleSpec {
        module: "Bridge".to_string(),
        language: Some("solidity".to_string()),
        source_path: Some("Bridge.sol".to_string()),
        emits: vec!["Deposited".to_string(), "Withdrawn".to_string()],
        ..Default::default()
    };

    let checker = SpecChecker::new(".".to_string());
    let result = checker.check(&spec, &dir.lookup(&spec));

    assert!(!result.is_ok(), "Expected error for missing event");
    assert!(
        result.errors.iter().any(|e| e.contains("Withdrawn")),
        "Expected error about 'Withdrawn' event but got: {:?}",
        result.errors
    );
}

#[test]
fn test_check_events_extra() {
    let mut dir = Dir::new();

    // Solidity contract with two events
    let content = r#"
contract Bridge {
    event Deposited(address token, uint256 amount);
    event Withdrawn(address token, uint256 amount);
    
    function deposit(address token, uint256 amount) public {}
}
"#;
    dir.write("Bridge.sol", content);

    // Spec only lists one event
    let spec = ModuleSpec {
        module: "Bridge".to_string(),
        language: Some("solidity".to_string()),
        source_path: Some("Bridge.sol".to_string()),
        emits: vec!["Deposited".to_string()],
        ..Default::default()
    };

    let checker = SpecChecker::new(".".to_string());
    let result = checker.check(&spec, &dir.lookup(&spec));

    // Should have warning for extra event
    assert!(
        result.warnings.iter().any(|w| w.contains("Withdrawn")),
        "Expected warning about 'Withdrawn' event not in spec but got: {:?}",
        result.warnings
    );
}

#[test]
fn test_check_context_violation() {
    let mut dir = Dir::new();

    dir.write("src/payments.rs", "pub fn pay() {}");
    dir.write("src/users.rs", "pub fn user() {}");

    // Payments domain module trying to directly depend on Users domain module
    let payments_spec = ModuleSpec {
        module: "payments".to_string(),
        language: Some("rust".to_string()),
        source_path: Some("src/payments.rs".to_string()),
        layer: Some(Layer::new("domain")),
        context: Some("payments".to_string()),
        depends_on: vec!["src/users.rs".to_string()],
        ..Default::default()
    };

    let users_spec = ModuleSpec {
        module: "users".to_string(),
        language: Some("rust".to_string()),
        source_path: Some("src/users.rs".to_string()),
        layer: Some(Layer::new("domain")),
        context: Some("users".to_string()),
        ..Default::default()
    };

    let specs = vec![payments_spec.clone(), users_spec];
    let checker = SpecChecker::new(".".to_string()).with_specs(&specs);

    let result = checker.check(&payments_spec, &dir.lookup(&payments_spec));

    assert!(!result.is_ok(), "Expected context violation error");
    assert!(
        result
            .errors
            .iter()
            .any(|e| e.contains("context-isolation")),
        "Expected 'context-isolation' error but got: {:?}",
        result.errors
    );
}

#[test]
fn test_check_context_via_interface() {
    let mut dir = Dir::new();

    dir.write("src/payments_api.rs", "pub fn pay() {}");
    dir.write("src/users_api.rs", "pub fn api() {}");

    // Payments interface depending on Users interface (allowed - both at interface layer)
    let payments_api_spec = ModuleSpec {
        module: "payments_api".to_string(),
        language: Some("rust".to_string()),
        source_path: Some("src/payments_api.rs".to_string()),
        layer: Some(Layer::new("interface")),
        context: Some("payments".to_string()),
        depends_on: vec!["src/users_api.rs".to_string()],
        ..Default::default()
    };

    let users_api_spec = ModuleSpec {
        module: "users_api".to_string(),
        language: Some("rust".to_string()),
        source_path: Some("src/users_api.rs".to_string()),
        layer: Some(Layer::new("interface")),
        context: Some("users".to_string()),
        ..Default::default()
    };

    let specs = vec![payments_api_spec.clone(), users_api_spec];
    let checker = SpecChecker::new(".".to_string()).with_specs(&specs);

    let result = checker.check(&payments_api_spec, &dir.lookup(&payments_api_spec));

    assert!(
        result.is_ok(),
        "Cross-context via interface should be allowed but got: {:?}",
        result.errors
    );
}

#[test]
fn test_check_stability_violation() {
    let mut dir = Dir::new();

    dir.write("src/core.rs", "pub fn core() {}");
    dir.write("src/feature.rs", "pub fn feature() {}");

    // Stable core depending on volatile feature (VIOLATION)
    let core_spec = ModuleSpec {
        module: "core".to_string(),
        language: Some("rust".to_string()),
        source_path: Some("src/core.rs".to_string()),
        stability: Some(Stability::Stable),
        depends_on: vec!["src/feature.rs".to_string()],
        ..Default::default()
    };

    let feature_spec = ModuleSpec {
        module: "feature".to_string(),
        language: Some("rust".to_string()),
        source_path: Some("src/feature.rs".to_string()),
        stability: Some(Stability::Volatile),
        ..Default::default()
    };

    let specs = vec![core_spec.clone(), feature_spec];
    let checker = SpecChecker::new(".".to_string()).with_specs(&specs);

    let result = checker.check(&core_spec, &dir.lookup(&core_spec));

    assert!(!result.is_ok(), "Expected stability violation error");
    assert!(
        result
            .errors
            .iter()
            .any(|e| e.contains("stability-direction")),
        "Expected 'stability-direction' error but got: {:?}",
        result.errors
    );
}

#[test]
fn test_check_stability_valid() {
    let mut dir = Dir::new();

    dir.write("src/feature.rs", "pub fn feature() {}");
    dir.write("src/core.rs", "pub fn core() {}");

    // Volatile feature depending on stable core (allowed)
    let feature_spec = ModuleSpec {
        module: "feature".to_string(),
        language: Some("rust".to_string()),
        source_path: Some("src/feature.rs".to_string()),
        stability: Some(Stability::Volatile),
        depends_on: vec!["src/core.rs".to_string()],
        ..Default::default()
    };

    let core_spec = ModuleSpec {
        module: "core".to_string(),
        language: Some("rust".to_string()),
        source_path: Some("src/core.rs".to_string()),
        stability: Some(Stability::Stable),
        ..Default::default()
    };

    let specs = vec![feature_spec.clone(), core_spec];
    let checker = SpecChecker::new(".".to_string()).with_specs(&specs);

    let result = checker.check(&feature_spec, &dir.lookup(&feature_spec));

    assert!(
        result.is_ok(),
        "Volatile depending on stable should be allowed but got: {:?}",
        result.errors
    );
}

#[test]
fn test_check_owns_state_missing() {
    let mut dir = Dir::new();

    // Solidity contract with one state variable
    let content = r#"
contract Bridge {
    uint256 public deposited;
    function deposit() public {}
}
"#;
    dir.write("Bridge.sol", content);

    // Spec claims two state variables, but only one exists
    let spec = ModuleSpec {
        module: "Bridge".to_string(),
        language: Some("solidity".to_string()),
        source_path: Some("Bridge.sol".to_string()),
        owns_state: vec!["deposited".to_string(), "withdrawn".to_string()],
        ..Default::default()
    };

    let checker = SpecChecker::new(".".to_string());
    let result = checker.check(&spec, &dir.lookup(&spec));

    assert!(!result.is_ok(), "Expected error for missing state variable");
    assert!(
        result.errors.iter().any(|e| e.contains("withdrawn") && e.contains("owns_state")),
        "Expected error about 'withdrawn' in owns_state but got: {:?}",
        result.errors
    );
}

#[test]
fn test_check_owns_state_extra() {
    let mut dir = Dir::new();

    // Solidity contract with two state variables
    let content = r#"
contract Bridge {
    uint256 public deposited;
    uint256 public withdrawn;
    function deposit() public {}
}
"#;
    dir.write("Bridge.sol", content);

    // Spec only lists one
    let spec = ModuleSpec {
        module: "Bridge".to_string(),
        language: Some("solidity".to_string()),
        source_path: Some("Bridge.sol".to_string()),
        owns_state: vec!["deposited".to_string()],
        ..Default::default()
    };

    let checker = SpecChecker::new(".".to_string());
    let result = checker.check(&spec, &dir.lookup(&spec));

    assert!(
        result.warnings.iter().any(|w| w.contains("withdrawn") && w.contains("owns_state")),
        "Expected warning about 'withdrawn' not in owns_state but got: {:?}",
        result.warnings
    );
}

#[test]
fn test_check_state_ownership_conflict() {
    let mut dir = Dir::new();

    dir.write("src/bridge.rs", "pub static BALANCES: () = ();\npub fn deposit() {}");
    dir.write("src/vault.rs", "pub static BALANCES: () = ();\npub fn withdraw() {}");

    // Both modules claim to own BALANCES
    let bridge_spec = ModuleSpec {
        module: "bridge".to_string(),
        language: Some("rust".to_string()),
        source_path: Some("src/bridge.rs".to_string()),
        owns_state: vec!["BALANCES".to_string()],
        ..Default::default()
    };

    let vault_spec = ModuleSpec {
        module: "vault".to_string(),
        language: Some("rust".to_string()),
        source_path: Some("src/vault.rs".to_string()),
        owns_state: vec!["BALANCES".to_string()],
        ..Default::default()
    };

    let specs = vec![bridge_spec.clone(), vault_spec];
    let checker = SpecChecker::new(".".to_string()).with_specs(&specs);

    let result = checker.check(&bridge_spec, &dir.lookup(&bridge_spec));

    assert!(
        !result.is_ok(),
        "Expected state ownership conflict error"
    );
    assert!(
        result.errors.iter().any(|e| e.contains("BALANCES") && e.contains("ownership conflict")),
        "Expected ownership conflict error about BALANCES but got: {:?}",
        result.errors
    );
}

#[test]
fn test_check_reads_state_valid() {
    let mut dir = Dir::new();

    dir.write("src/reader.rs", "pub fn read_data() {}");
    dir.write("src/owner.rs", "pub static DATA: () = ();\npub fn write_data() {}");

    let reader_spec = ModuleSpec {
        module: "reader".to_string(),
        language: Some("rust".to_string()),
        source_path: Some("src/reader.rs".to_string()),
        reads_state: vec!["DATA".to_string()],
        ..Default::default()
    };

    let owner_spec = ModuleSpec {
        module: "owner".to_string(),
        language: Some("rust".to_string()),
        source_path: Some("src/owner.rs".to_string()),
        owns_state: vec!["DATA".to_string()],
        ..Default::default()
    };

    let specs = vec![reader_spec.clone(), owner_spec];
    let checker = SpecChecker::new(".".to_string()).with_specs(&specs);

    let result = checker.check(&reader_spec, &dir.lookup(&reader_spec));

    // No warning about reads_state because DATA exists in owner's owns_state
    assert!(
        !result.warnings.iter().any(|w| w.contains("reads_state") && w.contains("DATA")),
        "Should not warn about DATA in reads_state when owner exists, but got: {:?}",
        result.warnings
    );
}

#[test]
fn test_check_reads_state_orphan() {
    let mut dir = Dir::new();

    dir.write("src/reader.rs", "pub fn read_data() {}");
    dir.write("src/other.rs", "pub fn other() {}");

    // reader reads DATA, but no module owns it
    let reader_spec = ModuleSpec {
        module: "reader".to_string(),
        language: Some("rust".to_string()),
        source_path: Some("src/reader.rs".to_string()),
        reads_state: vec!["DATA".to_string()],
        ..Default::default()
    };

    let other_spec = ModuleSpec {
        module: "other".to_string(),
        language: Some("rust".to_string()),
        source_path: Some("src/other.rs".to_string()),
        ..Default::default()
    };

    let specs = vec![reader_spec.clone(), other_spec];
    let checker = SpecChecker::new(".".to_string()).with_specs(&specs);

    let result = checker.check(&reader_spec, &dir.lookup(&reader_spec));

    assert!(
        result.warnings.iter().any(|w| w.contains("reads_state") && w.contains("DATA")),
        "Expected warning about orphan reads_state DATA but got: {:?}",
        result.warnings
    );
}

#[test]
fn test_check_modifies_orphan() {
    let mut dir = Dir::new();

    dir.write("src/writer.rs", "pub fn write_data() {}");
    dir.write("src/other.rs", "pub fn other() {}");

    let writer_spec = ModuleSpec {
        module: "writer".to_string(),
        language: Some("rust".to_string()),
        source_path: Some("src/writer.rs".to_string()),
        modifies: vec!["COUNTER".to_string()],
        ..Default::default()
    };

    let other_spec = ModuleSpec {
        module: "other".to_string(),
        language: Some("rust".to_string()),
        source_path: Some("src/other.rs".to_string()),
        ..Default::default()
    };

    let specs = vec![writer_spec.clone(), other_spec];
    let checker = SpecChecker::new(".".to_string()).with_specs(&specs);

    let result = checker.check(&writer_spec, &dir.lookup(&writer_spec));

    assert!(
        result.warnings.iter().any(|w| w.contains("modifies") && w.contains("COUNTER")),
        "Expected warning about orphan modifies COUNTER but got: {:?}",
        result.warnings
    );
}

#[test]
fn test_check_constraint_results_populated() {
    let mut dir = Dir::new();

    let content = r#"
contract Bridge {
    function deposit(address token, uint256 amount) public {}
}
"#;
    dir.write("Bridge.sol", content);

    let mut exposes = StringMap::new();
    exposes.insert("deposit".to_string(), ExposeSpec::default());
    exposes.insert("missing_fn".to_string(), ExposeSpec::default());

    let spec = ModuleSpec {
        module: "Bridge".to_string(),
        language: Some("solidity".to_string()),
        source_path: Some("Bridge.sol".to_string()),
        exposes,
        ..Default::default()
    };

    let checker = SpecChecker::new(".".to_string());
    let result = checker.check(&spec, &dir.lookup(&spec));

    // Should have at least one constraint result for the missing function
    assert!(
        !result.constraint_results.is_empty(),
        "Expected constraint_results to be populated"
    );
    assert!(
        result.constraint_results.iter().any(|cr| cr.kind == ConstraintKind::Structure),
        "Expected a Structural constraint result"
    );
    assert!(
        result.constraint_results.iter().any(|cr| cr.tier == VerificationTier::Syntactic),
        "Expected a Syntactic tier result"
    );
}

// ── Protocol constraint tests ────────────────────────────────────────

fn make_protocol_spec(protocol: ProtocolSpec) -> ModuleSpec {
    ModuleSpec {
        module: "StateMachine".to_string(),
        language: Some("rust".to_string()),
        source_path: Some("src/sm.rs".to_string()),
        protocol: Some(protocol),
        ..Default::default()
    }
}

fn write_rust_with_fns(dir: &mut Dir, fns: &[&str]) {
    let content: String = fns
        .iter()
        .map(|f| format!("pub fn {}() {{}}\n", f))
        .collect();
    dir.write("src/sm.rs", &content);
}

#[test]
fn test_protocol_valid() {
    let mut dir = Dir::new();
    write_rust_with_fns(&mut dir, &["initialize", "process", "close"]);

    let spec = make_protocol_spec(ProtocolSpec {
        states: vec!["init".into(), "ready".into(), "closed".into()],
        initial: "init".into(),
        terminal: vec!["closed".into()],
        transitions: vec![
            Transition { from: "init".into(), call: "initialize".into(), to: "ready".into() },
            Transition { from: "ready".into(), call: "process".into(), to: "ready".into() },
            Transition { from: "ready".into(), call: "close".into(), to: "closed".into() },
        ],
        balanced_pairs: vec![],
    });

    let checker = SpecChecker::new(".".to_string());
    let result = checker.check(&spec, &dir.lookup(&spec));

    assert!(
        result.is_ok(),
        "Valid protocol should pass but got: {:?}",
        result.errors
    );
    // No warnings about unreachable/dead-end states
    assert!(
        !result.warnings.iter().any(|w| w.contains("unreachable") || w.contains("dead end")),
        "No protocol warnings expected but got: {:?}",
        result.warnings
    );
}

#[test]
fn test_protocol_initial_state_invalid() {
    let mut dir = Dir::new();
    write_rust_with_fns(&mut dir, &["start"]);

    let spec = make_protocol_spec(ProtocolSpec {
        states: vec!["ready".into()],
        initial: "nonexistent".into(),
        terminal: vec![],
        transitions: vec![
            Transition { from: "ready".into(), call: "start".into(), to: "ready".into() },
        ],
        balanced_pairs: vec![],
    });

    let checker = SpecChecker::new(".".to_string());
    let result = checker.check(&spec, &dir.lookup(&spec));

    assert!(
        result.errors.iter().any(|e| e.contains("initial state") && e.contains("nonexistent")),
        "Expected error about invalid initial state but got: {:?}",
        result.errors
    );
}

#[test]
fn test_protocol_unknown_state_in_transition() {
    let mut dir = Dir::new();
    write_rust_with_fns(&mut dir, &["go"]);

    let spec = make_protocol_spec(ProtocolSpec {
        states: vec!["init".into(), "ready".into()],
        initial: "init".into(),
        terminal: vec![],
        transitions: vec![
            Transition { from: "init".into(), call: "go".into(), to: "phantom".into() },
        ],
        balanced_pairs: vec![],
    });

    let checker = SpecChecker::new(".".to_string());
    let result = checker.check(&spec, &dir.lookup(&spec));

    assert!(
        result.errors.iter().any(|e| e.contains("unknown state") && e.contains("phantom")),
        "Expected error about unknown state 'phantom' but got: {:?}",
        result.errors
    );
}

#[test]
fn test_protocol_missing_function() {
    let mut dir = Dir::new();
    write_rust_with_fns(&mut dir, &["initialize"]);

    let spec = make_protocol_spec(ProtocolSpec {
        states: vec!["init".into(), "ready".into()],
        initial: "init".into(),
        terminal: vec![],
        transitions: vec![
            Transition { from: "init".into(), call: "initialize".into(), to: "ready".into() },
            Transition { from: "ready".into(), call: "missing_fn".into(), to: "ready".into() },
        ],
        balanced_pairs: vec![],
    });

    let checker = SpecChecker::new(".".to_string());
    let result = checker.check(&spec, &dir.lookup(&spec));

    assert!(
        result.errors.iter().any(|e| e.contains("missing_fn") && e.contains("not found")),
        "Expected error about missing function but got: {:?}",
        result.errors
    );
}

#[test]
fn test_protocol_unreachable_state() {
    let mut dir = Dir::new();
    write_rust_with_fns(&mut dir, &["go"]);

    let spec = make_protocol_spec(ProtocolSpec {
        states: vec!["init".into(), "ready".into(), "orphan".into()],
        initial: "init".into(),
        terminal: vec![],
        transitions: vec![
            Transition { from: "init".into(), call: "go".into(), to: "ready".into() },
        ],
        balanced_pairs: vec![],
    });

    let checker = SpecChecker::new(".".to_string());
    let result = checker.check(&spec, &dir.lookup(&spec));

    assert!(
        result.warnings.iter().any(|w| w.contains("orphan") && w.contains("unreachable")),
        "Expected warning about unreachable state 'orphan' but got: {:?}",
        result.warnings
    );
}

#[test]
fn test_protocol_dead_end_state() {
    let mut dir = Dir::new();
    write_rust_with_fns(&mut dir, &["go"]);

    let spec = make_protocol_spec(ProtocolSpec {
        states: vec!["init".into(), "stuck".into()],
        initial: "init".into(),
        terminal: vec![], // stuck is NOT terminal
        transitions: vec![
            Transition { from: "init".into(), call: "go".into(), to: "stuck".into() },
        ],
        balanced_pairs: vec![],
    });

    let checker = SpecChecker::new(".".to_string());
    let result = checker.check(&spec, &dir.lookup(&spec));

    assert!(
        result.warnings.iter().any(|w| w.contains("stuck") && w.contains("dead end")),
        "Expected warning about dead-end state 'stuck' but got: {:?}",
        result.warnings
    );
}

#[test]
fn test_protocol_balanced_pairs_valid() {
    let mut dir = Dir::new();
    write_rust_with_fns(&mut dir, &["open", "close", "process"]);

    let spec = make_protocol_spec(ProtocolSpec {
        states: vec!["init".into(), "opened".into(), "closed".into()],
        initial: "init".into(),
        terminal: vec!["closed".into()],
        transitions: vec![
            Transition { from: "init".into(), call: "open".into(), to: "opened".into() },
            Transition { from: "opened".into(), call: "process".into(), to: "opened".into() },
            Transition { from: "opened".into(), call: "close".into(), to: "closed".into() },
        ],
        balanced_pairs: vec![("open".into(), "close".into())],
    });

    let checker = SpecChecker::new(".".to_string());
    let result = checker.check(&spec, &dir.lookup(&spec));

    assert!(
        result.is_ok(),
        "Valid protocol with balanced pairs should pass but got: {:?}",
        result.errors
    );
}

#[test]
fn test_protocol_balanced_pairs_missing_fn() {
    let mut dir = Dir::new();
    write_rust_with_fns(&mut dir, &["acquire"]);

    let spec = make_protocol_spec(ProtocolSpec {
        states: vec!["init".into()],
        initial: "init".into(),
        terminal: vec![],
        transitions: vec![],
        balanced_pairs: vec![("acquire".into(), "release".into())],
    });

    let checker = SpecChecker::new(".".to_string());
    let result = checker.check(&spec, &dir.lookup(&spec));

    assert!(
        result.errors.iter().any(|e| e.contains("release") && e.contains("Balanced pair")),
        "Expected error about missing balanced pair function but got: {:?}",
        result.errors
    );
}

use spec_checker::extractors::flow9_types::{parse_flow9_type, parse_struct_fields};
use spec_checker::extractors::rust::{flatten_use_tree, parse_rust_items};
use spec_checker::extractors::rust_syntax::RsItem;
use spec_checker::extractors::solidity::{
    extract_from_ast_node, extract_from_node, AstNode, AstParameter,
};
use spec_checker::extractors::{
    ExtractedModule, Extractor, Flow9Extractor, RustExtractor, SolidityExtractor, SourceFile,
};
use spec_checker::types::{TypeKind, TypeRepr};

fn source_file(path: &str, content: &str) -> SourceFile {
    SourceFile {
        stem: path.split('.').next().map(|s| s.to_string()),
        path: path.to_string(),
        content: content.to_string(),
        syntax_trees: None,
    }
}

fn ast_node(node_type: &str) -> AstNode {
    AstNode {
        node_type: node_type.to_string(),
        name: None,
        visibility: None,
        kind: None,
        absolute_path: None,
        parameters: None,
        return_parameters: None,
        nodes: None,
    }
}

#[test]
fn test_extract_maybe_module() {
    let content = r#"
import runtime;

export {
    Maybe<?> ::= None, Some<?>;
    None();
    Some(value : ?);

    isNone : (m : Maybe<?>) -> bool;
    isSome : (m : Maybe<?>) -> bool;
    either : (m : Maybe<?>, alternative: ?) -> ?;
}

isNone(m : Maybe<?>) -> bool {
    switch (m : Maybe) {
        None(): true;
        Some(__): false;
    }
}

isSome(m : Maybe<?>) -> bool {
    switch (m : Maybe) {
        None(): false;
        Some(__): true;
    }
}

either(m : Maybe<?>, alternative: ?) -> ? {
    switch (m : Maybe) {
        None(): alternative;
        Some(v): v;
    }
}

helperPrivate(x : int) -> int {
    x + 1;
}
"#;

    let extractor = Flow9Extractor::new();
    let module = extractor.extract(&source_file("maybe.flow", content)).unwrap();

    assert_eq!(module.language, "flow9");

    // Imports
    assert!(module.imports.contains(&"runtime".to_string()));

    // Union type
    let maybe_type = module.type_definitions.get("Maybe").unwrap();
    assert_eq!(maybe_type.kind, TypeKind::Enum);
    assert!(maybe_type.variants.iter().any(|v| v.name == "None"));
    assert!(maybe_type.variants.iter().any(|v| v.name == "Some"));

    // Struct types (union variants)
    assert!(module.type_definitions.contains_key("None"));
    assert!(module.type_definitions.contains_key("Some"));

    // Public functions
    assert!(
        module.public_functions.contains(&"isNone".to_string()),
        "isNone should be public, got: {:?}",
        module.public_functions
    );
    assert!(module.public_functions.contains(&"isSome".to_string()));
    assert!(module.public_functions.contains(&"either".to_string()));

    // Private functions
    assert!(
        module
            .private_functions
            .contains(&"helperPrivate".to_string()),
        "helperPrivate should be private, got: {:?}",
        module.private_functions
    );

    // Function signatures
    let is_none_sig = module.function_signatures.get("isNone").unwrap();
    assert!(is_none_sig.contains("->"), "Signature: {}", is_none_sig);
    assert!(is_none_sig.contains("bool"), "Signature: {}", is_none_sig);
}

#[test]
fn test_parse_flow9_types() {
    assert_eq!(parse_flow9_type("int"), TypeRepr::Named("int".into()));
    assert_eq!(parse_flow9_type("void"), TypeRepr::Unit);
    assert_eq!(parse_flow9_type("?"), TypeRepr::Named("?".into()));
    assert_eq!(parse_flow9_type("??"), TypeRepr::Named("??".into()));

    // Array
    assert_eq!(
        parse_flow9_type("[int]"),
        TypeRepr::Applied(
            Box::new(TypeRepr::Named("Array".into())),
            vec![TypeRepr::Named("int".into())]
        )
    );

    // Parameterized
    assert_eq!(
        parse_flow9_type("Maybe<int>"),
        TypeRepr::Applied(
            Box::new(TypeRepr::Named("Maybe".into())),
            vec![TypeRepr::Named("int".into())]
        )
    );

    // Function type
    let fn_type = parse_flow9_type("(int) -> bool");
    assert!(matches!(fn_type, TypeRepr::FnPointer { .. }));

    // Ref
    assert_eq!(
        parse_flow9_type("ref int"),
        TypeRepr::Applied(
            Box::new(TypeRepr::Named("ref".into())),
            vec![TypeRepr::Named("int".into())]
        )
    );
}

#[test]
fn test_extract_struct_fields() {
    let fields = parse_struct_fields("text : string, style : [[string]]");
    assert_eq!(fields.len(), 2);
    assert_eq!(fields[0].name, "text");
    assert_eq!(fields[0].type_repr, TypeRepr::Named("string".into()));
    assert_eq!(fields[1].name, "style");
}

#[test]
fn test_extract_native_functions() {
    let content = r#"
export {
    println : (?) -> void;
    strlen : (string) -> int;
}

native println : (?) -> void = Native.println;
native strlen : (string) -> int = Native.strlen;
"#;
    let extractor = Flow9Extractor::new();
    let module = extractor.extract(&source_file("maybe.flow", content)).unwrap();

    assert!(module.public_functions.contains(&"println".to_string()));
    assert!(module.public_functions.contains(&"strlen".to_string()));
    assert!(module.function_signatures.contains_key("println"));
}

#[test]
fn test_extract_rust_module() {
    let content = r#"
use std::collections::HashMap;
use alloy::{
    network::EthereumWallet,
    primitives::{Address, Bytes},
    providers::{Provider, ProviderBuilder},
};
use anyhow::Result;

pub struct Bridge {
    deposited: HashMap<String, u64>,
    admin: String,
}

impl Bridge {
    pub fn new(admin: String) -> Self {
        Self {
            deposited: HashMap::new(),
            admin,
        }
    }

    pub async fn deposit(&mut self, token: &str, amount: u64) -> Result<()> {
        Ok(())
    }

    pub fn withdraw(&mut self, token: &str, amount: u64, signature: &[u8]) -> Result<()> {
        self.verify_signature(signature)?;
        self.execute_transfer(token, amount)?;
        Ok(())
    }

    fn verify_signature(&self, signature: &[u8]) -> Result<()> {
        Ok(())
    }

    fn execute_transfer(&mut self, token: &str, amount: u64) -> Result<()> {
        Ok(())
    }
}

#[cfg(test)]
mod tests {
    use super::*;
    use test_utils::mock_stuff;

    #[test]
    fn test_something() {}
}
"#;

    let extractor = RustExtractor::new();
    let module = extractor.extract(&source_file("bridge.rs", content)).unwrap();

    assert_eq!(module.language, "rust");

    // Public functions (qualified with impl type)
    assert!(module.public_functions.contains(&"Bridge.new".to_string()));
    assert!(module.public_functions.contains(&"Bridge.deposit".to_string()));
    assert!(module.public_functions.contains(&"Bridge.withdraw".to_string()));

    // Private functions (qualified with impl type)
    assert!(module
        .private_functions
        .contains(&"Bridge.verify_signature".to_string()));
    assert!(module
        .private_functions
        .contains(&"Bridge.execute_transfer".to_string()));

    // Imports - now extracts root crates from nested imports
    assert!(module.imports.contains(&"alloy".to_string()));
    assert!(module.imports.contains(&"anyhow".to_string()));
    // std is filtered out
    assert!(!module.imports.iter().any(|i| i.starts_with("std")));

    // Test imports should be filtered out
    assert!(!module.imports.contains(&"test_utils".to_string()));

    // Check return type extraction (qualified names)
    let new_sig = module.function_signatures.get("Bridge.new").unwrap();
    assert!(
        new_sig.contains("-> Self"),
        "Expected '-> Self' in signature but got: {}",
        new_sig
    );

    let deposit_sig = module.function_signatures.get("Bridge.deposit").unwrap();
    assert!(
        deposit_sig.contains("-> Result"),
        "Expected '-> Result' in signature but got: {}",
        deposit_sig
    );

    // Structs
    assert!(module.state_variables.contains(&"Bridge".to_string()));
}

#[test]
fn test_flatten_use_tree() {
    // Test nested use parsing
    let content = r#"
use alloy::{
    primitives::{Address, Bytes},
    providers::Provider,
};
"#;
    let items = parse_rust_items(content).unwrap();

    if let RsItem::Use(tree) = &items[0] {
        let paths = flatten_use_tree("", tree);
        assert!(paths.contains(&"alloy::primitives::Address".to_string()));
        assert!(paths.contains(&"alloy::primitives::Bytes".to_string()));
        assert!(paths.contains(&"alloy::providers::Provider".to_string()));
    } else {
        panic!("Expected use item");
    }
}

#[test]
fn test_extract_solidity_contract_regex() {
    let content = r#"
// SPDX-License-Identifier: MIT
pragma solidity ^0.8.0;

import "@openzeppelin/contracts/token/ERC20/IERC20.sol";
import "./TokenRegistry.sol";

contract Bridge {
    mapping(address => uint256) public deposited;
    address private admin;

    event Deposited(address indexed token, uint256 amount);
    event Withdrawn(address indexed token, uint256 amount);

    modifier onlyAdmin() {
        require(msg.sender == admin, "Not admin");
        _;
    }

    function deposit(address token, uint256 amount) public {
        // deposit logic
    }

    function withdraw(address token, uint256 amount, bytes memory signature) external {
        // withdraw logic
    }

    function _verifySignature(bytes memory signature) internal pure returns (bool) {
        return true;
    }

    function _executeTransfer(address token, uint256 amount) private {
        // transfer logic
    }
}
"#;

    let extractor = SolidityExtractor::new();
    let module = extractor.extract(&source_file("bridge.sol", content)).unwrap();

    assert_eq!(module.name, "Bridge");
    assert_eq!(module.language, "solidity");

    assert!(module.public_functions.contains(&"deposit".to_string()));
    assert!(module.public_functions.contains(&"withdraw".to_string()));

    assert!(module
        .private_functions
        .contains(&"_verifySignature".to_string()));
    assert!(module
        .private_functions
        .contains(&"_executeTransfer".to_string()));

    assert!(module.imports.iter().any(|i| i.contains("IERC20")));
    assert!(module.imports.iter().any(|i| i.contains("TokenRegistry")));

    assert!(module.events.contains(&"Deposited".to_string()));
    assert!(module.events.contains(&"Withdrawn".to_string()));

    assert!(module.modifiers.contains(&"onlyAdmin".to_string()));
}

#[test]
fn test_parse_ast_json() {
    // A syntax tree of solc with return types
    let ast = AstNode {
        nodes: Some(vec![AstNode {
            name: Some("TestContract".to_string()),
            nodes: Some(vec![
                AstNode {
                    name: Some("publicFunc".to_string()),
                    visibility: Some("public".to_string()),
                    kind: Some("function".to_string()),
                    parameters: Some(vec![AstParameter {
                        name: "amount".to_string(),
                        type_string: Some("uint256".to_string()),
                    }]),
                    return_parameters: Some(vec![AstParameter {
                        name: "".to_string(),
                        type_string: Some("bool".to_string()),
                    }]),
                    ..ast_node("FunctionDefinition")
                },
                AstNode {
                    name: Some("privateFunc".to_string()),
                    visibility: Some("private".to_string()),
                    kind: Some("function".to_string()),
                    parameters: Some(vec![]),
                    ..ast_node("FunctionDefinition")
                },
                AstNode {
                    name: Some("Transfer".to_string()),
                    ..ast_node("EventDefinition")
                },
            ]),
            ..ast_node("ContractDefinition")
        }]),
        ..ast_node("SourceUnit")
    };

    let mut module = ExtractedModule {
        language: "solidity".to_string(),
        ..Default::default()
    };

    extract_from_node(&ast, &mut module);

    assert_eq!(module.name, "TestContract");
    assert!(module.public_functions.contains(&"publicFunc".to_string()));
    assert!(module
        .private_functions
        .contains(&"privateFunc".to_string()));
    assert!(module.events.contains(&"Transfer".to_string()));

    // Check signature extraction with return type
    let sig = module.function_signatures.get("publicFunc").unwrap();
    assert!(
        sig.contains("(uint256 amount)"),
        "Expected params in signature but got: {}",
        sig
    );
    assert!(
        sig.contains("-> bool"),
        "Expected '-> bool' return type in signature but got: {}",
        sig
    );
}

#[test]
fn single_units_are_extracted() {
    let event = AstNode { name: Some("Paid".to_string()), ..ast_node("EventDefinition") };
    let unit = AstNode { nodes: Some(vec![event]), ..ast_node("SourceUnit") };
    let module = extract_from_ast_node(&unit, Some("pay"), "src/pay.sol");
    assert_eq!(module.name, "pay");
    assert_eq!(module.source_path, Some("src/pay.sol".to_string()));
    assert_eq!(module.events, vec!["Paid"]);
}

#[test]
fn arrows_are_no_brackets() {
    let inner = TypeRepr::FnPointer {
        params: vec![TypeRepr::Named("int".into())],
        ret: Box::new(TypeRepr::Named("bool".into())),
    };
    assert_eq!(
        parse_flow9_type("((int) -> bool, int) -> bool"),
        TypeRepr::FnPointer {
            params: vec![inner, TypeRepr::Named("int".into())],
            ret: Box::new(TypeRepr::Named("bool".into())),
        }
    );
}

#[test]
fn flow9_names_are_listed_once() {
    let content = "import a; import a;\nexport { f : (int) -> int; limit : int; f(x) { x } }\n\
                   f(x : int) -> int { g(x) }\ng(x) { x }\ng(y) { y }\nlimit = 5;\n";
    let m = Flow9Extractor::new().extract(&source_file("names.flow", content)).unwrap();
    assert_eq!(m.imports, vec!["a"]);
    assert_eq!(m.public_functions, vec!["f"]);
    assert_eq!(m.private_functions, vec!["g"]);
    assert_eq!(m.state_variables, vec!["limit"]);
}

#[test]
fn constants_and_statics_are_state() {
    let content = r#"
pub static LIMIT: u32 = 1;
const NAME: &str = "x";
const _: () = { struct Hidden; };
static TABLE: [fn(u8) -> u8; 1] = [if true { fn one(x: u8) -> u8 { x } one } else { panic!() }];
#[cfg(test)]
mod tests { const INNER: u8 = 1; }
"#;
    let m = RustExtractor::new().extract(&source_file("state.rs", content)).unwrap();
    assert_eq!(m.state_variables, vec!["LIMIT", "NAME", "Hidden", "TABLE"]);
    assert_eq!(m.private_functions, vec!["one"]);
}

#[test]
fn items_are_found_anywhere_in_a_value() {
    let content = r#"
const A: u8 = { let x = { fn a() {} 1 }; x };
const B: u8 = match 1 { n if { fn b() {} n > 0 } => { fn c() {} 1 } _ => 2 };
const C: u8 = call((|| { fn d() {} 1 })(), [{ fn e() {} 1 }][0], -{ fn g() {} 1 } as u8);
const D: S = S { x: unsafe { fn h() {} 1 }, ..{ fn i() {} T } };
const E: u8 = loop { fn j() {} break { fn k() {} 1 }; };
const F: u8 = { while { fn l() {} false } { fn m() {} } for _ in { fn n() {} 0..1 } { fn o() {} } 1 };
"#;
    let m = RustExtractor::new().extract(&source_file("deep.rs", content)).unwrap();
    assert_eq!(
        m.private_functions,
        vec!["a", "b", "c", "d", "e", "g", "h", "i", "j", "k", "l", "m", "n", "o"]
    );
    assert_eq!(m.state_variables, vec!["A", "B", "C", "D", "E", "F"]);
}

#[test]
fn items_are_found_in_types_and_patterns() {
    let content = r#"
const A: [u8; { fn a() {} 1 }] = [1];
union U { x: [u8; { fn b() {} 1 }] }
extern "C" { fn f(x: [u8; { fn c() {} 1 }]); }
const B: u8 = match 1 { x @ 0..=9 if { fn d() {} true } => g::<{ fn e() {} 1 }>(x), _ => 2 };
"#;
    let m = RustExtractor::new().extract(&source_file("types.rs", content)).unwrap();
    assert_eq!(m.private_functions, vec!["a", "b", "c", "d", "e"]);
    assert_eq!(m.state_variables, vec!["A", "B"]);
}

#[test]
fn impl_blocks_may_stand_before_their_types() {
    let content = "impl Early for T {}\nmod m { impl Inner for super::T {} }\npub struct T;\n\
                   impl Late for T {}\nimpl Early for T {}\nimpl Other for Unknown {}\n";
    let m = RustExtractor::new().extract(&source_file("order.rs", content)).unwrap();
    let t = m.type_definitions.get("T").unwrap();
    let mut traits: Vec<&str> = t.trait_impls.iter().map(|s| s.as_str()).collect();
    traits.sort();
    assert_eq!(traits, vec!["Early", "Inner", "Late"]);
}

#[test]
fn escaped_backslashes_end_no_escape() {
    let content = "f() { s = \"a\\\\\"; g(\"}\\\"}\"); }\nh(x) { x }\n";
    let m = Flow9Extractor::new().extract(&source_file("quotes.flow", content)).unwrap();
    assert_eq!(m.private_functions, vec!["f", "h"]);
}

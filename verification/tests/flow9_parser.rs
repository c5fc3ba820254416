use spec_checker::extractors::flow9_ast::{Decl, Flow9Type};
use spec_checker::flow9_parser::parse_flow9_source;

#[test]
fn test_parse_import() {
    let src = "import runtime;";
    let module = parse_flow9_source(src).unwrap();
    assert_eq!(module.imports, vec!["runtime"]);
}

#[test]
fn test_parse_nested_import() {
    let src = "import ds/array;";
    let module = parse_flow9_source(src).unwrap();
    assert_eq!(module.imports, vec!["ds/array"]);
}

#[test]
fn test_parse_forbid() {
    let src = "forbid ds/array;";
    let module = parse_flow9_source(src).unwrap();
    assert_eq!(module.forbids, vec!["ds/array"]);
}

#[test]
fn test_parse_union() {
    let src = "Maybe<?> ::= None, Some<?>;";
    let module = parse_flow9_source(src).unwrap();
    assert_eq!(module.declarations.len(), 1);
    match &module.declarations[0] {
        Decl::Union {
            name,
            type_params,
            variants,
        } => {
            assert_eq!(name, "Maybe");
            assert_eq!(type_params, &vec!["?".to_string()]);
            assert_eq!(variants.len(), 2);
            assert_eq!(variants[0].name, "None");
            assert_eq!(variants[1].name, "Some");
        }
        other => panic!("Expected Union, got {:?}", other),
    }
}

#[test]
fn test_parse_native() {
    let src = "native println : io (?) -> void = Native.println;";
    let module = parse_flow9_source(src).unwrap();
    match &module.declarations[0] {
        Decl::Native {
            name,
            io,
            binding,
            ..
        } => {
            assert_eq!(name, "println");
            assert!(*io);
            assert_eq!(binding, "Native.println");
        }
        other => panic!("Expected Native, got {:?}", other),
    }
}

#[test]
fn test_parse_function_with_brace_body() {
    let src = "isNone(m : Maybe<?>) -> bool { switch (m : Maybe) { None(): true; Some(__): false; } }";
    let module = parse_flow9_source(src).unwrap();
    match &module.declarations[0] {
        Decl::Function {
            name,
            args,
            return_type,
            body,
            ..
        } => {
            assert_eq!(name, "isNone");
            assert_eq!(args.len(), 1);
            assert_eq!(args[0].name, "m");
            assert!(return_type.is_some());
            assert!(body.is_some());
        }
        other => panic!("Expected Function, got {:?}", other),
    }
}

#[test]
fn test_parse_function_decl() {
    let src = "isNone : (m : Maybe<?>) -> bool;";
    let module = parse_flow9_source(src).unwrap();
    match &module.declarations[0] {
        Decl::FunctionDecl {
            name,
            arg_types,
            return_type,
            ..
        } => {
            assert_eq!(name, "isNone");
            assert_eq!(arg_types.len(), 1);
            assert_eq!(arg_types[0].name.as_deref(), Some("m"));
            assert_eq!(*return_type, Flow9Type::Bool);
        }
        other => panic!("Expected FunctionDecl, got {:?}", other),
    }
}

#[test]
fn test_parse_struct_decl() {
    let src = "Some : (value : ?);";
    let module = parse_flow9_source(src).unwrap();
    match &module.declarations[0] {
        Decl::StructDecl { name, fields, .. } => {
            assert_eq!(name, "Some");
            assert_eq!(fields.len(), 1);
            assert_eq!(fields[0].name, "value");
        }
        other => panic!("Expected StructDecl, got {:?}", other),
    }
}

#[test]
fn test_parse_export_block() {
    let src = r#"
export {
    Maybe<?> ::= None, Some<?>;
    isNone : (m : Maybe<?>) -> bool;
}
"#;
    let module = parse_flow9_source(src).unwrap();
    assert!(module.exports.contains(&"Maybe".to_string()));
    assert!(module.exports.contains(&"isNone".to_string()));
}

#[test]
fn test_parse_assign() {
    let src = "emptyList = [];";
    let module = parse_flow9_source(src).unwrap();
    match &module.declarations[0] {
        Decl::Assign { name, body, .. } => {
            assert_eq!(name, "emptyList");
            assert_eq!(body, "[]");
        }
        other => panic!("Expected Assign, got {:?}", other),
    }
}

#[test]
fn test_parse_types() {
    let src = "f : (int, string) -> bool;";
    let module = parse_flow9_source(src).unwrap();
    match &module.declarations[0] {
        Decl::FunctionDecl {
            arg_types,
            return_type,
            ..
        } => {
            assert_eq!(arg_types.len(), 2);
            assert_eq!(arg_types[0].type_, Flow9Type::Int);
            assert_eq!(arg_types[1].type_, Flow9Type::Str);
            assert_eq!(*return_type, Flow9Type::Bool);
        }
        other => panic!("Expected FunctionDecl, got {:?}", other),
    }
}

#[test]
fn test_parse_array_type() {
    let src = "f : ([int]) -> [string];";
    let module = parse_flow9_source(src).unwrap();
    match &module.declarations[0] {
        Decl::FunctionDecl {
            arg_types,
            return_type,
            ..
        } => {
            assert_eq!(
                arg_types[0].type_,
                Flow9Type::Array(Box::new(Flow9Type::Int))
            );
            assert_eq!(
                *return_type,
                Flow9Type::Array(Box::new(Flow9Type::Str))
            );
        }
        other => panic!("Expected FunctionDecl, got {:?}", other),
    }
}

#[test]
fn test_parse_fn_type() {
    let src = "apply : ((int) -> bool, int) -> bool;";
    let module = parse_flow9_source(src).unwrap();
    match &module.declarations[0] {
        Decl::FunctionDecl { arg_types, .. } => {
            assert_eq!(arg_types.len(), 2);
            match &arg_types[0].type_ {
                Flow9Type::FnType(params, ret) => {
                    assert_eq!(params.len(), 1);
                    assert_eq!(params[0], Flow9Type::Int);
                    assert_eq!(**ret, Flow9Type::Bool);
                }
                other => panic!("Expected FnType, got {:?}", other),
            }
        }
        other => panic!("Expected FunctionDecl, got {:?}", other),
    }
}

#[test]
fn test_parse_full_module() {
    let src = r#"
import runtime;

export {
    Maybe<?> ::= None, Some<?>;
    None();
    Some(value : ?);

    isNone : (m : Maybe<?>) -> bool;
    isSome : (m : Maybe<?>) -> bool;
    either : (m : Maybe<?>, alternative: ?) -> ?;
}

isNone(m : Maybe<?>) -> bool {
    switch (m : Maybe) {
        None(): true;
        Some(__): false;
    }
}

isSome(m : Maybe<?>) -> bool {
    switch (m : Maybe) {
        None(): false;
        Some(__): true;
    }
}

either(m : Maybe<?>, alternative: ?) -> ? {
    switch (m : Maybe) {
        None(): alternative;
        Some(v): v;
    }
}

helperPrivate(x : int) -> int {
    x + 1;
}
"#;
    let module = parse_flow9_source(src).unwrap();
    assert_eq!(module.imports, vec!["runtime"]);
    assert!(module.exports.contains(&"Maybe".to_string()));
    assert!(module.exports.contains(&"None".to_string()));
    assert!(module.exports.contains(&"Some".to_string()));
    assert!(module.exports.contains(&"isNone".to_string()));
    assert!(module.exports.contains(&"isSome".to_string()));
    assert!(module.exports.contains(&"either".to_string()));

    // Should have declarations for:
    // import, union, struct None, struct Some,
    // functiondecl isNone, functiondecl isSome, functiondecl either,
    // function isNone, function isSome, function either, function helperPrivate
    let func_count = module
        .declarations
        .iter()
        .filter(|d| matches!(d, Decl::Function { .. }))
        .count();
    assert!(func_count >= 4, "Expected at least 4 functions, got {}", func_count);
}

#[test]
fn test_parse_vardecl() {
    let src = "x : int;";
    let module = parse_flow9_source(src).unwrap();
    match &module.declarations[0] {
        Decl::VarDecl {
            name,
            type_annotation,
            has_init,
            ..
        } => {
            assert_eq!(name, "x");
            assert_eq!(*type_annotation, Flow9Type::Int);
            assert!(!has_init);
        }
        other => panic!("Expected VarDecl, got {:?}", other),
    }
}

#[test]
fn test_parse_vardecl_with_init() {
    let src = "x : int = 42;";
    let module = parse_flow9_source(src).unwrap();
    match &module.declarations[0] {
        Decl::VarDecl {
            name, has_init, ..
        } => {
            assert_eq!(name, "x");
            assert!(has_init);
        }
        other => panic!("Expected VarDecl, got {:?}", other),
    }
}

#[test]
fn test_parse_parameterized_type() {
    let src = "f : (Tree<int>) -> [Tree<string>];";
    let module = parse_flow9_source(src).unwrap();
    match &module.declarations[0] {
        Decl::FunctionDecl {
            arg_types,
            return_type,
            ..
        } => {
            match &arg_types[0].type_ {
                Flow9Type::Parameterized(name, params) => {
                    assert_eq!(name, "Tree");
                    assert_eq!(params[0], Flow9Type::Int);
                }
                other => panic!("Expected Parameterized, got {:?}", other),
            }
            match return_type {
                Flow9Type::Array(inner) => match inner.as_ref() {
                    Flow9Type::Parameterized(name, _) => assert_eq!(name, "Tree"),
                    other => panic!("Expected Parameterized, got {:?}", other),
                },
                other => panic!("Expected Array, got {:?}", other),
            }
        }
        other => panic!("Expected FunctionDecl, got {:?}", other),
    }
}

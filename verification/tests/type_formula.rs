use spec_checker::data::StringMap;
use spec_checker::type_formula::{
    evaluate_formula, parse_formula, parse_type_repr_from_str, Formula, ParamRef, Predicate,
    TypeEvalContext, TypeExpr,
};
use spec_checker::types::{
    FieldInfo, FunctionInfo, ParamInfo, TypeInfo, TypeKind, TypeRepr, Visibility,
};

// ── Parser tests ──────────────────────────────────────────────────────────

#[test]
fn parse_simple_unary_predicate() {
    let f = parse_formula("cloneable").unwrap();
    assert_eq!(f, Formula::Pred(Predicate::Cloneable(TypeExpr::Self_)));
}

#[test]
fn parse_unary_predicate_with_arg() {
    let f = parse_formula("fallible(return)").unwrap();
    assert_eq!(f, Formula::Pred(Predicate::Fallible(TypeExpr::Return)));
}

#[test]
fn parse_equals() {
    let f = parse_formula("equals(con(return), Result)").unwrap();
    assert_eq!(
        f,
        Formula::Pred(Predicate::Equals(
            TypeExpr::Con(Box::new(TypeExpr::Return)),
            TypeExpr::Literal(TypeRepr::Named("Result".into())),
        ))
    );
}

#[test]
fn parse_has_field() {
    let f = parse_formula("has_field(Self, errors)").unwrap();
    assert_eq!(
        f,
        Formula::Pred(Predicate::HasField(TypeExpr::Self_, "errors".into()))
    );
}

#[test]
fn parse_and_or() {
    let f = parse_formula("cloneable and serializable").unwrap();
    assert_eq!(
        f,
        Formula::And(vec![
            Formula::Pred(Predicate::Cloneable(TypeExpr::Self_)),
            Formula::Pred(Predicate::Serializable(TypeExpr::Self_)),
        ])
    );
}

#[test]
fn parse_not() {
    let f = parse_formula("not fallible(return)").unwrap();
    assert_eq!(
        f,
        Formula::Not(Box::new(Formula::Pred(Predicate::Fallible(TypeExpr::Return))))
    );
}

#[test]
fn parse_nested_type_expr() {
    let f = parse_formula("equals(arg(return, 0), String)").unwrap();
    assert_eq!(
        f,
        Formula::Pred(Predicate::Equals(
            TypeExpr::Arg(Box::new(TypeExpr::Return), 0),
            TypeExpr::Literal(TypeRepr::Named("String".into())),
        ))
    );
}

#[test]
fn parse_type_literal_with_generics() {
    let f = parse_formula("equals(return, Result<String, Error>)").unwrap();
    let expected_type = TypeRepr::Applied(
        Box::new(TypeRepr::Named("Result".into())),
        vec![TypeRepr::Named("String".into()), TypeRepr::Named("Error".into())],
    );
    assert_eq!(
        f,
        Formula::Pred(Predicate::Equals(
            TypeExpr::Return,
            TypeExpr::Literal(expected_type),
        ))
    );
}

#[test]
fn parse_implies() {
    let f = parse_formula("implies(is_sum(Self), has_variant(Self, None))").unwrap();
    assert_eq!(
        f,
        Formula::Implies(
            Box::new(Formula::Pred(Predicate::IsSum(TypeExpr::Self_))),
            Box::new(Formula::Pred(Predicate::HasVariant(
                TypeExpr::Self_,
                "None".into()
            ))),
        )
    );
}

#[test]
fn parse_param_by_name() {
    let f = parse_formula("equals(param(token), String)").unwrap();
    assert_eq!(
        f,
        Formula::Pred(Predicate::Equals(
            TypeExpr::Param(ParamRef::Name("token".into())),
            TypeExpr::Literal(TypeRepr::Named("String".into())),
        ))
    );
}

#[test]
fn parse_matches_pattern() {
    let f = parse_formula("matches(return, \"Result<_, _>\")").unwrap();
    assert_eq!(
        f,
        Formula::Pred(Predicate::Matches(
            TypeExpr::Return,
            "Result<_, _>".into(),
        ))
    );
}

#[test]
fn parse_error_unknown_predicate() {
    assert!(parse_formula("foobar(Self)").is_err());
}

#[test]
fn parse_error_unterminated_string() {
    assert!(parse_formula("matches(return, \"hello)").is_err());
}

// ── Type repr parsing tests ───────────────────────────────────────────────

#[test]
fn parse_type_repr_named() {
    assert_eq!(
        parse_type_repr_from_str("u32").unwrap(),
        TypeRepr::Named("u32".into())
    );
}

#[test]
fn parse_type_repr_applied() {
    assert_eq!(
        parse_type_repr_from_str("Vec<String>").unwrap(),
        TypeRepr::Applied(
            Box::new(TypeRepr::Named("Vec".into())),
            vec![TypeRepr::Named("String".into())]
        )
    );
}

#[test]
fn parse_type_repr_nested() {
    let t = parse_type_repr_from_str("Result<Vec<u8>, Error>").unwrap();
    assert_eq!(
        t,
        TypeRepr::Applied(
            Box::new(TypeRepr::Named("Result".into())),
            vec![
                TypeRepr::Applied(
                    Box::new(TypeRepr::Named("Vec".into())),
                    vec![TypeRepr::Named("u8".into())]
                ),
                TypeRepr::Named("Error".into()),
            ]
        )
    );
}

#[test]
fn parse_type_repr_reference() {
    assert_eq!(
        parse_type_repr_from_str("&str").unwrap(),
        TypeRepr::Reference {
            mutable: false,
            inner: Box::new(TypeRepr::Named("str".into())),
        }
    );
    assert_eq!(
        parse_type_repr_from_str("&mut Self").unwrap(),
        TypeRepr::Reference {
            mutable: true,
            inner: Box::new(TypeRepr::Named("Self".into())),
        }
    );
}

#[test]
fn parse_type_repr_slice_and_array() {
    assert_eq!(
        parse_type_repr_from_str("[u8]").unwrap(),
        TypeRepr::Slice(Box::new(TypeRepr::Named("u8".into())))
    );
    assert_eq!(
        parse_type_repr_from_str("[u8; 32]").unwrap(),
        TypeRepr::Array(Box::new(TypeRepr::Named("u8".into())), 32)
    );
}

#[test]
fn parse_type_repr_fn_pointer() {
    assert_eq!(
        parse_type_repr_from_str("fn(u32) -> bool").unwrap(),
        TypeRepr::FnPointer {
            params: vec![TypeRepr::Named("u32".into())],
            ret: Box::new(TypeRepr::Named("bool".into())),
        }
    );
}

#[test]
fn parse_type_repr_unit() {
    assert_eq!(parse_type_repr_from_str("()").unwrap(), TypeRepr::Unit);
}

#[test]
fn parse_type_repr_tuple() {
    assert_eq!(
        parse_type_repr_from_str("(u32, String)").unwrap(),
        TypeRepr::Tuple(vec![
            TypeRepr::Named("u32".into()),
            TypeRepr::Named("String".into()),
        ])
    );
}

// ── Evaluator tests ───────────────────────────────────────────────────────

fn make_test_type() -> TypeInfo {
    TypeInfo {
        name: "Checker".into(),
        kind: TypeKind::Struct,
        generics: vec![],
        fields: vec![
            FieldInfo {
                name: "errors".into(),
                type_repr: TypeRepr::Applied(
                    Box::new(TypeRepr::Named("Vec".into())),
                    vec![TypeRepr::Named("String".into())],
                ),
                visibility: Visibility::Public,
            },
            FieldInfo {
                name: "warnings".into(),
                type_repr: TypeRepr::Applied(
                    Box::new(TypeRepr::Named("Vec".into())),
                    vec![TypeRepr::Named("String".into())],
                ),
                visibility: Visibility::Public,
            },
        ],
        variants: vec![],
        trait_impls: vec!["Debug".into()],
        derives: vec!["Clone".into(), "Debug".into()],
    }
}

fn definitions(ti: &TypeInfo) -> StringMap<TypeInfo> {
    let mut map = StringMap::new();
    map.insert("Checker".into(), ti.clone());
    map
}

fn make_test_function() -> FunctionInfo {
    FunctionInfo {
        name: "check".into(),
        params: vec![
            ParamInfo {
                name: Some("self".into()),
                type_repr: TypeRepr::Reference {
                    mutable: false,
                    inner: Box::new(TypeRepr::Named("Self".into())),
                },
                is_receiver: true,
            },
            ParamInfo {
                name: Some("spec".into()),
                type_repr: TypeRepr::Reference {
                    mutable: false,
                    inner: Box::new(TypeRepr::Named("ModuleSpec".into())),
                },
                is_receiver: false,
            },
        ],
        return_type: Some(TypeRepr::Applied(
            Box::new(TypeRepr::Named("Result".into())),
            vec![TypeRepr::Named("CheckResult".into())],
        )),
        generics: vec![],
    }
}

fn make_test_context<'a>(
    type_info: Option<&'a TypeInfo>,
    func_info: Option<&'a FunctionInfo>,
    type_defs: &'a StringMap<TypeInfo>,
    function_defs: &'a StringMap<FunctionInfo>,
) -> TypeEvalContext<'a> {
    TypeEvalContext {
        self_type: type_info,
        function: func_info,
        type_defs,
        function_defs,
    }
}

#[test]
fn eval_has_field() {
    let ti = make_test_type();
    let type_defs = definitions(&ti);
    let function_defs = StringMap::new();
    let ctx = make_test_context(Some(&ti), None, &type_defs, &function_defs);

    let f = parse_formula("has_field(Self, errors)").unwrap();
    assert!(evaluate_formula(&f, &ctx).unwrap());

    let f = parse_formula("has_field(Self, nonexistent)").unwrap();
    assert!(!evaluate_formula(&f, &ctx).unwrap());
}

#[test]
fn eval_cloneable() {
    let ti = make_test_type();
    let type_defs = definitions(&ti);
    let function_defs = StringMap::new();
    let ctx = make_test_context(Some(&ti), None, &type_defs, &function_defs);

    let f = parse_formula("cloneable").unwrap();
    assert!(evaluate_formula(&f, &ctx).unwrap());

    let f = parse_formula("serializable").unwrap();
    assert!(!evaluate_formula(&f, &ctx).unwrap());
}

#[test]
fn eval_equals_con_return() {
    let ti = make_test_type();
    let fi = make_test_function();
    let type_defs = definitions(&ti);
    let function_defs = StringMap::new();
    let ctx = make_test_context(Some(&ti), Some(&fi), &type_defs, &function_defs);

    let f = parse_formula("equals(con(return), Result)").unwrap();
    assert!(evaluate_formula(&f, &ctx).unwrap());

    let f = parse_formula("equals(con(return), Vec)").unwrap();
    assert!(!evaluate_formula(&f, &ctx).unwrap());
}

#[test]
fn eval_arg_return() {
    let ti = make_test_type();
    let fi = make_test_function();
    let type_defs = definitions(&ti);
    let function_defs = StringMap::new();
    let ctx = make_test_context(Some(&ti), Some(&fi), &type_defs, &function_defs);

    let f = parse_formula("equals(arg(return, 0), CheckResult)").unwrap();
    assert!(evaluate_formula(&f, &ctx).unwrap());
}

#[test]
fn eval_fallible_return() {
    let ti = make_test_type();
    let fi = make_test_function();
    let type_defs = definitions(&ti);
    let function_defs = StringMap::new();
    let ctx = make_test_context(Some(&ti), Some(&fi), &type_defs, &function_defs);

    let f = parse_formula("fallible(return)").unwrap();
    assert!(evaluate_formula(&f, &ctx).unwrap());
}

#[test]
fn eval_field_type() {
    let ti = make_test_type();
    let type_defs = definitions(&ti);
    let function_defs = StringMap::new();
    let ctx = make_test_context(Some(&ti), None, &type_defs, &function_defs);

    let f = parse_formula("equals(con(field(errors)), Vec)").unwrap();
    assert!(evaluate_formula(&f, &ctx).unwrap());
}

#[test]
fn eval_and_or() {
    let ti = make_test_type();
    let type_defs = definitions(&ti);
    let function_defs = StringMap::new();
    let ctx = make_test_context(Some(&ti), None, &type_defs, &function_defs);

    let f = parse_formula("cloneable and has_field(Self, errors)").unwrap();
    assert!(evaluate_formula(&f, &ctx).unwrap());

    let f = parse_formula("serializable or cloneable").unwrap();
    assert!(evaluate_formula(&f, &ctx).unwrap());

    let f = parse_formula("serializable and cloneable").unwrap();
    assert!(!evaluate_formula(&f, &ctx).unwrap());
}

#[test]
fn eval_not() {
    let ti = make_test_type();
    let type_defs = definitions(&ti);
    let function_defs = StringMap::new();
    let ctx = make_test_context(Some(&ti), None, &type_defs, &function_defs);

    let f = parse_formula("not serializable").unwrap();
    assert!(evaluate_formula(&f, &ctx).unwrap());
}

#[test]
fn eval_is_sum_is_product() {
    let ti = make_test_type(); // Struct
    let type_defs = definitions(&ti);
    let function_defs = StringMap::new();
    let ctx = make_test_context(Some(&ti), None, &type_defs, &function_defs);

    let f = parse_formula("is_product(Self)").unwrap();
    assert!(evaluate_formula(&f, &ctx).unwrap());

    let f = parse_formula("is_sum(Self)").unwrap();
    assert!(!evaluate_formula(&f, &ctx).unwrap());
}

#[test]
fn eval_param_by_name() {
    let ti = make_test_type();
    let fi = make_test_function();
    let type_defs = definitions(&ti);
    let function_defs = StringMap::new();
    let ctx = make_test_context(Some(&ti), Some(&fi), &type_defs, &function_defs);

    // equals strips references: param(spec) is &ModuleSpec, matches ModuleSpec
    let f = parse_formula("equals(param(spec), ModuleSpec)").unwrap();
    assert!(evaluate_formula(&f, &ctx).unwrap());

    // Also still works with explicit reference
    let f = parse_formula("equals(param(spec), &ModuleSpec)").unwrap();
    assert!(evaluate_formula(&f, &ctx).unwrap());
}

#[test]
fn function_pointers_are_split_from_what_follows() {
    let pointer = TypeRepr::FnPointer {
        params: vec![TypeRepr::Named("u32".into())],
        ret: Box::new(TypeRepr::Named("bool".into())),
    };
    assert_eq!(
        parse_type_repr_from_str("(fn(u32) -> bool, u8)"),
        Ok(TypeRepr::Tuple(vec![pointer, TypeRepr::Named("u8".into())]))
    );
}

#[test]
fn written_types_are_read_back() {
    for written in [
        "()",
        "_",
        "std::vec::Vec<u8>",
        "HashMap<String, Vec<(u8, &mut [T])>>",
        "[[u8; 4]; 18]",
        "&fn(fn() -> (), &str) -> Result<fn(u8) -> [bool], E>",
        "Empty<>",
    ] {
        assert_eq!(parse_type_repr_from_str(written).unwrap().to_string(), written);
    }
}

#[test]
fn bare_predicates_are_read_as_about_self() {
    for p in [
        "is_sum",
        "is_product",
        "is_function",
        "cloneable",
        "serializable",
        "send",
        "sync",
        "fallible",
        "no_unsafe",
    ] {
        let bare = parse_formula(p).unwrap();
        assert!(matches!(bare, Formula::Pred(_)));
        assert_eq!(parse_formula(&format!("{}(Self)", p)), parse_formula(p));
        assert_eq!(parse_formula(&format!("({})", p)), parse_formula(p));
        assert!(parse_formula(&format!("{} {}", p, p)).is_err());
    }
}

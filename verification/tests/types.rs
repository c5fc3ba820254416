use spec_checker::types::TypeRepr;

#[test]
fn display_named() {
    assert_eq!(TypeRepr::Named("u32".into()).to_string(), "u32");
}

#[test]
fn display_applied() {
    let t = TypeRepr::Applied(
        Box::new(TypeRepr::Named("Vec".into())),
        vec![TypeRepr::Named("String".into())],
    );
    assert_eq!(t.to_string(), "Vec<String>");
}

#[test]
fn display_nested_applied() {
    let inner = TypeRepr::Applied(
        Box::new(TypeRepr::Named("Vec".into())),
        vec![TypeRepr::Named("String".into())],
    );
    let t = TypeRepr::Applied(
        Box::new(TypeRepr::Named("Result".into())),
        vec![inner, TypeRepr::Named("Error".into())],
    );
    assert_eq!(t.to_string(), "Result<Vec<String>, Error>");
}

#[test]
fn display_reference() {
    let t = TypeRepr::Reference {
        mutable: false,
        inner: Box::new(TypeRepr::Named("str".into())),
    };
    assert_eq!(t.to_string(), "&str");

    let t = TypeRepr::Reference {
        mutable: true,
        inner: Box::new(TypeRepr::Named("Self".into())),
    };
    assert_eq!(t.to_string(), "&mut Self");
}

#[test]
fn display_fn_pointer() {
    let t = TypeRepr::FnPointer {
        params: vec![TypeRepr::Named("u32".into()), TypeRepr::Named("u32".into())],
        ret: Box::new(TypeRepr::Named("bool".into())),
    };
    assert_eq!(t.to_string(), "fn(u32, u32) -> bool");
}

#[test]
fn display_tuple() {
    let t = TypeRepr::Tuple(vec![
        TypeRepr::Named("u32".into()),
        TypeRepr::Named("String".into()),
    ]);
    assert_eq!(t.to_string(), "(u32, String)");
}

#[test]
fn display_array_and_slice() {
    assert_eq!(
        TypeRepr::Slice(Box::new(TypeRepr::Named("u8".into()))).to_string(),
        "[u8]"
    );
    assert_eq!(
        TypeRepr::Array(Box::new(TypeRepr::Named("u8".into())), 32).to_string(),
        "[u8; 32]"
    );
}

#[test]
fn display_unit_and_infer() {
    assert_eq!(TypeRepr::Unit.to_string(), "()");
    assert_eq!(TypeRepr::Infer.to_string(), "_");
}

#[test]
fn type_repr_equality() {
    let a = TypeRepr::Applied(
        Box::new(TypeRepr::Named("Vec".into())),
        vec![TypeRepr::Named("String".into())],
    );
    let b = TypeRepr::Applied(
        Box::new(TypeRepr::Named("Vec".into())),
        vec![TypeRepr::Named("String".into())],
    );
    assert_eq!(a, b);

    let c = TypeRepr::Applied(
        Box::new(TypeRepr::Named("Vec".into())),
        vec![TypeRepr::Named("u8".into())],
    );
    assert_ne!(a, c);
}

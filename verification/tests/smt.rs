use spec_checker::smt::{sanitize_smt_name, SmtQuery};

#[test]
fn test_smt_query_generation() {
    let mut q = SmtQuery::new();
    q.declare_int("x");
    q.declare_int("y");
    q.assert_ge("x", "0");
    q.assert_gt("y", "x");

    let smtlib = q.to_smtlib2();
    assert!(smtlib.contains("(declare-const x Int)"));
    assert!(smtlib.contains("(declare-const y Int)"));
    assert!(smtlib.contains("(assert (>= x 0))"));
    assert!(smtlib.contains("(assert (> y x))"));
    assert!(smtlib.contains("(check-sat)"));
}

#[test]
fn test_smt_query_eq() {
    let mut q = SmtQuery::new();
    q.declare_int("a");
    q.declare_int("b");
    q.assert_eq("a", "b");

    let smtlib = q.to_smtlib2();
    assert!(smtlib.contains("(assert (= a b))"));
}

#[test]
fn test_smt_query_implies() {
    let mut q = SmtQuery::new();
    q.declare_bool("p");
    q.declare_bool("q");
    q.assert_implies("p", "q");

    let smtlib = q.to_smtlib2();
    assert!(smtlib.contains("(assert (=> p q))"));
}

#[test]
fn test_sanitize_smt_name() {
    assert_eq!(sanitize_smt_name("hello_world"), "hello_world");
    assert_eq!(sanitize_smt_name("my.module"), "my_module");
    assert_eq!(sanitize_smt_name("src/checker.rs"), "src_checker_rs");
}

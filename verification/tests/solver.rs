use spec_checker::checker::composition::{check_ownership, ownership_claims};
use spec_checker::checker::ConstraintSeverity;
use spec_checker::smt::{
    check_state_ownership_consistency, implication_query, numeric_constraints_query, read_reply,
    sanitize_smt_name, state_ownership_query, Bounds, SmtQuery, SmtResult, SolverReply,
};
use spec_checker::spec::ModuleSpec;

fn claims(pairs: &[(&str, &str)]) -> Vec<(String, String)> {
    pairs.iter().map(|(m, s)| (m.to_string(), s.to_string())).collect()
}

fn output(stdout: &str, stderr: &str) -> SolverReply {
    SolverReply::Output { stdout: stdout.to_string(), stderr: stderr.to_string() }
}

#[test]
fn queries_are_written_line_by_line() {
    let mut q = SmtQuery::new();
    q.declare_int("x");
    q.declare("f", "Real");
    q.assert_ne("x", "0");
    q.assert_raw("(<= x 10)");
    assert_eq!(
        q.to_smtlib2(),
        "(set-logic ALL)\n(declare-const x Int)\n(declare-const f Real)\n\
         (assert (not (= x 0)))\n(assert (<= x 10))\n(check-sat)\n"
    );
    assert_eq!(q.clone().to_smtlib2(), q.to_smtlib2());
    assert_eq!(SmtQuery::default().to_smtlib2(), "(set-logic ALL)\n(check-sat)\n");
}

#[test]
fn names_keep_letters_of_any_alphabet() {
    assert_eq!(sanitize_smt_name("größe-1"), "größe_1");
    assert_eq!(sanitize_smt_name(&sanitize_smt_name("a b.c")), "a_b_c");
}

#[test]
fn different_states_are_not_excluded() {
    assert_eq!(
        state_ownership_query(&claims(&[("bridge", "balances"), ("vault", "reserves")])).to_smtlib2(),
        "(set-logic ALL)\n(declare-const owns_bridge_balances Bool)\n\
         (declare-const owns_vault_reserves Bool)\n(assert owns_bridge_balances)\n\
         (assert owns_vault_reserves)\n(check-sat)\n"
    );
}

#[test]
fn the_same_state_is_excluded() {
    let text =
        state_ownership_query(&claims(&[("bridge", "balances"), ("vault", "balances")])).to_smtlib2();
    assert!(text.contains("(assert (not (and owns_bridge_balances owns_vault_balances)))\n"));
}

#[test]
fn repeated_claims_are_stated_once() {
    let text = state_ownership_query(&claims(&[("a", "s"), ("a", "s")])).to_smtlib2();
    assert_eq!(
        text,
        "(set-logic ALL)\n(declare-const owns_a_s Bool)\n(assert owns_a_s)\n(check-sat)\n"
    );
    // Two claims with the same name in the query are on different states
    let text = state_ownership_query(&claims(&[("a", "b_c"), ("a_b", "c")])).to_smtlib2();
    assert_eq!(text.matches("declare-const").count(), 1);
    assert!(!text.contains("not"));
}

#[test]
fn replies_are_read() {
    assert_eq!(read_reply(&output("sat\n", "")), SmtResult::Sat);
    assert_eq!(read_reply(&output(" unsat ", "noise")), SmtResult::Unsat);
    assert_eq!(read_reply(&output("unknown", "")), SmtResult::Unknown);
    assert_eq!(read_reply(&output("timeout", "")), SmtResult::Unknown);
    assert_eq!(
        read_reply(&output("what", "")),
        SmtResult::Error("Unexpected z3 output: what".to_string())
    );
    assert_eq!(
        read_reply(&output("what", " bad \n")),
        SmtResult::Error("z3 error: bad".to_string())
    );
    assert_eq!(
        read_reply(&SolverReply::NotStarted("e".to_string())),
        SmtResult::Error("Failed to spawn z3: e".to_string())
    );
    assert_eq!(
        read_reply(&SolverReply::NotWritten("e".to_string())),
        SmtResult::Error("Failed to write to z3 stdin: e".to_string())
    );
    assert_eq!(
        read_reply(&SolverReply::NotRead("e".to_string())),
        SmtResult::Error("Failed to read z3 output: e".to_string())
    );
    assert_eq!(
        read_reply(&SolverReply::Missing).clone(),
        SmtResult::Error("z3 not available".to_string())
    );
}

#[test]
fn ownership_is_concluded_from_replies() {
    assert_eq!(check_state_ownership_consistency(&output("sat", "")), Ok(()));
    assert_eq!(
        check_state_ownership_consistency(&output("unsat", "")),
        Err("State ownership conflict detected (SMT-verified)".to_string())
    );
    assert_eq!(
        check_state_ownership_consistency(&output("unknown", "")),
        Err("SMT solver could not decide".to_string())
    );
    assert_eq!(
        check_state_ownership_consistency(&output("x", "")),
        Err("SMT error: Unexpected z3 output: x".to_string())
    );
    assert_eq!(
        check_state_ownership_consistency(&SolverReply::Missing),
        Err("z3 not available".to_string())
    );
}

#[test]
fn bounds_are_stated() {
    let bounds = |name: &str, lower, upper| Bounds { name: name.to_string(), lower, upper };
    assert_eq!(
        numeric_constraints_query(&[
            bounds("count", Some(0), Some(100)),
            bounds("index.x", Some(-5), None),
            bounds("count", None, Some(i64::MIN)),
        ])
        .to_smtlib2(),
        "(set-logic ALL)\n(declare-const count Int)\n(declare-const index_x Int)\n\
         (assert (>= count 0))\n(assert (<= count 100))\n(assert (>= index_x -5))\n\
         (assert (<= count -9223372036854775808))\n(check-sat)\n"
    );
}

#[test]
fn implications_are_negated() {
    assert_eq!(
        implication_query(
            &["(> x 5)".to_string()],
            "(> x 3)",
            &[("x".to_string(), "Int".to_string())],
        )
        .to_smtlib2(),
        "(set-logic ALL)\n(declare-const x Int)\n(assert (> x 5))\n\
         (assert (not (> x 3)))\n(check-sat)\n"
    );
}

#[test]
fn specs_claim_their_states() {
    let mut a = ModuleSpec::default();
    a.module = "a".to_string();
    a.owns_state = vec!["s".to_string(), "t".to_string()];
    let mut b = ModuleSpec::default();
    b.module = "b".to_string();
    b.owns_state = vec!["s".to_string()];
    assert_eq!(
        ownership_claims(&[a, b]),
        claims(&[("a", "s"), ("a", "t"), ("b", "s")])
    );
    assert!(check_ownership(&SolverReply::Missing).is_empty());
    assert!(check_ownership(&output("sat", "")).is_empty());
    let findings = check_ownership(&output("unsat", ""));
    assert_eq!(findings[0].severity, ConstraintSeverity::Error);
    assert_eq!(findings[0].tier.to_string(), "smt");
    let findings = check_ownership(&output("unknown", ""));
    assert_eq!(findings[0].severity, ConstraintSeverity::Warning);
}

#[test]
fn names_are_declared_once() {
    assert_eq!(
        numeric_constraints_query(&[
            Bounds { name: "a-b".to_string(), lower: Some(0), upper: None },
            Bounds { name: "a_b".to_string(), lower: None, upper: Some(9) },
        ])
        .to_smtlib2(),
        "(set-logic ALL)\n(declare-const a_b Int)\n(assert (>= a_b 0))\n\
         (assert (<= a_b 9))\n(check-sat)\n"
    );
    assert_eq!(
        implication_query(
            &[],
            "p",
            &[
                ("a-b".to_string(), "Int".to_string()),
                ("a_b".to_string(), "Bool".to_string()),
                ("p".to_string(), "Bool".to_string()),
            ],
        )
        .to_smtlib2(),
        "(set-logic ALL)\n(declare-const a_b Int)\n(declare-const p Bool)\n\
         (assert (not p))\n(check-sat)\n"
    );
}

use spec_checker::behavioral::llm::{cache_key, estimate_tokens, LlmCheckMode};
use spec_checker::behavioral::{check_no_panics, classify_invariant, InvariantTier};

#[test]
fn classify_static_invariants() {
    assert_eq!(
        classify_invariant("check() never panics, returns Result"),
        InvariantTier::Static
    );
    assert_eq!(
        classify_invariant("No unwrap in production code"),
        InvariantTier::Static
    );
    assert_eq!(
        classify_invariant("No unsafe code"),
        InvariantTier::Static
    );
}

#[test]
fn classify_behavioral_invariants() {
    assert_eq!(
        classify_invariant("apply_defaults never overwrites explicitly set fields"),
        InvariantTier::Behavioral
    );
    assert_eq!(
        classify_invariant("All violations are collected, not short-circuited"),
        InvariantTier::Behavioral
    );
    assert_eq!(
        classify_invariant("Extraction is deterministic for same input"),
        InvariantTier::Behavioral
    );
}

#[test]
fn static_check_no_panics() {
    let clean_code = r#"
pub fn safe_function(x: i32) -> Result<i32, String> {
    if x < 0 {
        return Err("negative".to_string());
    }
    Ok(x * 2)
}
"#;
    let result = check_no_panics(clean_code);
    assert!(result.satisfies);

    let panicky_code = r#"
pub fn unsafe_function(x: Option<i32>) -> i32 {
    x.unwrap()
}
"#;
    let result = check_no_panics(panicky_code);
    assert!(!result.satisfies);
}

#[test]
fn static_check_ignores_tests() {
    let code = r#"
pub fn safe() -> Result<(), String> {
    Ok(())
}

#[cfg(test)]
mod tests {
    fn test_something() {
        safe().unwrap();
    }
}
"#;
    let result = check_no_panics(code);
    assert!(result.satisfies, "unwrap in test should be ignored");
}

#[test]
fn cache_key_deterministic() {
    let k1 = cache_key("fn foo() {}", "never panics");
    let k2 = cache_key("fn foo() {}", "never panics");
    assert_eq!(k1, k2);

    let k3 = cache_key("fn foo() { x }", "never panics");
    assert_ne!(k1, k3);
}

#[test]
fn estimate_tokens_reasonable() {
    let tokens = estimate_tokens("fn foo() {}", "never panics", "");
    assert!(tokens > 50 && tokens < 500);
}

#[test]
fn parse_llm_check_mode() {
    assert_eq!("off".parse::<LlmCheckMode>().unwrap(), LlmCheckMode::Off);
    assert_eq!(
        "dry-run".parse::<LlmCheckMode>().unwrap(),
        LlmCheckMode::DryRun
    );
    assert_eq!(
        "cached-only".parse::<LlmCheckMode>().unwrap(),
        LlmCheckMode::CachedOnly
    );
    assert_eq!(
        "full".parse::<LlmCheckMode>().unwrap(),
        LlmCheckMode::Full
    );
    assert!("invalid".parse::<LlmCheckMode>().is_err());
}

use spec_checker::behavioral::llm::{
    after_reply, answer_text, build_description_context, build_prompt, cache_file_name, cache_key,
    clean_answer, conclude_answer, estimate_tokens, parse_check_mode, ApiKeys, CachedResult,
    LlmCheckMode, LlmConfig, LlmProvider, ReplyStep, ReplyTexts,
};
use spec_checker::behavioral::orchestrate::{
    after_answer, after_look_up, start_invariant, BehavioralSummary, InvariantStep,
};
use spec_checker::behavioral::{
    check_no_panics, check_no_unsafe, check_no_unwrap, check_static_invariant, classify_invariant,
    collect_invariants, has_unsafe_keyword, strip_tests, ClassifiedInvariant, InvariantResult,
    InvariantTier,
};
use spec_checker::spec::{ExposeSpec, ModuleSpec};

fn local() -> LlmConfig {
    LlmConfig {
        endpoint: "http://localhost:11434/v1".to_string(),
        model: "qwen".to_string(),
        api_key: None,
        check_mode: LlmCheckMode::Full,
        provider: LlmProvider::OpenAICompatible,
        cooldown_secs: 7,
        context_size: 4096,
    }
}

fn hosted(mode: LlmCheckMode, key: Option<&str>) -> LlmConfig {
    let mut config = LlmConfig::new("some-model");
    config.check_mode = mode;
    config.api_key = key.map(|k| k.to_string());
    config
}

fn claim(text: &str) -> ClassifiedInvariant {
    ClassifiedInvariant {
        text: text.to_string(),
        tier: classify_invariant(text),
        module_name: "m".to_string(),
        source_path: None,
    }
}

fn spec_with(invariants: &[&str]) -> ModuleSpec {
    let mut spec = ModuleSpec::default();
    spec.module = "store".to_string();
    spec.description = Some("Keeps things".to_string());
    spec.invariants = invariants.iter().map(|s| s.to_string()).collect();
    let mut save = ExposeSpec::default();
    save.description = Some("Writes one".to_string());
    save.requires = vec!["open".to_string()];
    save.ensures = vec!["no panic".to_string()];
    spec.exposes.insert("save".to_string(), save);
    let mut kind = ExposeSpec::default();
    kind.kind = Some("type".to_string());
    kind.requires = vec!["ignored".to_string()];
    spec.exposes.insert("Thing".to_string(), kind);
    spec
}

#[test]
fn function_clauses_are_always_behavioral() {
    assert_eq!(classify_invariant("save: ensures no panic"), InvariantTier::Behavioral);
    assert_eq!(classify_invariant("save: requires no unsafe"), InvariantTier::Behavioral);
    assert_eq!(classify_invariant("RETURNS ERROR on failure"), InvariantTier::Static);
}

#[test]
fn invariants_are_collected_in_order() {
    let all = collect_invariants(&spec_with(&["no unsafe"]));
    let texts: Vec<&str> = all.iter().map(|i| i.text.as_str()).collect();
    assert_eq!(texts, vec!["no unsafe", "save: requires open", "save: ensures no panic"]);
    assert_eq!(all[0].tier, InvariantTier::Static);
    assert_eq!(all[2].tier, InvariantTier::Behavioral);
    assert_eq!(all[1].module_name, "store");
}

#[test]
fn comments_literals_and_lookups_are_no_panics() {
    let code = "fn f() {\n    // x.unwrap()\n    let s = \"panic!(\";\n    if s.contains(\"a\") { y.unwrap() }\n}\n";
    assert!(check_no_panics(code).satisfies);
    assert_eq!(
        check_no_panics("fn f() { x.expect(\"y\") }").reasoning,
        "Found panic!(), unwrap(), or expect() outside test code"
    );
    assert_eq!(check_no_panics("").reasoning, "No panic paths found outside test code");
    assert!(!check_no_unwrap("x.unwrap()").satisfies);
    assert!(check_no_unwrap("x.expect(\"y\")").satisfies);
}

#[test]
fn unsafe_is_found_as_a_keyword_only() {
    assert!(has_unsafe_keyword("unsafe { f() }"));
    assert!(has_unsafe_keyword("a\n  pub unsafe fn f() {}"));
    assert!(!has_unsafe_keyword("check_no_unsafe(x)"));
    assert!(!has_unsafe_keyword("unsafely"));
    assert!(!has_unsafe_keyword("\u{e9}unsafe"));
    assert!(has_unsafe_keyword("\u{2192}unsafe"));
    assert!(!check_no_unsafe("unsafe fn f() {}").satisfies);
    assert_eq!(
        check_no_unsafe("fn f() {}").reasoning,
        "No unsafe code found outside test code"
    );
}

#[test]
fn test_modules_are_stripped() {
    let code = "fn a() {}\n#[cfg(test)]\nmod tests {\n    fn b() {}\n}\nfn c() {}\n";
    assert_eq!(strip_tests(code), "fn a() {}\nfn c() {}\n");
    let last = "fn a() {}\n#[cfg(test)]\nmod tests {\n    fn t() {}\n}\n";
    assert_eq!(strip_tests(last), "fn a() {}\n");
    let one_line = "#[cfg(test)] mod tests { fn t() {} }\nfn b() {\n}\n";
    assert_eq!(strip_tests(one_line), "fn b() {\n}\n");
    let elsewhere = "#[cfg(test)]\nmod tests;\nfn b() {\n    c();\n}\n";
    assert_eq!(strip_tests(elsewhere), "fn b() {\n    c();\n}\n");
    assert_eq!(strip_tests("fn a() {\n}"), "fn a() {\n}\n");
}

#[test]
fn static_invariants_need_a_pattern() {
    let with = claim("never unwrap");
    assert!(check_static_invariant(&with, "a.unwrap()").is_some());
    let without = claim("returns Result");
    assert_eq!(without.tier, InvariantTier::Static);
    assert!(check_static_invariant(&without, "a.unwrap()").is_none());
}

#[test]
fn modes_have_several_names() {
    assert_eq!(parse_check_mode("DRY_RUN"), Ok(LlmCheckMode::DryRun));
    assert_eq!(parse_check_mode("cache"), Ok(LlmCheckMode::CachedOnly));
    assert_eq!(
        parse_check_mode("Maybe"),
        Err("Unknown LLM check mode: 'Maybe'. Use: off, dry-run, cached-only, full".to_string())
    );
}

#[test]
fn urls_follow_the_provider() {
    let mut config = hosted(LlmCheckMode::Full, None);
    config.endpoint = "https://api.anthropic.com//".to_string();
    assert_eq!(config.api_url(), "https://api.anthropic.com/v1/messages");
    assert!(!config.is_ollama());
    assert_eq!(local().api_url(), "http://localhost:11434/api/chat");
    assert!(local().is_ollama());
    let mut other = local();
    other.endpoint = "http://host:8000/v1/".to_string();
    assert_eq!(other.api_url(), "http://host:8000/v1/chat/completions");
    other.endpoint = "http://host/api".to_string();
    assert_eq!(other.api_url(), "http://host/api/chat");
    assert_eq!(LlmConfig::detect_provider("https://api.anthropic.com"), LlmProvider::Anthropic);
    assert_eq!(LlmConfig::detect_provider("http://host"), LlmProvider::OpenAICompatible);
}

#[test]
fn keys_of_the_environment_come_before_the_configured_one() {
    let keys = ApiKeys {
        anthropic: Some("a".to_string()),
        openai: None,
        llm: Some("l".to_string()),
    };
    let mut config = hosted(LlmCheckMode::Full, None);
    config.resolve_api_key(&keys);
    assert_eq!(config.api_key, Some("a".to_string()));
    let mut config = local();
    config.resolve_api_key(&keys);
    assert_eq!(config.api_key, Some("l".to_string()));
    let mut config = hosted(LlmCheckMode::Full, Some("own"));
    config.resolve_api_key(&keys);
    assert_eq!(config.api_key, Some("a".to_string()));
    let none = ApiKeys { anthropic: None, openai: None, llm: Some("l".to_string()) };
    let mut config = hosted(LlmCheckMode::Full, Some("own"));
    config.resolve_api_key(&none);
    assert_eq!(config.api_key, Some("own".to_string()));
}

#[test]
fn requests_differ_by_provider() {
    let request = hosted(LlmCheckMode::Full, Some("k")).check_request("code", "claim", "");
    assert_eq!(request.max_tokens, Some(256));
    assert_eq!(request.context_size, None);
    assert_eq!(request.headers[0], ("x-api-key".to_string(), "k".to_string()));
    assert_eq!(request.headers.len(), 3);
    assert_eq!(request.prompt, build_prompt("code", "claim", "", &LlmProvider::Anthropic));
    let request = local().check_request("code", "claim", "ctx");
    assert_eq!(request.max_tokens, None);
    assert_eq!(request.context_size, Some(4096));
    assert_eq!(request.headers.len(), 1);
    assert!(request.prompt.ends_with(" /no_think"));
    assert!(request.prompt.contains("\n## Context:\nctx\n"));
    let mut keyed = local();
    keyed.endpoint = "http://host".to_string();
    keyed.api_key = Some("k".to_string());
    let request = keyed.check_request("code", "claim", "");
    assert_eq!(request.max_tokens, Some(1024));
    assert_eq!(request.headers[1], ("authorization".to_string(), "Bearer k".to_string()));
}

#[test]
fn tokens_are_a_quarter_of_the_bytes() {
    assert_eq!(estimate_tokens("fn foo() {}", "never panics", ""), 189);
}

#[test]
fn context_describes_module_and_entity() {
    let spec = spec_with(&[]);
    assert_eq!(
        build_description_context(&spec, "save: ensures no panic"),
        "Module `store`: Keeps things\n`save`: Writes one"
    );
    assert_eq!(
        build_description_context(&spec, "saved: ensures x"),
        "Module `store`: Keeps things"
    );
}

#[test]
fn rate_limits_are_retried_with_backoff() {
    let mut delays = vec![];
    let mut attempt: u32 = 0;
    loop {
        match after_reply(attempt, 429, "429 Too Many Requests", "slow down") {
            ReplyStep::Retry { attempt: next, delay_ms } => {
                assert_eq!(next, attempt + 1);
                delays.push(delay_ms);
                attempt = next;
            }
            ReplyStep::Fail(message) => {
                assert_eq!(message, "LLM API rate limited after 5 retries: slow down");
                break;
            }
            ReplyStep::Read => panic!("expected a retry"),
        }
    }
    assert_eq!(delays, vec![2000, 4000, 8000, 16000, 32000]);
    match after_reply(0, 500, "500 Internal Server Error", "oops") {
        ReplyStep::Fail(m) => assert_eq!(m, "LLM API error (500 Internal Server Error): oops"),
        other => panic!("expected a failure, got {:?}", other),
    }
    assert!(matches!(after_reply(3, 200, "200 OK", ""), ReplyStep::Read));
}

#[test]
fn answers_are_found_and_cleaned() {
    let texts = ReplyTexts {
        anthropic: None,
        ollama: None,
        openai: Some("o".to_string()),
        whole: "{}".to_string(),
    };
    assert_eq!(
        answer_text(&texts, &LlmProvider::Anthropic),
        Err("Unexpected Anthropic response format".to_string())
    );
    assert_eq!(answer_text(&texts, &LlmProvider::OpenAICompatible), Ok("o".to_string()));
    let none = ReplyTexts { anthropic: None, ollama: None, openai: None, whole: "{}".to_string() };
    assert_eq!(
        answer_text(&none, &LlmProvider::OpenAICompatible),
        Err("Unexpected response format: {}".to_string())
    );
    assert_eq!(clean_answer("  ```json\n{\"a\": 1}\n``` /no_think"), "{\"a\": 1}");
    assert_eq!(clean_answer("{}"), "{}");
    let read = conclude_answer(Ok((true, "fine".to_string())), "{}").unwrap();
    assert!(read.satisfies);
    assert_eq!(read.tier, "llm-verified");
    assert_eq!(
        conclude_answer(Err("bad".to_string()), "x").unwrap_err(),
        "Failed to parse LLM response as JSON: bad. Raw response: x"
    );
}

#[test]
fn keys_are_hashes_of_code_and_invariant() {
    let key = cache_key("code", "invariant");
    assert_eq!(key, "c764029458b196d785650915e4cef6e6fc9e5fa3d7fbd31f4e54fb27ab3aeb3e");
    assert_eq!(cache_file_name(&key), "c764029458b196d7.json");
    assert_ne!(cache_key("code", "other"), key);
}

/// Takes an invariant through all steps, and tells whether a model was asked.
fn settle(
    summary: &mut BehavioralSummary,
    text: &str,
    config: &LlmConfig,
    cached: Option<CachedResult>,
    answer: Result<InvariantResult, String>,
) -> bool {
    let spec = spec_with(&[]);
    let claim = claim(text);
    let code = "fn f() { x.unwrap() }";
    match start_invariant(summary, &claim, code, config) {
        InvariantStep::LookUp { key } => {
            assert_eq!(key, cache_key(code, text));
            match after_look_up(summary, &spec, &claim, code, config, &cached) {
                InvariantStep::Ask { .. } => {
                    let after = after_answer(summary, &claim, code, config, &answer, "9");
                    if let Ok(result) = &answer {
                        let keep = after.keep.unwrap();
                        assert_eq!(keep.satisfies, result.satisfies);
                        assert_eq!(keep.code_hash, key);
                        assert_eq!(keep.timestamp, "9");
                    } else {
                        assert!(after.keep.is_none());
                    }
                    assert_eq!(
                        after.cooldown_secs,
                        if config.is_ollama() { config.cooldown_secs } else { 0 }
                    );
                    true
                }
                _ => false,
            }
        }
        _ => false,
    }
}

fn kept(satisfies: bool) -> Option<CachedResult> {
    Some(CachedResult {
        satisfies,
        reasoning: "because".to_string(),
        model: "m".to_string(),
        timestamp: "1".to_string(),
        code_hash: "k".to_string(),
        invariant_hash: "k".to_string(),
    })
}

fn verdict(satisfies: bool) -> Result<InvariantResult, String> {
    Ok(InvariantResult {
        satisfies,
        reasoning: "seen".to_string(),
        tier: "llm-verified".to_string(),
    })
}

#[test]
fn each_invariant_is_counted_once() {
    let mut s = BehavioralSummary::default();
    let full = hosted(LlmCheckMode::Full, Some("k"));
    assert!(!settle(&mut s, "never unwrap", &full, None, verdict(true)));
    assert!(!settle(&mut s, "no unsafe", &full, None, verdict(true)));
    assert_eq!((s.static_failed, s.static_passed), (1, 1));
    assert!(settle(&mut s, "keeps order", &full, None, verdict(true)));
    assert!(settle(&mut s, "keeps order", &full, None, verdict(false)));
    assert!(settle(&mut s, "keeps order", &full, None, Err("down".to_string())));
    assert_eq!((s.llm_passed, s.llm_failed, s.skipped, s.cached), (1, 1, 1, 0));
    assert!(!settle(&mut s, "keeps order", &full, kept(true), verdict(false)));
    assert!(!settle(&mut s, "keeps order", &full, kept(false), verdict(true)));
    assert_eq!((s.llm_passed, s.llm_failed, s.cached), (2, 2, 2));
    assert_eq!(s.failures.len(), s.static_failed + s.llm_failed);
    assert_eq!(s.failures[2], ("keeps order".to_string(), "because".to_string()));
    assert!(settle(&mut s, "keeps order", &local(), None, verdict(true)));
}

#[test]
fn models_are_asked_in_full_mode_only() {
    for mode in [LlmCheckMode::Off, LlmCheckMode::DryRun, LlmCheckMode::CachedOnly] {
        let mut s = BehavioralSummary::default();
        let config = hosted(mode, Some("k"));
        assert!(!settle(&mut s, "keeps order", &config, None, verdict(true)));
        assert_eq!(s.skipped, 1);
    }
    let mut s = BehavioralSummary::default();
    assert!(!settle(&mut s, "keeps order", &hosted(LlmCheckMode::Full, None), None, verdict(true)));
    assert_eq!(s.skipped, 1);
}

#[test]
fn dry_runs_and_missing_keys_are_noted() {
    let spec = spec_with(&[]);
    let mut s = BehavioralSummary::default();
    let c = claim("keeps order");
    let dry = hosted(LlmCheckMode::DryRun, None);
    match after_look_up(&mut s, &spec, &c, "x", &dry, &None) {
        InvariantStep::Done { notice } => {
            let notice = notice.unwrap();
            assert!(notice.starts_with("  [dry-run] keeps order | ~"));
            assert!(notice.ends_with(" tokens | would call LLM"));
        }
        other => panic!("expected to be done, got {:?}", other),
    }
    let full = hosted(LlmCheckMode::Full, None);
    match after_look_up(&mut s, &spec, &c, "x", &full, &None) {
        InvariantStep::Done { notice } => assert_eq!(
            notice.unwrap(),
            "  [skip] keeps order — no API key set (ANTHROPIC_API_KEY or config)"
        ),
        other => panic!("expected to be done, got {:?}", other),
    }
}

use spec_checker::ai_init::{ApiEntity, SpecEnrichment};
use spec_checker::behavioral::llm::{ApiKeys, LlmCheckMode, LlmProvider};
use spec_checker::behavioral::orchestrate::BehavioralSummary;
use spec_checker::checker::{
    make_result, ConstraintKind, ConstraintResult, ConstraintSeverity, VerificationTier,
};
use spec_checker::commands::check::{
    behavior_lines, check_staleness, finding_tag, is_any_match, is_excluded, location, select_project, Tally,
    Verdict,
};
use spec_checker::commands::diff::{diff_lines, Mark};
use spec_checker::commands::init::{
    closing, detect_language, file_context, is_worth_a_spec, pick_extensions, pick_language,
};
use spec_checker::commands::order::{label, toposort_specs};
use spec_checker::commands::skills::{chosen, list_skills, no_matching_skill};
use spec_checker::config::{
    choose_provider, load_llm_config, LlmFileConfig, LlmOverrides, ProviderFileConfig,
};
use spec_checker::data::StringMap;
use spec_checker::extractors::ExtractedModule;
use spec_checker::hash::compute_source_hash;
use spec_checker::spec::{ExposeSpec, ModuleSpec, ProtocolSpec, Transition};

fn texts(list: &[&str]) -> Vec<String> {
    list.iter().map(|s| s.to_string()).collect()
}

// ─── Configuration ───────────────────────────────────────────────────────────

fn provider(endpoint: Option<&str>, model: Option<&str>) -> ProviderFileConfig {
    ProviderFileConfig {
        endpoint: endpoint.map(|s| s.to_string()),
        model: model.map(|s| s.to_string()),
        api_key: None,
        cooldown_secs: None,
        context_size: Some(1024),
    }
}

fn configured(providers: Vec<(&str, ProviderFileConfig)>) -> LlmFileConfig {
    let mut map = StringMap::new();
    for (name, p) in providers {
        map.insert(name.to_string(), p);
    }
    LlmFileConfig {
        check: Some("cached".to_string()),
        default: None,
        providers: map,
        flat: provider(None, Some("flat-model")),
    }
}

fn no_overrides() -> LlmOverrides {
    LlmOverrides { check: None, model: None, endpoint: None, api_key: None, provider: None }
}

fn no_keys() -> ApiKeys {
    ApiKeys { anthropic: None, openai: None, llm: Some("from-env".to_string()) }
}

#[test]
fn flat_configuration_is_used_without_providers() {
    let (config, warning) =
        load_llm_config(&configured(vec![]), &no_overrides(), &no_keys(), "default-model");
    assert_eq!(config.endpoint, "https://api.anthropic.com");
    assert_eq!(config.model, "flat-model");
    assert_eq!(config.check_mode, LlmCheckMode::CachedOnly);
    assert_eq!(config.provider, LlmProvider::Anthropic);
    assert_eq!((config.cooldown_secs, config.context_size), (10, 1024));
    assert_eq!(config.api_key, None);
    assert_eq!(warning, None);
}

#[test]
fn providers_are_chosen_by_name() {
    let llm = configured(vec![
        ("local", provider(Some("http://localhost:11434"), None)),
        ("cloud", provider(None, Some("big"))),
    ]);
    let (p, warning) = choose_provider(&llm, &Some("local".to_string()));
    assert_eq!(p.endpoint, Some("http://localhost:11434".to_string()));
    assert_eq!(warning, None);
    let (p, warning) = choose_provider(&llm, &None);
    assert_eq!(p.model, Some("big".to_string()));
    assert_eq!(warning, Some("Warning: no default provider set, using 'cloud'".to_string()));
    let (p, warning) = choose_provider(&llm, &Some("none".to_string()));
    assert_eq!(p.model, None);
    assert_eq!(
        warning,
        Some("Warning: provider 'none' not found in config. Available: local, cloud".to_string())
    );
}

#[test]
fn the_command_line_comes_first() {
    let mut cli = no_overrides();
    cli.endpoint = Some("http://other".to_string());
    cli.model = Some("mine".to_string());
    cli.check = Some("full".to_string());
    let (config, _) = load_llm_config(&configured(vec![]), &cli, &no_keys(), "default-model");
    assert_eq!(config.endpoint, "http://other");
    assert_eq!(config.model, "mine");
    assert_eq!(config.check_mode, LlmCheckMode::Full);
    assert_eq!(config.provider, LlmProvider::OpenAICompatible);
    assert_eq!(config.api_key, Some("from-env".to_string()));
    cli.check = Some("nonsense".to_string());
    cli.api_key = Some("own".to_string());
    let (config, _) = load_llm_config(&configured(vec![]), &cli, &no_keys(), "default-model");
    assert_eq!(config.check_mode, LlmCheckMode::CachedOnly);
    assert_eq!(config.api_key, Some("own".to_string()));
}

#[test]
fn the_environment_comes_before_the_file() {
    let mut llm = configured(vec![]);
    llm.flat.api_key = Some("in-file".to_string());
    llm.flat.endpoint = Some("http://other".to_string());
    let mut cli = no_overrides();
    let (config, _) = load_llm_config(&llm, &cli, &no_keys(), "default-model");
    assert_eq!(config.api_key, Some("from-env".to_string()));
    let none = ApiKeys { anthropic: None, openai: None, llm: None };
    let (config, _) = load_llm_config(&llm, &cli, &none, "default-model");
    assert_eq!(config.api_key, Some("in-file".to_string()));
    cli.api_key = Some("own".to_string());
    let (config, _) = load_llm_config(&llm, &cli, &no_keys(), "default-model");
    assert_eq!(config.api_key, Some("own".to_string()));
}

// ─── Checking ────────────────────────────────────────────────────────────────

fn finding(severity: ConstraintSeverity) -> ConstraintResult {
    ConstraintResult {
        kind: ConstraintKind::Dependency,
        tier: VerificationTier::RulesEngine,
        severity,
        message: "m".to_string(),
    }
}

#[test]
fn findings_are_counted() {
    let mut tally = Tally::new();
    assert_eq!(tally.verdict(), Verdict::Passed);
    tally.add_result(&make_result(vec![]));
    assert_eq!(tally.closing(false), "All 1 specs validated");
    tally.add_result(&make_result(vec![finding(ConstraintSeverity::Warning)]));
    assert_eq!(tally.verdict(), Verdict::Warned);
    assert_eq!(tally.closing(false), "1 passed, 1 warning(s)");
    assert_eq!(tally.closing(true), "All 1 specs validated");
    tally.add_findings(&vec![
        finding(ConstraintSeverity::Error),
        finding(ConstraintSeverity::Warning),
    ]);
    assert_eq!(tally.verdict(), Verdict::Failed);
    assert_eq!(tally.closing(true), "1 passed, 1 error(s), 2 warning(s)");
    let mut summary = BehavioralSummary::default();
    summary.llm_failed = 2;
    summary.failures = vec![("i".to_string(), "r".to_string()); 2];
    tally.add_behavior(&summary);
    assert_eq!(tally.errors, 3);
}

#[test]
fn changed_sources_make_specs_stale() {
    let mut spec = ModuleSpec::default();
    spec.module = "m".to_string();
    assert!(check_staleness(&spec, b"abc").is_none());
    spec.source_hash = Some(compute_source_hash(b"abc"));
    assert!(check_staleness(&spec, b"abc").is_none());
    let warning = check_staleness(&spec, b"abd").unwrap();
    assert_eq!(warning.severity, ConstraintSeverity::Warning);
    assert_eq!(
        warning.message,
        "Spec of 'm' is stale: source_hash does not match the source file"
    );
}

#[test]
fn findings_have_tags() {
    assert_eq!(finding_tag(&finding(ConstraintSeverity::Error)), "[dependency|rules-engine]");
    assert_eq!(location(&ModuleSpec::default()), "?");
}

#[test]
fn behavior_is_reported() {
    let mut s = BehavioralSummary::default();
    assert!(behavior_lines(&s).is_empty());
    s.static_passed = 2;
    s.llm_passed = 3;
    s.cached = 1;
    s.llm_failed = 1;
    s.skipped = 4;
    s.failures = vec![("claim".to_string(), "why".to_string())];
    let lines = behavior_lines(&s);
    let shown: Vec<(Mark, usize, &str)> =
        lines.iter().map(|l| (l.mark, l.indent, l.text.as_str())).collect();
    assert_eq!(
        shown,
        vec![
            (Mark::Good, 2, "2 static invariant(s) satisfied"),
            (Mark::Good, 2, "3 behavioral invariant(s) satisfied (LLM-verified, 1 cached)"),
            (Mark::Bad, 2, "1 behavioral invariant(s) failed (LLM-verified)"),
            (Mark::Unused, 2, "4 invariant(s) skipped"),
            (Mark::Arrow, 4, "claim: why"),
        ]
    );
    let mut total = BehavioralSummary::default();
    total.static_failed = 1;
    total.failures = vec![("a".to_string(), "b".to_string())];
    total.absorb(s);
    assert_eq!((total.static_failed, total.llm_failed, total.skipped), (1, 1, 4));
    assert_eq!(total.failures.len(), 2);
}

#[test]
fn projects_are_selected_from_the_graph() {
    assert!(select_project(&None, None).unwrap().is_none());
    assert_eq!(
        select_project(&None, Some("lib")).unwrap_err(),
        "--project requires dependencies to be configured (and --shallow must not be set)"
    );
}

#[test]
fn paths_are_excluded_by_patterns() {
    let patterns = texts(&["tools/**", "*.gen.rs", "[bad"]);
    assert!(is_excluded("/p", &patterns, "/p/tools/a/b.rs"));
    assert!(is_excluded("/p", &patterns, "/p/x.gen.rs"));
    assert!(!is_excluded("/p", &patterns, "/p/src/x.rs"));
    assert!(!is_excluded("/p", &vec![], "/p/tools/a.rs"));
    assert!(is_any_match(&vec![None, Some(false), Some(true)]));
    assert!(!is_any_match(&vec![None, Some(false)]));
}

// ─── Differences ─────────────────────────────────────────────────────────────

#[test]
fn differences_are_reported() {
    let mut spec = ModuleSpec::default();
    spec.exposes.insert("save".to_string(), ExposeSpec::default());
    spec.exposes.insert("load".to_string(), ExposeSpec::default());
    spec.depends_on = texts(&["data", "idle"]);
    spec.forbidden_deps = texts(&["http"]);
    spec.emits = texts(&["Saved"]);
    spec.protocol = Some(ProtocolSpec {
        states: texts(&["open", "closed"]),
        initial: "open".to_string(),
        terminal: texts(&["closed"]),
        transitions: vec![Transition {
            from: "open".to_string(),
            call: "close".to_string(),
            to: "closed".to_string(),
        }],
        balanced_pairs: vec![("open".to_string(), "close".to_string())],
    });
    let mut m = ExtractedModule::default();
    m.public_functions = texts(&["save", "extra"]);
    m.imports = texts(&["crate::data", "http_client", "other"]);
    let lines = diff_lines(&spec, &m);
    let shown: Vec<(Mark, &str)> = lines.iter().map(|l| (l.mark, l.text.as_str())).collect();
    assert_eq!(
        shown,
        vec![
            (Mark::Title, "Exposed Functions:"),
            (Mark::Good, "save (spec + impl)"),
            (Mark::Bad, "load (spec only - MISSING)"),
            (Mark::Unknown, "extra (impl only - NOT IN SPEC)"),
            (Mark::Blank, ""),
            (Mark::Title, "Dependencies:"),
            (Mark::Good, "data (allowed + used)"),
            (Mark::Unused, "idle (allowed, not used)"),
            (Mark::Bad, "http_client (FORBIDDEN)"),
            (Mark::Unknown, "other (not in spec)"),
            (Mark::Blank, ""),
            (Mark::Title, "Events:"),
            (Mark::Bad, "Saved (spec only - MISSING)"),
            (Mark::Blank, ""),
            (Mark::Title, "Protocol:"),
            (Mark::Plain, "States: open, closed | Initial: open | Terminal: [\"closed\"]"),
            (Mark::Plain, "Transitions: 1"),
            (Mark::Bad, "open -> close() -> closed"),
            (Mark::Plain, "Balanced pairs:"),
            (Mark::Plain, "[open, close]"),
        ]
    );
    assert_eq!(lines[17].indent, 4);
}

// ─── Order ───────────────────────────────────────────────────────────────────

fn depending(module: &str, path: Option<&str>, deps: &[&str]) -> ModuleSpec {
    let mut spec = ModuleSpec::default();
    spec.module = module.to_string();
    spec.source_path = path.map(|p| p.to_string());
    spec.depends_on = texts(deps);
    spec
}

#[test]
fn dependencies_come_first() {
    let specs = vec![
        depending("app", None, &["src/core.rs", "util", "outside"]),
        depending("core", Some("src/core.rs"), &["util"]),
        depending("util", None, &[]),
    ];
    let (order, cyclic) = toposort_specs(&specs);
    assert_eq!(order, vec![2, 1, 0]);
    assert!(cyclic.is_empty());
    assert_eq!(label(&specs[1]), "src/core.rs");
    assert_eq!(label(&specs[0]), "app");
}

#[test]
fn cycles_are_named() {
    let specs = vec![
        depending("a", None, &["b"]),
        depending("b", None, &["a"]),
        depending("c", None, &[]),
    ];
    let (order, cyclic) = toposort_specs(&specs);
    assert_eq!(order, vec![1, 0, 2]);
    assert_eq!(cyclic, vec!["a", "b"]);
}

// ─── Writing specs ───────────────────────────────────────────────────────────

#[test]
fn languages_follow_extensions() {
    for (extension, language) in [
        ("sol", "solidity"),
        ("rs", "rust"),
        ("flow", "flow9"),
        ("tsx", "typescript"),
        ("jsx", "javascript"),
        ("py", "py"),
    ] {
        assert_eq!(detect_language(Some(extension)), Some(language.to_string()));
    }
    assert_eq!(detect_language(None), None);
    assert_eq!(pick_language(&Some("rs".to_string()), &None), Ok("rs".to_string()));
    assert_eq!(
        pick_language(&None, &None),
        Err("Could not detect language. Use --language flag.".to_string())
    );
    assert_eq!(pick_extensions(Some("flow")), Ok(texts(&["flow"])));
    assert_eq!(pick_extensions(Some("rust")), Ok(texts(&["rs"])));
    assert_eq!(pick_extensions(Some("sol")), Ok(texts(&["sol"])));
    assert_eq!(pick_extensions(None), Ok(texts(&["flow", "rs", "sol"])));
    assert_eq!(pick_extensions(Some("perl")), Err("Unsupported language: perl".to_string()));
}

#[test]
fn known_dependencies_give_context() {
    let mut known = StringMap::new();
    known.insert(
        "spec".to_string(),
        SpecEnrichment {
            description: "Specs".to_string(),
            api_entities: vec![ApiEntity {
                name: "Spec".to_string(),
                description: "One".to_string(),
            }],
            forbidden_deps: vec![],
            layer: None,
        },
    );
    let (context, note) = file_context("use crate::spec::Spec;\nuse crate::other;\n", &known);
    assert_eq!(context, "- Specs\n  - Spec: One");
    assert_eq!(note, " (deps: spec)");
    let (context, note) = file_context("fn f() {}", &known);
    assert_eq!((context.as_str(), note.as_str()), ("", ""));
}

#[test]
fn written_specs_are_counted() {
    assert_eq!(closing(3, "./specs", 0), "Generated 3 spec file(s) in ./specs");
    assert_eq!(
        closing(3, "./specs", 2),
        "Generated 3 spec file(s) in ./specs (2 file(s) excluded)"
    );
    let mut m = ExtractedModule::default();
    assert!(!is_worth_a_spec(&m));
    m.public_functions = texts(&["f"]);
    assert!(is_worth_a_spec(&m));
}

// ─── Skills ──────────────────────────────────────────────────────────────────

#[test]
fn skills_are_chosen() {
    let skills = list_skills();
    let names = |choice: Option<&str>| -> Vec<String> {
        skills.iter().filter(|s| chosen(s, choice)).map(|s| s.name.clone()).collect()
    };
    assert_eq!(names(None), texts(&["spec-refine", "spec-checker"]));
    assert_eq!(names(Some("flow9")), texts(&["flow9"]));
    assert_eq!(names(Some("all")).len(), 3);
    assert!(names(Some("other")).is_empty());
    assert_eq!(skills[1].usage.len(), 8);
    assert_eq!(
        no_matching_skill("other"),
        "No matching skill 'other'. Available: spec-refine, spec-checker, flow9, all"
    );
}

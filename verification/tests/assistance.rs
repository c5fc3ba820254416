use spec_checker::ai_init::order::{extract_internal_deps, toposort_files, SourceEntry};
use spec_checker::ai_init::summary::summarize_extracted;
use spec_checker::ai_init::{
    apply_enrichment, enrichment_request, format_dep_context, remember, select_code, ApiEntity,
    ForbiddenDep, SpecEnrichment,
};
use spec_checker::ai_refine::{
    apply_refinement, format_dep_context as format_spec_context, format_existing_spec,
    refinement_request, EntityRefinement, SpecRefinement,
};
use spec_checker::behavioral::llm::{LlmConfig, LlmProvider};
use spec_checker::extractors::ExtractedModule;
use spec_checker::spec::{ExposeSpec, Layer, ModuleSpec};
use spec_checker::types::{
    FieldInfo, GenericParam, TypeInfo, TypeKind, TypeRepr, VariantInfo, Visibility,
};

fn field(name: &str, of: &str) -> FieldInfo {
    FieldInfo {
        name: name.to_string(),
        type_repr: TypeRepr::Named(of.to_string()),
        visibility: Visibility::Public,
    }
}

fn definition(name: &str, kind: TypeKind) -> TypeInfo {
    TypeInfo {
        name: name.to_string(),
        kind,
        generics: vec![],
        fields: vec![],
        variants: vec![],
        trait_impls: vec![],
        derives: vec![],
    }
}

fn module() -> ExtractedModule {
    let mut m = ExtractedModule::default();
    m.name = "store".to_string();
    let mut pair = definition("Pair", TypeKind::Struct);
    pair.generics = vec![GenericParam { name: "T".to_string(), bounds: vec![] }];
    pair.fields = vec![field("left", "T"), field("right", "u8")];
    m.type_definitions.insert("Pair".to_string(), pair);
    let mut shape = definition("Shape", TypeKind::Enum);
    shape.variants = vec![
        VariantInfo { name: "Dot".to_string(), fields: vec![] },
        VariantInfo { name: "Box".to_string(), fields: vec![field("0", "u8")] },
    ];
    m.type_definitions.insert("Shape".to_string(), shape);
    m.public_functions = vec!["save".to_string()];
    m.private_functions = vec!["helper".to_string()];
    m.function_signatures.insert("helper".to_string(), "fn helper()".to_string());
    m.function_signatures.insert("save".to_string(), "fn save(x: u8)".to_string());
    m.imports = vec!["serde".to_string()];
    m.events = vec!["Saved".to_string()];
    m
}

const FULL: &str = "pub struct Pair<T> {\n  left: T,\n  right: u8\n}\n\
pub enum Shape {\n  Dot,\n  Box(0: u8)\n}\npub fn save(x: u8)\nfn helper()\n\
// Imports:\n//   serde\n// Events:\n//   Saved";

#[test]
fn summaries_list_the_most_important_first() {
    assert_eq!(summarize_extracted(&module(), 1000), FULL);
}

#[test]
fn summaries_drop_whole_definitions() {
    assert_eq!(summarize_extracted(&module(), 0), "");
    assert_eq!(summarize_extracted(&module(), 20), "pub fn save(x: u8)");
    let pair = "pub struct Pair<T> {\n  left: T,\n  right: u8\n}";
    assert_eq!(summarize_extracted(&module(), pair.len() + 1), pair);
    let s = summarize_extracted(&module(), FULL.len());
    assert_eq!(s, FULL.strip_suffix("\n// Events:\n//   Saved").unwrap());
    assert_eq!(summarize_extracted(&module(), FULL.len() + 1), FULL);
}

#[test]
fn summaries_fit_their_budget() {
    let mut m = module();
    m.function_signatures.insert("wide".to_string(), format!("fn wide({})", "x".repeat(200)));
    let note = "// ... (some definitions omitted to fit context window)";
    for budget in 0..FULL.len() + 300 {
        assert!(summarize_extracted(&m, budget).len() <= budget);
    }
    assert!(summarize_extracted(&m, FULL.len() + 60).ends_with(note));
}

#[test]
fn references_to_modules_are_found() {
    let source = "use crate::spec::ModuleSpec;\nuse crate::data;\nuse std::fmt;\n\
                  fn f() { crate::types::make(crate::rules::x) }\nuse crate::{a, b};\n";
    assert_eq!(
        extract_internal_deps(source),
        vec!["spec", "data", "types", "rules", "a", "b"]
    );
    assert_eq!(extract_internal_deps("use crate::{spec, rules};"), vec!["spec", "rules"]);
    assert_eq!(
        extract_internal_deps("use crate::{\n    self,\n    a::{b, c},\n    d as e,\n};\nfn f() {}"),
        vec!["a", "d"]
    );
    assert_eq!(
        extract_internal_deps("use crate::x as y; let z = crate::w!(); crate::x::<u8>()"),
        vec!["x", "w"]
    );
    assert_eq!(
        extract_internal_deps("use crate::r#type::T; use crate:: types; use crate::{r#mod, q};"),
        vec!["r#type", "types", "r#mod", "q"]
    );
    assert!(extract_internal_deps("use crate::*; format!(\"crate::{}\", name)").is_empty());
}

fn entry(stem: &str, parent: &str, source: &str) -> SourceEntry {
    SourceEntry {
        stem: Some(stem.to_string()),
        parent: Some(parent.to_string()),
        source: source.to_string(),
    }
}

#[test]
fn referenced_files_come_first() {
    let files = vec![
        entry("main", "src", "use crate::checker;\nuse crate::parts;"),
        entry("checker", "src", "use crate::spec;"),
        entry("spec", "src", ""),
        entry("mod", "parts", "use crate::spec;"),
    ];
    let order = toposort_files(&files);
    assert_eq!(order, vec![2, 1, 3, 0]);
}

#[test]
fn files_on_cycles_come_last() {
    let files = vec![
        entry("a", "src", "use crate::b;"),
        entry("b", "src", "use crate::a;"),
        entry("c", "src", ""),
    ];
    assert_eq!(toposort_files(&files), vec![2, 0, 1]);
}

fn enrichment() -> SpecEnrichment {
    SpecEnrichment {
        description: "Keeps things".to_string(),
        api_entities: vec![
            ApiEntity { name: "save".to_string(), description: "Writes".to_string() },
            ApiEntity { name: "unknown".to_string(), description: "?".to_string() },
            ApiEntity { name: "save".to_string(), description: "Again".to_string() },
        ],
        forbidden_deps: vec![ForbiddenDep {
            dep: "http".to_string(),
            reason: "no network".to_string(),
        }],
        layer: Some("Domain".to_string()),
    }
}

fn spec() -> ModuleSpec {
    let mut spec = ModuleSpec::default();
    spec.module = "store".to_string();
    let mut save = ExposeSpec::default();
    save.kind = Some("function".to_string());
    save.signature = Some("fn save()".to_string());
    spec.exposes.insert("save".to_string(), save);
    spec.exposes.insert("helper".to_string(), ExposeSpec::default());
    spec
}

#[test]
fn enrichments_keep_known_entities_only() {
    let mut s = spec();
    apply_enrichment(&mut s, enrichment());
    assert_eq!(s.description, Some("Keeps things".to_string()));
    assert_eq!(s.exposes.len(), 1);
    let save = s.exposes.get("save").unwrap();
    assert_eq!(save.description, Some("Writes".to_string()));
    assert_eq!(save.signature, Some("fn save()".to_string()));
    assert_eq!(s.forbidden_deps, vec!["http"]);
    assert_eq!(s.layer, Some(Layer::new("domain")));
    // A second time changes nothing
    apply_enrichment(&mut s, enrichment());
    assert_eq!(s.exposes.get("save").unwrap().description, Some("Writes".to_string()));
    let kept = remember(&s);
    assert_eq!(kept.description, "Keeps things");
    assert_eq!(kept.api_entities.len(), 1);
    assert_eq!(kept.layer, Some("domain".to_string()));
    assert!(kept.forbidden_deps.is_empty());
}

#[test]
fn contexts_list_entities() {
    let e = enrichment();
    assert_eq!(
        format_dep_context(&[&e]),
        "- Keeps things\n  - save: Writes\n  - unknown: ?\n  - save: Again"
    );
    assert_eq!(format_dep_context(&[]), "");
}

fn local(context_size: u32) -> LlmConfig {
    let mut config = LlmConfig::new("m");
    config.endpoint = "http://localhost:11434".to_string();
    config.provider = LlmProvider::OpenAICompatible;
    config.context_size = context_size;
    config
}

#[test]
fn local_models_get_summaries() {
    let (code, summary) = select_code(&LlmConfig::new("m"), "source", &module(), 2000, "");
    assert_eq!((code.as_str(), summary), ("source", false));
    let (code, summary) = select_code(&local(8192), "source", &module(), 2000, "");
    assert_eq!((code.as_str(), summary), (FULL, true));
    let (code, _) = select_code(&local(2000), "source", &module(), 2000, "");
    assert_eq!(code, "");
    // Seven tokens for the summary, and twenty-one bytes
    let (code, _) = select_code(&local(2008), "source", &module(), 2000, "abc");
    assert_eq!(code, "pub fn save(x: u8)");
}

#[test]
fn enrichments_are_asked_for() {
    let request = enrichment_request(&spec(), "source", &module(), &LlmConfig::new("m"), "ctx");
    assert_eq!(request.max_tokens, Some(2048));
    assert!(request.prompt.starts_with(
        "You are analyzing a unknown source module to generate a specification.\n\n\
         ## Module: store\n## Public entities found: save, helper\n\n\
         ## Dependencies (already specified):\nctx\n\n## Source code:\n```\nsource\n```\n"
    ));
    assert!(request.prompt.ends_with("Respond with ONLY a JSON object, no other text."));
    let request = enrichment_request(&spec(), "source", &module(), &local(8192), "");
    assert!(request.prompt.contains("## Module signatures and structure (summary):\n```\npub struct"));
    assert!(request.prompt.ends_with(" /no_think"));
}

fn refinement() -> SpecRefinement {
    SpecRefinement {
        entities: vec![
            EntityRefinement {
                name: "save".to_string(),
                requires: vec!["open".to_string(), "open".to_string()],
                ensures: vec!["saved".to_string()],
                modifies: vec![],
            },
            EntityRefinement {
                name: "unknown".to_string(),
                requires: vec!["x".to_string()],
                ensures: vec![],
                modifies: vec![],
            },
        ],
        invariants: vec!["sorted".to_string(), "kept".to_string()],
    }
}

#[test]
fn refinements_only_add() {
    let mut s = spec();
    s.invariants = vec!["kept".to_string()];
    apply_refinement(&mut s, refinement());
    assert_eq!(s.invariants, vec!["kept", "sorted"]);
    assert_eq!(s.exposes.len(), 2);
    assert_eq!(s.exposes.get("save").unwrap().requires, vec!["open"]);
    assert_eq!(s.exposes.get("save").unwrap().signature, Some("fn save()".to_string()));
    // A second time changes nothing
    apply_refinement(&mut s, refinement());
    assert_eq!(s.invariants.len(), 2);
    assert_eq!(s.exposes.get("save").unwrap().ensures, vec!["saved"]);
}

#[test]
fn specs_are_described_in_prompts() {
    let mut s = spec();
    s.layer = Some(Layer::new("domain"));
    apply_refinement(&mut s, refinement());
    assert_eq!(
        format_existing_spec(&s),
        "module: store\nlayer: domain\nexposes:\n  save (function): \n  helper (unknown): \n\
         invariants:\n  - sorted\n  - kept"
    );
    assert_eq!(
        format_spec_context(&[&s]),
        "- store: store\n  - save: requires: open; ensures: saved"
    );
    let request = refinement_request(&s, "source", &module(), &LlmConfig::new("m"), "");
    assert_eq!(request.max_tokens, Some(4096));
    assert!(request.prompt.contains("## Functions to specify: save\n\n## Source code:\n```\nsource\n```\n"));
    assert!(request.prompt.contains("     \"name\": \"function_name\",\n"));
}

#[test]
fn files_without_references_come_first() {
    let files = vec![
        entry("a", "src", "use crate::b;"),
        entry("b", "src", ""),
        entry("c", "src", "use crate::{d, b};"),
        entry("d", "src", "use crate::c;"),
        entry("e", "src", "use crate::missing;"),
    ];
    assert_eq!(toposort_files(&files), vec![1, 4, 0, 2, 3]);
}

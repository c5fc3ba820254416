//! Specs that a language model helps to write: descriptions, the intended interface,
//! forbidden dependencies and the layer of a module.
pub mod effects;
pub mod order;
pub mod references;
pub mod summaries;
pub mod summary;

use vstd::prelude::*;

use crate::ai_init::summary::{summarize_extracted, summary};
use crate::behavioral::llm::{prompt_end, LlmConfig, LlmConfigModel, LlmProvider, LlmRequest};
use crate::data::{
    append_item, has_key, key_index, keys, lemma_key_index, lookup, Duplicate, StringMap,
};
use crate::extractors::{ExtractedModule, ExtractedModuleModel};
use crate::spec::{ExposeSpec, ExposeSpecModel, Layer, ModuleSpec, ModuleSpecModel};
use crate::text;

verus! {

// ─── Enrichments ──────────────────────────────────────────────────────────────

/// An entity of the intended interface of a module.
#[derive(Debug)]
pub struct ApiEntity {
    pub name: String,
    pub description: String,
}

/// What a [`ApiEntity`] holds.
#[verifier::ext_equal]
pub struct ApiEntityModel {
    pub name: Seq<char>,
    pub description: Seq<char>,
}

impl DeepView for ApiEntity {
    type V = ApiEntityModel;

    open spec fn deep_view(&self) -> ApiEntityModel {
        ApiEntityModel {
            name: self.name.deep_view(),
            description: self.description.deep_view(),
        }
    }
}

/// A dependency that a module should not have.
#[derive(Debug)]
pub struct ForbiddenDep {
    pub dep: String,
    pub reason: String,
}

/// What a [`ForbiddenDep`] holds.
#[verifier::ext_equal]
pub struct ForbiddenDepModel {
    pub dep: Seq<char>,
    pub reason: Seq<char>,
}

impl DeepView for ForbiddenDep {
    type V = ForbiddenDepModel;

    open spec fn deep_view(&self) -> ForbiddenDepModel {
        ForbiddenDepModel {
            dep: self.dep.deep_view(),
            reason: self.reason.deep_view(),
        }
    }
}

/// What a language model says of a module.
#[derive(Debug)]
pub struct SpecEnrichment {
    /// What the module is for, in a sentence.
    pub description: String,
    /// The entities that form the intended interface.
    pub api_entities: Vec<ApiEntity>,
    /// The dependencies that the module should not have.
    pub forbidden_deps: Vec<ForbiddenDep>,
    /// The layer of the module.
    pub layer: Option<String>,
}

/// What a [`SpecEnrichment`] holds.
#[verifier::ext_equal]
pub struct SpecEnrichmentModel {
    pub description: Seq<char>,
    pub api_entities: Seq<ApiEntityModel>,
    pub forbidden_deps: Seq<ForbiddenDepModel>,
    pub layer: Option<Seq<char>>,
}

impl DeepView for SpecEnrichment {
    type V = SpecEnrichmentModel;

    open spec fn deep_view(&self) -> SpecEnrichmentModel {
        SpecEnrichmentModel {
            description: self.description.deep_view(),
            api_entities: self.api_entities.deep_view(),
            forbidden_deps: self.forbidden_deps.deep_view(),
            layer: self.layer.deep_view(),
        }
    }
}

// ─── Prompts ──────────────────────────────────────────────────────────────────

/// The lines on a module in the context for those that depend on it.
pub open spec fn module_context(e: SpecEnrichmentModel) -> Seq<char> {
    text::join(seq!["- "@ + e.description] + entity_lines(e.api_entities), "\n"@)
}

pub open spec fn entity_lines(entities: Seq<ApiEntityModel>) -> Seq<Seq<char>> {
    entities.map_values(|e: ApiEntityModel| "  - "@ + e.name + ": "@ + e.description)
}

/// The context of a module: what was said of the modules that it depends on.
pub open spec fn dependency_context(deps: Seq<SpecEnrichmentModel>) -> Seq<char> {
    text::join(deps.map_values(|e: SpecEnrichmentModel| module_context(e)), "\n"@)
}

fn write_module_context(e: &SpecEnrichment) -> (r: String)
    ensures
        r@ == module_context(e.deep_view()),
{
    let ghost model = e.deep_view();
    let ghost all = entity_lines(model.api_entities);
    let mut head = "- ".to_owned();
    head.append(e.description.as_str());
    let ghost first = seq![head@];
    let mut lines: Vec<String> = Vec::new();
    append_item(&mut lines, head);
    assert(lines.deep_view() =~= first + all.take(0));
    let mut i: usize = 0;
    while i < e.api_entities.len()
        invariant
            i <= e.api_entities@.len(),
            all == entity_lines(e.deep_view().api_entities),
            lines.deep_view() == first + all.take(i as int),
        decreases e.api_entities@.len() - i,
    {
        assert(e.deep_view().api_entities[i as int] == e.api_entities@[i as int].deep_view());
        let mut line = "  - ".to_owned();
        line.append(e.api_entities[i].name.as_str());
        line.append(": ");
        line.append(e.api_entities[i].description.as_str());
        append_item(&mut lines, line);
        assert(first + all.take(i + 1) =~= (first + all.take(i as int)).push(all[i as int]));
        i += 1;
    }
    assert(all.take(all.len() as int) =~= all);
    text::join_strings(lines.as_slice(), "\n")
}

/// Writes the context of a module from what was said of the modules that it depends on.
pub fn format_dep_context(dep_specs: &[&SpecEnrichment]) -> (r: String)
    ensures
        r@ == dependency_context(dep_specs.deep_view()),
{
    let ghost all = dep_specs.deep_view().map_values(
        |e: SpecEnrichmentModel| module_context(e),
    );
    let mut parts: Vec<String> = Vec::new();
    let mut i: usize = 0;
    assert(parts.deep_view() =~= all.take(0));
    while i < dep_specs.len()
        invariant
            i <= dep_specs@.len(),
            all == dep_specs.deep_view().map_values(
                |e: SpecEnrichmentModel| module_context(e),
            ),
            parts.deep_view() == all.take(i as int),
        decreases dep_specs@.len() - i,
    {
        assert(dep_specs.deep_view()[i as int] == dep_specs@[i as int].deep_view());
        append_item(&mut parts, write_module_context(dep_specs[i]));
        assert(all.take(i + 1) =~= all.take(i as int).push(all[i as int]));
        i += 1;
    }
    assert(all.take(all.len() as int) =~= all);
    text::join_strings(parts.as_slice(), "\n")
}

/// The title above the code in a prompt.
pub open spec fn code_label(is_summary: bool) -> Seq<char> {
    if is_summary {
        "## Module signatures and structure (summary):"@
    } else {
        "## Source code:"@
    }
}

/// What a prompt says of the modules that a module depends on.
pub open spec fn dependency_section(context: Seq<char>) -> Seq<char> {
    if context.len() == 0 {
        Seq::empty()
    } else {
        "\n## Dependencies (already specified):\n"@ + context + "\n"@
    }
}

/// Writes the title above the code in a prompt.
pub fn label_code(is_summary: bool) -> (r: &'static str)
    ensures
        r@ == code_label(is_summary),
{
    if is_summary {
        "## Module signatures and structure (summary):"
    } else {
        "## Source code:"
    }
}

/// Writes what a prompt says of the modules that a module depends on.
pub fn write_dependency_section(context: &str) -> (r: String)
    ensures
        r@ == dependency_section(context@),
{
    if context.is_empty() {
        String::new()
    } else {
        let mut section = "\n## Dependencies (already specified):\n".to_owned();
        section.append(context);
        section.append("\n");
        section
    }
}

/// Writes what ends a prompt.
pub fn end_prompt(provider: &LlmProvider) -> (r: &'static str)
    ensures
        r@ == prompt_end(*provider),
{
    match provider {
        LlmProvider::OpenAICompatible => " /no_think",
        LlmProvider::Anthropic => "",
    }
}

/// The prompt that asks for an enrichment.
pub open spec fn enrichment_prompt(
    module: Seq<char>,
    code: Seq<char>,
    entities: Seq<Seq<char>>,
    language: Seq<char>,
    provider: LlmProvider,
    is_summary: bool,
    context: Seq<char>,
) -> Seq<char> {
    "You are analyzing a "@ + language
        + " source module to generate a specification.\n\n## Module: "@ + module
        + "\n## Public entities found: "@ + text::join(entities, ", "@) + "\n"@
        + dependency_section(context) + "\n"@ + code_label(is_summary) + "\n```\n"@ + code
        + ENRICHMENT_INSTRUCTIONS@ + prompt_end(provider)
}

/// What a model is asked to do with a module.
pub const ENRICHMENT_INSTRUCTIONS: &'static str = "\n```\n\n## Instructions:\nAnalyze this module and produce a JSON object with these fields:\n\n1. \"description\": One sentence describing what this module is FOR (its purpose/role), not what it contains.\n\n2. \"api_entities\": Array of objects {\"name\": \"...\", \"description\": \"...\"} — only include entities that form the module's INTENDED public API contract. Exclude internal helpers that happen to be public. Each description should be one short sentence about the entity's role. For types, only include them if they are central to the module's contract.\n\n3. \"forbidden_deps\": Array of objects {\"dep\": \"...\", \"reason\": \"...\"} — dependencies this module should NEVER have, based on its architectural role. Think about separation of concerns. Only suggest deps that would be a clear architectural violation.\n\n4. \"layer\": One of \"infrastructure\", \"domain\", \"application\", \"interface\", or null if unclear. Based on the module's role: infrastructure=external I/O, domain=core business logic, application=orchestration, interface=user-facing.\n\nRespond with ONLY a JSON object, no other text.";

/// Builds the prompt that asks for an enrichment.
pub fn build_enrichment_prompt(
    module_name: &str,
    code_content: &str,
    entity_names: &[String],
    language: &str,
    provider: &LlmProvider,
    is_summary: bool,
    dep_context: &str,
) -> (r: String)
    ensures
        r@ == enrichment_prompt(
            module_name@,
            code_content@,
            entity_names.deep_view(),
            language@,
            *provider,
            is_summary,
            dep_context@,
        ),
{
    let mut prompt = "You are analyzing a ".to_owned();
    prompt.append(language);
    prompt.append(" source module to generate a specification.\n\n## Module: ");
    prompt.append(module_name);
    prompt.append("\n## Public entities found: ");
    prompt.append(text::join_strings(entity_names, ", ").as_str());
    prompt.append("\n");
    prompt.append(write_dependency_section(dep_context).as_str());
    prompt.append("\n");
    prompt.append(label_code(is_summary));
    prompt.append("\n```\n");
    prompt.append(code_content);
    prompt.append(ENRICHMENT_INSTRUCTIONS);
    prompt.append(end_prompt(provider));
    prompt
}

/// How many bytes of code fit in the context window of a model, beside what is reserved and
/// the context of the module: three for each token.
pub open spec fn code_budget(config: LlmConfigModel, reserved: nat, context: Seq<char>) -> nat {
    let used = reserved + vstd::utf8::encode_utf8(context).len() / 3;
    let tokens = if used < config.context_size {
        (config.context_size - used) as nat
    } else {
        0
    };
    if tokens * 3 <= usize::MAX {
        tokens * 3
    } else {
        usize::MAX as nat
    }
}

/// The code that a model is sent, and whether it is a summary: a local model gets a summary
/// that fits in its context window.
pub open spec fn code_for(
    config: LlmConfigModel,
    source: Seq<char>,
    m: ExtractedModuleModel,
    reserved: nat,
    context: Seq<char>,
) -> (Seq<char>, bool) {
    match config.provider {
        LlmProvider::Anthropic => (source, false),
        LlmProvider::OpenAICompatible => (summary(m, code_budget(config, reserved, context)), true),
    }
}

/// Picks the code that a model is sent, and tells whether it is a summary. `reserved` tokens of
/// the context window are kept free.
pub fn select_code(
    config: &LlmConfig,
    source_code: &str,
    extracted: &ExtractedModule,
    reserved: u32,
    dep_context: &str,
) -> (r: (String, bool))
    ensures
        (r.0@, r.1) == code_for(
            config.deep_view(),
            source_code@,
            extracted.deep_view(),
            reserved as nat,
            dep_context@,
        ),
{
    match config.provider {
        LlmProvider::Anthropic => (source_code.to_owned(), false),
        LlmProvider::OpenAICompatible => {
            let length: usize = dep_context.as_bytes().len();
            let used: u128 = (reserved as u128) + (length as u128) / 3;
            let window: u128 = config.context_size as u128;
            let tokens: u128 = if used < window {
                window - used
            } else {
                0
            };
            let bytes: u128 = tokens * 3;
            let budget: usize = if bytes <= usize::MAX as u128 {
                bytes as usize
            } else {
                usize::MAX
            };
            (summarize_extracted(extracted, budget), true)
        },
    }
}

/// How long an enrichment may be, in tokens.
pub open spec fn enrichment_limit(provider: LlmProvider) -> u32 {
    match provider {
        LlmProvider::Anthropic => 2048,
        LlmProvider::OpenAICompatible => 4096,
    }
}

pub open spec fn language_of(spec: ModuleSpecModel) -> Seq<char> {
    match spec.language {
        Some(l) => l,
        None => "unknown"@,
    }
}

/// Builds the request that asks a model for an enrichment of a spec.
pub fn enrichment_request(
    spec: &ModuleSpec,
    source_code: &str,
    extracted: &ExtractedModule,
    config: &LlmConfig,
    dep_context: &str,
) -> (r: LlmRequest)
    ensures
        ({
            let (code, is_summary) = code_for(
                config.deep_view(),
                source_code@,
                extracted.deep_view(),
                2000,
                dep_context@,
            );
            r.deep_view() == config.deep_view().request(
                enrichment_prompt(
                    spec.module@,
                    code,
                    keys(spec.deep_view().exposes),
                    language_of(spec.deep_view()),
                    config.provider,
                    is_summary,
                    dep_context@,
                ),
                enrichment_limit(config.provider),
            )
        }),
{
    let language = match &spec.language {
        Some(l) => l.as_str(),
        None => "unknown",
    };
    let names = spec.exposes.keys();
    let (code, is_summary) = select_code(config, source_code, extracted, 2000, dep_context);
    let prompt = build_enrichment_prompt(
        spec.module.as_str(),
        code.as_str(),
        names.as_slice(),
        language,
        &config.provider,
        is_summary,
        dep_context,
    );
    let limit: u32 = match config.provider {
        LlmProvider::Anthropic => 2048,
        LlmProvider::OpenAICompatible => 4096,
    };
    config.request(prompt, limit)
}

// ─── Applying enrichments ─────────────────────────────────────────────────────

/// The entities that the first `k` entries of an enrichment keep, with their descriptions. An
/// entity that the spec does not expose is not added, and a repeated entry changes nothing.
pub open spec fn curated(
    exposes: Seq<(Seq<char>, ExposeSpecModel)>,
    entities: Seq<ApiEntityModel>,
    k: int,
) -> Seq<(Seq<char>, ExposeSpecModel)>
    decreases k,
{
    if k <= 0 || k > entities.len() {
        Seq::empty()
    } else {
        let before = curated(exposes, entities, k - 1);
        let entity = entities[k - 1];
        match lookup(exposes, entity.name) {
            Some(e) if !has_key(before, entity.name) => before.push(
                (entity.name, ExposeSpecModel { description: Some(entity.description), ..e }),
            ),
            _ => before,
        }
    }
}

/// A spec with an enrichment.
pub open spec fn enriched(spec: ModuleSpecModel, e: SpecEnrichmentModel) -> ModuleSpecModel {
    ModuleSpecModel {
        description: Some(e.description),
        exposes: curated(spec.exposes, e.api_entities, e.api_entities.len() as int),
        forbidden_deps: e.forbidden_deps.map_values(|f: ForbiddenDepModel| f.dep),
        layer: match e.layer {
            Some(l) => Some(text::lowercase(l)),
            None => spec.layer,
        },
        ..spec
    }
}

fn curate(exposes: &StringMap<ExposeSpec>, entities: &Vec<ApiEntity>) -> (r: StringMap<ExposeSpec>)
    ensures
        r.deep_view() == curated(
            exposes.deep_view(),
            entities.deep_view(),
            entities@.len() as int,
        ),
        r.wf(),
{
    let ghost all = exposes.deep_view();
    let mut kept: StringMap<ExposeSpec> = StringMap::new();
    let mut i: usize = 0;
    while i < entities.len()
        invariant
            i <= entities@.len(),
            all == exposes.deep_view(),
            kept.deep_view() == curated(all, entities.deep_view(), i as int),
            kept.wf(),
        decreases entities@.len() - i,
    {
        let entity = &entities[i];
        let ghost name = entity.name@;
        assert(entities.deep_view()[i as int] == entity.deep_view());
        match exposes.get(entity.name.as_str()) {
            Some(e) => {
                if !kept.contains_key(entity.name.as_str()) {
                    proof {
                        lemma_key_index(kept.deep_view(), name);
                    }
                    let mut described = e.duplicate();
                    described.description = Some(entity.description.clone());
                    kept.insert(entity.name.clone(), described);
                }
            },
            None => {},
        }
        i += 1;
    }
    kept
}

/// Applies an enrichment to a spec.
pub fn apply_enrichment(spec: &mut ModuleSpec, enrichment: SpecEnrichment)
    ensures
        final(spec).deep_view() == enriched(old(spec).deep_view(), enrichment.deep_view()),
        final(spec).wf(),
{
    let ghost before = spec.deep_view();
    let ghost model = enrichment.deep_view();
    spec.description = Some(enrichment.description.clone());
    spec.exposes = curate(&spec.exposes, &enrichment.api_entities);
    let ghost all = model.forbidden_deps.map_values(|f: ForbiddenDepModel| f.dep);
    let mut forbidden: Vec<String> = Vec::new();
    let mut i: usize = 0;
    assert(forbidden.deep_view() =~= all.take(0));
    while i < enrichment.forbidden_deps.len()
        invariant
            i <= enrichment.forbidden_deps@.len(),
            all == enrichment.forbidden_deps.deep_view().map_values(
                |f: ForbiddenDepModel| f.dep,
            ),
            forbidden.deep_view() == all.take(i as int),
        decreases enrichment.forbidden_deps@.len() - i,
    {
        assert(enrichment.forbidden_deps.deep_view()[i as int]
            == enrichment.forbidden_deps@[i as int].deep_view());
        append_item(&mut forbidden, enrichment.forbidden_deps[i].dep.clone());
        assert(all.take(i + 1) =~= all.take(i as int).push(all[i as int]));
        i += 1;
    }
    assert(all.take(all.len() as int) =~= all);
    spec.forbidden_deps = forbidden;
    match &enrichment.layer {
        Some(l) => {
            spec.layer = Some(Layer::new(l.as_str()));
        },
        None => {},
    }
}

/// What a text is where there may be none.
pub open spec fn or_empty(s: Option<Seq<char>>) -> Seq<char> {
    match s {
        Some(t) => t,
        None => Seq::empty(),
    }
}

/// What is remembered of a spec for modules that depend on it: what an enrichment would say of
/// it, without forbidden dependencies.
pub open spec fn remembered(spec: ModuleSpecModel) -> SpecEnrichmentModel {
    SpecEnrichmentModel {
        description: or_empty(spec.description),
        api_entities: spec.exposes.map_values(
            |e: (Seq<char>, ExposeSpecModel)|
                ApiEntityModel { name: e.0, description: or_empty(e.1.description) },
        ),
        forbidden_deps: Seq::empty(),
        layer: spec.layer,
    }
}

fn text_or_empty(s: &Option<String>) -> (r: String)
    ensures
        r@ == or_empty(s.deep_view()),
{
    match s {
        Some(t) => t.clone(),
        None => String::new(),
    }
}

/// Takes down what is remembered of a spec for modules that depend on it.
pub fn remember(spec: &ModuleSpec) -> (r: SpecEnrichment)
    ensures
        r.deep_view() == remembered(spec.deep_view()),
{
    let ghost all = remembered(spec.deep_view()).api_entities;
    let mut entities: Vec<ApiEntity> = Vec::new();
    let mut i: usize = 0;
    assert(entities.deep_view() =~= all.take(0));
    while i < spec.exposes.len()
        invariant
            i <= spec.exposes.deep_view().len(),
            all == remembered(spec.deep_view()).api_entities,
            entities.deep_view() == all.take(i as int),
        decreases spec.exposes.deep_view().len() - i,
    {
        let entity = ApiEntity {
            name: spec.exposes.key(i).to_owned(),
            description: text_or_empty(&spec.exposes.value(i).description),
        };
        append_item(&mut entities, entity);
        assert(all.take(i + 1) =~= all.take(i as int).push(all[i as int]));
        i += 1;
    }
    assert(all.take(all.len() as int) =~= all);
    let r = SpecEnrichment {
        description: text_or_empty(&spec.description),
        api_entities: entities,
        forbidden_deps: Vec::new(),
        layer: match &spec.layer {
            Some(l) => Some(l.0.clone()),
            None => None,
        },
    };
    assert(r.forbidden_deps.deep_view() =~= Seq::empty());
    r
}

// ─── Laws ─────────────────────────────────────────────────────────────────────

/// An enrichment adds no entities: every one that it keeps was exposed, and only its
/// description changes.
pub proof fn enrichments_add_no_entities(
    spec: ModuleSpecModel,
    e: SpecEnrichmentModel,
    i: int,
)
    requires
        0 <= i < enriched(spec, e).exposes.len(),
    ensures
        ({
            let (name, entity) = enriched(spec, e).exposes[i];
            &&& lookup(spec.exposes, name) is Some
            &&& entity == (ExposeSpecModel {
                description: entity.description,
                ..lookup(spec.exposes, name)->Some_0
            })
        }),
{
    lemma_curated(spec.exposes, e.api_entities, e.api_entities.len() as int);
}

proof fn lemma_curated(
    exposes: Seq<(Seq<char>, ExposeSpecModel)>,
    entities: Seq<ApiEntityModel>,
    k: int,
)
    ensures
        forall|i: int|
            0 <= i < curated(exposes, entities, k).len() ==> {
                let (name, entity) = #[trigger] curated(exposes, entities, k)[i];
                &&& lookup(exposes, name) is Some
                &&& entity == (ExposeSpecModel {
                    description: entity.description,
                    ..lookup(exposes, name)->Some_0
                })
            },
    decreases k,
{
    if 0 < k <= entities.len() {
        lemma_curated(exposes, entities, k - 1);
        let before = curated(exposes, entities, k - 1);
        let now = curated(exposes, entities, k);
        assert forall|i: int| 0 <= i < now.len() implies {
            let (name, entity) = #[trigger] now[i];
            &&& lookup(exposes, name) is Some
            &&& entity == (ExposeSpecModel {
                description: entity.description,
                ..lookup(exposes, name)->Some_0
            })
        } by {
            if i < before.len() {
                assert(now[i] == before[i]);
            }
        }
    }
}

/// Applying an enrichment twice is the same as applying it once.
pub proof fn enriching_twice(spec: ModuleSpecModel, e: SpecEnrichmentModel)
    ensures
        enriched(enriched(spec, e), e) == enriched(spec, e),
{
    let n = e.api_entities.len() as int;
    let once = curated(spec.exposes, e.api_entities, n);
    lemma_curated_again(spec.exposes, e.api_entities, n);
    assert(curated(once, e.api_entities, n) == once);
    assert(enriched(enriched(spec, e), e) =~= enriched(spec, e));
}

/// What was curated gives each entity that is kept its value, from the entry on that keeps it.
proof fn lemma_curated_lookup(
    exposes: Seq<(Seq<char>, ExposeSpecModel)>,
    entities: Seq<ApiEntityModel>,
    k: int,
    n: int,
)
    requires
        0 <= k <= n <= entities.len(),
    ensures
        curated(exposes, entities, k).len() <= curated(exposes, entities, n).len(),
        curated(exposes, entities, n).take(curated(exposes, entities, k).len() as int) == curated(
            exposes,
            entities,
            k,
        ),
    decreases n,
{
    let early = curated(exposes, entities, k);
    let late = curated(exposes, entities, n);
    if k < n {
        lemma_curated_lookup(exposes, entities, k, n - 1);
        let before = curated(exposes, entities, n - 1);
        assert(late.take(early.len() as int) =~= before.take(early.len() as int));
    } else {
        assert(late.take(early.len() as int) =~= early);
    }
}

proof fn lemma_curated_again(
    exposes: Seq<(Seq<char>, ExposeSpecModel)>,
    entities: Seq<ApiEntityModel>,
    k: int,
)
    requires
        0 <= k <= entities.len(),
    ensures
        curated(curated(exposes, entities, entities.len() as int), entities, k) == curated(
            exposes,
            entities,
            k,
        ),
    decreases k,
{
    if k > 0 {
        let n = entities.len() as int;
        let all = curated(exposes, entities, n);
        lemma_curated_again(exposes, entities, k - 1);
        let before = curated(exposes, entities, k - 1);
        let now = curated(exposes, entities, k);
        let entity = entities[k - 1];
        let name = entity.name;
        lemma_key_index(all, name);
        lemma_key_index(before, name);
        lemma_curated_lookup(exposes, entities, k, n);
        lemma_curated_lookup(exposes, entities, k - 1, n);
        if !has_key(before, name) {
            if lookup(exposes, name) is Some {
                let at = before.len() as int;
                assert(now[at].0 == name);
                assert(all.take(now.len() as int)[at] == now[at]);
                assert(all[at] == now[at]);
                assert forall|i: int| 0 <= i < at implies (#[trigger] all[i]).0 != name by {
                    assert(all.take(at)[i] == before[i]);
                    assert(before[i].0 == name ==> crate::data::key_at(before, name, i));
                }
                lemma_first_key(all, name, at);
                assert(lookup(all, name) == Some(now[at].1));
            } else {
                lemma_curated(exposes, entities, n);
                if has_key(all, name) {
                    let i = key_index(all, name);
                    assert(all[i].0 == name);
                }
                assert(lookup(all, name) is None);
            }
        }
    }
}

proof fn lemma_first_key(
    entries: Seq<(Seq<char>, ExposeSpecModel)>,
    key: Seq<char>,
    at: int,
)
    requires
        0 <= at < entries.len(),
        entries[at].0 == key,
        forall|i: int| 0 <= i < at ==> (#[trigger] entries[i]).0 != key,
    ensures
        key_index(entries, key) == at,
    decreases at,
{
    if at > 0 {
        let rest = entries.drop_first();
        assert forall|i: int| 0 <= i < at - 1 implies (#[trigger] rest[i]).0 != key by {
            assert(rest[i] == entries[i + 1]);
        }
        assert(entries[0].0 != key);
        lemma_first_key(rest, key, at - 1);
    }
}

} // verus!

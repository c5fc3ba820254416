//! What enrichments and refinements do to a spec, and what is asked for them.
use vstd::prelude::*;

use super::summary::{signatures, summary};
use super::{
    code_budget, code_for, curated, enriched, enrichment_limit, enrichment_prompt, remembered,
    ApiEntityModel, SpecEnrichmentModel,
};
use crate::ai_refine::{
    context_line, function_names, refine_prompt, refined, refined_entity, with_refinement,
    with_refinements, EntityRefinementModel, SpecRefinementModel,
};
use crate::behavioral::llm::{LlmConfigModel, LlmProvider};
use crate::data::{
    has_key, key_at, lemma_key_index, lookup, lookup_after_insert, lookup_of_other_key,
    with_names_is_union,
};
use crate::extractors::ExtractedModuleModel;
use crate::spec::{ExposeSpecModel, ModuleSpecModel};
use crate::text;

verus! {

// ─── Enrichments ──────────────────────────────────────────────────────────────

/// An enrichment gives a spec its description, its forbidden dependencies and its layer, in
/// lowercase; where it names no layer, the one that is there stays, and everything else does.
pub proof fn enrichments_describe_modules(spec: ModuleSpecModel, e: SpecEnrichmentModel, i: int)
    ensures
        ({
            let after = enriched(spec, e);
            &&& after.description == Some(e.description)
            &&& after.forbidden_deps.len() == e.forbidden_deps.len()
            &&& 0 <= i < e.forbidden_deps.len() ==> after.forbidden_deps[i]
                == e.forbidden_deps[i].dep
            &&& e.layer matches Some(l) ==> after.layer == Some(text::lowercase(l))
            &&& e.layer is None ==> after.layer == spec.layer
            &&& after == (ModuleSpecModel {
                description: after.description,
                exposes: after.exposes,
                forbidden_deps: after.forbidden_deps,
                layer: after.layer,
                ..spec
            })
        }),
{
}

/// An entity that an enrichment keeps has the description that it is given first there, and is
/// as it was otherwise; one that it does not name is left out.
pub proof fn enrichments_keep_the_intended_interface(
    exposes: Seq<(Seq<char>, ExposeSpecModel)>,
    entities: Seq<ApiEntityModel>,
    k: int,
    i: int,
)
    requires
        0 <= i < k <= entities.len(),
        lookup(exposes, entities[i].name) is Some,
        forall|j: int| 0 <= j < i ==> (#[trigger] entities[j]).name != entities[i].name,
    ensures
        lookup(curated(exposes, entities, k), entities[i].name) == Some(
            ExposeSpecModel {
                description: Some(entities[i].description),
                ..lookup(exposes, entities[i].name)->Some_0
            },
        ),
    decreases k,
{
    let name = entities[i].name;
    let before = curated(exposes, entities, k - 1);
    let now = curated(exposes, entities, k);
    lemma_key_index(before, name);
    lemma_key_index(now, name);
    if i < k - 1 {
        enrichments_keep_the_intended_interface(exposes, entities, k - 1, i);
        let at = crate::data::key_index(before, name);
        assert(now[at] == before[at]);
        assert(key_at(now, name, at));
        let n = crate::data::key_index(now, name);
        if n < at {
            assert(now[n] == before[n]);
        }
    } else {
        lemma_not_curated(exposes, entities, k - 1, name);
        assert(now[before.len() as int].0 == name);
        assert(key_at(now, name, before.len() as int));
        let n = crate::data::key_index(now, name);
        if n < before.len() {
            assert(now[n] == before[n]);
            assert(key_at(before, name, n));
        }
    }
}

proof fn lemma_not_curated(
    exposes: Seq<(Seq<char>, ExposeSpecModel)>,
    entities: Seq<ApiEntityModel>,
    k: int,
    name: Seq<char>,
)
    requires
        0 <= k <= entities.len(),
        forall|j: int| 0 <= j < k ==> (#[trigger] entities[j]).name != name,
    ensures
        !has_key(curated(exposes, entities, k), name),
    decreases k,
{
    if k > 0 {
        lemma_not_curated(exposes, entities, k - 1, name);
        let before = curated(exposes, entities, k - 1);
        let now = curated(exposes, entities, k);
        if has_key(now, name) {
            let i = choose|i: int| #[trigger] key_at(now, name, i);
            if i < before.len() {
                assert(now[i] == before[i]);
                assert(key_at(before, name, i));
            } else {
                assert(entities[k - 1].name == name);
            }
        }
    }
}

/// What an enrichment does not name is left out.
pub proof fn other_entities_are_left_out(
    exposes: Seq<(Seq<char>, ExposeSpecModel)>,
    entities: Seq<ApiEntityModel>,
    name: Seq<char>,
)
    requires
        forall|j: int| 0 <= j < entities.len() ==> (#[trigger] entities[j]).name != name,
    ensures
        lookup(curated(exposes, entities, entities.len() as int), name) is None,
{
    lemma_not_curated(exposes, entities, entities.len() as int, name);
    lemma_key_index(curated(exposes, entities, entities.len() as int), name);
}

/// What is remembered of a spec are its description, its entities with theirs, and its layer.
pub proof fn specs_are_remembered(spec: ModuleSpecModel, i: int)
    ensures
        spec.description matches Some(d) ==> remembered(spec).description == d,
        remembered(spec).layer == spec.layer,
        remembered(spec).api_entities.len() == spec.exposes.len(),
        0 <= i < spec.exposes.len() ==> remembered(spec).api_entities[i].name == spec.exposes[i].0,
        0 <= i < spec.exposes.len() ==> (spec.exposes[i].1.description matches Some(d)
            ==> remembered(spec).api_entities[i].description == d),
{
}

// ─── Refinements ──────────────────────────────────────────────────────────────

/// A refinement adds its clauses to the entity that it names, each to clauses of its kind, and
/// no others; other entities stay as they are.
pub proof fn refinements_add_their_clauses(
    exposes: Seq<(Seq<char>, ExposeSpecModel)>,
    r: EntityRefinementModel,
    e: ExposeSpecModel,
    clause: Seq<char>,
    other: Seq<char>,
)
    requires
        lookup(exposes, r.name) == Some(e),
    ensures
        ({
            let after = with_refinement(exposes, r);
            &&& lookup(after, r.name) matches Some(f) && {
                &&& f.requires.contains(clause) <==> e.requires.contains(clause)
                    || r.requires.contains(clause)
                &&& f.ensures.contains(clause) <==> e.ensures.contains(clause)
                    || r.ensures.contains(clause)
                &&& f.modifies.contains(clause) <==> e.modifies.contains(clause)
                    || r.modifies.contains(clause)
                &&& f.description == e.description
                &&& f.kind == e.kind
            }
            &&& other != r.name ==> lookup(after, other) == lookup(exposes, other)
        }),
{
    let f = refined_entity(e, r);
    lookup_after_insert(exposes, r.name, f);
    with_names_is_union(e.requires, r.requires, clause);
    with_names_is_union(e.ensures, r.ensures, clause);
    with_names_is_union(e.modifies, r.modifies, clause);
    if other != r.name {
        lookup_of_other_key(exposes, r.name, f, other);
    }
}

/// All refinements are taken up, one after the other, and the invariants with them.
pub proof fn refinements_are_taken_up(
    spec: ModuleSpecModel,
    r: SpecRefinementModel,
    k: int,
    claim: Seq<char>,
)
    requires
        0 < k <= r.entities.len(),
    ensures
        with_refinements(spec.exposes, r.entities, k) == with_refinement(
            with_refinements(spec.exposes, r.entities, k - 1),
            r.entities[k - 1],
        ),
        with_refinements(spec.exposes, r.entities, 0) == spec.exposes,
        refined(spec, r).exposes == with_refinements(
            spec.exposes,
            r.entities,
            r.entities.len() as int,
        ),
        refined(spec, r).invariants.contains(claim) <==> spec.invariants.contains(claim)
            || r.invariants.contains(claim),
{
    with_names_is_union(spec.invariants, r.invariants, claim);
}

// ─── Prompts ──────────────────────────────────────────────────────────────────

proof fn lemma_within(a: Seq<char>, x: Seq<char>, b: Seq<char>)
    ensures
        text::contains(a + x + b, x),
{
    let all = a + x + b;
    let n = a.len() as int;
    assert(all.subrange(n, n + x.len()) =~= x);
    assert(text::occurs_at(all, x, n));
}

/// A model is asked for an enrichment with the name of the module, its language, its code and
/// the names of its entities.
pub proof fn enrichments_are_asked_for(
    module: Seq<char>,
    code: Seq<char>,
    entities: Seq<Seq<char>>,
    language: Seq<char>,
    provider: LlmProvider,
    is_summary: bool,
    context: Seq<char>,
)
    ensures
        ({
            let p = enrichment_prompt(
                module,
                code,
                entities,
                language,
                provider,
                is_summary,
                context,
            );
            &&& text::contains(p, module)
            &&& text::contains(p, code)
            &&& text::contains(p, language)
            &&& text::contains(p, context)
            &&& text::contains(p, text::join(entities, ", "@))
        }),
{
    let p = enrichment_prompt(module, code, entities, language, provider, is_summary, context);
    let a = "You are analyzing a "@;
    let b = " source module to generate a specification.\n\n## Module: "@;
    let c = "\n## Public entities found: "@;
    let names = text::join(entities, ", "@);
    let section = super::dependency_section(context);
    let label = super::code_label(is_summary);
    let end = super::ENRICHMENT_INSTRUCTIONS@ + crate::behavioral::llm::prompt_end(provider);
    let tail = "\n"@ + section + "\n"@ + label + "\n```\n"@ + code + end;
    assert(p =~= a + language + (b + module + c + names + tail));
    lemma_within(a, language, b + module + c + names + tail);
    assert(p =~= (a + language + b) + module + (c + names + tail));
    lemma_within(a + language + b, module, c + names + tail);
    assert(p =~= (a + language + b + module + c) + names + tail);
    lemma_within(a + language + b + module + c, names, tail);
    let head = a + language + b + module + c + names + "\n"@ + section + "\n"@ + label + "\n```\n"@;
    assert(p =~= head + code + end);
    lemma_within(head, code, end);
    if context.len() > 0 {
        let h = a + language + b + module + c + names + "\n"@
            + "\n## Dependencies (already specified):\n"@;
        let t = "\n"@ + "\n"@ + label + "\n```\n"@ + code + end;
        assert(p =~= h + context + t);
        lemma_within(h, context, t);
    } else {
        assert(p.subrange(0, 0) =~= context);
        assert(text::occurs_at(p, context, 0));
    }
}

/// The code stands under a title that says whether it is the whole or a summary.
pub proof fn code_has_a_title(
    module: Seq<char>,
    code: Seq<char>,
    entities: Seq<Seq<char>>,
    language: Seq<char>,
    provider: LlmProvider,
    context: Seq<char>,
)
    ensures
        text::contains(
            enrichment_prompt(module, code, entities, language, provider, false, context),
            "## Source code:"@ + ("\n```\n"@ + code),
        ),
        text::contains(
            enrichment_prompt(module, code, entities, language, provider, true, context),
            "## Module signatures and structure (summary):"@ + ("\n```\n"@ + code),
        ),
{
    let whole = "## Source code:"@;
    let summed = "## Module signatures and structure (summary):"@;
    lemma_titled(module, code, entities, language, provider, context, false, whole);
    lemma_titled(module, code, entities, language, provider, context, true, summed);
}

proof fn lemma_titled(
    module: Seq<char>,
    code: Seq<char>,
    entities: Seq<Seq<char>>,
    language: Seq<char>,
    provider: LlmProvider,
    context: Seq<char>,
    is_summary: bool,
    label: Seq<char>,
)
    requires
        label == super::code_label(is_summary),
    ensures
        text::contains(
            enrichment_prompt(module, code, entities, language, provider, is_summary, context),
            label + ("\n```\n"@ + code),
        ),
{
    let head = "You are analyzing a "@ + language
        + " source module to generate a specification.\n\n## Module: "@ + module
        + "\n## Public entities found: "@ + text::join(entities, ", "@) + "\n"@
        + super::dependency_section(context) + "\n"@;
    let titled = label + ("\n```\n"@ + code);
    let end = super::ENRICHMENT_INSTRUCTIONS@ + crate::behavioral::llm::prompt_end(provider);
    assert(enrichment_prompt(module, code, entities, language, provider, is_summary, context)
        =~= head + titled + end);
    lemma_within(head, titled, end);
}

/// A model is asked for a refinement with the code and the names of the functions.
pub proof fn refinements_are_asked_for(
    spec: ModuleSpecModel,
    code: Seq<char>,
    context: Seq<char>,
    provider: LlmProvider,
    is_summary: bool,
)
    ensures
        ({
            let p = refine_prompt(spec, code, context, provider, is_summary);
            &&& text::contains(p, code)
            &&& text::contains(p, context)
            &&& text::contains(
                p,
                text::join(function_names(spec.exposes, spec.exposes.len() as int), ", "@),
            )
        }),
{
    let p = refine_prompt(spec, code, context, provider, is_summary);
    let a = "You are adding behavioral contracts to an existing specification.\n\n## Existing spec:\n"@
        + text::join(crate::ai_refine::spec_lines(spec), "\n"@) + "\n\n## Functions to specify: "@;
    let names = text::join(function_names(spec.exposes, spec.exposes.len() as int), ", "@);
    let section = super::dependency_section(context);
    let label = super::code_label(is_summary);
    let end = crate::ai_refine::REFINEMENT_INSTRUCTIONS@ + crate::behavioral::llm::prompt_end(
        provider,
    );
    let tail = "\n"@ + section + "\n"@ + label + "\n```\n"@ + code + end;
    assert(p =~= a + names + tail);
    lemma_within(a, names, tail);
    let head = a + names + "\n"@ + section + "\n"@ + label + "\n```\n"@;
    assert(p =~= head + code + end);
    lemma_within(head, code, end);
    if context.len() > 0 {
        let h = a + names + "\n"@ + "\n## Dependencies (already specified):\n"@;
        let t = "\n"@ + "\n"@ + label + "\n```\n"@ + code + end;
        assert(p =~= h + context + t);
        lemma_within(h, context, t);
    } else {
        assert(p.subrange(0, 0) =~= context);
        assert(text::occurs_at(p, context, 0));
    }
}

/// Functions are named, and nothing else is.
pub proof fn functions_are_named(exposes: Seq<(Seq<char>, ExposeSpecModel)>, k: int)
    requires
        0 < k <= exposes.len(),
    ensures
        exposes[k - 1].1.kind == Some("function"@) ==> function_names(exposes, k)
            == function_names(exposes, k - 1).push(exposes[k - 1].0),
        exposes[k - 1].1.kind != Some("function"@) ==> function_names(exposes, k)
            == function_names(exposes, k - 1),
{
}

/// Modules that depend on a function are told its contract, or else its description; of other
/// entities they are told nothing.
pub proof fn contracts_are_told(name: Seq<char>, e: ExposeSpecModel)
    ensures
        e.kind != Some("function"@) ==> context_line((name, e)).len() == 0,
        e.kind == Some("function"@) && e.requires.len() == 0 && e.ensures.len() == 0 ==> (
        e.description matches Some(d) ==> context_line((name, e)) == seq![
            "  - "@ + name + ": "@ + d,
        ]),
        e.kind == Some("function"@) && e.requires.len() > 0 && e.ensures.len() == 0
            ==> context_line((name, e)) == seq![
            "  - "@ + name + ": "@ + ("requires: "@ + text::join(e.requires, ", "@)),
        ],
        e.kind == Some("function"@) && e.requires.len() == 0 && e.ensures.len() > 0
            ==> context_line((name, e)) == seq![
            "  - "@ + name + ": "@ + ("ensures: "@ + text::join(e.ensures, ", "@)),
        ],
{
    let parts = crate::ai_refine::contract_parts(e);
    if e.requires.len() > 0 && e.ensures.len() == 0 {
        assert(parts =~= seq!["requires: "@ + text::join(e.requires, ", "@)]);
    }
    if e.requires.len() == 0 && e.ensures.len() > 0 {
        assert(parts =~= seq!["ensures: "@ + text::join(e.ensures, ", "@)]);
    }
}

/// A model of Anthropic is sent the whole code, and a local one a summary.
pub proof fn local_models_get_summaries(
    config: LlmConfigModel,
    source: Seq<char>,
    m: ExtractedModuleModel,
    reserved: nat,
    context: Seq<char>,
)
    ensures
        config.provider == LlmProvider::Anthropic ==> code_for(
            config,
            source,
            m,
            reserved,
            context,
        ) == (source, false),
        config.provider == LlmProvider::OpenAICompatible ==> ({
            let sent = code_for(config, source, m, reserved, context);
            sent.1 && exists|budget: nat| sent.0 == #[trigger] summary(m, budget)
        }),
{
    if config.provider == LlmProvider::OpenAICompatible {
        let budget = super::code_budget(config, reserved, context);
        assert(code_for(config, source, m, reserved, context).0 == summary(m, budget));
    }
}

/// Of functions a summary holds the signatures: those of public ones marked as such, before
/// those of others.
pub proof fn summaries_hold_signatures(m: ExtractedModuleModel, k: int)
    requires
        0 < k <= m.function_signatures.len(),
    ensures
        ({
            let (name, signature) = m.function_signatures[k - 1];
            if m.public_functions.contains(name) {
                &&& signatures(m, true, k) == signatures(m, true, k - 1).push("pub "@ + signature)
                &&& signatures(m, false, k) == signatures(m, false, k - 1)
            } else {
                &&& signatures(m, false, k) == signatures(m, false, k - 1).push(signature)
                &&& signatures(m, true, k) == signatures(m, true, k - 1)
            }
        }),
{
}

/// What is left of the tokens of a model, besides those that are reserved and those of the text
/// that comes with the question, is for the code; a token is taken for three bytes. An answer may
/// be twice as long where the model is a local one.
pub proof fn code_fits_what_is_left(config: LlmConfigModel, reserved: nat, context: Seq<char>)
    ensures
        ({
            let used = reserved + vstd::utf8::encode_utf8(context).len() / 3;
            &&& used >= config.context_size ==> code_budget(config, reserved, context) == 0
            &&& used < config.context_size && (config.context_size - used) * 3 <= usize::MAX
                ==> code_budget(config, reserved, context) + used * 3 == config.context_size * 3
        }),
        enrichment_limit(LlmProvider::Anthropic) == 2048,
        enrichment_limit(LlmProvider::OpenAICompatible) == 2 * enrichment_limit(
            LlmProvider::Anthropic,
        ),
{
}

} // verus!

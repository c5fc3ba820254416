//! Specs that a language model helps to complete: what functions require, ensure and modify,
//! and the invariants of a module.
use vstd::prelude::*;

use crate::ai_init::{
    code_for, code_label, dependency_section, end_prompt, label_code, select_code,
    write_dependency_section,
};
use crate::behavioral::llm::{prompt_end, LlmConfig, LlmProvider, LlmRequest};
use crate::data::{
    add_names, append_item, key_index, keys, lemma_key_index, lookup, with_entry, with_known_names,
    with_names, with_names_is_union, with_names_keeps_list, Duplicate, StringMap,
};
use crate::extractors::ExtractedModule;
use crate::spec::{ExposeSpec, ExposeSpecModel, ModuleSpec, ModuleSpecModel};
use crate::text;

verus! {

// ─── Refinements ──────────────────────────────────────────────────────────────

/// What a language model says of the behavior of an entity.
#[derive(Debug)]
pub struct EntityRefinement {
    pub name: String,
    pub requires: Vec<String>,
    pub ensures: Vec<String>,
    pub modifies: Vec<String>,
}

/// What a [`EntityRefinement`] holds.
#[verifier::ext_equal]
pub struct EntityRefinementModel {
    pub name: Seq<char>,
    pub requires: Seq<Seq<char>>,
    pub ensures: Seq<Seq<char>>,
    pub modifies: Seq<Seq<char>>,
}

impl DeepView for EntityRefinement {
    type V = EntityRefinementModel;

    open spec fn deep_view(&self) -> EntityRefinementModel {
        EntityRefinementModel {
            name: self.name.deep_view(),
            requires: self.requires.deep_view(),
            ensures: self.ensures.deep_view(),
            modifies: self.modifies.deep_view(),
        }
    }
}

/// What a language model says of the behavior of a module.
#[derive(Debug)]
pub struct SpecRefinement {
    pub entities: Vec<EntityRefinement>,
    /// Invariants of the module as a whole.
    pub invariants: Vec<String>,
}

/// What a [`SpecRefinement`] holds.
#[verifier::ext_equal]
pub struct SpecRefinementModel {
    pub entities: Seq<EntityRefinementModel>,
    pub invariants: Seq<Seq<char>>,
}

impl DeepView for SpecRefinement {
    type V = SpecRefinementModel;

    open spec fn deep_view(&self) -> SpecRefinementModel {
        SpecRefinementModel {
            entities: self.entities.deep_view(),
            invariants: self.invariants.deep_view(),
        }
    }
}

// ─── Prompts ──────────────────────────────────────────────────────────────────

/// A line of a spec that is there only if a value is.
pub open spec fn optional_line(before: Seq<char>, value: Option<Seq<char>>, after: Seq<char>) -> Seq<
    Seq<char>,
> {
    match value {
        Some(v) => seq![before + v + after],
        None => Seq::empty(),
    }
}

pub open spec fn or_else(value: Option<Seq<char>>, other: Seq<char>) -> Seq<char> {
    match value {
        Some(v) => v,
        None => other,
    }
}

pub open spec fn entity_line(e: (Seq<char>, ExposeSpecModel)) -> Seq<char> {
    "  "@ + e.0 + " ("@ + or_else(e.1.kind, "unknown"@) + "): "@ + or_else(e.1.description, ""@)
}

pub open spec fn entity_lines(exposes: Seq<(Seq<char>, ExposeSpecModel)>) -> Seq<Seq<char>> {
    exposes.map_values(|e: (Seq<char>, ExposeSpecModel)| entity_line(e))
}

pub open spec fn invariant_lines(invariants: Seq<Seq<char>>) -> Seq<Seq<char>> {
    if invariants.len() == 0 {
        Seq::empty()
    } else {
        seq!["invariants:"@] + text::prefixed("  - "@, invariants)
    }
}

/// What a prompt says of a spec, line by line.
pub open spec fn spec_lines(spec: ModuleSpecModel) -> Seq<Seq<char>> {
    seq!["module: "@ + spec.module] + optional_line("description: \""@, spec.description, "\""@)
        + optional_line("layer: "@, spec.layer, ""@) + seq!["exposes:"@] + entity_lines(
        spec.exposes,
    ) + invariant_lines(spec.invariants)
}

fn value_or<'a>(value: &'a Option<String>, other: &'a str) -> (r: &'a str)
    ensures
        r@ == or_else(value.deep_view(), other@),
{
    match value {
        Some(v) => v.as_str(),
        None => other,
    }
}

fn append_all(lines: &mut Vec<String>, more: Vec<String>)
    ensures
        final(lines).deep_view() == old(lines).deep_view() + more.deep_view(),
{
    let ghost start = lines.deep_view();
    let ghost added = more.deep_view();
    let mut rest = more;
    lines.append(&mut rest);
    assert(lines.deep_view() =~= start + added);
}

fn write_entity_lines(exposes: &StringMap<ExposeSpec>) -> (r: Vec<String>)
    ensures
        r.deep_view() == entity_lines(exposes.deep_view()),
{
    let ghost all = entity_lines(exposes.deep_view());
    let mut lines: Vec<String> = Vec::new();
    let mut i: usize = 0;
    assert(lines.deep_view() =~= all.take(0));
    while i < exposes.len()
        invariant
            i <= exposes.deep_view().len(),
            all == entity_lines(exposes.deep_view()),
            lines.deep_view() == all.take(i as int),
        decreases exposes.deep_view().len() - i,
    {
        let entity = exposes.value(i);
        let mut line = "  ".to_owned();
        line.append(exposes.key(i));
        line.append(" (");
        line.append(value_or(&entity.kind, "unknown"));
        line.append("): ");
        line.append(value_or(&entity.description, ""));
        append_item(&mut lines, line);
        assert(all.take(i + 1) =~= all.take(i as int).push(all[i as int]));
        i += 1;
    }
    assert(all.take(all.len() as int) =~= all);
    lines
}

/// Writes what a prompt says of a spec.
pub fn format_existing_spec(spec: &ModuleSpec) -> (r: String)
    ensures
        r@ == text::join(spec_lines(spec.deep_view()), "\n"@),
{
    let ghost model = spec.deep_view();
    let mut lines: Vec<String> = Vec::new();
    let mut head = "module: ".to_owned();
    head.append(spec.module.as_str());
    append_item(&mut lines, head);
    match &spec.description {
        Some(d) => {
            let mut line = "description: \"".to_owned();
            line.append(d.as_str());
            line.append("\"");
            append_item(&mut lines, line);
        },
        None => {},
    }
    match &spec.layer {
        Some(l) => {
            let mut line = "layer: ".to_owned();
            line.append(l.0.as_str());
            line.append("");
            append_item(&mut lines, line);
        },
        None => {},
    }
    append_item(&mut lines, "exposes:".to_owned());
    assert(lines.deep_view() =~= seq!["module: "@ + model.module] + optional_line(
        "description: \""@,
        model.description,
        "\""@,
    ) + optional_line("layer: "@, model.layer, ""@) + seq!["exposes:"@]);
    append_all(&mut lines, write_entity_lines(&spec.exposes));
    if spec.invariants.len() > 0 {
        let ghost before = lines.deep_view();
        append_item(&mut lines, "invariants:".to_owned());
        append_all(&mut lines, text::prefix_all("  - ", &spec.invariants));
        assert(lines.deep_view() =~= before + invariant_lines(model.invariants));
    }
    assert(lines.deep_view() =~= spec_lines(model));
    text::join_strings(lines.as_slice(), "\n")
}

/// What a function requires and ensures, in a line of context.
pub open spec fn contract_parts(e: ExposeSpecModel) -> Seq<Seq<char>> {
    (if e.requires.len() > 0 {
        seq!["requires: "@ + text::join(e.requires, ", "@)]
    } else {
        Seq::empty()
    }) + (if e.ensures.len() > 0 {
        seq!["ensures: "@ + text::join(e.ensures, ", "@)]
    } else {
        Seq::empty()
    })
}

pub open spec fn is_function(e: ExposeSpecModel) -> bool {
    e.kind == Some("function"@)
}

/// The line on an entity in the context for modules that depend on it: on the contract of a
/// function, or else on its description, if there is either.
pub open spec fn context_line(e: (Seq<char>, ExposeSpecModel)) -> Seq<Seq<char>> {
    let parts = contract_parts(e.1);
    if !is_function(e.1) {
        Seq::empty()
    } else if parts.len() > 0 {
        seq!["  - "@ + e.0 + ": "@ + text::join(parts, "; "@)]
    } else {
        match e.1.description {
            Some(d) => seq!["  - "@ + e.0 + ": "@ + d],
            None => Seq::empty(),
        }
    }
}

/// The lines on the first `k` entities.
pub open spec fn context_lines(exposes: Seq<(Seq<char>, ExposeSpecModel)>, k: int) -> Seq<Seq<char>>
    decreases k,
{
    if k <= 0 || k > exposes.len() {
        Seq::empty()
    } else {
        context_lines(exposes, k - 1) + context_line(exposes[k - 1])
    }
}

/// The lines on a module in the context for those that depend on it.
pub open spec fn module_context(spec: ModuleSpecModel) -> Seq<char> {
    text::join(
        seq!["- "@ + spec.module + ": "@ + or_else(spec.description, spec.module)]
            + context_lines(spec.exposes, spec.exposes.len() as int),
        "\n"@,
    )
}

/// The context of a module: the specs of the modules that it depends on.
pub open spec fn dependency_context(deps: Seq<ModuleSpecModel>) -> Seq<char> {
    text::join(deps.map_values(|s: ModuleSpecModel| module_context(s)), "\n"@)
}

fn kind_is_function(e: &ExposeSpec) -> (b: bool)
    ensures
        b == is_function(e.deep_view()),
{
    match &e.kind {
        Some(kind) => text::same(kind.as_str(), "function"),
        None => false,
    }
}

fn add_context_line(name: &str, e: &ExposeSpec, lines: &mut Vec<String>)
    ensures
        final(lines).deep_view() == old(lines).deep_view() + context_line((name@, e.deep_view())),
{
    let ghost start = lines.deep_view();
    let ghost model = e.deep_view();
    if !kind_is_function(e) {
        assert(start + Seq::<Seq<char>>::empty() =~= start);
        return;
    }
    let mut parts: Vec<String> = Vec::new();
    if e.requires.len() > 0 {
        let mut part = "requires: ".to_owned();
        part.append(text::join_strings(e.requires.as_slice(), ", ").as_str());
        append_item(&mut parts, part);
    }
    if e.ensures.len() > 0 {
        let mut part = "ensures: ".to_owned();
        part.append(text::join_strings(e.ensures.as_slice(), ", ").as_str());
        append_item(&mut parts, part);
    }
    assert(parts.deep_view() =~= contract_parts(model));
    let mut line = "  - ".to_owned();
    line.append(name);
    line.append(": ");
    let length: usize = parts.len();
    assert(length == contract_parts(model).len());
    if length > 0 {
        line.append(text::join_strings(parts.as_slice(), "; ").as_str());
        append_item(lines, line);
    } else {
        match &e.description {
            Some(d) => {
                line.append(d.as_str());
                append_item(lines, line);
            },
            None => {},
        }
    }
    assert(lines.deep_view() =~= start + context_line((name@, model)));
}

fn write_module_context(spec: &ModuleSpec) -> (r: String)
    ensures
        r@ == module_context(spec.deep_view()),
{
    let ghost model = spec.deep_view();
    let mut head = "- ".to_owned();
    head.append(spec.module.as_str());
    head.append(": ");
    head.append(value_or(&spec.description, spec.module.as_str()));
    let ghost first = seq![head@];
    let mut lines: Vec<String> = Vec::new();
    append_item(&mut lines, head);
    let mut i: usize = 0;
    assert(lines.deep_view() =~= first + context_lines(model.exposes, 0));
    while i < spec.exposes.len()
        invariant
            i <= spec.exposes.deep_view().len(),
            model == spec.deep_view(),
            lines.deep_view() == first + context_lines(model.exposes, i as int),
        decreases spec.exposes.deep_view().len() - i,
    {
        add_context_line(spec.exposes.key(i), spec.exposes.value(i), &mut lines);
        assert(lines.deep_view() =~= first + context_lines(model.exposes, i + 1));
        i += 1;
    }
    text::join_strings(lines.as_slice(), "\n")
}

/// Writes the context of a module from the specs of the modules that it depends on.
pub fn format_dep_context(dep_specs: &[&ModuleSpec]) -> (r: String)
    ensures
        r@ == dependency_context(dep_specs.deep_view()),
{
    let ghost all = dep_specs.deep_view().map_values(|s: ModuleSpecModel| module_context(s));
    let mut parts: Vec<String> = Vec::new();
    let mut i: usize = 0;
    assert(parts.deep_view() =~= all.take(0));
    while i < dep_specs.len()
        invariant
            i <= dep_specs@.len(),
            all == dep_specs.deep_view().map_values(|s: ModuleSpecModel| module_context(s)),
            parts.deep_view() == all.take(i as int),
        decreases dep_specs@.len() - i,
    {
        assert(dep_specs.deep_view()[i as int] == dep_specs@[i as int].deep_view());
        append_item(&mut parts, write_module_context(dep_specs[i]));
        assert(all.take(i + 1) =~= all.take(i as int).push(all[i as int]));
        i += 1;
    }
    assert(all.take(all.len() as int) =~= all);
    text::join_strings(parts.as_slice(), "\n")
}

/// The names of those of the first `k` entities that are functions.
pub open spec fn function_names(exposes: Seq<(Seq<char>, ExposeSpecModel)>, k: int) -> Seq<
    Seq<char>,
>
    decreases k,
{
    if k <= 0 || k > exposes.len() {
        Seq::empty()
    } else if is_function(exposes[k - 1].1) {
        function_names(exposes, k - 1).push(exposes[k - 1].0)
    } else {
        function_names(exposes, k - 1)
    }
}

/// The prompt that asks for a refinement.
pub open spec fn refine_prompt(
    spec: ModuleSpecModel,
    code: Seq<char>,
    context: Seq<char>,
    provider: LlmProvider,
    is_summary: bool,
) -> Seq<char> {
    "You are adding behavioral contracts to an existing specification.\n\n## Existing spec:\n"@
        + text::join(spec_lines(spec), "\n"@) + "\n\n## Functions to specify: "@ + text::join(
        function_names(spec.exposes, spec.exposes.len() as int),
        ", "@,
    ) + "\n"@ + dependency_section(context) + "\n"@ + code_label(is_summary) + "\n```\n"@ + code
        + REFINEMENT_INSTRUCTIONS@ + prompt_end(provider)
}

/// What a model is asked to do with a spec.
pub const REFINEMENT_INSTRUCTIONS: &'static str = "\n```\n\n## Instructions:\nRead the source code and produce a JSON object with behavioral contracts:\n\n1. \"entities\": Array of objects for each function that has meaningful contracts:\n   {\n     \"name\": \"function_name\",\n     \"requires\": [\"precondition 1\", ...],\n     \"ensures\": [\"postcondition 1\", ...],\n     \"modifies\": [\"state 1\", ...]\n   }\n\n   Guidelines for contracts:\n   - \"requires\": Preconditions callers must satisfy. Examples: \"amount > 0\", \"connection is open\", \"input is not empty\". Skip if the function accepts any valid input.\n   - \"ensures\": Postconditions guaranteed on return. Examples: \"returns sorted list\", \"emits DepositEvent\", \"file handle is closed on error\". Focus on what's NOT obvious from the return type.\n   - \"modifies\": State the function changes. Examples: \"self.balance\", \"global registry\". Skip for pure functions.\n\n2. \"invariants\": Array of strings — module-level properties that always hold. Focus on:\n   - Error handling: \"all public functions return Result, never panic\"\n   - Safety: \"no unsafe code\", \"thread-safe\"\n   - Ordering: \"events emitted after state update\"\n   - Design decisions: \"cache keys are deterministic (SHA256)\"\n\nDo NOT:\n- Restate type signatures (\"takes a u64 parameter\")\n- State the obvious (\"returns a Result\" when the type says so)\n- Write vague specs (\"handles errors correctly\")\n\nRespond with ONLY a JSON object, no other text.";

/// Builds the prompt that asks for a refinement.
pub fn build_refine_prompt(
    spec: &ModuleSpec,
    source_code: &str,
    dep_context: &str,
    provider: &LlmProvider,
    is_summary: bool,
) -> (r: String)
    ensures
        r@ == refine_prompt(
            spec.deep_view(),
            source_code@,
            dep_context@,
            *provider,
            is_summary,
        ),
{
    let mut names: Vec<String> = Vec::new();
    let mut i: usize = 0;
    assert(names.deep_view() =~= Seq::empty());
    while i < spec.exposes.len()
        invariant
            i <= spec.exposes.deep_view().len(),
            names.deep_view() == function_names(spec.exposes.deep_view(), i as int),
        decreases spec.exposes.deep_view().len() - i,
    {
        if kind_is_function(spec.exposes.value(i)) {
            append_item(&mut names, spec.exposes.key(i).to_owned());
        }
        i += 1;
    }
    let mut prompt =
        "You are adding behavioral contracts to an existing specification.\n\n## Existing spec:\n".to_owned();
    prompt.append(format_existing_spec(spec).as_str());
    prompt.append("\n\n## Functions to specify: ");
    prompt.append(text::join_strings(names.as_slice(), ", ").as_str());
    prompt.append("\n");
    prompt.append(write_dependency_section(dep_context).as_str());
    prompt.append("\n");
    prompt.append(label_code(is_summary));
    prompt.append("\n```\n");
    prompt.append(source_code);
    prompt.append(REFINEMENT_INSTRUCTIONS);
    prompt.append(end_prompt(provider));
    prompt
}

/// Builds the request that asks a model for a refinement of a spec.
pub fn refinement_request(
    spec: &ModuleSpec,
    source_code: &str,
    extracted: &ExtractedModule,
    config: &LlmConfig,
    dep_context: &str,
) -> (r: LlmRequest)
    ensures
        ({
            let (code, is_summary) = code_for(
                config.deep_view(),
                source_code@,
                extracted.deep_view(),
                2500,
                dep_context@,
            );
            r.deep_view() == config.deep_view().request(
                refine_prompt(
                    spec.deep_view(),
                    code,
                    dep_context@,
                    config.provider,
                    is_summary,
                ),
                4096,
            )
        }),
{
    let (code, is_summary) = select_code(config, source_code, extracted, 2500, dep_context);
    let prompt = build_refine_prompt(
        spec,
        code.as_str(),
        dep_context,
        &config.provider,
        is_summary,
    );
    config.request(prompt, 4096)
}

// ─── Applying refinements ─────────────────────────────────────────────────────

/// An entity with a refinement.
pub open spec fn refined_entity(e: ExposeSpecModel, r: EntityRefinementModel) -> ExposeSpecModel {
    ExposeSpecModel {
        requires: with_names(e.requires, r.requires),
        ensures: with_names(e.ensures, r.ensures),
        modifies: with_names(e.modifies, r.modifies),
        ..e
    }
}

/// Entities with one refinement. One of an entity that is not exposed changes nothing.
pub open spec fn with_refinement(
    exposes: Seq<(Seq<char>, ExposeSpecModel)>,
    r: EntityRefinementModel,
) -> Seq<(Seq<char>, ExposeSpecModel)> {
    match lookup(exposes, r.name) {
        Some(e) => with_entry(exposes, r.name, refined_entity(e, r)),
        None => exposes,
    }
}

/// Entities with the first `k` refinements.
pub open spec fn with_refinements(
    exposes: Seq<(Seq<char>, ExposeSpecModel)>,
    refinements: Seq<EntityRefinementModel>,
    k: int,
) -> Seq<(Seq<char>, ExposeSpecModel)>
    decreases k,
{
    if k <= 0 || k > refinements.len() {
        exposes
    } else {
        with_refinement(with_refinements(exposes, refinements, k - 1), refinements[k - 1])
    }
}

/// A spec with a refinement.
pub open spec fn refined(spec: ModuleSpecModel, r: SpecRefinementModel) -> ModuleSpecModel {
    ModuleSpecModel {
        exposes: with_refinements(spec.exposes, r.entities, r.entities.len() as int),
        invariants: with_names(spec.invariants, r.invariants),
        ..spec
    }
}

/// Applies a refinement to a spec. It only adds to what is there.
pub fn apply_refinement(spec: &mut ModuleSpec, refinement: SpecRefinement)
    ensures
        final(spec).deep_view() == refined(old(spec).deep_view(), refinement.deep_view()),
        old(spec).wf() ==> final(spec).wf(),
{
    let ghost start = spec.deep_view();
    let ghost was_wf = spec.wf();
    let ghost all = refinement.entities.deep_view();
    let mut i: usize = 0;
    while i < refinement.entities.len()
        invariant
            i <= refinement.entities@.len(),
            all == refinement.entities.deep_view(),
            spec.deep_view() == (ModuleSpecModel {
                exposes: with_refinements(start.exposes, all, i as int),
                ..start
            }),
            was_wf ==> spec.wf(),
        decreases refinement.entities@.len() - i,
    {
        let r = &refinement.entities[i];
        assert(all[i as int] == r.deep_view());
        let found = match spec.exposes.get(r.name.as_str()) {
            Some(e) => Some(e.duplicate()),
            None => None,
        };
        match found {
            Some(e) => {
                let mut entity = e;
                add_names(&mut entity.requires, &r.requires);
                add_names(&mut entity.ensures, &r.ensures);
                add_names(&mut entity.modifies, &r.modifies);
                spec.exposes.insert(r.name.clone(), entity);
            },
            None => {},
        }
        i += 1;
    }
    add_names(&mut spec.invariants, &refinement.invariants);
}

// ─── Laws ─────────────────────────────────────────────────────────────────────

/// Whether a list begins with all of another.
pub open spec fn extends(list: Seq<Seq<char>>, other: Seq<Seq<char>>) -> bool {
    other.len() <= list.len() && list.take(other.len() as int) == other
}

/// Whether an entity has all that another has, and more clauses at most.
pub open spec fn entity_extends(e: ExposeSpecModel, other: ExposeSpecModel) -> bool {
    &&& extends(e.requires, other.requires)
    &&& extends(e.ensures, other.ensures)
    &&& extends(e.modifies, other.modifies)
    &&& e == (ExposeSpecModel {
        requires: e.requires,
        ensures: e.ensures,
        modifies: e.modifies,
        ..other
    })
}

/// Whether entities have all that others have, and more clauses at most.
pub open spec fn entities_extend(
    exposes: Seq<(Seq<char>, ExposeSpecModel)>,
    other: Seq<(Seq<char>, ExposeSpecModel)>,
) -> bool {
    &&& exposes.len() == other.len()
    &&& forall|i: int|
        0 <= i < other.len() ==> (#[trigger] exposes[i]).0 == other[i].0 && entity_extends(
            exposes[i].1,
            other[i].1,
        )
}

/// A refinement removes nothing: every entity stays in its place, every clause stays where it
/// was, and so does every invariant.
pub proof fn refinements_remove_nothing(spec: ModuleSpecModel, r: SpecRefinementModel)
    ensures
        entities_extend(refined(spec, r).exposes, spec.exposes),
        extends(refined(spec, r).invariants, spec.invariants),
        refined(spec, r) == (ModuleSpecModel {
            exposes: refined(spec, r).exposes,
            invariants: refined(spec, r).invariants,
            ..spec
        }),
{
    lemma_refinements_extend(spec.exposes, r.entities, r.entities.len() as int);
    with_names_keeps_list(spec.invariants, r.invariants);
}

proof fn lemma_extends_in_turn(a: Seq<Seq<char>>, b: Seq<Seq<char>>, c: Seq<Seq<char>>)
    requires
        extends(b, a),
        extends(c, b),
    ensures
        extends(c, a),
{
    assert(c.take(a.len() as int) =~= c.take(b.len() as int).take(a.len() as int));
}

proof fn lemma_extends_itself(a: Seq<Seq<char>>)
    ensures
        extends(a, a),
{
    assert(a.take(a.len() as int) =~= a);
}

proof fn lemma_refinements_extend(
    exposes: Seq<(Seq<char>, ExposeSpecModel)>,
    refinements: Seq<EntityRefinementModel>,
    k: int,
)
    ensures
        entities_extend(with_refinements(exposes, refinements, k), exposes),
    decreases k,
{
    if 0 < k <= refinements.len() {
        lemma_refinements_extend(exposes, refinements, k - 1);
        let before = with_refinements(exposes, refinements, k - 1);
        let r = refinements[k - 1];
        let now = with_refinement(before, r);
        lemma_key_index(before, r.name);
        let at = key_index(before, r.name);
        assert forall|i: int| 0 <= i < exposes.len() implies (#[trigger] now[i]).0 == exposes[i].0
            && entity_extends(now[i].1, exposes[i].1) by {
            assert(before[i].0 == exposes[i].0);
            if i == at {
                let e = before[i].1;
                with_names_keeps_list(e.requires, r.requires);
                with_names_keeps_list(e.ensures, r.ensures);
                with_names_keeps_list(e.modifies, r.modifies);
                let o = exposes[i].1;
                lemma_extends_in_turn(o.requires, e.requires, with_names(e.requires, r.requires));
                lemma_extends_in_turn(o.ensures, e.ensures, with_names(e.ensures, r.ensures));
                lemma_extends_in_turn(o.modifies, e.modifies, with_names(e.modifies, r.modifies));
            }
        }
    } else {
        assert forall|i: int| 0 <= i < exposes.len() implies entity_extends(
            #[trigger] exposes[i].1,
            exposes[i].1,
        ) by {
            lemma_extends_itself(exposes[i].1.requires);
            lemma_extends_itself(exposes[i].1.ensures);
            lemma_extends_itself(exposes[i].1.modifies);
        }
    }
}

/// Whether a list holds all names of another.
pub open spec fn holds_all(list: Seq<Seq<char>>, names: Seq<Seq<char>>) -> bool {
    forall|i: int| 0 <= i < names.len() ==> list.contains(#[trigger] names[i])
}

/// Whether the entity that a refinement is about, if there is one, says all that it says.
pub open spec fn has_refinement(
    exposes: Seq<(Seq<char>, ExposeSpecModel)>,
    r: EntityRefinementModel,
) -> bool {
    match lookup(exposes, r.name) {
        Some(e) => holds_all(e.requires, r.requires) && holds_all(e.ensures, r.ensures)
            && holds_all(e.modifies, r.modifies),
        None => true,
    }
}

/// Applying a refinement twice is the same as applying it once.
pub proof fn refining_twice(spec: ModuleSpecModel, r: SpecRefinementModel)
    ensures
        refined(refined(spec, r), r) == refined(spec, r),
{
    let n = r.entities.len() as int;
    let once = with_refinements(spec.exposes, r.entities, n);
    lemma_refined(spec.exposes, r.entities, n);
    lemma_refined_again(once, r.entities, n);
    lemma_holds_added(spec.invariants, r.invariants);
    with_known_names(with_names(spec.invariants, r.invariants), r.invariants);
}

proof fn lemma_holds_added(list: Seq<Seq<char>>, names: Seq<Seq<char>>)
    ensures
        holds_all(with_names(list, names), names),
{
    assert forall|i: int| 0 <= i < names.len() implies with_names(list, names).contains(
        #[trigger] names[i],
    ) by {
        with_names_is_union(list, names, names[i]);
        assert(names.contains(names[i]));
    }
}

proof fn lemma_holds_more(list: Seq<Seq<char>>, more: Seq<Seq<char>>, names: Seq<Seq<char>>)
    requires
        holds_all(list, names),
        extends(more, list),
    ensures
        holds_all(more, names),
{
    assert forall|i: int| 0 <= i < names.len() implies more.contains(#[trigger] names[i]) by {
        assert(list.contains(names[i]));
        let p = choose|p: int| 0 <= p < list.len() && list[p] == names[i];
        assert(more.take(list.len() as int)[p] == more[p]);
    }
}

proof fn lemma_same_keys(
    exposes: Seq<(Seq<char>, ExposeSpecModel)>,
    other: Seq<(Seq<char>, ExposeSpecModel)>,
    key: Seq<char>,
)
    requires
        entities_extend(exposes, other),
    ensures
        key_index(exposes, key) == key_index(other, key),
    decreases other.len(),
{
    if other.len() > 0 {
        assert(exposes[0].0 == other[0].0);
        let a = exposes.drop_first();
        let b = other.drop_first();
        assert forall|i: int| 0 <= i < b.len() implies (#[trigger] a[i]).0 == b[i].0
            && entity_extends(a[i].1, b[i].1) by {
            assert(exposes[i + 1].0 == other[i + 1].0);
        }
        lemma_same_keys(a, b, key);
    }
}

/// Entities with refinements say all that these say.
proof fn lemma_refined(
    exposes: Seq<(Seq<char>, ExposeSpecModel)>,
    refinements: Seq<EntityRefinementModel>,
    k: int,
)
    requires
        0 <= k <= refinements.len(),
    ensures
        forall|i: int|
            0 <= i < k ==> has_refinement(
                with_refinements(exposes, refinements, k),
                #[trigger] refinements[i],
            ),
    decreases k,
{
    if k > 0 {
        lemma_refined(exposes, refinements, k - 1);
        let before = with_refinements(exposes, refinements, k - 1);
        let now = with_refinements(exposes, refinements, k);
        let r = refinements[k - 1];
        assert(with_refinements(before, refinements.skip(k - 1), 1) == now) by {
            reveal_with_fuel(with_refinements, 2);
            assert(refinements.skip(k - 1)[0] == r);
        }
        lemma_refinements_extend(before, refinements.skip(k - 1), 1);
        lemma_key_index(before, r.name);
        assert forall|i: int| 0 <= i < k implies has_refinement(
            now,
            #[trigger] refinements[i],
        ) by {
            let x = refinements[i];
            lemma_same_keys(now, before, x.name);
            lemma_key_index(before, x.name);
            let at = key_index(before, x.name);
            if at < before.len() {
                let e = before[at].1;
                let f = now[at].1;
                assert(entity_extends(f, e));
                if i < k - 1 {
                    assert(has_refinement(before, x));
                    lemma_holds_more(e.requires, f.requires, x.requires);
                    lemma_holds_more(e.ensures, f.ensures, x.ensures);
                    lemma_holds_more(e.modifies, f.modifies, x.modifies);
                } else {
                    lemma_holds_added(e.requires, r.requires);
                    lemma_holds_added(e.ensures, r.ensures);
                    lemma_holds_added(e.modifies, r.modifies);
                }
            }
        }
    }
}

/// Refinements that entities already say change nothing.
proof fn lemma_refined_again(
    exposes: Seq<(Seq<char>, ExposeSpecModel)>,
    refinements: Seq<EntityRefinementModel>,
    k: int,
)
    requires
        0 <= k <= refinements.len(),
        forall|i: int|
            0 <= i < refinements.len() ==> has_refinement(exposes, #[trigger] refinements[i]),
    ensures
        with_refinements(exposes, refinements, k) == exposes,
    decreases k,
{
    if k > 0 {
        lemma_refined_again(exposes, refinements, k - 1);
        let r = refinements[k - 1];
        assert(has_refinement(exposes, r));
        lemma_key_index(exposes, r.name);
        let at = key_index(exposes, r.name);
        if at < exposes.len() {
            let e = exposes[at].1;
            with_known_names(e.requires, r.requires);
            with_known_names(e.ensures, r.ensures);
            with_known_names(e.modifies, r.modifies);
            assert(refined_entity(e, r) =~= e);
            assert(exposes.update(at, (r.name, e)) =~= exposes);
        }
    }
}

} // verus!

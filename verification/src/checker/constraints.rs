//! Checking type formulas.
use vstd::prelude::*;

use super::{
    add_finding, collected, error_finding, finding_if, is_kind, lemma_collected_all,
    lemma_collected_step, ConstraintKind, ConstraintResult, ConstraintResultModel,
    ConstraintSeverity, VerificationTier,
};
use crate::data::{append_item, lookup};
use crate::extractors::{ExtractedModule, ExtractedModuleModel};
use crate::spec::{ExposeSpec, ExposeSpecModel, ModuleSpec, ModuleSpecModel};
use crate::text;
use crate::type_formula::eval::{eval_formula, evaluate_formula, ContextModel, TypeEvalContext};
use crate::type_formula::parser::{checked_parse_formula, formula_reading};

verus! {

/// An error that was found by evaluating a type formula.
pub open spec fn formula_finding(message: Seq<char>) -> ConstraintResultModel {
    ConstraintResultModel {
        kind: ConstraintKind::TypeConstraint,
        tier: VerificationTier::TypeFormula,
        severity: ConstraintSeverity::Error,
        message,
    }
}

/// What is found of a formula on an entity: nothing where it holds.
pub open spec fn constraint_findings(entity: Seq<char>, ctx: ContextModel) -> spec_fn(
    Seq<char>,
) -> Seq<ConstraintResultModel> {
    |constraint: Seq<char>|
        match formula_reading(constraint) {
            Some(Ok(formula)) => match eval_formula(formula, ctx) {
                Ok(true) => Seq::empty(),
                Ok(false) => seq![
                    formula_finding(
                        "'"@ + entity + "' violates type constraint: "@ + constraint,
                    ),
                ],
                Err(e) => seq![
                    formula_finding(
                        "'"@ + entity + "' type constraint evaluation error for '"@ + constraint
                            + "': "@ + ("Evaluation error: "@ + e),
                    ),
                ],
            },
            Some(Err(e)) => seq![
                formula_finding(
                    "'"@ + entity + "' type constraint parse error for '"@ + constraint + "': "@
                        + ("Parse error at position "@ + text::decimal(e.position as nat) + ": "@
                        + e.message),
                ),
            ],
            None => Seq::empty(),
        }
}

/// What the formulas of an entity are evaluated against: the type or the function of that
/// name. None where the entity is a variable, or was not found.
pub open spec fn entity_context(entry: (Seq<char>, ExposeSpecModel), m: ExtractedModuleModel) ->
    Option<ContextModel> {
    if entry.1.type_constraints.len() == 0 || entry.1.kind == Some("variable"@) {
        None
    } else if entry.1.kind == Some("type"@) {
        match lookup(m.type_definitions, entry.0) {
            Some(ti) => Some(
                ContextModel {
                    self_type: Some(ti),
                    function: None,
                    type_defs: m.type_definitions,
                    function_defs: m.function_info,
                },
            ),
            None => None,
        }
    } else {
        match lookup(m.function_info, entry.0) {
            Some(fi) => Some(
                ContextModel {
                    self_type: None,
                    function: Some(fi),
                    type_defs: m.type_definitions,
                    function_defs: m.function_info,
                },
            ),
            None => None,
        }
    }
}

/// What is found of the formulas of an entity. That a function is missing is found elsewhere.
pub open spec fn entity_findings(m: ExtractedModuleModel) -> spec_fn(
    (Seq<char>, ExposeSpecModel),
) -> Seq<ConstraintResultModel> {
    |entry: (Seq<char>, ExposeSpecModel)|
        match entity_context(entry, m) {
            Some(ctx) => collected(entry.1.type_constraints, constraint_findings(entry.0, ctx)),
            None => finding_if(
                entry.1.type_constraints.len() != 0 && entry.1.kind != Some("variable"@)
                    && entry.1.kind == Some("type"@),
                error_finding(
                    ConstraintKind::TypeConstraint,
                    "Type '"@ + entry.0 + "' is specified but not found in implementation"@,
                ),
            ),
        }
}

/// Whether every formula of an entity that is evaluated has a reading.
pub open spec fn entity_readable(entry: (Seq<char>, ExposeSpecModel), m: ExtractedModuleModel) ->
    bool {
    entity_context(entry, m) is Some ==> formulas_readable(entry.1.type_constraints)
}

pub open spec fn formulas_readable(constraints: Seq<Seq<char>>) -> bool {
    forall|i: int|
        0 <= i < constraints.len() ==> formula_reading(#[trigger] constraints[i]) is Some
}

/// Whether every formula of a spec that is evaluated has a reading.
pub open spec fn constraints_readable(spec: ModuleSpecModel, m: ExtractedModuleModel) -> bool {
    forall|i: int|
        0 <= i < spec.exposes.len() ==> entity_readable(#[trigger] spec.exposes[i], m)
}

/// Whether no formula holds a `<`.
pub open spec fn formulas_plain(constraints: Seq<Seq<char>>) -> bool {
    forall|i: int| 0 <= i < constraints.len() ==> text::lacks(#[trigger] constraints[i], '<')
}

/// Whether no formula of a spec holds a `<`.
pub open spec fn constraints_plain(spec: ModuleSpecModel) -> bool {
    forall|i: int|
        0 <= i < spec.exposes.len() ==> formulas_plain(
            (#[trigger] spec.exposes[i]).1.type_constraints,
        )
}

fn push_formula_finding(out: &mut Vec<ConstraintResult>, message: String)
    ensures
        final(out).deep_view() == old(out).deep_view() + seq![formula_finding(message@)],
{
    let ghost start = out.deep_view();
    append_item(
        out,
        ConstraintResult {
            kind: ConstraintKind::TypeConstraint,
            tier: VerificationTier::TypeFormula,
            severity: ConstraintSeverity::Error,
            message,
        },
    );
    assert(out.deep_view() =~= start + seq![formula_finding(message@)]);
}

/// Evaluates the formulas of an entity, or says that one of them has no reading.
fn eval_constraints(
    entity: &str,
    constraints: &Vec<String>,
    ctx: &TypeEvalContext,
    out: &mut Vec<ConstraintResult>,
) -> (b: bool)
    ensures
        b == formulas_readable(constraints.deep_view()),
        formulas_plain(constraints.deep_view()) ==> b,
        b ==> final(out).deep_view() == old(out).deep_view() + collected(
            constraints.deep_view(),
            constraint_findings(entity@, ctx.deep_view()),
        ),
{
    let ghost start = out.deep_view();
    let ghost items = constraints.deep_view();
    let ghost f = constraint_findings(entity@, ctx.deep_view());
    proof {
        lemma_collected_all(items, f);
    }
    assert(start + Seq::empty() =~= start);
    let mut i: usize = 0;
    while i < constraints.len()
        invariant
            i <= items.len(),
            items == constraints.deep_view(),
            f == constraint_findings(entity@, ctx.deep_view()),
            forall|j: int| 0 <= j < i ==> formula_reading(#[trigger] items[j]) is Some,
            out.deep_view() == start + collected(items.take(i as int), f),
        decreases items.len() - i,
    {
        proof {
            lemma_collected_step(items, f, i as int);
        }
        let ghost done = collected(items.take(i as int), f);
        let constraint = constraints[i].as_str();
        assert(items[i as int] == constraint@);
        match checked_parse_formula(constraint) {
            Some(Ok(formula)) => match evaluate_formula(&formula, ctx) {
                Ok(true) => {},
                Ok(false) => {
                    let mut message = "'".to_owned();
                    message.append(entity);
                    message.append("' violates type constraint: ");
                    message.append(constraint);
                    push_formula_finding(out, message);
                },
                Err(e) => {
                    let mut message = "'".to_owned();
                    message.append(entity);
                    message.append("' type constraint evaluation error for '");
                    message.append(constraint);
                    message.append("': ");
                    message.append(e.to_string().as_str());
                    push_formula_finding(out, message);
                },
            },
            Some(Err(e)) => {
                let mut message = "'".to_owned();
                message.append(entity);
                message.append("' type constraint parse error for '");
                message.append(constraint);
                message.append("': ");
                message.append(e.to_string().as_str());
                push_formula_finding(out, message);
            },
            None => {
                assert(formula_reading(items[i as int]) is None);
                assert(!text::lacks(items[i as int], '<'));
                return false;
            },
        }
        assert(out.deep_view() =~= start + (done + f(items[i as int])));
        i += 1;
    }
    true
}

fn check_entity(
    name: &str,
    entity: &ExposeSpec,
    extracted: &ExtractedModule,
    out: &mut Vec<ConstraintResult>,
) -> (b: bool)
    ensures
        b == entity_readable((name@, entity.deep_view()), extracted.deep_view()),
        formulas_plain(entity.deep_view().type_constraints) ==> b,
        b ==> final(out).deep_view() == old(out).deep_view() + entity_findings(
            extracted.deep_view(),
        )((name@, entity.deep_view())),
{
    let ghost start = out.deep_view();
    assert(start + Seq::empty() =~= start);
    if entity.type_constraints.len() == 0 || is_kind(&entity.kind, "variable") {
        return true;
    }
    if is_kind(&entity.kind, "type") {
        match extracted.type_definitions.get(name) {
            Some(ti) => {
                let ctx = TypeEvalContext {
                    self_type: Some(ti),
                    function: None,
                    type_defs: &extracted.type_definitions,
                    function_defs: &extracted.function_info,
                };
                eval_constraints(name, &entity.type_constraints, &ctx, out)
            },
            None => {
                add_finding(
                    out,
                    true,
                    ConstraintKind::TypeConstraint,
                    ConstraintSeverity::Error,
                    "Type '",
                    name,
                    "' is specified but not found in implementation",
                );
                true
            },
        }
    } else {
        match extracted.function_info.get(name) {
            Some(fi) => {
                let ctx = TypeEvalContext {
                    self_type: None,
                    function: Some(fi),
                    type_defs: &extracted.type_definitions,
                    function_defs: &extracted.function_info,
                };
                eval_constraints(name, &entity.type_constraints, &ctx, out)
            },
            None => true,
        }
    }
}

/// Checks the formulas of all exposed entities, or says that one has no reading.
pub(crate) fn check_type_constraints(
    spec: &ModuleSpec,
    extracted: &ExtractedModule,
    out: &mut Vec<ConstraintResult>,
) -> (b: bool)
    ensures
        b == constraints_readable(spec.deep_view(), extracted.deep_view()),
        constraints_plain(spec.deep_view()) ==> b,
        b ==> final(out).deep_view() == old(out).deep_view() + collected(
            spec.deep_view().exposes,
            entity_findings(extracted.deep_view()),
        ),
{
    let ghost start = out.deep_view();
    let ghost items = spec.exposes.deep_view();
    let ghost m = extracted.deep_view();
    let ghost f = entity_findings(m);
    proof {
        lemma_collected_all(items, f);
    }
    assert(start + Seq::empty() =~= start);
    let mut i: usize = 0;
    while i < spec.exposes.len()
        invariant
            i <= items.len(),
            items == spec.exposes.deep_view(),
            items == spec.deep_view().exposes,
            m == extracted.deep_view(),
            f == entity_findings(m),
            forall|j: int| 0 <= j < i ==> entity_readable(#[trigger] items[j], m),
            out.deep_view() == start + collected(items.take(i as int), f),
        decreases items.len() - i,
    {
        proof {
            lemma_collected_step(items, f, i as int);
        }
        let ghost done = collected(items.take(i as int), f);
        let readable = check_entity(spec.exposes.key(i), spec.exposes.value(i), extracted, out);
        if !readable {
            assert(!entity_readable(items[i as int], m));
            assert(!formulas_plain(items[i as int].1.type_constraints));
            return false;
        }
        assert(out.deep_view() =~= start + (done + f(items[i as int])));
        i += 1;
    }
    true
}

} // verus!

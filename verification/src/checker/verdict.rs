//! Which specs pass the check of their modules, and why others do not.
use vstd::prelude::*;

use super::constraints::{
    constraint_findings, constraints_readable, entity_context, entity_findings, formulas_readable,
};
use super::module::{checkable, findings_are_errors_or_warnings, module_findings};
use super::protocol::{
    dead_end_findings, pair_findings, protocol_findings, terminal_findings, transition_findings,
    unreachable_findings,
};
use super::{
    architectural_findings, collected, conflict_finding, conflict_findings, dependency_findings,
    dependency_violations, event_findings, expose_findings, forbidden_finding, forbidden_findings,
    foreign_state_findings, import_findings, messages, missing_findings, module_name_of, result_of,
    state_findings, violation_findings, without_spaces, ConstraintKind, ConstraintResultModel,
    ConstraintSeverity, SpecCheckerModel,
};
use crate::data::lookup;
use crate::extractors::ExtractedModuleModel;
use crate::rules::{
    expression_value, rule_outcome, violations_from, EvalContextModel, RuleModel,
    RuleViolationModel, Severity,
};
use crate::spec::{ExposeSpecModel, ModuleSpecModel, ProtocolSpecModel};
use crate::text;
use crate::type_formula::ast::FormulaModel;
use crate::type_formula::eval::{eval_formula, ContextModel};
use crate::type_formula::parser::formula_reading;

verus! {

// ─── Findings ─────────────────────────────────────────────────────────────────

/// Whether something of a kind and a severity is among the findings.
pub open spec fn reported(
    findings: Seq<ConstraintResultModel>,
    kind: ConstraintKind,
    severity: ConstraintSeverity,
) -> bool {
    exists|i: int|
        0 <= i < findings.len() && (#[trigger] findings[i]).kind == kind && findings[i].severity
            == severity
}

pub(crate) proof fn lemma_reported_either(
    a: Seq<ConstraintResultModel>,
    b: Seq<ConstraintResultModel>,
    kind: ConstraintKind,
    severity: ConstraintSeverity,
)
    ensures
        reported(a + b, kind, severity) <==> reported(a, kind, severity) || reported(
            b,
            kind,
            severity,
        ),
{
    let all = a + b;
    if reported(a, kind, severity) {
        let i = choose|i: int|
            0 <= i < a.len() && (#[trigger] a[i]).kind == kind && a[i].severity == severity;
        assert(all[i] == a[i]);
    }
    if reported(b, kind, severity) {
        let i = choose|i: int|
            0 <= i < b.len() && (#[trigger] b[i]).kind == kind && b[i].severity == severity;
        assert(all[a.len() + i] == b[i]);
    }
    if reported(all, kind, severity) {
        let i = choose|i: int|
            0 <= i < all.len() && (#[trigger] all[i]).kind == kind && all[i].severity == severity;
        if i < a.len() {
            assert(a[i] == all[i]);
        } else {
            assert(b[i - a.len()] == all[i]);
        }
    }
}

pub(crate) proof fn lemma_reported_each<T>(
    items: Seq<T>,
    f: spec_fn(T) -> Seq<ConstraintResultModel>,
    kind: ConstraintKind,
    severity: ConstraintSeverity,
)
    ensures
        reported(collected(items, f), kind, severity) <==> exists|i: int|
            0 <= i < items.len() && reported(f(#[trigger] items[i]), kind, severity),
    decreases items.len(),
{
    if items.len() > 0 {
        let front = items.drop_last();
        let last = items.len() - 1;
        lemma_reported_each(front, f, kind, severity);
        lemma_reported_either(collected(front, f), f(items.last()), kind, severity);
        if exists|i: int| 0 <= i < items.len() && reported(f(#[trigger] items[i]), kind, severity) {
            let i = choose|i: int|
                0 <= i < items.len() && reported(f(#[trigger] items[i]), kind, severity);
            if i < last {
                assert(front[i] == items[i]);
            }
        }
        if exists|i: int| 0 <= i < front.len() && reported(f(#[trigger] front[i]), kind, severity) {
            let i = choose|i: int|
                0 <= i < front.len() && reported(f(#[trigger] front[i]), kind, severity);
            assert(items[i] == front[i]);
        }
        if reported(f(items.last()), kind, severity) {
            assert(reported(f(items[last]), kind, severity));
        }
    }
}

/// Something is an error, or a warning, exactly where it is among the findings with that
/// severity.
pub proof fn results_list_the_findings(findings: Seq<ConstraintResultModel>)
    ensures
        result_of(findings).errors.len() == 0 <==> forall|kind: ConstraintKind|
            !#[trigger] reported(findings, kind, ConstraintSeverity::Error),
        result_of(findings).warnings.len() == 0 <==> forall|kind: ConstraintKind|
            !#[trigger] reported(findings, kind, ConstraintSeverity::Warning),
        forall|i: int|
            0 <= i < findings.len() && (#[trigger] findings[i]).severity
                == ConstraintSeverity::Error ==> result_of(findings).errors.contains(
                findings[i].message,
            ),
        forall|i: int|
            0 <= i < findings.len() && (#[trigger] findings[i]).severity
                == ConstraintSeverity::Warning ==> result_of(findings).warnings.contains(
                findings[i].message,
            ),
{
    findings_are_errors_or_warnings(findings);
    lemma_messages(findings, ConstraintSeverity::Error);
    lemma_messages(findings, ConstraintSeverity::Warning);
    lemma_any_message(findings, ConstraintSeverity::Error);
    lemma_any_message(findings, ConstraintSeverity::Warning);
}

proof fn lemma_messages(findings: Seq<ConstraintResultModel>, severity: ConstraintSeverity)
    ensures
        messages(findings, severity).len() == 0 <==> forall|i: int|
            0 <= i < findings.len() ==> (#[trigger] findings[i]).severity != severity,
        forall|i: int|
            0 <= i < findings.len() && (#[trigger] findings[i]).severity == severity ==> messages(
                findings,
                severity,
            ).contains(findings[i].message),
    decreases findings.len(),
{
    if findings.len() > 0 {
        let front = findings.drop_last();
        let last = findings.len() - 1;
        let all = messages(findings, severity);
        lemma_messages(front, severity);
        assert forall|i: int|
            0 <= i < findings.len() && (#[trigger] findings[i]).severity == severity implies all.contains(
            findings[i].message,
        ) by {
            if i < last {
                assert(front[i] == findings[i]);
                let before = messages(front, severity);
                let k = choose|k: int| 0 <= k < before.len() && before[k] == findings[i].message;
                assert(all[k] == before[k]);
            } else {
                assert(all[all.len() - 1] == findings[i].message);
            }
        }
        if all.len() == 0 {
            assert forall|i: int| 0 <= i < findings.len() implies (#[trigger] findings[i]).severity
                != severity by {
                if i < last {
                    assert(front[i].severity != severity);
                }
            }
        } else if findings.last().severity == severity {
            assert(findings[last].severity == severity);
        } else {
            let i = choose|i: int|
                0 <= i < front.len() && (#[trigger] front[i]).severity == severity;
            assert(findings[i] == front[i]);
        }
    }
}

proof fn lemma_any_message(findings: Seq<ConstraintResultModel>, severity: ConstraintSeverity)
    ensures
        (forall|i: int|
            0 <= i < findings.len() ==> (#[trigger] findings[i]).severity != severity) <==> forall|
            kind: ConstraintKind,
        |
            !#[trigger] reported(findings, kind, severity),
{
    if forall|kind: ConstraintKind| !#[trigger] reported(findings, kind, severity) {
        assert forall|i: int| 0 <= i < findings.len() implies (#[trigger] findings[i]).severity
            != severity by {
            assert(!reported(findings, findings[i].kind, severity));
        }
    }
}

// ─── What is wrong with a module ──────────────────────────────────────────────

/// Whether an exposed entity is missing: a type that is not defined, a variable that is no
/// state, or a function that is not public.
pub open spec fn is_missing(entry: (Seq<char>, ExposeSpecModel), m: ExtractedModuleModel) -> bool {
    if entry.1.kind == Some("type"@) {
        forall|i: int|
            0 <= i < m.type_definitions.len() ==> (#[trigger] m.type_definitions[i]).0 != entry.0
    } else if entry.1.kind == Some("variable"@) {
        !m.state_variables.contains(entry.0)
    } else {
        !m.public_functions.contains(entry.0)
    }
}

/// Whether an exposed public function has another signature than the spec gives it.
pub open spec fn is_misspelled(entry: (Seq<char>, ExposeSpecModel), m: ExtractedModuleModel) -> bool {
    &&& entry.1.kind != Some("type"@)
    &&& entry.1.kind != Some("variable"@)
    &&& m.public_functions.contains(entry.0)
    &&& entry.1.signature is Some
    &&& lookup(m.function_signatures, entry.0) is Some
    &&& without_spaces(entry.1.signature->Some_0) != without_spaces(
        lookup(m.function_signatures, entry.0)->Some_0,
    )
}

/// Whether a formula holds of what it is about.
pub open spec fn holds(constraint: Seq<char>, ctx: ContextModel) -> bool {
    exists|f: FormulaModel|
        formula_reading(constraint) == Some(
            Ok::<FormulaModel, crate::type_formula::ast::ParseErrorModel>(f),
        ) && #[trigger] eval_formula(f, ctx) == Ok::<bool, Seq<char>>(true)
}

/// What the formulas on a type are about.
pub open spec fn about_type(name: Seq<char>, m: ExtractedModuleModel) -> ContextModel {
    ContextModel {
        self_type: lookup(m.type_definitions, name),
        function: None,
        type_defs: m.type_definitions,
        function_defs: m.function_info,
    }
}

/// What the formulas on a function are about.
pub open spec fn about_function(name: Seq<char>, m: ExtractedModuleModel) -> ContextModel {
    ContextModel {
        self_type: None,
        function: lookup(m.function_info, name),
        type_defs: m.type_definitions,
        function_defs: m.function_info,
    }
}

/// Whether some formula on an entity that the module has does not hold, or is on a type that
/// the module does not have.
pub open spec fn is_violated(entry: (Seq<char>, ExposeSpecModel), m: ExtractedModuleModel) -> bool {
    let constraints = entry.1.type_constraints;
    if entry.1.kind == Some("variable"@) {
        false
    } else if entry.1.kind == Some("type"@) {
        exists|k: int|
            0 <= k < constraints.len() && (lookup(m.type_definitions, entry.0) is None || !holds(
                #[trigger] constraints[k],
                about_type(entry.0, m),
            ))
    } else {
        lookup(m.function_info, entry.0) is Some && exists|k: int|
            0 <= k < constraints.len() && !holds(
                #[trigger] constraints[k],
                about_function(entry.0, m),
            )
    }
}

/// Whether an import holds one of the texts.
pub open spec fn holds_one_of(import: Seq<char>, texts: Seq<Seq<char>>) -> bool {
    exists|k: int| 0 <= k < texts.len() && text::contains(import, #[trigger] texts[k])
}

/// Whether an import is of a module that a spec lists, or of a package that it lists, or of
/// the standard library.
pub open spec fn is_accounted_for(import: Seq<char>, spec: ModuleSpecModel) -> bool {
    ||| exists|k: int|
        0 <= k < spec.depends_on.len() && text::contains(
            import,
            module_name_of(#[trigger] spec.depends_on[k]),
        )
    ||| holds_one_of(import, spec.external_deps)
    ||| text::starts_with(import, "std::"@)
    ||| text::starts_with(import, "core::"@)
    ||| text::starts_with(import, "alloc::"@)
}

/// Whether a dependency breaks a rule with a severity: the rule applies and what it requires
/// does not hold. A rule that has an error weighs as one.
pub open spec fn is_broken(rule: RuleModel, ctx: EvalContextModel, severity: Severity) -> bool {
    match expression_value(rule.when, ctx) {
        Ok(true) => match expression_value(rule.require, ctx) {
            Ok(holds) => !holds && rule.severity == severity,
            Err(_) => severity == Severity::Error,
        },
        Ok(false) => false,
        Err(_) => severity == Severity::Error,
    }
}

/// Whether a dependency on a known module breaks some rule with a severity.
pub open spec fn breaks_a_rule(
    c: SpecCheckerModel,
    spec: ModuleSpecModel,
    dep: Seq<char>,
    severity: Severity,
) -> bool {
    lookup(c.spec_map, dep) is Some && exists|k: int|
        0 <= k < c.rules.len() && is_broken(
            #[trigger] c.rules[k],
            (EvalContextModel {
                source: spec,
                target: lookup(c.spec_map, dep)->Some_0,
                layers: c.layers,
            }),
            severity,
        )
}

/// Whether another module owns a state.
pub open spec fn is_owned_by_another(
    c: SpecCheckerModel,
    spec: ModuleSpecModel,
    state: Seq<char>,
) -> bool {
    exists|k: int|
        0 <= k < c.spec_map.len() && (#[trigger] c.spec_map[k]).1.module != spec.module
            && c.spec_map[k].1.owns_state.contains(state)
}

/// Whether one of some states is owned by no other module, where modules are known.
pub open spec fn is_orphaned(
    c: SpecCheckerModel,
    spec: ModuleSpecModel,
    states: Seq<Seq<char>>,
) -> bool {
    c.spec_map.len() > 0 && exists|k: int|
        0 <= k < states.len() && !is_owned_by_another(c, spec, #[trigger] states[k])
}

/// Whether one of some names is not in a list.
pub open spec fn lacks_one_of(list: Seq<Seq<char>>, names: Seq<Seq<char>>) -> bool {
    exists|k: int| 0 <= k < names.len() && !list.contains(#[trigger] names[k])
}

/// Whether a protocol speaks of a state that it does not list, or of a function that the
/// module does not have.
pub open spec fn is_unsound(p: ProtocolSpecModel, m: ExtractedModuleModel) -> bool {
    let known = |state: Seq<char>| p.states.len() == 0 || p.states.contains(state);
    let exists_in = |name: Seq<char>|
        m.public_functions.contains(name) || m.private_functions.contains(name);
    ||| !known(p.initial)
    ||| exists|k: int| 0 <= k < p.terminal.len() && !known(#[trigger] p.terminal[k])
    ||| exists|k: int|
        0 <= k < p.transitions.len() && (!known((#[trigger] p.transitions[k]).from) || !known(
            p.transitions[k].to,
        ) || !exists_in(p.transitions[k].call))
    ||| exists|k: int|
        0 <= k < p.balanced_pairs.len() && (!exists_in((#[trigger] p.balanced_pairs[k]).0)
            || !exists_in(p.balanced_pairs[k].1))
}

/// Whether a protocol lists a state that nothing leads to, or that is not terminal and that
/// nothing leads out of.
pub open spec fn is_incomplete(p: ProtocolSpecModel) -> bool {
    exists|k: int|
        0 <= k < p.states.len() && ({
            let state = #[trigger] p.states[k];
            ||| state != p.initial && forall|j: int|
                0 <= j < p.transitions.len() ==> (#[trigger] p.transitions[j]).to != state
            ||| !p.terminal.contains(state) && forall|j: int|
                0 <= j < p.transitions.len() ==> (#[trigger] p.transitions[j]).from != state
        })
}

/// Whether something of a kind is wrong with a module, so that it weighs as an error or as a
/// warning.
pub open spec fn is_wrong(
    c: SpecCheckerModel,
    spec: ModuleSpecModel,
    m: ExtractedModuleModel,
    kind: ConstraintKind,
    severity: ConstraintSeverity,
) -> bool {
    match (kind, severity) {
        (ConstraintKind::Structure, ConstraintSeverity::Error) => {
            ||| exists|i: int| 0 <= i < spec.exposes.len() && is_missing(#[trigger] spec.exposes[i], m)
            ||| lacks_one_of(m.state_variables, spec.owns_state)
        },
        (ConstraintKind::Structure, ConstraintSeverity::Warning) => {
            ||| exists|i: int|
                0 <= i < spec.exposes.len() && is_misspelled(#[trigger] spec.exposes[i], m)
            ||| spec.owns_state.len() > 0 && lacks_one_of(spec.owns_state, m.state_variables)
        },
        (ConstraintKind::Dependency, ConstraintSeverity::Error) => exists|i: int|
            0 <= i < m.imports.len() && (holds_one_of(#[trigger] m.imports[i], spec.forbidden_deps)
                || holds_one_of(m.imports[i], spec.forbidden_external)),
        (ConstraintKind::Dependency, ConstraintSeverity::Warning) => {
            ||| spec.depends_on.len() > 0 && exists|i: int|
                0 <= i < m.imports.len() && !is_accounted_for(#[trigger] m.imports[i], spec)
            ||| is_orphaned(c, spec, spec.reads_state)
            ||| is_orphaned(c, spec, spec.modifies)
        },
        (ConstraintKind::Architectural, ConstraintSeverity::Error) => {
            ||| exists|i: int|
                0 <= i < spec.depends_on.len() && breaks_a_rule(
                    c,
                    spec,
                    #[trigger] spec.depends_on[i],
                    Severity::Error,
                )
            ||| exists|i: int|
                0 <= i < spec.owns_state.len() && is_owned_by_another(
                    c,
                    spec,
                    #[trigger] spec.owns_state[i],
                )
        },
        (ConstraintKind::Architectural, ConstraintSeverity::Warning) => exists|i: int|
            0 <= i < spec.depends_on.len() && breaks_a_rule(
                c,
                spec,
                #[trigger] spec.depends_on[i],
                Severity::Warning,
            ),
        (ConstraintKind::Event, ConstraintSeverity::Error) => lacks_one_of(m.events, spec.emits),
        (ConstraintKind::Event, ConstraintSeverity::Warning) => spec.emits.len() > 0
            && lacks_one_of(spec.emits, m.events),
        (ConstraintKind::TypeConstraint, ConstraintSeverity::Error) => exists|i: int|
            0 <= i < spec.exposes.len() && is_violated(#[trigger] spec.exposes[i], m),
        (ConstraintKind::TypeConstraint, ConstraintSeverity::Warning) => false,
        (ConstraintKind::Protocol, ConstraintSeverity::Error) => spec.protocol is Some
            && is_unsound(spec.protocol->Some_0, m),
        (ConstraintKind::Protocol, ConstraintSeverity::Warning) => spec.protocol is Some
            && is_incomplete(spec.protocol->Some_0),
    }
}

// ─── The parts of a check ─────────────────────────────────────────────────────

proof fn lemma_one(
    finding: ConstraintResultModel,
    kind: ConstraintKind,
    severity: ConstraintSeverity,
)
    ensures
        reported(seq![finding], kind, severity) <==> finding.kind == kind && finding.severity
            == severity,
        !reported(Seq::empty(), kind, severity),
{
    assert(seq![finding][0] == finding);
}

proof fn lemma_none(kind: ConstraintKind, severity: ConstraintSeverity)
    ensures
        !reported(Seq::empty(), kind, severity),
{
}

proof fn lemma_missing_names(
    items: Seq<Seq<char>>,
    others: Seq<Seq<char>>,
    of: ConstraintKind,
    weight: ConstraintSeverity,
    before: Seq<char>,
    after: Seq<char>,
    kind: ConstraintKind,
    severity: ConstraintSeverity,
)
    ensures
        reported(
            collected(items, missing_findings(others, of, weight, before, after)),
            kind,
            severity,
        ) <==> kind == of && severity == weight && lacks_one_of(others, items),
{
    let f = missing_findings(others, of, weight, before, after);
    lemma_reported_each(items, f, kind, severity);
    assert forall|i: int| 0 <= i < items.len() implies (reported(
        f(#[trigger] items[i]),
        kind,
        severity,
    ) <==> kind == of && severity == weight && !others.contains(items[i])) by {
        if !others.contains(items[i]) {
            lemma_one(f(items[i])[0], kind, severity);
            assert(f(items[i]) =~= seq![f(items[i])[0]]);
        } else {
            lemma_none(kind, severity);
        }
    }
    if exists|i: int| 0 <= i < items.len() && reported(f(#[trigger] items[i]), kind, severity) {
        let i = choose|i: int|
            0 <= i < items.len() && reported(f(#[trigger] items[i]), kind, severity);
        assert(!others.contains(items[i]));
    }
    if kind == of && severity == weight && lacks_one_of(others, items) {
        let k = choose|k: int| 0 <= k < items.len() && !others.contains(#[trigger] items[k]);
        assert(reported(f(items[k]), kind, severity));
    }
}

proof fn lemma_exposes(
    spec: ModuleSpecModel,
    m: ExtractedModuleModel,
    kind: ConstraintKind,
    severity: ConstraintSeverity,
)
    ensures
        reported(collected(spec.exposes, expose_findings(m)), kind, severity) <==> kind
            == ConstraintKind::Structure && exists|i: int|
            0 <= i < spec.exposes.len() && (if severity == ConstraintSeverity::Error {
                is_missing(#[trigger] spec.exposes[i], m)
            } else {
                is_misspelled(spec.exposes[i], m)
            }),
{
    let f = expose_findings(m);
    lemma_reported_each(spec.exposes, f, kind, severity);
    assert forall|i: int| 0 <= i < spec.exposes.len() implies (reported(
        f(#[trigger] spec.exposes[i]),
        kind,
        severity,
    ) <==> kind == ConstraintKind::Structure && (if severity == ConstraintSeverity::Error {
        is_missing(spec.exposes[i], m)
    } else {
        is_misspelled(spec.exposes[i], m)
    })) by {
        let entry = spec.exposes[i];
        crate::data::lemma_key_index(m.type_definitions, entry.0);
        if f(entry).len() > 0 {
            lemma_one(f(entry)[0], kind, severity);
            assert(f(entry) =~= seq![f(entry)[0]]);
        } else {
            lemma_none(kind, severity);
        }
    }
}

proof fn lemma_dependencies(
    spec: ModuleSpecModel,
    m: ExtractedModuleModel,
    kind: ConstraintKind,
    severity: ConstraintSeverity,
)
    ensures
        reported(dependency_findings(spec, m), kind, severity) <==> kind
            == ConstraintKind::Dependency && severity == ConstraintSeverity::Warning
            && spec.depends_on.len() > 0 && exists|i: int|
            0 <= i < m.imports.len() && !is_accounted_for(#[trigger] m.imports[i], spec),
{
    let f = import_findings(spec);
    lemma_reported_each(m.imports, f, kind, severity);
    lemma_none(kind, severity);
    assert forall|i: int| 0 <= i < m.imports.len() implies (reported(
        f(#[trigger] m.imports[i]),
        kind,
        severity,
    ) <==> kind == ConstraintKind::Dependency && severity == ConstraintSeverity::Warning
        && !is_accounted_for(m.imports[i], spec)) by {
        let import = m.imports[i];
        if f(import).len() > 0 {
            lemma_one(f(import)[0], kind, severity);
            assert(f(import) =~= seq![f(import)[0]]);
        }
    }
}

proof fn lemma_forbidden_list(
    list: Seq<Seq<char>>,
    intro: Seq<char>,
    module: Seq<char>,
    import: Seq<char>,
    kind: ConstraintKind,
    severity: ConstraintSeverity,
)
    ensures
        reported(collected(list, forbidden_finding(intro, module, import)), kind, severity) <==> kind
            == ConstraintKind::Dependency && severity == ConstraintSeverity::Error && holds_one_of(
            import,
            list,
        ),
{
    let f = forbidden_finding(intro, module, import);
    lemma_reported_each(list, f, kind, severity);
    assert forall|i: int| 0 <= i < list.len() implies (reported(
        f(#[trigger] list[i]),
        kind,
        severity,
    ) <==> kind == ConstraintKind::Dependency && severity == ConstraintSeverity::Error
        && text::contains(import, list[i])) by {
        if f(list[i]).len() > 0 {
            lemma_one(f(list[i])[0], kind, severity);
            assert(f(list[i]) =~= seq![f(list[i])[0]]);
        } else {
            lemma_none(kind, severity);
        }
    }
}

proof fn lemma_forbidden(
    spec: ModuleSpecModel,
    m: ExtractedModuleModel,
    kind: ConstraintKind,
    severity: ConstraintSeverity,
)
    ensures
        reported(collected(m.imports, forbidden_findings(spec)), kind, severity) <==> kind
            == ConstraintKind::Dependency && severity == ConstraintSeverity::Error && exists|i: int|
            0 <= i < m.imports.len() && (holds_one_of(#[trigger] m.imports[i], spec.forbidden_deps)
                || holds_one_of(m.imports[i], spec.forbidden_external)),
{
    let f = forbidden_findings(spec);
    lemma_reported_each(m.imports, f, kind, severity);
    assert forall|i: int| 0 <= i < m.imports.len() implies (reported(
        f(#[trigger] m.imports[i]),
        kind,
        severity,
    ) <==> kind == ConstraintKind::Dependency && severity == ConstraintSeverity::Error && (
    holds_one_of(m.imports[i], spec.forbidden_deps) || holds_one_of(
        m.imports[i],
        spec.forbidden_external,
    ))) by {
        let import = m.imports[i];
        let deps = "Forbidden dependency: '"@;
        let external = "Forbidden external dependency: '"@;
        lemma_forbidden_list(spec.forbidden_deps, deps, spec.module, import, kind, severity);
        lemma_forbidden_list(spec.forbidden_external, external, spec.module, import, kind, severity);
        lemma_reported_either(
            collected(spec.forbidden_deps, forbidden_finding(deps, spec.module, import)),
            collected(spec.forbidden_external, forbidden_finding(external, spec.module, import)),
            kind,
            severity,
        );
    }
}

/// Whether one of the violations weighs so much.
pub open spec fn weighs(vs: Seq<RuleViolationModel>, severity: Severity) -> bool {
    exists|i: int| 0 <= i < vs.len() && (#[trigger] vs[i]).severity == severity
}

proof fn lemma_weighs_push(vs: Seq<RuleViolationModel>, v: RuleViolationModel, severity: Severity)
    ensures
        weighs(vs.push(v), severity) <==> weighs(vs, severity) || v.severity == severity,
{
    let all = vs.push(v);
    assert(all[vs.len() as int] == v);
    if weighs(vs, severity) {
        let i = choose|i: int| 0 <= i < vs.len() && (#[trigger] vs[i]).severity == severity;
        assert(all[i] == vs[i]);
    }
    if weighs(all, severity) {
        let i = choose|i: int| 0 <= i < all.len() && (#[trigger] all[i]).severity == severity;
        if i < vs.len() {
            assert(vs[i] == all[i]);
        }
    }
}

proof fn lemma_violations(
    rules: Seq<RuleModel>,
    i: int,
    done: Seq<RuleViolationModel>,
    ctx: EvalContextModel,
    severity: Severity,
)
    requires
        0 <= i <= rules.len(),
        violations_from(rules, i, done, ctx) is Some,
    ensures
        weighs(violations_from(rules, i, done, ctx)->Some_0, severity) <==> weighs(done, severity)
            || exists|k: int|
            i <= k < rules.len() && is_broken(#[trigger] rules[k], ctx, severity),
    decreases rules.len() - i,
{
    if i < rules.len() {
        let next = match rule_outcome(rules[i], ctx) {
            Some(Some(v)) => done.push(v),
            _ => done,
        };
        lemma_violations(rules, i + 1, next, ctx, severity);
        if let Some(Some(v)) = rule_outcome(rules[i], ctx) {
            lemma_weighs_push(done, v, severity);
        }
        assert(weighs(next, severity) <==> weighs(done, severity) || is_broken(
            rules[i],
            ctx,
            severity,
        ));
        if exists|k: int| i <= k < rules.len() && is_broken(#[trigger] rules[k], ctx, severity) {
            let k = choose|k: int|
                i <= k < rules.len() && is_broken(#[trigger] rules[k], ctx, severity);
            if k > i {
                assert(is_broken(rules[k], ctx, severity));
            }
        }
        if exists|k: int| i + 1 <= k < rules.len() && is_broken(#[trigger] rules[k], ctx, severity) {
            let k = choose|k: int|
                i + 1 <= k < rules.len() && is_broken(#[trigger] rules[k], ctx, severity);
            assert(is_broken(rules[k], ctx, severity));
        }
    }
}

/// How much a broken rule weighs among findings.
pub open spec fn rule_severity(severity: ConstraintSeverity) -> Severity {
    match severity {
        ConstraintSeverity::Error => Severity::Error,
        ConstraintSeverity::Warning => Severity::Warning,
    }
}

proof fn lemma_violation_findings(
    vs: Seq<RuleViolationModel>,
    kind: ConstraintKind,
    severity: ConstraintSeverity,
)
    ensures
        reported(violation_findings(vs), kind, severity) <==> kind == ConstraintKind::Architectural
            && weighs(vs, rule_severity(severity)),
{
    let all = violation_findings(vs);
    if reported(all, kind, severity) {
        let i = choose|i: int|
            0 <= i < all.len() && (#[trigger] all[i]).kind == kind && all[i].severity == severity;
        assert(vs[i].severity == rule_severity(severity));
    }
    if kind == ConstraintKind::Architectural && weighs(vs, rule_severity(severity)) {
        let i = choose|i: int|
            0 <= i < vs.len() && (#[trigger] vs[i]).severity == rule_severity(severity);
        assert(all[i].severity == severity);
    }
}

proof fn lemma_architecture(
    c: SpecCheckerModel,
    spec: ModuleSpecModel,
    kind: ConstraintKind,
    severity: ConstraintSeverity,
)
    requires
        super::rules_evaluable(c, spec),
    ensures
        reported(collected(spec.depends_on, architectural_findings(c, spec)), kind, severity)
            <==> kind == ConstraintKind::Architectural && exists|i: int|
            0 <= i < spec.depends_on.len() && breaks_a_rule(
                c,
                spec,
                #[trigger] spec.depends_on[i],
                rule_severity(severity),
            ),
{
    let f = architectural_findings(c, spec);
    lemma_reported_each(spec.depends_on, f, kind, severity);
    assert forall|i: int| 0 <= i < spec.depends_on.len() implies (reported(
        f(#[trigger] spec.depends_on[i]),
        kind,
        severity,
    ) <==> kind == ConstraintKind::Architectural && breaks_a_rule(
        c,
        spec,
        spec.depends_on[i],
        rule_severity(severity),
    )) by {
        let dep = spec.depends_on[i];
        match lookup(c.spec_map, dep) {
            Some(target) => {
                let ctx = EvalContextModel { source: spec, target, layers: c.layers };
                let vs = dependency_violations(c, spec, target)->Some_0;
                lemma_violations(c.rules, 0, Seq::empty(), ctx, rule_severity(severity));
                lemma_violation_findings(vs, kind, severity);
            },
            None => {
                lemma_none(kind, severity);
            },
        }
    }
}

proof fn lemma_events(
    spec: ModuleSpecModel,
    m: ExtractedModuleModel,
    kind: ConstraintKind,
    severity: ConstraintSeverity,
)
    ensures
        reported(event_findings(spec, m), kind, severity) <==> kind == ConstraintKind::Event && (
        if severity == ConstraintSeverity::Error {
            lacks_one_of(m.events, spec.emits)
        } else {
            spec.emits.len() > 0 && lacks_one_of(spec.emits, m.events)
        }),
{
    let lost = missing_findings(
        m.events,
        ConstraintKind::Event,
        ConstraintSeverity::Error,
        "Event '"@,
        "' is specified in emits but not found in implementation"@,
    );
    let unlisted = missing_findings(
        spec.emits,
        ConstraintKind::Event,
        ConstraintSeverity::Warning,
        "Event '"@,
        "' is defined in implementation but not in emits spec"@,
    );
    lemma_missing_names(
        spec.emits,
        m.events,
        ConstraintKind::Event,
        ConstraintSeverity::Error,
        "Event '"@,
        "' is specified in emits but not found in implementation"@,
        kind,
        severity,
    );
    lemma_missing_names(
        m.events,
        spec.emits,
        ConstraintKind::Event,
        ConstraintSeverity::Warning,
        "Event '"@,
        "' is defined in implementation but not in emits spec"@,
        kind,
        severity,
    );
    lemma_none(kind, severity);
    lemma_reported_either(
        collected(spec.emits, lost),
        if spec.emits.len() == 0 {
            Seq::empty()
        } else {
            collected(m.events, unlisted)
        },
        kind,
        severity,
    );
}

proof fn lemma_constraint(
    entity: Seq<char>,
    ctx: ContextModel,
    constraint: Seq<char>,
    kind: ConstraintKind,
    severity: ConstraintSeverity,
)
    requires
        formula_reading(constraint) is Some,
    ensures
        reported(constraint_findings(entity, ctx)(constraint), kind, severity) <==> kind
            == ConstraintKind::TypeConstraint && severity == ConstraintSeverity::Error && !holds(
            constraint,
            ctx,
        ),
{
    let found = constraint_findings(entity, ctx)(constraint);
    if found.len() > 0 {
        lemma_one(found[0], kind, severity);
        assert(found =~= seq![found[0]]);
    } else {
        lemma_none(kind, severity);
    }
    match formula_reading(constraint) {
        Some(Ok(f)) => {
            if eval_formula(f, ctx) == Ok::<bool, Seq<char>>(true) {
                assert(holds(constraint, ctx));
            }
        },
        _ => {},
    }
}

proof fn lemma_entity_constraints(
    entity: Seq<char>,
    ctx: ContextModel,
    constraints: Seq<Seq<char>>,
    kind: ConstraintKind,
    severity: ConstraintSeverity,
)
    requires
        formulas_readable(constraints),
    ensures
        reported(collected(constraints, constraint_findings(entity, ctx)), kind, severity) <==> kind
            == ConstraintKind::TypeConstraint && severity == ConstraintSeverity::Error && exists|
            k: int,
        |
            0 <= k < constraints.len() && !holds(#[trigger] constraints[k], ctx),
{
    let f = constraint_findings(entity, ctx);
    lemma_reported_each(constraints, f, kind, severity);
    assert forall|k: int| 0 <= k < constraints.len() implies (reported(
        f(#[trigger] constraints[k]),
        kind,
        severity,
    ) <==> kind == ConstraintKind::TypeConstraint && severity == ConstraintSeverity::Error
        && !holds(constraints[k], ctx)) by {
        lemma_constraint(entity, ctx, constraints[k], kind, severity);
    }
}

proof fn lemma_entity(
    entry: (Seq<char>, ExposeSpecModel),
    m: ExtractedModuleModel,
    kind: ConstraintKind,
    severity: ConstraintSeverity,
)
    requires
        entity_context(entry, m) is Some ==> formulas_readable(entry.1.type_constraints),
    ensures
        reported(entity_findings(m)(entry), kind, severity) <==> kind
            == ConstraintKind::TypeConstraint && severity == ConstraintSeverity::Error
            && is_violated(entry, m),
{
    reveal_strlit("type");
    reveal_strlit("variable");
    let found = entity_findings(m)(entry);
    let constraints = entry.1.type_constraints;
    match entity_context(entry, m) {
        Some(ctx) => {
            lemma_entity_constraints(entry.0, ctx, constraints, kind, severity);
            if entry.1.kind == Some("type"@) {
                assert(ctx == about_type(entry.0, m));
            } else {
                assert(ctx == about_function(entry.0, m));
            }
        },
        None => {
            if found.len() > 0 {
                lemma_one(found[0], kind, severity);
                assert(found =~= seq![found[0]]);
                assert(lookup(m.type_definitions, entry.0) is None);
                assert(0 < constraints.len());
                let first = constraints[0];
            } else {
                lemma_none(kind, severity);
            }
        },
    }
}

proof fn lemma_constraints(
    spec: ModuleSpecModel,
    m: ExtractedModuleModel,
    kind: ConstraintKind,
    severity: ConstraintSeverity,
)
    requires
        constraints_readable(spec, m),
    ensures
        reported(collected(spec.exposes, entity_findings(m)), kind, severity) <==> kind
            == ConstraintKind::TypeConstraint && severity == ConstraintSeverity::Error && exists|
            i: int,
        |
            0 <= i < spec.exposes.len() && is_violated(#[trigger] spec.exposes[i], m),
{
    let f = entity_findings(m);
    lemma_reported_each(spec.exposes, f, kind, severity);
    assert forall|i: int| 0 <= i < spec.exposes.len() implies (reported(
        f(#[trigger] spec.exposes[i]),
        kind,
        severity,
    ) <==> kind == ConstraintKind::TypeConstraint && severity == ConstraintSeverity::Error
        && is_violated(spec.exposes[i], m)) by {
        assert(super::constraints::entity_readable(spec.exposes[i], m));
        lemma_entity(spec.exposes[i], m, kind, severity);
    }
}

proof fn lemma_foreign_states(
    c: SpecCheckerModel,
    spec: ModuleSpecModel,
    states: Seq<Seq<char>>,
    before: Seq<char>,
    kind: ConstraintKind,
    severity: ConstraintSeverity,
)
    ensures
        reported(collected(states, foreign_state_findings(c, spec, before)), kind, severity) <==> kind
            == ConstraintKind::Dependency && severity == ConstraintSeverity::Warning && is_orphaned(
            c,
            spec,
            states,
        ),
{
    let f = foreign_state_findings(c, spec, before);
    lemma_reported_each(states, f, kind, severity);
    assert forall|i: int| 0 <= i < states.len() implies (reported(
        f(#[trigger] states[i]),
        kind,
        severity,
    ) <==> kind == ConstraintKind::Dependency && severity == ConstraintSeverity::Warning
        && c.spec_map.len() > 0 && !is_owned_by_another(c, spec, states[i])) by {
        if f(states[i]).len() > 0 {
            lemma_one(f(states[i])[0], kind, severity);
            assert(f(states[i]) =~= seq![f(states[i])[0]]);
        } else {
            lemma_none(kind, severity);
        }
    }
}

proof fn lemma_conflicts(
    c: SpecCheckerModel,
    spec: ModuleSpecModel,
    kind: ConstraintKind,
    severity: ConstraintSeverity,
)
    ensures
        reported(collected(spec.owns_state, conflict_findings(c, spec)), kind, severity) <==> kind
            == ConstraintKind::Architectural && severity == ConstraintSeverity::Error && exists|
            i: int,
        |
            0 <= i < spec.owns_state.len() && is_owned_by_another(
                c,
                spec,
                #[trigger] spec.owns_state[i],
            ),
{
    let f = conflict_findings(c, spec);
    lemma_reported_each(spec.owns_state, f, kind, severity);
    assert forall|i: int| 0 <= i < spec.owns_state.len() implies (reported(
        f(#[trigger] spec.owns_state[i]),
        kind,
        severity,
    ) <==> kind == ConstraintKind::Architectural && severity == ConstraintSeverity::Error
        && is_owned_by_another(c, spec, spec.owns_state[i])) by {
        let state = spec.owns_state[i];
        let g = conflict_finding(spec, state);
        lemma_reported_each(c.spec_map, g, kind, severity);
        assert forall|k: int| 0 <= k < c.spec_map.len() implies (reported(
            g(#[trigger] c.spec_map[k]),
            kind,
            severity,
        ) <==> kind == ConstraintKind::Architectural && severity == ConstraintSeverity::Error
            && c.spec_map[k].1.module != spec.module && c.spec_map[k].1.owns_state.contains(
            state,
        )) by {
            let found = g(c.spec_map[k]);
            if found.len() > 0 {
                lemma_one(found[0], kind, severity);
                assert(found =~= seq![found[0]]);
            } else {
                lemma_none(kind, severity);
            }
        }
    }
}

proof fn lemma_states(
    c: SpecCheckerModel,
    spec: ModuleSpecModel,
    m: ExtractedModuleModel,
    kind: ConstraintKind,
    severity: ConstraintSeverity,
)
    ensures
        reported(state_findings(c, spec, m), kind, severity) <==> {
            ||| kind == ConstraintKind::Structure && severity == ConstraintSeverity::Error
                && lacks_one_of(m.state_variables, spec.owns_state)
            ||| kind == ConstraintKind::Structure && severity == ConstraintSeverity::Warning
                && spec.owns_state.len() > 0 && lacks_one_of(spec.owns_state, m.state_variables)
            ||| kind == ConstraintKind::Dependency && severity == ConstraintSeverity::Warning && (
            is_orphaned(c, spec, spec.reads_state) || is_orphaned(c, spec, spec.modifies))
            ||| kind == ConstraintKind::Architectural && severity == ConstraintSeverity::Error
                && exists|i: int|
                0 <= i < spec.owns_state.len() && is_owned_by_another(
                    c,
                    spec,
                    #[trigger] spec.owns_state[i],
                )
        },
{
    let missing = collected(
        spec.owns_state,
        missing_findings(
            m.state_variables,
            ConstraintKind::Structure,
            ConstraintSeverity::Error,
            "State variable '"@,
            "' is listed in owns_state but not found in implementation"@,
        ),
    );
    let unlisted = if spec.owns_state.len() == 0 {
        Seq::empty()
    } else {
        collected(
            m.state_variables,
            missing_findings(
                spec.owns_state,
                ConstraintKind::Structure,
                ConstraintSeverity::Warning,
                "State variable '"@,
                "' exists in implementation but not listed in owns_state"@,
            ),
        )
    };
    let reads = collected(spec.reads_state, foreign_state_findings(c, spec, "reads_state '"@));
    let modifies = collected(spec.modifies, foreign_state_findings(c, spec, "modifies '"@));
    let conflicts = collected(spec.owns_state, conflict_findings(c, spec));
    lemma_missing_names(
        spec.owns_state,
        m.state_variables,
        ConstraintKind::Structure,
        ConstraintSeverity::Error,
        "State variable '"@,
        "' is listed in owns_state but not found in implementation"@,
        kind,
        severity,
    );
    lemma_missing_names(
        m.state_variables,
        spec.owns_state,
        ConstraintKind::Structure,
        ConstraintSeverity::Warning,
        "State variable '"@,
        "' exists in implementation but not listed in owns_state"@,
        kind,
        severity,
    );
    lemma_none(kind, severity);
    lemma_foreign_states(c, spec, spec.reads_state, "reads_state '"@, kind, severity);
    lemma_foreign_states(c, spec, spec.modifies, "modifies '"@, kind, severity);
    lemma_conflicts(c, spec, kind, severity);
    lemma_reported_either(missing, unlisted, kind, severity);
    lemma_reported_either(missing + unlisted, reads, kind, severity);
    lemma_reported_either(missing + unlisted + reads, modifies, kind, severity);
    lemma_reported_either(missing + unlisted + reads + modifies, conflicts, kind, severity);
}

proof fn lemma_protocol_errors(
    p: ProtocolSpecModel,
    m: ExtractedModuleModel,
    kind: ConstraintKind,
    severity: ConstraintSeverity,
)
    ensures
        ({
            let known = |state: Seq<char>| p.states.len() == 0 || p.states.contains(state);
            let exists_in = |name: Seq<char>|
                m.public_functions.contains(name) || m.private_functions.contains(name);
            let is_error = kind == ConstraintKind::Protocol && severity == ConstraintSeverity::Error;
            &&& reported(collected(p.terminal, terminal_findings(p)), kind, severity) <==> is_error
                && exists|k: int| 0 <= k < p.terminal.len() && !known(#[trigger] p.terminal[k])
            &&& reported(collected(p.transitions, transition_findings(p, m)), kind, severity)
                <==> is_error && exists|k: int|
                0 <= k < p.transitions.len() && (!known((#[trigger] p.transitions[k]).from)
                    || !known(p.transitions[k].to) || !exists_in(p.transitions[k].call))
            &&& reported(collected(p.balanced_pairs, pair_findings(m)), kind, severity) <==> is_error
                && exists|k: int|
                0 <= k < p.balanced_pairs.len() && (!exists_in((#[trigger] p.balanced_pairs[k]).0)
                    || !exists_in(p.balanced_pairs[k].1))
        }),
{
    let known = |state: Seq<char>| p.states.len() == 0 || p.states.contains(state);
    let exists_in = |name: Seq<char>|
        m.public_functions.contains(name) || m.private_functions.contains(name);
    let is_error = kind == ConstraintKind::Protocol && severity == ConstraintSeverity::Error;
    let f = terminal_findings(p);
    lemma_reported_each(p.terminal, f, kind, severity);
    assert forall|k: int| 0 <= k < p.terminal.len() implies (reported(
        f(#[trigger] p.terminal[k]),
        kind,
        severity,
    ) <==> is_error && !known(p.terminal[k])) by {
        lemma_protocol_finding(f(p.terminal[k]), kind, severity);
    }
    let g = transition_findings(p, m);
    lemma_reported_each(p.transitions, g, kind, severity);
    assert forall|k: int| 0 <= k < p.transitions.len() implies (reported(
        g(#[trigger] p.transitions[k]),
        kind,
        severity,
    ) <==> is_error && (!known(p.transitions[k].from) || !known(p.transitions[k].to) || !exists_in(
        p.transitions[k].call,
    ))) by {
        let t = p.transitions[k];
        let a = super::protocol::protocol_error(
            super::protocol::unknown_state(p, t.from),
            "Protocol transition references unknown state '"@,
            t.from,
            "'"@,
        );
        let b = super::protocol::protocol_error(
            super::protocol::unknown_state(p, t.to),
            "Protocol transition references unknown state '"@,
            t.to,
            "'"@,
        );
        let d = super::protocol::protocol_error(
            !super::protocol::has_function(m, t.call),
            "Protocol transition references function '"@,
            t.call,
            "' not found in implementation"@,
        );
        lemma_protocol_finding(a, kind, severity);
        lemma_protocol_finding(b, kind, severity);
        lemma_protocol_finding(d, kind, severity);
        lemma_reported_either(a, b, kind, severity);
        lemma_reported_either(a + b, d, kind, severity);
    }
    let h = pair_findings(m);
    lemma_reported_each(p.balanced_pairs, h, kind, severity);
    assert forall|k: int| 0 <= k < p.balanced_pairs.len() implies (reported(
        h(#[trigger] p.balanced_pairs[k]),
        kind,
        severity,
    ) <==> is_error && (!exists_in(p.balanced_pairs[k].0) || !exists_in(
        p.balanced_pairs[k].1,
    ))) by {
        let pair = p.balanced_pairs[k];
        let a = super::protocol::protocol_error(
            !super::protocol::has_function(m, pair.0),
            "Balanced pair references function '"@,
            pair.0,
            "' not found in implementation"@,
        );
        let b = super::protocol::protocol_error(
            !super::protocol::has_function(m, pair.1),
            "Balanced pair references function '"@,
            pair.1,
            "' not found in implementation"@,
        );
        lemma_protocol_finding(a, kind, severity);
        lemma_protocol_finding(b, kind, severity);
        lemma_reported_either(a, b, kind, severity);
    }
}

/// Of at most one finding, something is reported where it is that.
proof fn lemma_protocol_finding(
    found: Seq<ConstraintResultModel>,
    kind: ConstraintKind,
    severity: ConstraintSeverity,
)
    requires
        found.len() <= 1,
    ensures
        reported(found, kind, severity) <==> found.len() == 1 && found[0].kind == kind
            && found[0].severity == severity,
{
    if found.len() == 1 {
        assert(found =~= seq![found[0]]);
        lemma_one(found[0], kind, severity);
    }
}

proof fn lemma_protocol_warnings(
    p: ProtocolSpecModel,
    kind: ConstraintKind,
    severity: ConstraintSeverity,
)
    ensures
        reported(collected(p.states, unreachable_findings(p)), kind, severity) || reported(
            collected(p.states, dead_end_findings(p)),
            kind,
            severity,
        ) <==> kind == ConstraintKind::Protocol && severity == ConstraintSeverity::Warning
            && is_incomplete(p),
{
    let f = unreachable_findings(p);
    let g = dead_end_findings(p);
    let is_warning = kind == ConstraintKind::Protocol && severity == ConstraintSeverity::Warning;
    lemma_reported_each(p.states, f, kind, severity);
    lemma_reported_each(p.states, g, kind, severity);
    assert forall|k: int| 0 <= k < p.states.len() implies (reported(
        f(#[trigger] p.states[k]),
        kind,
        severity,
    ) <==> is_warning && p.states[k] != p.initial && forall|j: int|
        0 <= j < p.transitions.len() ==> (#[trigger] p.transitions[j]).to != p.states[k]) by {
        lemma_protocol_finding(f(p.states[k]), kind, severity);
    }
    assert forall|k: int| 0 <= k < p.states.len() implies (reported(
        g(#[trigger] p.states[k]),
        kind,
        severity,
    ) <==> is_warning && !p.terminal.contains(p.states[k]) && forall|j: int|
        0 <= j < p.transitions.len() ==> (#[trigger] p.transitions[j]).from != p.states[k]) by {
        lemma_protocol_finding(g(p.states[k]), kind, severity);
    }
}

proof fn lemma_protocol(
    spec: ModuleSpecModel,
    m: ExtractedModuleModel,
    kind: ConstraintKind,
    severity: ConstraintSeverity,
)
    ensures
        reported(protocol_findings(spec, m), kind, severity) <==> kind == ConstraintKind::Protocol
            && spec.protocol is Some && (if severity == ConstraintSeverity::Error {
            is_unsound(spec.protocol->Some_0, m)
        } else {
            is_incomplete(spec.protocol->Some_0)
        }),
{
    match spec.protocol {
        None => {
            lemma_none(kind, severity);
        },
        Some(p) => {
            let a = super::protocol::protocol_error(
                super::protocol::unknown_state(p, p.initial),
                "Protocol initial state '"@,
                p.initial,
                "' is not in states list"@,
            );
            let b = collected(p.terminal, terminal_findings(p));
            let d = collected(p.transitions, transition_findings(p, m));
            let e = collected(p.balanced_pairs, pair_findings(m));
            let f = collected(p.states, unreachable_findings(p));
            let g = collected(p.states, dead_end_findings(p));
            lemma_protocol_finding(a, kind, severity);
            lemma_protocol_errors(p, m, kind, severity);
            lemma_protocol_warnings(p, kind, severity);
            lemma_reported_either(a, b, kind, severity);
            lemma_reported_either(a + b, d, kind, severity);
            lemma_reported_either(a + b + d, e, kind, severity);
            lemma_reported_either(a + b + d + e, f, kind, severity);
            lemma_reported_either(a + b + d + e + f, g, kind, severity);
        },
    }
}

// ─── Laws ─────────────────────────────────────────────────────────────────────

/// Something is reported of a module exactly where it is wrong with it, under its kind and
/// with its weight.
pub proof fn what_is_wrong_is_reported(
    c: SpecCheckerModel,
    spec: ModuleSpecModel,
    m: ExtractedModuleModel,
    kind: ConstraintKind,
    severity: ConstraintSeverity,
)
    requires
        checkable(c, spec, m),
    ensures
        reported(module_findings(c, spec, m), kind, severity) <==> is_wrong(
            c,
            spec,
            m,
            kind,
            severity,
        ),
{
    let a = collected(spec.exposes, expose_findings(m));
    let b = dependency_findings(spec, m);
    let d = collected(m.imports, forbidden_findings(spec));
    let e = collected(spec.depends_on, architectural_findings(c, spec));
    let f = event_findings(spec, m);
    let g = collected(spec.exposes, entity_findings(m));
    let h = state_findings(c, spec, m);
    let i = protocol_findings(spec, m);
    lemma_exposes(spec, m, kind, severity);
    lemma_dependencies(spec, m, kind, severity);
    lemma_forbidden(spec, m, kind, severity);
    lemma_architecture(c, spec, kind, severity);
    lemma_events(spec, m, kind, severity);
    lemma_constraints(spec, m, kind, severity);
    lemma_states(c, spec, m, kind, severity);
    lemma_protocol(spec, m, kind, severity);
    lemma_reported_either(a, b, kind, severity);
    lemma_reported_either(a + b, d, kind, severity);
    lemma_reported_either(a + b + d, e, kind, severity);
    lemma_reported_either(a + b + d + e, f, kind, severity);
    lemma_reported_either(a + b + d + e + f, g, kind, severity);
    lemma_reported_either(a + b + d + e + f + g, h, kind, severity);
    lemma_reported_either(a + b + d + e + f + g + h, i, kind, severity);
    lemma_wrong_by_exposes(spec, m);
}

proof fn lemma_wrong_by_exposes(spec: ModuleSpecModel, m: ExtractedModuleModel)
    ensures
        (exists|i: int|
            0 <= i < spec.exposes.len() && (if ConstraintSeverity::Error
                == ConstraintSeverity::Error {
                is_missing(#[trigger] spec.exposes[i], m)
            } else {
                is_misspelled(spec.exposes[i], m)
            })) <==> exists|i: int|
            0 <= i < spec.exposes.len() && is_missing(#[trigger] spec.exposes[i], m),
        (exists|i: int|
            0 <= i < spec.exposes.len() && (if ConstraintSeverity::Warning
                == ConstraintSeverity::Error {
                is_missing(#[trigger] spec.exposes[i], m)
            } else {
                is_misspelled(spec.exposes[i], m)
            })) <==> exists|i: int|
            0 <= i < spec.exposes.len() && is_misspelled(#[trigger] spec.exposes[i], m),
{
}

/// A module passes its check exactly where nothing is wrong with it that weighs as an error,
/// and passes without a warning exactly where nothing else is wrong with it either.
pub proof fn modules_pass_where_nothing_is_wrong(
    c: SpecCheckerModel,
    spec: ModuleSpecModel,
    m: ExtractedModuleModel,
)
    requires
        checkable(c, spec, m),
    ensures
        result_of(module_findings(c, spec, m)).errors.len() == 0 <==> forall|kind: ConstraintKind|
            !#[trigger] is_wrong(c, spec, m, kind, ConstraintSeverity::Error),
        result_of(module_findings(c, spec, m)).warnings.len() == 0 <==> forall|kind: ConstraintKind|
            !#[trigger] is_wrong(c, spec, m, kind, ConstraintSeverity::Warning),
{
    let all = module_findings(c, spec, m);
    results_list_the_findings(all);
    assert forall|kind: ConstraintKind, severity: ConstraintSeverity| #[trigger] reported(
        all,
        kind,
        severity,
    ) <==> is_wrong(c, spec, m, kind, severity) by {
        what_is_wrong_is_reported(c, spec, m, kind, severity);
    }
    assert forall|kind: ConstraintKind, severity: ConstraintSeverity| #[trigger] is_wrong(
        c,
        spec,
        m,
        kind,
        severity,
    ) <==> reported(all, kind, severity) by {
        what_is_wrong_is_reported(c, spec, m, kind, severity);
    }
}

/// A module that exposes a type or a function with a formula that does not hold of it fails.
pub proof fn violated_formulas_fail(
    c: SpecCheckerModel,
    spec: ModuleSpecModel,
    m: ExtractedModuleModel,
    i: int,
    k: int,
    f: FormulaModel,
)
    requires
        checkable(c, spec, m),
        0 <= i < spec.exposes.len(),
        spec.exposes[i].1.kind != Some("variable"@),
        0 <= k < spec.exposes[i].1.type_constraints.len(),
        formula_reading(spec.exposes[i].1.type_constraints[k]) == Some(
            Ok::<FormulaModel, crate::type_formula::ast::ParseErrorModel>(f),
        ),
        spec.exposes[i].1.kind == Some("type"@) ==> lookup(
            m.type_definitions,
            spec.exposes[i].0,
        ) is Some && eval_formula(f, about_type(spec.exposes[i].0, m)) == Ok::<bool, Seq<char>>(
            false,
        ),
        spec.exposes[i].1.kind != Some("type"@) ==> lookup(
            m.function_info,
            spec.exposes[i].0,
        ) is Some && eval_formula(f, about_function(spec.exposes[i].0, m)) == Ok::<bool, Seq<char>>(
            false,
        ),
    ensures
        result_of(module_findings(c, spec, m)).errors.len() > 0,
{
    let entry = spec.exposes[i];
    let constraint = entry.1.type_constraints[k];
    modules_pass_where_nothing_is_wrong(c, spec, m);
    if entry.1.kind == Some("type"@) {
        assert(!holds(constraint, about_type(entry.0, m)));
    } else {
        assert(!holds(constraint, about_function(entry.0, m)));
    }
    assert(is_violated(entry, m));
    assert(is_wrong(c, spec, m, ConstraintKind::TypeConstraint, ConstraintSeverity::Error));
}

/// Nothing is found of the formulas of a type or a function exactly where all of them hold.
pub proof fn formulas_that_hold_give_no_findings(
    entry: (Seq<char>, ExposeSpecModel),
    m: ExtractedModuleModel,
)
    requires
        formulas_readable(entry.1.type_constraints),
        entry.1.kind != Some("variable"@),
        entry.1.kind == Some("type"@) ==> lookup(m.type_definitions, entry.0) is Some,
        entry.1.kind != Some("type"@) ==> lookup(m.function_info, entry.0) is Some,
    ensures
        entity_findings(m)(entry).len() == 0 <==> forall|k: int|
            0 <= k < entry.1.type_constraints.len() ==> holds(
                #[trigger] entry.1.type_constraints[k],
                if entry.1.kind == Some("type"@) {
                    about_type(entry.0, m)
                } else {
                    about_function(entry.0, m)
                },
            ),
{
    let constraints = entry.1.type_constraints;
    match entity_context(entry, m) {
        Some(ctx) => {
            let f = constraint_findings(entry.0, ctx);
            super::lemma_collected_empty(constraints, f);
            if entry.1.kind == Some("type"@) {
                assert(ctx == about_type(entry.0, m));
            } else {
                assert(ctx == about_function(entry.0, m));
            }
            assert forall|k: int| 0 <= k < constraints.len() implies (f(
                #[trigger] constraints[k],
            ).len() == 0 <==> holds(constraints[k], ctx)) by {
                match formula_reading(constraints[k]) {
                    Some(Ok(g)) => {
                        if eval_formula(g, ctx) == Ok::<bool, Seq<char>>(true) {
                            assert(holds(constraints[k], ctx));
                        }
                    },
                    _ => {},
                }
            }
        },
        None => {},
    }
}

/// Signatures are compared without blanks: blanks may be put anywhere, and nothing else is
/// overlooked.
pub proof fn blanks_in_signatures_do_not_count(a: Seq<char>, blank: char, b: Seq<char>)
    requires
        text::is_whitespace(blank),
    ensures
        without_spaces(a.push(blank) + b) == without_spaces(a + b),
        (forall|i: int| 0 <= i < a.len() ==> !text::is_whitespace(#[trigger] a[i]))
            ==> without_spaces(a) == a,
    decreases a.len() + b.len(),
{
    if b.len() == 0 {
        assert(a.push(blank) + b =~= a.push(blank));
        assert(a + b =~= a);
        assert(a.push(blank).drop_last() =~= a);
    } else {
        blanks_in_signatures_do_not_count(a, blank, b.drop_last());
        assert((a.push(blank) + b).drop_last() =~= a.push(blank) + b.drop_last());
        assert((a + b).drop_last() =~= a + b.drop_last());
    }
    if forall|i: int| 0 <= i < a.len() ==> !text::is_whitespace(#[trigger] a[i]) {
        lemma_no_blanks(a);
    }
}

proof fn lemma_no_blanks(a: Seq<char>)
    requires
        forall|i: int| 0 <= i < a.len() ==> !text::is_whitespace(#[trigger] a[i]),
    ensures
        without_spaces(a) == a,
    decreases a.len(),
{
    if a.len() > 0 {
        assert(!text::is_whitespace(a[a.len() - 1]));
        let front = a.drop_last();
        assert forall|i: int| 0 <= i < front.len() implies !text::is_whitespace(
            #[trigger] front[i],
        ) by {
            assert(front[i] == a[i]);
        }
        lemma_no_blanks(front);
        assert(front.push(a.last()) =~= a);
    } else {
        assert(without_spaces(a) =~= a);
    }
}

} // verus!
